//! The rows as the program holds them.

use crate::relations::{AliasKey, AliasRow, FavoriteRow};
use crate::state::State;
use vstd::prelude::*;

verus! {

/// The identifier of a favorite.
pub type FavoriteId = i64;

/// The identifier of an alias.
pub type AliasId = i64;

/// A bookmarked path.
#[derive(Debug)]
pub struct Favorite {
    pub id: FavoriteId,
    pub path: String,
    pub created_at: chrono::NaiveDateTime,
}

impl View for Favorite {
    type V = FavoriteRow;

    open spec fn view(&self) -> FavoriteRow {
        FavoriteRow { id: self.id as int, path: self.path@, created_at: self.created_at }
    }
}

impl Favorite {
    /// The paths of all favorites, in the order of insertion. The verbose
    /// listing does not exist yet.
    pub fn list_path(verbose: bool, state: &State) -> (paths: Vec<String>)
        requires
            !verbose,
        ensures
            texts(paths@) == state@.paths(),
    {
        let favorites: &Vec<Favorite> = state.favorites();
        let mut paths: Vec<String> = Vec::new();
        let mut i: usize = 0;
        while i < favorites.len()
            invariant
                i <= favorites@.len(),
                favorite_rows(favorites@) == state@.favorites,
                paths@.len() == i,
                texts(paths@) == state@.paths().take(i as int),
            decreases favorites@.len() - i,
        {
            let ghost before = paths@;
            paths.push(favorites[i].path.clone());
            i += 1;
            assert forall|k: int| 0 <= k < i implies texts(paths@)[k] == state@.paths()[k] by {
                if k < i - 1 {
                    assert(texts(before)[k] == state@.paths().take(i - 1)[k]);
                }
            }
        }
        paths
    }
}

impl Clone for Favorite {
    fn clone(&self) -> (copy: Self)
        ensures
            copy == *self,
    {
        Favorite { id: self.id, path: self.path.clone(), created_at: self.created_at }
    }
}

/// A name bound to a favorite.
#[derive(Debug)]
pub struct Alias {
    pub id: AliasId,
    pub favorite_id: FavoriteId,
    pub name: String,
    pub created_at: chrono::NaiveDateTime,
}

impl View for Alias {
    type V = AliasRow;

    open spec fn view(&self) -> AliasRow {
        AliasRow {
            id: self.id as int,
            favorite_id: self.favorite_id as int,
            name: self.name@,
            created_at: self.created_at,
        }
    }
}

impl Alias {
    /// The names of all aliases, in the order of insertion. The verbose
    /// listing does not exist yet.
    pub fn list_name(verbose: bool, state: &State) -> (names: Vec<String>)
        requires
            !verbose,
        ensures
            texts(names@) == state@.names(),
    {
        let aliases: &Vec<Alias> = state.aliases();
        let mut names: Vec<String> = Vec::new();
        let mut i: usize = 0;
        while i < aliases.len()
            invariant
                i <= aliases@.len(),
                alias_rows(aliases@) == state@.aliases,
                names@.len() == i,
                texts(names@) == state@.names().take(i as int),
            decreases aliases@.len() - i,
        {
            let ghost before = names@;
            names.push(aliases[i].name.clone());
            i += 1;
            assert forall|k: int| 0 <= k < i implies texts(names@)[k] == state@.names()[k] by {
                if k < i - 1 {
                    assert(texts(before)[k] == state@.names().take(i - 1)[k]);
                }
            }
        }
        names
    }

    /// The alias with the identifier `id`, if there is one.
    pub fn from_id(id: AliasId, state: &State) -> (found: Option<Alias>)
        requires
            state.wf(),
        ensures
            row_of(found) == state@.alias_by_id(id as int),
    {
        match state.alias_by_id(id) {
            Some(alias) => Some(alias.clone()),
            None => None,
        }
    }

    /// The alias with the name `name`, if there is one.
    pub fn from_name(name: &str, state: &State) -> (found: Option<Alias>)
        requires
            state.wf(),
        ensures
            row_of(found) == state@.alias_by_name(name@),
    {
        match state.alias_by_name(name) {
            Some(alias) => Some(alias.clone()),
            None => None,
        }
    }

    /// The path that the alias `arg` stands for: the path of the favorite
    /// that the alias belongs to. By identifier and by name the alias is
    /// looked up first, then its favorite; with a row in hand only the
    /// favorite is looked up. There is no path where no such alias exists,
    /// nor where the row in hand names a favorite that is gone.
    pub fn get_favorite_path(arg: AliasArg<'_>, state: &State) -> (found: Option<String>)
        requires
            state.wf(),
        ensures
            text_of(found) == state@.resolve(arg@),
    {
        let favorite_id: FavoriteId = match arg {
            AliasArg::Id(id) => match state.alias_by_id(*id) {
                Some(alias) => alias.favorite_id,
                None => {
                    return None;
                },
            },
            AliasArg::Name(name) => match state.alias_by_name(name) {
                Some(alias) => alias.favorite_id,
                None => {
                    return None;
                },
            },
            AliasArg::Alias(alias) => alias.favorite_id,
        };
        match state.favorite_by_id(favorite_id) {
            Some(favorite) => Some(favorite.path.clone()),
            None => None,
        }
    }
}

impl Clone for Alias {
    fn clone(&self) -> (copy: Self)
        ensures
            copy == *self,
    {
        Alias {
            id: self.id,
            favorite_id: self.favorite_id,
            name: self.name.clone(),
            created_at: self.created_at,
        }
    }
}

/// A way to refer to an alias.
#[derive(Debug)]
pub enum AliasArg<'a> {
    /// By its identifier.
    Id(&'a AliasId),
    /// By its name.
    Name(&'a str),
    /// By a row that the caller holds already.
    Alias(&'a Alias),
}

impl<'a> View for AliasArg<'a> {
    type V = AliasKey;

    open spec fn view(&self) -> AliasKey {
        match self {
            AliasArg::Id(id) => AliasKey::Id(**id as int),
            AliasArg::Name(name) => AliasKey::Name(name@),
            AliasArg::Alias(alias) => AliasKey::Alias(alias@),
        }
    }
}

/// The text that `found` holds, if it holds one.
pub open spec fn text_of(found: Option<String>) -> Option<Seq<char>> {
    match found {
        Some(text) => Some(text@),
        None => None,
    }
}

/// The row that `found` stands for, if it holds one.
pub open spec fn row_of(found: Option<Alias>) -> Option<AliasRow> {
    match found {
        Some(alias) => Some(alias@),
        None => None,
    }
}

/// The rows that `favorites` stand for.
pub open spec fn favorite_rows(favorites: Seq<Favorite>) -> Seq<FavoriteRow> {
    Seq::new(favorites.len(), |i: int| favorites[i]@)
}

/// The rows that `aliases` stand for.
pub open spec fn alias_rows(aliases: Seq<Alias>) -> Seq<AliasRow> {
    Seq::new(aliases.len(), |i: int| aliases[i]@)
}

/// The texts that `strings` hold.
pub open spec fn texts(strings: Seq<String>) -> Seq<Seq<char>> {
    Seq::new(strings.len(), |i: int| strings[i]@)
}

} // verus!
