//! The store: both relations, and the operations that read and change them.
//!
//! Every operation takes a store that keeps the rules of the relations and
//! leaves one that keeps them. An operation that is refused leaves the store
//! as it was.

use crate::db::{alias_rows, favorite_rows, texts, Alias, AliasId, Favorite, FavoriteId};
use crate::error::{FavError, Refusal};
use crate::path::{is_canonical, is_canonical_path, is_valid_path, normalize_path, normalized};
use crate::relations::{
    alias_ids, alias_of, alias_of_other, favorite_ids, holds_favorite, largest_id,
    lemma_filter_next, lemma_loaded_keeps_rules, names_in, other_favorite, other_name,
    rows_consistent, AliasRow, FavoriteRow, Relations,
};
use vstd::prelude::*;

verus! {

/// The favorites and their aliases.
#[derive(Debug)]
pub struct State {
    favorites: Vec<Favorite>,
    aliases: Vec<Alias>,
    last_favorite_id: FavoriteId,
    last_alias_id: AliasId,
}

impl View for State {
    type V = Relations;

    closed spec fn view(&self) -> Relations {
        Relations {
            favorites: favorite_rows(self.favorites@),
            aliases: alias_rows(self.aliases@),
            last_favorite_id: self.last_favorite_id as int,
            last_alias_id: self.last_alias_id as int,
        }
    }
}

/// The row that `found` stands for, if it holds one.
pub open spec fn favorite_row_of(found: Option<&Favorite>) -> Option<FavoriteRow> {
    match found {
        Some(favorite) => Some(favorite@),
        None => None,
    }
}

/// The row that `found` stands for, if it holds one.
pub open spec fn alias_row_of(found: Option<&Alias>) -> Option<AliasRow> {
    match found {
        Some(alias) => Some(alias@),
        None => None,
    }
}

/// The favorites other than the one with the identifier `id`.
fn favorites_except(favorites: &Vec<Favorite>, id: FavoriteId) -> (kept: Vec<Favorite>)
    ensures
        favorite_rows(kept@) == favorite_rows(favorites@).filter(other_favorite(id as int)),
{
    let ghost rows = favorite_rows(favorites@);
    let ghost keep = other_favorite(id as int);
    let mut kept: Vec<Favorite> = Vec::new();
    let mut i: usize = 0;
    assert(favorite_rows(kept@) =~= rows.take(0).filter(keep)) by {
        reveal(Seq::filter);
    }
    while i < favorites.len()
        invariant
            i <= favorites@.len(),
            rows == favorite_rows(favorites@),
            keep == other_favorite(id as int),
            favorite_rows(kept@) == rows.take(i as int).filter(keep),
        decreases favorites@.len() - i,
    {
        proof {
            lemma_filter_next(rows, keep, i as int);
        }
        if favorites[i].id != id {
            kept.push(favorites[i].clone());
        }
        i += 1;
    }
    assert(rows.take(i as int) =~= rows);
    kept
}

/// The aliases of the favorites other than the one with the identifier
/// `favorite_id`.
fn aliases_except_favorite(aliases: &Vec<Alias>, favorite_id: FavoriteId) -> (kept: Vec<Alias>)
    ensures
        alias_rows(kept@) == alias_rows(aliases@).filter(alias_of_other(favorite_id as int)),
{
    let ghost rows = alias_rows(aliases@);
    let ghost keep = alias_of_other(favorite_id as int);
    let mut kept: Vec<Alias> = Vec::new();
    let mut i: usize = 0;
    assert(alias_rows(kept@) =~= rows.take(0).filter(keep)) by {
        reveal(Seq::filter);
    }
    while i < aliases.len()
        invariant
            i <= aliases@.len(),
            rows == alias_rows(aliases@),
            keep == alias_of_other(favorite_id as int),
            alias_rows(kept@) == rows.take(i as int).filter(keep),
        decreases aliases@.len() - i,
    {
        proof {
            lemma_filter_next(rows, keep, i as int);
        }
        if aliases[i].favorite_id != favorite_id {
            kept.push(aliases[i].clone());
        }
        i += 1;
    }
    assert(rows.take(i as int) =~= rows);
    kept
}

/// The aliases with a name other than `name`.
fn aliases_except_name(aliases: &Vec<Alias>, name: &String) -> (kept: Vec<Alias>)
    ensures
        alias_rows(kept@) == alias_rows(aliases@).filter(other_name(name@)),
{
    let ghost rows = alias_rows(aliases@);
    let ghost keep = other_name(name@);
    let mut kept: Vec<Alias> = Vec::new();
    let mut i: usize = 0;
    assert(alias_rows(kept@) =~= rows.take(0).filter(keep)) by {
        reveal(Seq::filter);
    }
    while i < aliases.len()
        invariant
            i <= aliases@.len(),
            rows == alias_rows(aliases@),
            keep == other_name(name@),
            alias_rows(kept@) == rows.take(i as int).filter(keep),
        decreases aliases@.len() - i,
    {
        proof {
            lemma_filter_next(rows, keep, i as int);
        }
        if aliases[i].name != *name {
            kept.push(aliases[i].clone());
        }
        i += 1;
    }
    assert(rows.take(i as int) =~= rows);
    kept
}

/// The names of the aliases of the favorite with the identifier
/// `favorite_id`.
fn names_of_favorite(aliases: &Vec<Alias>, favorite_id: FavoriteId) -> (names: Vec<String>)
    ensures
        texts(names@) == names_in(alias_rows(aliases@).filter(alias_of(favorite_id as int))),
{
    let ghost rows = alias_rows(aliases@);
    let ghost keep = alias_of(favorite_id as int);
    let mut names: Vec<String> = Vec::new();
    let mut i: usize = 0;
    assert(texts(names@) =~= names_in(rows.take(0).filter(keep))) by {
        reveal(Seq::filter);
    }
    while i < aliases.len()
        invariant
            i <= aliases@.len(),
            rows == alias_rows(aliases@),
            keep == alias_of(favorite_id as int),
            texts(names@) == names_in(rows.take(i as int).filter(keep)),
        decreases aliases@.len() - i,
    {
        proof {
            lemma_filter_next(rows, keep, i as int);
        }
        if aliases[i].favorite_id == favorite_id {
            let ghost held = texts(names@);
            names.push(aliases[i].name.clone());
            assert(names_in(rows.take(i as int).filter(keep).push(rows[i as int])) =~= held.push(
                rows[i as int].name,
            ));
        }
        i += 1;
    }
    assert(rows.take(i as int) =~= rows);
    names
}

/// Whether the path of every one of `favorites` is canonical.
fn favorites_canonical(favorites: &Vec<Favorite>) -> (canonical: bool)
    ensures
        canonical == (forall|i: int|
            0 <= i < favorites@.len() ==> is_canonical(
                (#[trigger] favorite_rows(favorites@)[i]).path,
            )),
{
    let ghost rows = favorite_rows(favorites@);
    let mut i: usize = 0;
    while i < favorites.len()
        invariant
            i <= favorites@.len(),
            rows == favorite_rows(favorites@),
            forall|a: int| 0 <= a < i ==> is_canonical((#[trigger] rows[a]).path),
        decreases favorites@.len() - i,
    {
        if !is_canonical_path(favorites[i].path.as_str()) {
            assert(!is_canonical(rows[i as int].path));
            return false;
        }
        i += 1;
    }
    true
}

/// Whether no two of `favorites` share an identifier or a path.
fn favorites_unique(favorites: &Vec<Favorite>) -> (unique: bool)
    ensures
        unique == (forall|i: int, j: int|
            0 <= i < j < favorites@.len() ==> (#[trigger] favorite_rows(favorites@)[i]).id != (
            #[trigger] favorite_rows(favorites@)[j]).id && favorite_rows(favorites@)[i].path
                != favorite_rows(favorites@)[j].path),
{
    let ghost rows = favorite_rows(favorites@);
    let mut j: usize = 0;
    while j < favorites.len()
        invariant
            j <= favorites@.len(),
            rows == favorite_rows(favorites@),
            forall|a: int, b: int|
                0 <= a < b < j ==> (#[trigger] rows[a]).id != (#[trigger] rows[b]).id
                    && rows[a].path != rows[b].path,
        decreases favorites@.len() - j,
    {
        let mut i: usize = 0;
        while i < j
            invariant
                i <= j < favorites@.len(),
                rows == favorite_rows(favorites@),
                forall|a: int|
                    0 <= a < i ==> (#[trigger] rows[a]).id != rows[j as int].id && rows[a].path
                        != rows[j as int].path,
            decreases j - i,
        {
            if favorites[i].id == favorites[j].id || favorites[i].path == favorites[j].path {
                assert(rows[i as int].id == rows[j as int].id || rows[i as int].path
                    == rows[j as int].path);
                return false;
            }
            i += 1;
        }
        j += 1;
    }
    true
}

/// Whether no two of `aliases` share an identifier or a name.
fn aliases_unique(aliases: &Vec<Alias>) -> (unique: bool)
    ensures
        unique == (forall|i: int, j: int|
            0 <= i < j < aliases@.len() ==> (#[trigger] alias_rows(aliases@)[i]).id != (
            #[trigger] alias_rows(aliases@)[j]).id && alias_rows(aliases@)[i].name != alias_rows(
                aliases@,
            )[j].name),
{
    let ghost rows = alias_rows(aliases@);
    let mut j: usize = 0;
    while j < aliases.len()
        invariant
            j <= aliases@.len(),
            rows == alias_rows(aliases@),
            forall|a: int, b: int|
                0 <= a < b < j ==> (#[trigger] rows[a]).id != (#[trigger] rows[b]).id
                    && rows[a].name != rows[b].name,
        decreases aliases@.len() - j,
    {
        let mut i: usize = 0;
        while i < j
            invariant
                i <= j < aliases@.len(),
                rows == alias_rows(aliases@),
                forall|a: int|
                    0 <= a < i ==> (#[trigger] rows[a]).id != rows[j as int].id && rows[a].name
                        != rows[j as int].name,
            decreases j - i,
        {
            if aliases[i].id == aliases[j].id || aliases[i].name == aliases[j].name {
                assert(rows[i as int].id == rows[j as int].id || rows[i as int].name
                    == rows[j as int].name);
                return false;
            }
            i += 1;
        }
        j += 1;
    }
    true
}

/// Whether some row of `favorites` has the identifier `id`.
fn holds_id(favorites: &Vec<Favorite>, id: FavoriteId) -> (held: bool)
    ensures
        held == holds_favorite(favorite_rows(favorites@), id as int),
{
    let ghost rows = favorite_rows(favorites@);
    let mut k: usize = 0;
    while k < favorites.len()
        invariant
            k <= favorites@.len(),
            rows == favorite_rows(favorites@),
            forall|a: int| 0 <= a < k ==> (#[trigger] rows[a]).id != id,
        decreases favorites@.len() - k,
    {
        if favorites[k].id == id {
            assert(rows[k as int].id == id);
            return true;
        }
        k += 1;
    }
    false
}

/// Whether every one of `aliases` belongs to one of `favorites`.
fn aliases_bound(favorites: &Vec<Favorite>, aliases: &Vec<Alias>) -> (bound: bool)
    ensures
        bound == (forall|i: int|
            0 <= i < aliases@.len() ==> holds_favorite(
                favorite_rows(favorites@),
                (#[trigger] alias_rows(aliases@)[i]).favorite_id,
            )),
{
    let ghost rows = alias_rows(aliases@);
    let mut i: usize = 0;
    while i < aliases.len()
        invariant
            i <= aliases@.len(),
            rows == alias_rows(aliases@),
            forall|a: int|
                0 <= a < i ==> holds_favorite(
                    favorite_rows(favorites@),
                    (#[trigger] rows[a]).favorite_id,
                ),
        decreases aliases@.len() - i,
    {
        if !holds_id(favorites, aliases[i].favorite_id) {
            assert(!holds_favorite(favorite_rows(favorites@), rows[i as int].favorite_id));
            return false;
        }
        i += 1;
    }
    true
}

/// The largest identifier among `favorites`, and 0 where none is positive.
fn last_favorite_id(favorites: &Vec<Favorite>) -> (last: FavoriteId)
    ensures
        last == largest_id(favorite_ids(favorite_rows(favorites@))),
{
    let ghost ids = favorite_ids(favorite_rows(favorites@));
    let mut last: FavoriteId = 0;
    let mut i: usize = 0;
    while i < favorites.len()
        invariant
            i <= favorites@.len(),
            ids == favorite_ids(favorite_rows(favorites@)),
            last == largest_id(ids.take(i as int)),
        decreases favorites@.len() - i,
    {
        assert(ids.take(i as int + 1).drop_last() =~= ids.take(i as int));
        if favorites[i].id > last {
            last = favorites[i].id;
        }
        i += 1;
    }
    assert(ids.take(i as int) =~= ids);
    last
}

/// The largest identifier among `aliases`, and 0 where none is positive.
fn last_alias_id(aliases: &Vec<Alias>) -> (last: AliasId)
    ensures
        last == largest_id(alias_ids(alias_rows(aliases@))),
{
    let ghost ids = alias_ids(alias_rows(aliases@));
    let mut last: AliasId = 0;
    let mut i: usize = 0;
    while i < aliases.len()
        invariant
            i <= aliases@.len(),
            ids == alias_ids(alias_rows(aliases@)),
            last == largest_id(ids.take(i as int)),
        decreases aliases@.len() - i,
    {
        assert(ids.take(i as int + 1).drop_last() =~= ids.take(i as int));
        if aliases[i].id > last {
            last = aliases[i].id;
        }
        i += 1;
    }
    assert(ids.take(i as int) =~= ids);
    last
}

impl State {
    /// The store keeps the rules of the relations.
    pub open spec fn wf(&self) -> bool {
        self@.wf()
    }

    /// A store that was just made: without favorites and aliases.
    pub fn init() -> (state: State)
        ensures
            state.wf(),
            state@ == Relations::empty(),
    {
        let state = State {
            favorites: Vec::new(),
            aliases: Vec::new(),
            last_favorite_id: 0,
            last_alias_id: 0,
        };
        assert(state@.favorites =~= Seq::<FavoriteRow>::empty());
        assert(state@.aliases =~= Seq::<AliasRow>::empty());
        state
    }

    /// A store that holds the rows `favorites` and `aliases`, which were
    /// kept elsewhere, in their order. Rows that break the rules of the
    /// relations are refused: a path that is not canonical, two rows with
    /// one identifier, path or name, or an alias whose favorite is missing.
    pub fn init_with(favorites: Vec<Favorite>, aliases: Vec<Alias>) -> (r: Result<State, FavError>)
        ensures
            match r {
                Ok(state) => {
                    &&& rows_consistent(favorite_rows(favorites@), alias_rows(aliases@))
                    &&& state.wf()
                    &&& state@ == Relations::loaded(
                        favorite_rows(favorites@),
                        alias_rows(aliases@),
                    )
                },
                Err(e) => {
                    &&& !rows_consistent(favorite_rows(favorites@), alias_rows(aliases@))
                    &&& e@ == Refusal::ConsistencyViolation
                },
            },
    {
        if !favorites_canonical(&favorites) || !favorites_unique(&favorites) || !aliases_unique(
            &aliases,
        ) || !aliases_bound(&favorites, &aliases) {
            return Err(FavError::ConsistencyViolation);
        }
        proof {
            lemma_loaded_keeps_rules(favorite_rows(favorites@), alias_rows(aliases@));
        }
        let last_favorite_id: FavoriteId = last_favorite_id(&favorites);
        let last_alias_id: AliasId = last_alias_id(&aliases);
        Ok(State { favorites, aliases, last_favorite_id, last_alias_id })
    }

    /// The position of the favorite with the identifier `id`.
    fn favorite_at_id(&self, id: FavoriteId) -> (found: Option<usize>)
        ensures
            match found {
                Some(i) => i < self@.favorites.len() && self@.favorites[i as int].id == id,
                None => !self@.has_favorite(id as int),
            },
    {
        let mut i: usize = 0;
        while i < self.favorites.len()
            invariant
                i <= self.favorites@.len(),
                forall|k: int| 0 <= k < i ==> (#[trigger] self@.favorites[k]).id != id,
            decreases self.favorites@.len() - i,
        {
            if self.favorites[i].id == id {
                return Some(i);
            }
            i += 1;
        }
        None
    }

    /// The position of the favorite with the path `path`.
    fn favorite_at_path(&self, path: &String) -> (found: Option<usize>)
        ensures
            match found {
                Some(i) => i < self@.favorites.len() && self@.favorites[i as int].path == path@,
                None => !self@.has_path(path@),
            },
    {
        let mut i: usize = 0;
        while i < self.favorites.len()
            invariant
                i <= self.favorites@.len(),
                forall|k: int| 0 <= k < i ==> (#[trigger] self@.favorites[k]).path != path@,
            decreases self.favorites@.len() - i,
        {
            if self.favorites[i].path == *path {
                return Some(i);
            }
            i += 1;
        }
        None
    }

    /// The position of the alias with the identifier `id`.
    fn alias_at_id(&self, id: AliasId) -> (found: Option<usize>)
        ensures
            match found {
                Some(i) => i < self@.aliases.len() && self@.aliases[i as int].id == id,
                None => !self@.has_alias(id as int),
            },
    {
        let mut i: usize = 0;
        while i < self.aliases.len()
            invariant
                i <= self.aliases@.len(),
                forall|k: int| 0 <= k < i ==> (#[trigger] self@.aliases[k]).id != id,
            decreases self.aliases@.len() - i,
        {
            if self.aliases[i].id == id {
                return Some(i);
            }
            i += 1;
        }
        None
    }

    /// The position of the alias with the name `name`.
    fn alias_at_name(&self, name: &String) -> (found: Option<usize>)
        ensures
            match found {
                Some(i) => i < self@.aliases.len() && self@.aliases[i as int].name == name@,
                None => !self@.has_name(name@),
            },
    {
        let mut i: usize = 0;
        while i < self.aliases.len()
            invariant
                i <= self.aliases@.len(),
                forall|k: int| 0 <= k < i ==> (#[trigger] self@.aliases[k]).name != name@,
            decreases self.aliases@.len() - i,
        {
            if self.aliases[i].name == *name {
                return Some(i);
            }
            i += 1;
        }
        None
    }

    /// The favorites, in the order of insertion.
    pub fn favorites(&self) -> (rows: &Vec<Favorite>)
        ensures
            favorite_rows(rows@) == self@.favorites,
    {
        &self.favorites
    }

    /// The aliases, in the order of insertion.
    pub fn aliases(&self) -> (rows: &Vec<Alias>)
        ensures
            alias_rows(rows@) == self@.aliases,
    {
        &self.aliases
    }

    /// The favorite with the identifier `id`, if there is one.
    pub fn favorite_by_id(&self, id: FavoriteId) -> (found: Option<&Favorite>)
        requires
            self.wf(),
        ensures
            favorite_row_of(found) == self@.favorite_by_id(id as int),
    {
        match self.favorite_at_id(id) {
            Some(i) => {
                proof {
                    self@.lemma_favorite_at(i as int);
                }
                Some(&self.favorites[i])
            },
            None => None,
        }
    }

    /// The favorite with the path `path`, if there is one.
    pub fn favorite_by_path(&self, path: &str) -> (found: Option<&Favorite>)
        requires
            self.wf(),
        ensures
            favorite_row_of(found) == self@.favorite_by_path(path@),
    {
        let key: String = path.to_owned();
        match self.favorite_at_path(&key) {
            Some(i) => {
                proof {
                    self@.lemma_favorite_at(i as int);
                }
                Some(&self.favorites[i])
            },
            None => None,
        }
    }

    /// The alias with the identifier `id`, if there is one.
    pub fn alias_by_id(&self, id: AliasId) -> (found: Option<&Alias>)
        requires
            self.wf(),
        ensures
            alias_row_of(found) == self@.alias_by_id(id as int),
    {
        match self.alias_at_id(id) {
            Some(i) => {
                proof {
                    self@.lemma_alias_at(i as int);
                }
                Some(&self.aliases[i])
            },
            None => None,
        }
    }

    /// The alias with the name `name`, if there is one.
    pub fn alias_by_name(&self, name: &str) -> (found: Option<&Alias>)
        requires
            self.wf(),
        ensures
            alias_row_of(found) == self@.alias_by_name(name@),
    {
        let key: String = name.to_owned();
        match self.alias_at_name(&key) {
            Some(i) => {
                proof {
                    self@.lemma_alias_at(i as int);
                }
                Some(&self.aliases[i])
            },
            None => None,
        }
    }

    /// Makes `path` a favorite and returns its identifier, the one after the
    /// last that was given out. A path that is not in its canonical form is
    /// refused, and so is one that is a favorite already.
    pub fn add(&mut self, path: String, created_at: chrono::NaiveDateTime) -> (r: Result<
        FavoriteId,
        FavError,
    >)
        requires
            old(self).wf(),
        ensures
            final(self).wf(),
            match old(self)@.add_refusal(path@) {
                Some(refusal) => r matches Err(e) && e@ == refusal && final(self)@ == old(self)@,
                None => r == Ok::<FavoriteId, FavError>((old(self)@.last_favorite_id + 1) as i64)
                    && final(self)@ == old(self)@.add(path@, created_at),
            },
    {
        if !is_canonical_path(path.as_str()) {
            return Err(FavError::InvalidPath);
        }
        if self.favorite_at_path(&path).is_some() {
            return Err(FavError::DuplicatePath);
        }
        if self.last_favorite_id == i64::MAX {
            return Err(FavError::IdsExhausted);
        }
        let id: FavoriteId = self.last_favorite_id + 1;
        proof {
            old(self)@.lemma_add_keeps_rules(path@, created_at);
        }
        self.favorites.push(Favorite { id, path, created_at });
        self.last_favorite_id = id;
        assert(self@.favorites =~= old(self)@.add(path@, created_at).favorites);
        Ok(id)
    }

    /// Whether the name at position `i` of `names` cannot become an alias.
    fn name_taken(&self, names: &Vec<String>, i: usize) -> (taken: bool)
        requires
            i < names@.len(),
        ensures
            taken == self@.name_taken(texts(names@), i as int),
    {
        if self.alias_at_name(&names[i]).is_some() {
            return true;
        }
        let mut j: usize = 0;
        while j < i
            invariant
                j <= i < names@.len(),
                !self@.has_name(names@[i as int]@),
                forall|k: int| 0 <= k < j ==> texts(names@)[k] != texts(names@)[i as int],
            decreases i - j,
        {
            if names[j] == names[i] {
                assert(texts(names@)[j as int] == texts(names@)[i as int]);
                return true;
            }
            j += 1;
        }
        false
    }

    /// Binds each of `names` to the favorite `favorite_id`, all of them or
    /// none: where the favorite is missing or one name is taken, nothing is
    /// attached.
    pub fn attach(
        &mut self,
        favorite_id: FavoriteId,
        names: &Vec<String>,
        created_at: chrono::NaiveDateTime,
    ) -> (r: Result<(), FavError>)
        requires
            old(self).wf(),
        ensures
            final(self).wf(),
            match old(self)@.attach_refusal(favorite_id as int, texts(names@)) {
                Some(refusal) => r matches Err(e) && e@ == refusal && final(self)@ == old(self)@,
                None => r is Ok && final(self)@ == old(self)@.attach(
                    favorite_id as int,
                    texts(names@),
                    created_at,
                ),
            },
    {
        let ghost before = self@;
        let ghost wanted = texts(names@);
        if self.favorite_at_id(favorite_id).is_none() {
            return Err(FavError::FavoriteNotFound);
        }
        let count: usize = names.len();
        let mut i: usize = 0;
        while i < count
            invariant
                i <= count == names@.len(),
                wanted == texts(names@),
                before == self@,
                before == old(self)@,
                before.wf(),
                before.has_favorite(favorite_id as int),
                forall|k: int| 0 <= k < i ==> !before.name_taken(wanted, k),
                before.first_taken_from(wanted, 0) == before.first_taken_from(wanted, i as int),
            decreases count - i,
        {
            if self.name_taken(names, i) {
                return Err(FavError::DuplicateAlias(names[i].clone()));
            }
            i += 1;
        }
        let room: i64 = i64::MAX - self.last_alias_id;
        if count as u128 > room as u128 {
            return Err(FavError::IdsExhausted);
        }
        proof {
            before.lemma_attach_keeps_rules(favorite_id as int, wanted, created_at);
        }
        let ghost added = before.new_aliases(favorite_id as int, wanted, created_at);
        let first: i64 = self.last_alias_id;
        let mut k: usize = 0;
        while k < count
            invariant
                k <= count == names@.len(),
                count <= i64::MAX - first,
                0 <= first == before.last_alias_id,
                wanted == texts(names@),
                added == before.new_aliases(favorite_id as int, wanted, created_at),
                self.favorites == old(self).favorites,
                self.last_favorite_id == old(self).last_favorite_id,
                self.last_alias_id == first,
                alias_rows(self.aliases@) == before.aliases + added.take(k as int),
            decreases count - k,
        {
            let id: AliasId = first + 1 + k as i64;
            self.aliases.push(Alias { id, favorite_id, name: names[k].clone(), created_at });
            assert(before.aliases + added.take(k as int + 1) =~= (before.aliases + added.take(
                k as int,
            )).push(added[k as int]));
            k += 1;
        }
        assert(added.take(count as int) =~= added);
        self.last_alias_id = first + count as i64;
        Ok(())
    }

    /// Removes the favorite with the path `path`, and with it the aliases
    /// that belong to it. A path that is no favorite is refused.
    pub fn remove(&mut self, path: &str) -> (r: Result<(), FavError>)
        requires
            old(self).wf(),
        ensures
            final(self).wf(),
            match old(self)@.remove_refusal(path@) {
                Some(refusal) => r matches Err(e) && e@ == refusal && final(self)@ == old(self)@,
                None => r is Ok && final(self)@ == old(self)@.remove(path@),
            },
    {
        let key: String = path.to_owned();
        let id: FavoriteId = match self.favorite_at_path(&key) {
            Some(i) => {
                proof {
                    self@.lemma_favorite_at(i as int);
                }
                self.favorites[i].id
            },
            None => {
                return Err(FavError::NotFound);
            },
        };
        proof {
            old(self)@.lemma_remove_keeps_rules(path@);
        }
        let favorites: Vec<Favorite> = favorites_except(&self.favorites, id);
        let aliases: Vec<Alias> = aliases_except_favorite(&self.aliases, id);
        self.favorites = favorites;
        self.aliases = aliases;
        Ok(())
    }

    /// Removes the alias `name`. A name that is no alias is refused.
    pub fn remove_by_name(&mut self, name: &str) -> (r: Result<(), FavError>)
        requires
            old(self).wf(),
        ensures
            final(self).wf(),
            match old(self)@.remove_alias_refusal(name@) {
                Some(refusal) => r matches Err(e) && e@ == refusal && final(self)@ == old(self)@,
                None => r is Ok && final(self)@ == old(self)@.remove_alias(name@),
            },
    {
        let key: String = name.to_owned();
        if self.alias_at_name(&key).is_none() {
            return Err(FavError::NotFound);
        }
        proof {
            old(self)@.lemma_remove_alias_keeps_rules(name@);
        }
        let aliases: Vec<Alias> = aliases_except_name(&self.aliases, &key);
        self.aliases = aliases;
        Ok(())
    }

    /// The names under which the path `path` can be reached, in the order of
    /// insertion. The path is taken in any spelling and looked up under its
    /// canonical form; where that is no favorite there are no names. A
    /// string that is no path is refused.
    pub fn alias_names(&self, path: &str) -> (r: Result<Vec<String>, FavError>)
        requires
            self.wf(),
        ensures
            is_valid_path(path@) ==> (r matches Ok(names) && texts(names@) == self@.names_of(
                normalized(path@),
            )),
            !is_valid_path(path@) ==> r matches Err(FavError::InvalidPath),
    {
        let canonical: String = match normalize_path(path) {
            Ok(canonical) => canonical,
            Err(e) => {
                return Err(e);
            },
        };
        match self.favorite_by_path(canonical.as_str()) {
            Some(favorite) => Ok(names_of_favorite(&self.aliases, favorite.id)),
            None => Ok(Vec::new()),
        }
    }
}

} // verus!
