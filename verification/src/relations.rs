//! The two relations as mathematical values.
//!
//! `favorites(id, path, created_at)` holds the bookmarked paths and
//! `aliases(id, favorite_id, name, created_at)` the names bound to them. Both
//! keep their rows in the order of insertion. The functions here say what
//! each operation of the library makes of the relations; the executable code
//! is proved against them.

use crate::error::Refusal;
use crate::path::is_canonical;
use vstd::prelude::*;

verus! {

/// `chrono::NaiveDateTime`, the time at which a row was made. The library
/// carries such a value from the caller into the row and reads nothing in
/// it, so nothing is claimed of it.
#[verifier::external_type_specification]
#[verifier::external_body]
pub struct ExNaiveDateTime(chrono::NaiveDateTime);

/// A row of the relation of favorites.
pub struct FavoriteRow {
    pub id: int,
    pub path: Seq<char>,
    pub created_at: chrono::NaiveDateTime,
}

/// A row of the relation of aliases.
pub struct AliasRow {
    pub id: int,
    pub favorite_id: int,
    pub name: Seq<char>,
    pub created_at: chrono::NaiveDateTime,
}

/// A way to refer to an alias: by its identifier, by its name, or by a row
/// that the caller holds already.
pub enum AliasKey {
    Id(int),
    Name(Seq<char>),
    Alias(AliasRow),
}

/// The contents of the store: both relations, and the last identifier that
/// each of them has given out.
pub struct Relations {
    pub favorites: Seq<FavoriteRow>,
    pub aliases: Seq<AliasRow>,
    pub last_favorite_id: int,
    pub last_alias_id: int,
}

/// The largest identifier a row can have.
pub open spec fn max_id() -> int {
    i64::MAX as int
}

/// Some row of `favorites` has the identifier `id`.
pub open spec fn holds_favorite(favorites: Seq<FavoriteRow>, id: int) -> bool {
    exists|i: int| 0 <= i < favorites.len() && (#[trigger] favorites[i]).id == id
}

/// The rows can stand together in the store: every path is canonical,
/// identifiers, paths and names are unique, and every alias belongs to a
/// favorite that is there.
pub open spec fn rows_consistent(favorites: Seq<FavoriteRow>, aliases: Seq<AliasRow>) -> bool {
    &&& forall|i: int| 0 <= i < favorites.len() ==> is_canonical((#[trigger] favorites[i]).path)
    &&& forall|i: int, j: int|
        0 <= i < j < favorites.len() ==> (#[trigger] favorites[i]).id != (#[trigger] favorites[j]).id
    &&& forall|i: int, j: int|
        0 <= i < j < favorites.len() ==> (#[trigger] favorites[i]).path != (
        #[trigger] favorites[j]).path
    &&& forall|i: int, j: int|
        0 <= i < j < aliases.len() ==> (#[trigger] aliases[i]).id != (#[trigger] aliases[j]).id
    &&& forall|i: int, j: int|
        0 <= i < j < aliases.len() ==> (#[trigger] aliases[i]).name != (#[trigger] aliases[j]).name
    &&& forall|i: int|
        0 <= i < aliases.len() ==> holds_favorite(favorites, (#[trigger] aliases[i]).favorite_id)
}

/// The favorites other than the one with the identifier `id`.
pub open spec fn other_favorite(id: int) -> spec_fn(FavoriteRow) -> bool {
    |row: FavoriteRow| row.id != id
}

/// The aliases of the favorite with the identifier `favorite_id`.
pub open spec fn alias_of(favorite_id: int) -> spec_fn(AliasRow) -> bool {
    |row: AliasRow| row.favorite_id == favorite_id
}

/// The aliases of the favorites other than the one with the identifier
/// `favorite_id`.
pub open spec fn alias_of_other(favorite_id: int) -> spec_fn(AliasRow) -> bool {
    |row: AliasRow| row.favorite_id != favorite_id
}

/// The aliases with a name other than `name`.
pub open spec fn other_name(name: Seq<char>) -> spec_fn(AliasRow) -> bool {
    |row: AliasRow| row.name != name
}

/// The names of `rows`, in their order.
pub open spec fn names_in(rows: Seq<AliasRow>) -> Seq<Seq<char>> {
    Seq::new(rows.len(), |i: int| rows[i].name)
}

/// The identifiers of `rows`, in their order.
pub open spec fn favorite_ids(rows: Seq<FavoriteRow>) -> Seq<int> {
    Seq::new(rows.len(), |i: int| rows[i].id)
}

/// The identifiers of `rows`, in their order.
pub open spec fn alias_ids(rows: Seq<AliasRow>) -> Seq<int> {
    Seq::new(rows.len(), |i: int| rows[i].id)
}

/// The largest of `ids`, and 0 where none is positive.
pub open spec fn largest_id(ids: Seq<int>) -> int
    decreases ids.len(),
{
    if ids.len() == 0 {
        0
    } else {
        let before = largest_id(ids.drop_last());
        if ids.last() > before {
            ids.last()
        } else {
            before
        }
    }
}

/// No identifier is larger than the largest.
pub proof fn lemma_largest_id(ids: Seq<int>)
    ensures
        0 <= largest_id(ids),
        forall|i: int| 0 <= i < ids.len() ==> ids[i] <= largest_id(ids),
    decreases ids.len(),
{
    if ids.len() > 0 {
        lemma_largest_id(ids.drop_last());
        assert forall|i: int| 0 <= i < ids.len() implies ids[i] <= largest_id(ids) by {
            if i < ids.len() - 1 {
                assert(ids.drop_last()[i] == ids[i]);
            }
        }
    }
}

impl Relations {
    /// The store before anything was added.
    pub open spec fn empty() -> Relations {
        Relations {
            favorites: Seq::empty(),
            aliases: Seq::empty(),
            last_favorite_id: 0,
            last_alias_id: 0,
        }
    }

    /// The store that holds the rows `favorites` and `aliases`, which come
    /// from elsewhere: the last identifier given out is taken to be the
    /// largest that a row has.
    pub open spec fn loaded(favorites: Seq<FavoriteRow>, aliases: Seq<AliasRow>) -> Relations {
        Relations {
            favorites,
            aliases,
            last_favorite_id: largest_id(favorite_ids(favorites)),
            last_alias_id: largest_id(alias_ids(aliases)),
        }
    }

    /// Some favorite has the identifier `id`.
    pub open spec fn has_favorite(self, id: int) -> bool {
        holds_favorite(self.favorites, id)
    }

    /// Some favorite has the path `path`.
    pub open spec fn has_path(self, path: Seq<char>) -> bool {
        exists|i: int| 0 <= i < self.favorites.len() && (#[trigger] self.favorites[i]).path == path
    }

    /// Some alias has the identifier `id`.
    pub open spec fn has_alias(self, id: int) -> bool {
        exists|i: int| 0 <= i < self.aliases.len() && (#[trigger] self.aliases[i]).id == id
    }

    /// Some alias has the name `name`.
    pub open spec fn has_name(self, name: Seq<char>) -> bool {
        exists|i: int| 0 <= i < self.aliases.len() && (#[trigger] self.aliases[i]).name == name
    }

    /// The rules of the relations: the rows are consistent, and no row has
    /// an identifier beyond the last one given out.
    pub open spec fn wf(self) -> bool {
        &&& rows_consistent(self.favorites, self.aliases)
        &&& 0 <= self.last_favorite_id
        &&& 0 <= self.last_alias_id
        &&& forall|i: int|
            0 <= i < self.favorites.len() ==> (#[trigger] self.favorites[i]).id
                <= self.last_favorite_id
        &&& forall|i: int|
            0 <= i < self.aliases.len() ==> (#[trigger] self.aliases[i]).id <= self.last_alias_id
    }

    /// The favorite with the identifier `id`.
    pub open spec fn favorite_by_id(self, id: int) -> Option<FavoriteRow> {
        if self.has_favorite(id) {
            Some(
                self.favorites[choose|i: int|
                    0 <= i < self.favorites.len() && (#[trigger] self.favorites[i]).id == id],
            )
        } else {
            None
        }
    }

    /// The favorite with the path `path`.
    pub open spec fn favorite_by_path(self, path: Seq<char>) -> Option<FavoriteRow> {
        if self.has_path(path) {
            Some(
                self.favorites[choose|i: int|
                    0 <= i < self.favorites.len() && (#[trigger] self.favorites[i]).path == path],
            )
        } else {
            None
        }
    }

    /// The alias with the identifier `id`.
    pub open spec fn alias_by_id(self, id: int) -> Option<AliasRow> {
        if self.has_alias(id) {
            Some(
                self.aliases[choose|i: int|
                    0 <= i < self.aliases.len() && (#[trigger] self.aliases[i]).id == id],
            )
        } else {
            None
        }
    }

    /// The alias with the name `name`.
    pub open spec fn alias_by_name(self, name: Seq<char>) -> Option<AliasRow> {
        if self.has_name(name) {
            Some(
                self.aliases[choose|i: int|
                    0 <= i < self.aliases.len() && (#[trigger] self.aliases[i]).name == name],
            )
        } else {
            None
        }
    }

    /// The paths of the favorites, in the order of insertion.
    pub open spec fn paths(self) -> Seq<Seq<char>> {
        Seq::new(self.favorites.len(), |i: int| self.favorites[i].path)
    }

    /// The names of the aliases, in the order of insertion.
    pub open spec fn names(self) -> Seq<Seq<char>> {
        names_in(self.aliases)
    }

    /// The path of the favorite with the identifier `favorite_id`.
    pub open spec fn path_of(self, favorite_id: int) -> Option<Seq<char>> {
        match self.favorite_by_id(favorite_id) {
            Some(favorite) => Some(favorite.path),
            None => None,
        }
    }

    /// The path that an alias stands for: the path of the favorite that the
    /// alias belongs to. There is none where the alias does not exist, or
    /// where a row that the caller held names a favorite that is gone.
    pub open spec fn resolve(self, key: AliasKey) -> Option<Seq<char>> {
        match key {
            AliasKey::Id(id) => match self.alias_by_id(id) {
                Some(alias) => self.path_of(alias.favorite_id),
                None => None,
            },
            AliasKey::Name(name) => match self.alias_by_name(name) {
                Some(alias) => self.path_of(alias.favorite_id),
                None => None,
            },
            AliasKey::Alias(alias) => self.path_of(alias.favorite_id),
        }
    }

    /// The aliases of the favorite with the identifier `favorite_id`.
    pub open spec fn aliases_of(self, favorite_id: int) -> Seq<AliasRow> {
        self.aliases.filter(alias_of(favorite_id))
    }

    /// The names under which the path `path` can be reached, in the order of
    /// insertion; none where the path is no favorite.
    pub open spec fn names_of(self, path: Seq<char>) -> Seq<Seq<char>> {
        match self.favorite_by_path(path) {
            Some(favorite) => names_in(self.aliases_of(favorite.id)),
            None => Seq::empty(),
        }
    }

    /// Why `path` cannot be added, if it cannot.
    pub open spec fn add_refusal(self, path: Seq<char>) -> Option<Refusal> {
        if !is_canonical(path) {
            Some(Refusal::InvalidPath)
        } else if self.has_path(path) {
            Some(Refusal::DuplicatePath)
        } else if self.last_favorite_id >= max_id() {
            Some(Refusal::IdsExhausted)
        } else {
            None
        }
    }

    /// The store after `path` was added: the new favorite is the last row and
    /// has the identifier after the last one given out.
    pub open spec fn add(self, path: Seq<char>, created_at: chrono::NaiveDateTime) -> Relations {
        Relations {
            favorites: self.favorites.push(
                FavoriteRow { id: self.last_favorite_id + 1, path, created_at },
            ),
            last_favorite_id: self.last_favorite_id + 1,
            ..self
        }
    }

    /// Why the favorite with the path `path` cannot be removed, if it cannot.
    pub open spec fn remove_refusal(self, path: Seq<char>) -> Option<Refusal> {
        if self.has_path(path) {
            None
        } else {
            Some(Refusal::NotFound)
        }
    }

    /// The store after the favorite with the path `path` was removed, and
    /// with it the aliases that belonged to it.
    pub open spec fn remove(self, path: Seq<char>) -> Relations {
        match self.favorite_by_path(path) {
            Some(favorite) => Relations {
                favorites: self.favorites.filter(other_favorite(favorite.id)),
                aliases: self.aliases.filter(alias_of_other(favorite.id)),
                ..self
            },
            None => self,
        }
    }

    /// The name at position `i` of `names` cannot become an alias: an alias
    /// has it already, or it stands in the batch before `i`.
    pub open spec fn name_taken(self, names: Seq<Seq<char>>, i: int) -> bool {
        self.has_name(names[i]) || exists|j: int| 0 <= j < i && names[j] == names[i]
    }

    /// The first position of `names` from `from` on whose name cannot become
    /// an alias.
    pub open spec fn first_taken_from(self, names: Seq<Seq<char>>, from: int) -> Option<int>
        decreases names.len() - from,
    {
        if from < 0 || from >= names.len() {
            None
        } else if self.name_taken(names, from) {
            Some(from)
        } else {
            self.first_taken_from(names, from + 1)
        }
    }

    /// The first position of `names` whose name cannot become an alias.
    pub open spec fn first_taken(self, names: Seq<Seq<char>>) -> Option<int> {
        self.first_taken_from(names, 0)
    }

    /// The aliases that are made of `names` for the favorite `favorite_id`.
    pub open spec fn new_aliases(
        self,
        favorite_id: int,
        names: Seq<Seq<char>>,
        created_at: chrono::NaiveDateTime,
    ) -> Seq<AliasRow> {
        Seq::new(
            names.len(),
            |i: int|
                AliasRow { id: self.last_alias_id + 1 + i, favorite_id, name: names[i], created_at },
        )
    }

    /// Why `names` cannot be attached to the favorite `favorite_id`, if they
    /// cannot.
    pub open spec fn attach_refusal(self, favorite_id: int, names: Seq<Seq<char>>) -> Option<
        Refusal,
    > {
        if !self.has_favorite(favorite_id) {
            Some(Refusal::FavoriteNotFound)
        } else {
            match self.first_taken(names) {
                Some(i) => Some(Refusal::DuplicateAlias(names[i])),
                None => if self.last_alias_id + names.len() > max_id() {
                    Some(Refusal::IdsExhausted)
                } else {
                    None
                },
            }
        }
    }

    /// The store after `names` were attached to the favorite `favorite_id`:
    /// one new alias for each name, in the order of `names`, with the
    /// identifiers after the last one given out.
    pub open spec fn attach(
        self,
        favorite_id: int,
        names: Seq<Seq<char>>,
        created_at: chrono::NaiveDateTime,
    ) -> Relations {
        Relations {
            aliases: self.aliases + self.new_aliases(favorite_id, names, created_at),
            last_alias_id: self.last_alias_id + names.len(),
            ..self
        }
    }

    /// Why the alias `name` cannot be removed, if it cannot.
    pub open spec fn remove_alias_refusal(self, name: Seq<char>) -> Option<Refusal> {
        if self.has_name(name) {
            None
        } else {
            Some(Refusal::NotFound)
        }
    }

    /// The store after the alias `name` was removed.
    pub open spec fn remove_alias(self, name: Seq<char>) -> Relations {
        Relations { aliases: self.aliases.filter(other_name(name)), ..self }
    }
}

impl Relations {
    /// In a store that keeps its rules a favorite is found by its identifier
    /// and by its path.
    pub proof fn lemma_favorite_at(self, i: int)
        requires
            self.wf(),
            0 <= i < self.favorites.len(),
        ensures
            self.favorite_by_id(self.favorites[i].id) == Some(self.favorites[i]),
            self.favorite_by_path(self.favorites[i].path) == Some(self.favorites[i]),
            self.path_of(self.favorites[i].id) == Some(self.favorites[i].path),
    {
    }

    /// In a store that keeps its rules an alias is found by its identifier
    /// and by its name.
    pub proof fn lemma_alias_at(self, i: int)
        requires
            self.wf(),
            0 <= i < self.aliases.len(),
        ensures
            self.alias_by_id(self.aliases[i].id) == Some(self.aliases[i]),
            self.alias_by_name(self.aliases[i].name) == Some(self.aliases[i]),
    {
    }

    /// The first name that is taken stands where no name before it is; there
    /// is none only where no name is taken.
    pub proof fn lemma_first_taken_from(self, names: Seq<Seq<char>>, from: int)
        requires
            0 <= from <= names.len(),
        ensures
            match self.first_taken_from(names, from) {
                Some(i) => from <= i < names.len() && self.name_taken(names, i) && forall|k: int|
                    from <= k < i ==> !self.name_taken(names, k),
                None => forall|k: int| from <= k < names.len() ==> !self.name_taken(names, k),
            },
        decreases names.len() - from,
    {
        if from < names.len() && !self.name_taken(names, from) {
            self.lemma_first_taken_from(names, from + 1);
        }
    }

    /// Adding a path that can be added keeps the rules.
    pub proof fn lemma_add_keeps_rules(self, path: Seq<char>, created_at: chrono::NaiveDateTime)
        requires
            self.wf(),
            self.add_refusal(path) is None,
        ensures
            self.add(path, created_at).wf(),
    {
        let after = self.add(path, created_at);
        assert forall|i: int| 0 <= i < after.aliases.len() implies holds_favorite(
            after.favorites,
            (#[trigger] after.aliases[i]).favorite_id,
        ) by {
            let k = choose|k: int|
                0 <= k < self.favorites.len() && (#[trigger] self.favorites[k]).id
                    == self.aliases[i].favorite_id;
            assert(after.favorites[k] == self.favorites[k]);
        }
    }

    /// Attaching names that can be attached keeps the rules.
    pub proof fn lemma_attach_keeps_rules(
        self,
        favorite_id: int,
        names: Seq<Seq<char>>,
        created_at: chrono::NaiveDateTime,
    )
        requires
            self.wf(),
            self.attach_refusal(favorite_id, names) is None,
        ensures
            self.attach(favorite_id, names, created_at).wf(),
    {
        let after = self.attach(favorite_id, names, created_at);
        let n = self.aliases.len() as int;
        self.lemma_first_taken_from(names, 0);
        assert forall|i: int, j: int| 0 <= i < j < after.aliases.len() implies (
        #[trigger] after.aliases[i]).id != (#[trigger] after.aliases[j]).id && after.aliases[i].name
            != after.aliases[j].name by {
            if j >= n {
                assert(!self.name_taken(names, j - n));
            }
        }
    }

    /// Removing a favorite keeps the rules: its aliases go with it, so none
    /// is left behind without a favorite.
    pub proof fn lemma_remove_keeps_rules(self, path: Seq<char>)
        requires
            self.wf(),
        ensures
            self.remove(path).wf(),
    {
        if let Some(favorite) = self.favorite_by_path(path) {
            lemma_filter_keeps_consistent(
                self.favorites,
                self.aliases,
                other_favorite(favorite.id),
                alias_of_other(favorite.id),
            );
            lemma_filter_keeps_bound(
                self.favorites,
                other_favorite(favorite.id),
                |row: FavoriteRow| row.id <= self.last_favorite_id,
            );
            lemma_filter_keeps_bound(
                self.aliases,
                alias_of_other(favorite.id),
                |row: AliasRow| row.id <= self.last_alias_id,
            );
        }
    }

    /// Removing an alias keeps the rules.
    pub proof fn lemma_remove_alias_keeps_rules(self, name: Seq<char>)
        requires
            self.wf(),
        ensures
            self.remove_alias(name).wf(),
    {
        let all = |row: FavoriteRow| true;
        lemma_filter_keeps_consistent(self.favorites, self.aliases, all, other_name(name));
        lemma_filter_all(self.favorites, all);
        lemma_filter_keeps_bound(
            self.aliases,
            other_name(name),
            |row: AliasRow| row.id <= self.last_alias_id,
        );
    }
}

/// Two rows that stay when a sequence is filtered stood in the same order
/// before.
pub proof fn lemma_filter_keeps_order<T>(s: Seq<T>, keep: spec_fn(T) -> bool, a: int, b: int)
    requires
        0 <= a < b < s.filter(keep).len(),
    ensures
        exists|i: int, j: int|
            0 <= i < j < s.len() && #[trigger] s[i] == s.filter(keep)[a] && #[trigger] s[j]
                == s.filter(keep)[b],
    decreases s.len(),
{
    reveal(Seq::filter);
    let front = s.drop_last();
    let kept = front.filter(keep);
    if b < kept.len() {
        lemma_filter_keeps_order(front, keep, a, b);
        let (i, j): (int, int) = choose|i: int, j: int|
            0 <= i < j < front.len() && #[trigger] front[i] == kept[a] && #[trigger] front[j]
                == kept[b];
        assert(s[i] == kept[a] && s[j] == kept[b]);
    } else {
        front.lemma_filter_contains_rev(keep, kept[a]);
        let i = choose|i: int| 0 <= i < front.len() && front[i] == kept[a];
        assert(s[i] == kept[a] && s[s.len() - 1] == s.filter(keep)[b]);
    }
}

/// Filtering the rows up to and with the one at `i`: the row at `i` comes
/// last if it stays.
pub proof fn lemma_filter_next<T>(s: Seq<T>, keep: spec_fn(T) -> bool, i: int)
    requires
        0 <= i < s.len(),
    ensures
        s.take(i + 1).filter(keep) == if keep(s[i]) {
            s.take(i).filter(keep).push(s[i])
        } else {
            s.take(i).filter(keep)
        },
{
    reveal(Seq::filter);
    assert(s.take(i + 1).drop_last() =~= s.take(i));
}

/// A bound that holds of every row holds of every row that stays.
pub proof fn lemma_filter_keeps_bound<T>(
    s: Seq<T>,
    keep: spec_fn(T) -> bool,
    within: spec_fn(T) -> bool,
)
    requires
        forall|i: int| 0 <= i < s.len() ==> within(#[trigger] s[i]),
    ensures
        forall|a: int| 0 <= a < s.filter(keep).len() ==> within(#[trigger] s.filter(keep)[a]),
{
    let kept = s.filter(keep);
    assert forall|a: int| 0 <= a < kept.len() implies within(#[trigger] kept[a]) by {
        s.lemma_filter_contains_rev(keep, kept[a]);
    }
}

/// Where every row stays, filtering changes nothing.
pub proof fn lemma_filter_all<T>(s: Seq<T>, keep: spec_fn(T) -> bool)
    requires
        forall|i: int| 0 <= i < s.len() ==> keep(#[trigger] s[i]),
    ensures
        s.filter(keep) == s,
    decreases s.len(),
{
    reveal(Seq::filter);
    if s.len() > 0 {
        let front = s.drop_last();
        assert forall|i: int| 0 <= i < front.len() implies keep(#[trigger] front[i]) by {
            assert(front[i] == s[i]);
        }
        lemma_filter_all(front, keep);
    }
}

/// What stays of consistent rows when favorites are taken out together with
/// their aliases is consistent.
pub proof fn lemma_filter_keeps_consistent(
    favorites: Seq<FavoriteRow>,
    aliases: Seq<AliasRow>,
    keep_favorite: spec_fn(FavoriteRow) -> bool,
    keep_alias: spec_fn(AliasRow) -> bool,
)
    requires
        rows_consistent(favorites, aliases),
        forall|i: int, k: int|
            0 <= i < aliases.len() && 0 <= k < favorites.len() && keep_alias(#[trigger] aliases[i])
                && (#[trigger] favorites[k]).id == aliases[i].favorite_id ==> keep_favorite(
                favorites[k],
            ),
    ensures
        rows_consistent(favorites.filter(keep_favorite), aliases.filter(keep_alias)),
{
    let left = favorites.filter(keep_favorite);
    let bound = aliases.filter(keep_alias);
    lemma_filter_keeps_bound(favorites, keep_favorite, |row: FavoriteRow| is_canonical(row.path));
    assert forall|a: int, b: int| 0 <= a < b < left.len() implies (#[trigger] left[a]).id != (
    #[trigger] left[b]).id && left[a].path != left[b].path by {
        lemma_filter_keeps_order(favorites, keep_favorite, a, b);
    }
    assert forall|a: int, b: int| 0 <= a < b < bound.len() implies (#[trigger] bound[a]).id != (
    #[trigger] bound[b]).id && bound[a].name != bound[b].name by {
        lemma_filter_keeps_order(aliases, keep_alias, a, b);
    }
    assert forall|a: int| 0 <= a < bound.len() implies holds_favorite(
        left,
        (#[trigger] bound[a]).favorite_id,
    ) by {
        aliases.lemma_filter_pred(keep_alias, a);
        aliases.lemma_filter_contains_rev(keep_alias, bound[a]);
        let i = choose|i: int| 0 <= i < aliases.len() && aliases[i] == bound[a];
        let k = choose|k: int|
            0 <= k < favorites.len() && (#[trigger] favorites[k]).id == aliases[i].favorite_id;
        favorites.lemma_filter_contains(keep_favorite, k);
        let m = choose|m: int| 0 <= m < left.len() && left[m] == favorites[k];
        assert(left[m].id == bound[a].favorite_id);
    }
}

/// Consistent rows make a store that keeps the rules.
pub proof fn lemma_loaded_keeps_rules(favorites: Seq<FavoriteRow>, aliases: Seq<AliasRow>)
    requires
        rows_consistent(favorites, aliases),
    ensures
        Relations::loaded(favorites, aliases).wf(),
{
    lemma_largest_id(favorite_ids(favorites));
    lemma_largest_id(alias_ids(aliases));
    let store = Relations::loaded(favorites, aliases);
    assert forall|i: int| 0 <= i < favorites.len() implies (#[trigger] favorites[i]).id
        <= store.last_favorite_id by {
        assert(favorite_ids(favorites)[i] == favorites[i].id);
    }
    assert forall|i: int| 0 <= i < aliases.len() implies (#[trigger] aliases[i]).id
        <= store.last_alias_id by {
        assert(alias_ids(aliases)[i] == aliases[i].id);
    }
}

} // verus!
