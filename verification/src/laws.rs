//! What holds of the operations on the store, whatever the store holds.

use crate::error::Refusal;
use crate::path::{is_valid_path, law_normalized_is_canonical, normalized};
use crate::relations::{alias_of_other, other_favorite, other_name, AliasKey, Relations};
use vstd::prelude::*;

verus! {

/// `x` stands in `s` at one position and at no other.
pub open spec fn occurs_once(s: Seq<Seq<char>>, x: Seq<char>) -> bool {
    exists|i: int|
        0 <= i < s.len() && #[trigger] s[i] == x && forall|j: int|
            0 <= j < s.len() && #[trigger] s[j] == x ==> j == i
}

/// After a path was added, the list of paths is the list before with the
/// path behind it, it holds the path exactly once, and adding the path again
/// is refused as a duplicate.
pub proof fn law_added_path_listed_once(
    store: Relations,
    path: Seq<char>,
    created_at: chrono::NaiveDateTime,
)
    requires
        store.wf(),
        store.add_refusal(path) is None,
    ensures
        store.add(path, created_at).wf(),
        store.add(path, created_at).paths() == store.paths().push(path),
        occurs_once(store.add(path, created_at).paths(), path),
        store.add(path, created_at).add_refusal(path) == Some(Refusal::DuplicatePath),
{
    let after = store.add(path, created_at);
    let last = store.favorites.len() as int;
    store.lemma_add_keeps_rules(path, created_at);
    assert forall|j: int| 0 <= j < after.paths().len() && #[trigger] after.paths()[j]
        == path implies j == last by {
        if j < last {
            assert(store.favorites[j].path == path);
        }
    }
    assert(after.paths()[last] == path);
}

/// A path that was normalized is never refused as no path: it is added
/// unless it is a favorite already or the identifiers have run out. So two
/// spellings of one path cannot both become favorites.
pub proof fn law_normalized_path_is_taken(
    store: Relations,
    path: Seq<char>,
    other: Seq<char>,
    created_at: chrono::NaiveDateTime,
)
    requires
        store.wf(),
        is_valid_path(path),
        is_valid_path(other),
        normalized(path) == normalized(other),
    ensures
        store.add_refusal(normalized(path)) != Some(Refusal::InvalidPath),
        store.add_refusal(normalized(path)) is None ==> store.add(
            normalized(path),
            created_at,
        ).add_refusal(normalized(other)) == Some(Refusal::DuplicatePath),
{
    law_normalized_is_canonical(path);
    if store.add_refusal(normalized(path)) is None {
        law_added_path_listed_once(store, normalized(path), created_at);
    }
}

/// After names were attached to a favorite, each of them resolves to the
/// path of that favorite. Attaching one of them again, to whatever favorite,
/// is refused as a duplicate of that name, and so is every batch that holds
/// one of them, as a duplicate of its first name that is taken.
pub proof fn law_attached_name_resolves(
    store: Relations,
    favorite_id: int,
    names: Seq<Seq<char>>,
    created_at: chrono::NaiveDateTime,
    i: int,
    other: int,
    batch: Seq<Seq<char>>,
)
    requires
        store.wf(),
        store.attach_refusal(favorite_id, names) is None,
        0 <= i < names.len(),
        store.has_favorite(other),
    ensures
        store.attach(favorite_id, names, created_at).wf(),
        store.path_of(favorite_id) is Some,
        store.attach(favorite_id, names, created_at).resolve(AliasKey::Name(names[i]))
            == store.path_of(favorite_id),
        store.attach(favorite_id, names, created_at).attach_refusal(other, seq![names[i]]) == Some(
            Refusal::DuplicateAlias(names[i]),
        ),
        batch.contains(names[i]) ==> store.attach(
            favorite_id,
            names,
            created_at,
        ).attach_refusal(other, batch) matches Some(Refusal::DuplicateAlias(_)),
{
    let after = store.attach(favorite_id, names, created_at);
    store.lemma_attach_keeps_rules(favorite_id, names, created_at);
    after.lemma_alias_at(store.aliases.len() + i);
    assert(after.name_taken(seq![names[i]], 0));
    if batch.contains(names[i]) {
        let k = choose|k: int| 0 <= k < batch.len() && batch[k] == names[i];
        assert(after.name_taken(batch, k));
        after.lemma_first_taken_from(batch, 0);
    }
}

/// The identifier that a new favorite gets was never held by a row of the
/// store: it lies beyond every identifier that is in use, and beyond the
/// last one given out, which no removal brings down again.
pub proof fn law_identifiers_are_fresh(
    store: Relations,
    path: Seq<char>,
    created_at: chrono::NaiveDateTime,
    gone: Seq<char>,
    i: int,
)
    requires
        store.wf(),
        store.add_refusal(path) is None,
    ensures
        0 <= i < store.favorites.len() ==> store.favorites[i].id < store.add(
            path,
            created_at,
        ).favorites.last().id,
        !store.has_favorite(store.add(path, created_at).favorites.last().id),
        store.add(path, created_at).last_favorite_id > store.last_favorite_id,
        store.remove(gone).last_favorite_id == store.last_favorite_id,
        store.remove(gone).last_alias_id == store.last_alias_id,
        store.remove_alias(gone).last_alias_id == store.last_alias_id,
{
}

/// A row is made once and never changed: every row that the store holds
/// after an operation was either made by that operation, with an
/// identifier beyond the last that was given out before, or is a row that
/// the store held before, with the path, the name and the time of creation
/// that it had.
pub proof fn law_rows_stay_as_they_are(
    store: Relations,
    path: Seq<char>,
    favorite_id: int,
    names: Seq<Seq<char>>,
    created_at: chrono::NaiveDateTime,
    gone: Seq<char>,
    i: int,
)
    requires
        0 <= i,
    ensures
        i < store.add(path, created_at).favorites.len() ==> store.favorites.contains(
            store.add(path, created_at).favorites[i],
        ) || store.add(path, created_at).favorites[i].id > store.last_favorite_id,
        store.add(path, created_at).aliases == store.aliases,
        i < store.attach(favorite_id, names, created_at).aliases.len() ==> store.aliases.contains(
            store.attach(favorite_id, names, created_at).aliases[i],
        ) || store.attach(favorite_id, names, created_at).aliases[i].id > store.last_alias_id,
        store.attach(favorite_id, names, created_at).favorites == store.favorites,
        i < store.remove(gone).favorites.len() ==> store.favorites.contains(
            store.remove(gone).favorites[i],
        ),
        i < store.remove(gone).aliases.len() ==> store.aliases.contains(
            store.remove(gone).aliases[i],
        ),
        i < store.remove_alias(gone).aliases.len() ==> store.aliases.contains(
            store.remove_alias(gone).aliases[i],
        ),
        store.remove_alias(gone).favorites == store.favorites,
{
    let added = store.add(path, created_at);
    if i < store.favorites.len() {
        assert(added.favorites[i] == store.favorites[i]);
    }
    let attached = store.attach(favorite_id, names, created_at);
    if i < store.aliases.len() {
        assert(attached.aliases[i] == store.aliases[i]);
    }
    let removed = store.remove(gone);
    if let Some(favorite) = store.favorite_by_path(gone) {
        if i < removed.favorites.len() {
            store.favorites.lemma_filter_contains_rev(
                other_favorite(favorite.id),
                removed.favorites[i],
            );
        }
        if i < removed.aliases.len() {
            store.aliases.lemma_filter_contains_rev(
                alias_of_other(favorite.id),
                removed.aliases[i],
            );
        }
    }
    let unbound = store.remove_alias(gone);
    if i < unbound.aliases.len() {
        store.aliases.lemma_filter_contains_rev(other_name(gone), unbound.aliases[i]);
    }
}

/// Every alias of the store resolves to a path, and to the same path
/// whether it is given by its identifier, by its name or as a row: no alias
/// is without its favorite.
pub proof fn law_alias_resolves(store: Relations, i: int)
    requires
        store.wf(),
        0 <= i < store.aliases.len(),
    ensures
        store.resolve(AliasKey::Alias(store.aliases[i])) is Some,
        store.resolve(AliasKey::Id(store.aliases[i].id)) == store.resolve(
            AliasKey::Alias(store.aliases[i]),
        ),
        store.resolve(AliasKey::Name(store.aliases[i].name)) == store.resolve(
            AliasKey::Alias(store.aliases[i]),
        ),
{
    store.lemma_alias_at(i);
}

/// A name that no alias has resolves to nothing, which is no error.
pub proof fn law_unknown_name_resolves_to_none(store: Relations, name: Seq<char>)
    requires
        !store.has_name(name),
    ensures
        store.resolve(AliasKey::Name(name)) is None,
{
}

/// A name is an alias only after it was attached: the empty store has none,
/// adding a path adds none, attaching adds the names of the batch, and
/// removing adds none.
pub proof fn law_names_come_from_attach(
    store: Relations,
    name: Seq<char>,
    path: Seq<char>,
    favorite_id: int,
    names: Seq<Seq<char>>,
    created_at: chrono::NaiveDateTime,
    dropped: Seq<char>,
)
    ensures
        !Relations::empty().has_name(name),
        store.add(path, created_at).has_name(name) == store.has_name(name),
        store.attach(favorite_id, names, created_at).has_name(name) == (store.has_name(name)
            || names.contains(name)),
        store.remove(path).has_name(name) ==> store.has_name(name),
        store.remove_alias(dropped).has_name(name) ==> store.has_name(name),
{
    let attached = store.attach(favorite_id, names, created_at);
    let added = store.new_aliases(favorite_id, names, created_at);
    let n = store.aliases.len() as int;
    assert(store.add(path, created_at).aliases == store.aliases);
    if store.has_name(name) {
        let k = choose|k: int| 0 <= k < n && (#[trigger] store.aliases[k]).name == name;
        assert(attached.aliases[k].name == name);
    }
    if names.contains(name) {
        let k = choose|k: int| 0 <= k < names.len() && names[k] == name;
        assert(attached.aliases[n + k] == added[k]);
    }
    if attached.has_name(name) {
        let k = choose|k: int|
            0 <= k < attached.aliases.len() && (#[trigger] attached.aliases[k]).name == name;
        if k < n {
            assert(store.aliases[k].name == name);
        } else {
            assert(names[k - n] == name);
        }
    }
    let removed = store.remove(path);
    if removed.has_name(name) {
        let k = choose|k: int|
            0 <= k < removed.aliases.len() && (#[trigger] removed.aliases[k]).name == name;
        if let Some(favorite) = store.favorite_by_path(path) {
            store.aliases.lemma_filter_contains_rev(
                alias_of_other(favorite.id),
                removed.aliases[k],
            );
        }
        assert(store.aliases.contains(removed.aliases[k]));
    }
    let unbound = store.remove_alias(dropped);
    if unbound.has_name(name) {
        let k = choose|k: int|
            0 <= k < unbound.aliases.len() && (#[trigger] unbound.aliases[k]).name == name;
        store.aliases.lemma_filter_contains_rev(other_name(dropped), unbound.aliases[k]);
        assert(store.aliases.contains(unbound.aliases[k]));
    }
}

/// After a favorite was removed the rules hold: every alias that is left
/// belongs to a favorite that is left. The path is no favorite any more, and
/// the aliases of the favorite are gone with it.
pub proof fn law_remove_leaves_no_orphan(store: Relations, path: Seq<char>, i: int)
    requires
        store.wf(),
        store.has_path(path),
    ensures
        store.remove(path).wf(),
        !store.remove(path).has_path(path),
        store.favorite_by_path(path) matches Some(favorite) && !store.remove(path).has_favorite(
            favorite.id,
        ),
        0 <= i < store.remove(path).aliases.len() ==> store.remove(path).has_favorite(
            store.remove(path).aliases[i].favorite_id,
        ) && store.path_of(store.remove(path).aliases[i].favorite_id) != Some(path),
{
    let after = store.remove(path);
    let favorite = store.favorite_by_path(path)->0;
    store.lemma_remove_keeps_rules(path);
    let at = choose|k: int|
        0 <= k < store.favorites.len() && (#[trigger] store.favorites[k]).path == path;
    store.lemma_favorite_at(at);
    if 0 <= i < after.aliases.len() {
        store.aliases.lemma_filter_pred(alias_of_other(favorite.id), i);
        let owner = after.aliases[i].favorite_id;
        if store.path_of(owner) == Some(path) {
            let k = choose|k: int|
                0 <= k < store.favorites.len() && (#[trigger] store.favorites[k]).id == owner;
            store.lemma_favorite_at(k);
        }
    }
    if after.has_favorite(favorite.id) {
        let k = choose|k: int|
            0 <= k < after.favorites.len() && (#[trigger] after.favorites[k]).id == favorite.id;
        store.favorites.lemma_filter_pred(other_favorite(favorite.id), k);
    }
    if after.has_path(path) {
        let k = choose|k: int|
            0 <= k < after.favorites.len() && (#[trigger] after.favorites[k]).path == path;
        store.favorites.lemma_filter_pred(other_favorite(favorite.id), k);
        store.favorites.lemma_filter_contains_rev(other_favorite(favorite.id), after.favorites[k]);
        let m = choose|m: int|
            0 <= m < store.favorites.len() && store.favorites[m] == after.favorites[k];
        store.lemma_favorite_at(m);
    }
}

/// Removing a favorite leaves every other favorite in the store, and every
/// alias of another favorite.
pub proof fn law_remove_keeps_the_rest(store: Relations, path: Seq<char>, k: int, m: int)
    requires
        store.wf(),
        store.has_path(path),
    ensures
        0 <= k < store.favorites.len() && store.favorites[k].path != path ==> store.remove(
            path,
        ).favorites.contains(store.favorites[k]),
        0 <= m < store.aliases.len() && store.path_of(store.aliases[m].favorite_id) != Some(path)
            ==> store.remove(path).aliases.contains(store.aliases[m]),
{
    let favorite = store.favorite_by_path(path)->0;
    let at = choose|i: int|
        0 <= i < store.favorites.len() && (#[trigger] store.favorites[i]).path == path;
    store.lemma_favorite_at(at);
    if 0 <= k < store.favorites.len() && store.favorites[k].path != path {
        store.lemma_favorite_at(k);
        store.favorites.lemma_filter_contains(other_favorite(favorite.id), k);
    }
    if 0 <= m < store.aliases.len() && store.path_of(store.aliases[m].favorite_id) != Some(path) {
        store.aliases.lemma_filter_contains(alias_of_other(favorite.id), m);
    }
}

/// After an alias was removed its name resolves to nothing, and the
/// favorites are as they were.
pub proof fn law_removed_alias_is_gone(store: Relations, name: Seq<char>)
    requires
        store.wf(),
    ensures
        store.remove_alias(name).wf(),
        store.remove_alias(name).favorites == store.favorites,
        !store.remove_alias(name).has_name(name),
        store.remove_alias(name).resolve(AliasKey::Name(name)) is None,
{
    let after = store.remove_alias(name);
    store.lemma_remove_alias_keeps_rules(name);
    if after.has_name(name) {
        let k = choose|k: int|
            0 <= k < after.aliases.len() && (#[trigger] after.aliases[k]).name == name;
        store.aliases.lemma_filter_pred(other_name(name), k);
    }
}

} // verus!
