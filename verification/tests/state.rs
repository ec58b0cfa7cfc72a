use chrono::NaiveDateTime;
use fav::db::{Alias, AliasArg, Favorite};
use fav::error::FavError;
use fav::state::State;

fn at() -> NaiveDateTime {
    NaiveDateTime::default()
}

fn names(list: &[&str]) -> Vec<String> {
    list.iter().map(|name| name.to_string()).collect()
}


fn resolve(state: &State, name: &str) -> Option<String> {
    Alias::get_favorite_path(AliasArg::Name(name), state)
}

#[test]
fn new_store_is_empty() {
    let state = State::init();
    assert!(state.favorites().is_empty());
    assert!(state.aliases().is_empty());
}

#[test]
fn added_path_is_listed_once_and_refused_twice() {
    let mut state = State::init();
    state.add("/x".into(), at()).unwrap();
    state.add("/home/u/docs".into(), at()).unwrap();
    let list = Favorite::list_path(false, &state);
    assert_eq!(list.iter().filter(|path| *path == "/home/u/docs").count(), 1);
    assert_eq!(list, vec!["/x", "/home/u/docs"]);
    assert_eq!(state.add("/home/u/docs".into(), at()), Err(FavError::DuplicatePath));
    assert_eq!(Favorite::list_path(false, &state), vec!["/x", "/home/u/docs"]);
}

#[test]
fn add_same_path_twice_fails_with_duplicate_path() {
    let mut state = State::init();
    assert_eq!(state.add("/a".into(), at()), Ok(1));
    assert_eq!(state.add("/a".into(), at()), Err(FavError::DuplicatePath));
}

#[test]
fn identifiers_count_up_and_are_not_given_twice() {
    let mut state = State::init();
    assert_eq!(state.add("/a".into(), at()), Ok(1));
    assert_eq!(state.add("/b".into(), at()), Ok(2));
    state.remove("/b").unwrap();
    assert_eq!(state.add("/c".into(), at()), Ok(3));
    let ids: Vec<i64> = state.favorites().iter().map(|favorite| favorite.id).collect();
    assert_eq!(ids, vec![1, 3]);
}

#[test]
fn add_path_with_alias_then_resolve() {
    let mut state = State::init();
    let id = state.add("/home/u/docs".into(), at()).unwrap();
    state.attach(id, &names(&["d"]), at()).unwrap();
    assert_eq!(resolve(&state, "d"), Some("/home/u/docs".to_string()));
}

#[test]
fn attached_names_resolve_to_their_favorite() {
    let mut state = State::init();
    let first = state.add("/one".into(), at()).unwrap();
    let second = state.add("/two".into(), at()).unwrap();
    state.attach(first, &names(&["a", "b"]), at()).unwrap();
    state.attach(second, &names(&["c"]), at()).unwrap();
    assert_eq!(resolve(&state, "a"), Some("/one".to_string()));
    assert_eq!(resolve(&state, "b"), Some("/one".to_string()));
    assert_eq!(resolve(&state, "c"), Some("/two".to_string()));
    let ids: Vec<i64> = state.aliases().iter().map(|alias| alias.id).collect();
    assert_eq!(ids, vec![1, 2, 3]);
}

#[test]
fn attach_twice_fails_with_duplicate_alias() {
    let mut state = State::init();
    let id = state.add("/a".into(), at()).unwrap();
    assert_eq!(state.attach(id, &names(&["d"]), at()), Ok(()));
    assert_eq!(
        state.attach(id, &names(&["d"]), at()),
        Err(FavError::DuplicateAlias("d".to_string()))
    );
}

#[test]
fn attach_same_name_to_another_favorite_fails() {
    let mut state = State::init();
    let first = state.add("/a".into(), at()).unwrap();
    let second = state.add("/b".into(), at()).unwrap();
    state.attach(first, &names(&["d"]), at()).unwrap();
    assert_eq!(
        state.attach(second, &names(&["d"]), at()),
        Err(FavError::DuplicateAlias("d".to_string()))
    );
    assert_eq!(resolve(&state, "d"), Some("/a".to_string()));
}

#[test]
fn attach_to_missing_favorite_fails() {
    let mut state = State::init();
    state.add("/a".into(), at()).unwrap();
    assert_eq!(state.attach(5, &names(&["d"]), at()), Err(FavError::FavoriteNotFound));
    assert_eq!(state.attach(5, &names(&[]), at()), Err(FavError::FavoriteNotFound));
    assert!(state.aliases().is_empty());
}

#[test]
fn attach_is_all_or_nothing() {
    let mut state = State::init();
    let id = state.add("/a".into(), at()).unwrap();
    state.attach(id, &names(&["taken"]), at()).unwrap();
    assert_eq!(
        state.attach(id, &names(&["x", "taken", "y"]), at()),
        Err(FavError::DuplicateAlias("taken".to_string()))
    );
    assert_eq!(Alias::list_name(false, &state), vec!["taken"]);
    assert_eq!(resolve(&state, "x"), None);
}

#[test]
fn name_twice_in_one_batch_is_refused() {
    let mut state = State::init();
    let id = state.add("/a".into(), at()).unwrap();
    assert_eq!(
        state.attach(id, &names(&["x", "y", "x"]), at()),
        Err(FavError::DuplicateAlias("x".to_string()))
    );
    assert!(state.aliases().is_empty());
}

#[test]
fn first_taken_name_is_reported() {
    let mut state = State::init();
    let id = state.add("/a".into(), at()).unwrap();
    state.attach(id, &names(&["p", "q"]), at()).unwrap();
    assert_eq!(
        state.attach(id, &names(&["n", "q", "p"]), at()),
        Err(FavError::DuplicateAlias("q".to_string()))
    );
}

#[test]
fn unknown_name_resolves_to_none() {
    let mut state = State::init();
    assert_eq!(resolve(&state, "never"), None);
    let id = state.add("/a".into(), at()).unwrap();
    state.attach(id, &names(&["d"]), at()).unwrap();
    assert_eq!(resolve(&state, "never"), None);
    assert_eq!(Alias::get_favorite_path(AliasArg::Id(&77), &state), None);
}

#[test]
fn remove_by_name_of_missing_alias_fails_with_not_found() {
    let mut state = State::init();
    assert_eq!(state.remove_by_name("missing"), Err(FavError::NotFound));
}

#[test]
fn removed_alias_is_gone_and_the_others_stay() {
    let mut state = State::init();
    let id = state.add("/a".into(), at()).unwrap();
    state.attach(id, &names(&["a", "b", "c"]), at()).unwrap();
    assert_eq!(state.remove_by_name("b"), Ok(()));
    assert_eq!(Alias::list_name(false, &state), vec!["a", "c"]);
    assert_eq!(resolve(&state, "b"), None);
    assert_eq!(resolve(&state, "a"), Some("/a".to_string()));
    assert_eq!(state.remove_by_name("b"), Err(FavError::NotFound));
    assert_eq!(Favorite::list_path(false, &state), vec!["/a"]);
}

#[test]
fn list_names_keeps_the_order_of_insertion() {
    let mut state = State::init();
    let id = state.add("/a".into(), at()).unwrap();
    state.attach(id, &names(&["a"]), at()).unwrap();
    state.attach(id, &names(&["b"]), at()).unwrap();
    state.attach(id, &names(&["c"]), at()).unwrap();
    assert_eq!(Alias::list_name(false, &state), vec!["a", "b", "c"]);
}

#[test]
fn removing_a_favorite_removes_its_aliases() {
    let mut state = State::init();
    let first = state.add("/one".into(), at()).unwrap();
    let second = state.add("/two".into(), at()).unwrap();
    state.attach(first, &names(&["a"]), at()).unwrap();
    state.attach(second, &names(&["b"]), at()).unwrap();
    state.attach(first, &names(&["c"]), at()).unwrap();
    assert_eq!(state.remove("/one"), Ok(()));
    assert_eq!(Favorite::list_path(false, &state), vec!["/two"]);
    assert_eq!(Alias::list_name(false, &state), vec!["b"]);
    for alias in state.aliases() {
        assert!(state.favorite_by_id(alias.favorite_id).is_some());
    }
    assert_eq!(resolve(&state, "a"), None);
    assert_eq!(resolve(&state, "c"), None);
    assert_eq!(resolve(&state, "b"), Some("/two".to_string()));
}

#[test]
fn remove_of_missing_path_fails_with_not_found() {
    let mut state = State::init();
    state.add("/one".into(), at()).unwrap();
    assert_eq!(state.remove("/two"), Err(FavError::NotFound));
    assert_eq!(Favorite::list_path(false, &state), vec!["/one"]);
}

#[test]
fn name_of_a_removed_favorite_can_be_attached_again() {
    let mut state = State::init();
    let first = state.add("/one".into(), at()).unwrap();
    state.attach(first, &names(&["a"]), at()).unwrap();
    state.remove("/one").unwrap();
    let second = state.add("/two".into(), at()).unwrap();
    assert_eq!(state.attach(second, &names(&["a"]), at()), Ok(()));
    assert_eq!(resolve(&state, "a"), Some("/two".to_string()));
}

#[test]
fn alias_names_of_a_path() {
    let mut state = State::init();
    let first = state.add("/one".into(), at()).unwrap();
    let second = state.add("/two".into(), at()).unwrap();
    state.add("/three".into(), at()).unwrap();
    state.attach(first, &names(&["a"]), at()).unwrap();
    state.attach(second, &names(&["b"]), at()).unwrap();
    state.attach(first, &names(&["c"]), at()).unwrap();
    assert_eq!(state.alias_names("/one"), Ok(names(&["a", "c"])));
    assert_eq!(state.alias_names("/x/../one/"), Ok(names(&["a", "c"])));
    assert_eq!(state.alias_names("/two"), Ok(names(&["b"])));
    assert_eq!(state.alias_names("/three"), Ok(vec![]));
    assert_eq!(state.alias_names("/four"), Ok(vec![]));
    assert_eq!(state.alias_names(""), Err(FavError::InvalidPath));
}

#[test]
fn point_lookups() {
    let mut state = State::init();
    let id = state.add("/one".into(), at()).unwrap();
    state.attach(id, &names(&["a"]), at()).unwrap();
    assert_eq!(state.favorite_by_id(id).map(|favorite| favorite.path.as_str()), Some("/one"));
    assert_eq!(state.favorite_by_path("/one").map(|favorite| favorite.id), Some(id));
    assert!(state.favorite_by_path("/two").is_none());
    assert!(state.favorite_by_id(id + 1).is_none());
    assert_eq!(state.alias_by_name("a").map(|alias| alias.favorite_id), Some(id));
    assert_eq!(state.alias_by_id(1).map(|alias| alias.name.as_str()), Some("a"));
    assert!(state.alias_by_name("b").is_none());
    assert!(state.alias_by_id(2).is_none());
}

fn favorite(id: i64, path: &str) -> Favorite {
    Favorite { id, path: path.into(), created_at: at() }
}

fn alias(id: i64, favorite_id: i64, name: &str) -> Alias {
    Alias { id, favorite_id, name: name.into(), created_at: at() }
}

#[test]
fn rows_are_taken_over_in_their_order() {
    let state = State::init_with(
        vec![favorite(5, "/five"), favorite(2, "/two")],
        vec![alias(9, 2, "t"), alias(4, 5, "f")],
    )
    .unwrap();
    assert_eq!(Favorite::list_path(false, &state), vec!["/five", "/two"]);
    assert_eq!(Alias::list_name(false, &state), vec!["t", "f"]);
    assert_eq!(resolve(&state, "t"), Some("/two".to_string()));
}

#[test]
fn identifiers_go_on_after_the_largest_that_was_loaded() {
    let mut state = State::init_with(
        vec![favorite(5, "/five"), favorite(2, "/two")],
        vec![alias(9, 2, "t"), alias(4, 5, "f")],
    )
    .unwrap();
    assert_eq!(state.add("/new".into(), at()), Ok(6));
    state.attach(6, &names(&["n"]), at()).unwrap();
    assert_eq!(state.alias_by_name("n").map(|alias| alias.id), Some(10));
}

#[test]
fn negative_identifiers_are_rows_like_others() {
    let mut state = State::init_with(vec![favorite(-3, "/neg")], vec![alias(-1, -3, "n")]).unwrap();
    assert_eq!(resolve(&state, "n"), Some("/neg".to_string()));
    assert_eq!(state.add("/pos".into(), at()), Ok(1));
}

#[test]
fn inconsistent_rows_are_refused() {
    let twice_id = State::init_with(vec![favorite(1, "/a"), favorite(1, "/b")], vec![]);
    assert!(matches!(twice_id, Err(FavError::ConsistencyViolation)));
    let twice_path = State::init_with(vec![favorite(1, "/a"), favorite(2, "/a")], vec![]);
    assert!(matches!(twice_path, Err(FavError::ConsistencyViolation)));
    let twice_alias_id =
        State::init_with(vec![favorite(1, "/a")], vec![alias(1, 1, "x"), alias(1, 1, "y")]);
    assert!(matches!(twice_alias_id, Err(FavError::ConsistencyViolation)));
    let twice_name =
        State::init_with(vec![favorite(1, "/a")], vec![alias(1, 1, "x"), alias(2, 1, "x")]);
    assert!(matches!(twice_name, Err(FavError::ConsistencyViolation)));
    let orphan = State::init_with(vec![favorite(1, "/a")], vec![alias(1, 2, "x")]);
    assert!(matches!(orphan, Err(FavError::ConsistencyViolation)));
}

#[test]
fn path_that_is_not_canonical_is_not_added() {
    let mut state = State::init();
    assert_eq!(state.add("/a/../b".into(), at()), Err(FavError::InvalidPath));
    assert_eq!(state.add("/a/".into(), at()), Err(FavError::InvalidPath));
    assert_eq!(state.add("./a".into(), at()), Err(FavError::InvalidPath));
    assert_eq!(state.add("".into(), at()), Err(FavError::InvalidPath));
    assert_eq!(state.add("a\0".into(), at()), Err(FavError::InvalidPath));
    assert!(state.favorites().is_empty());
    assert_eq!(state.add("/b".into(), at()), Ok(1));
    assert_eq!(state.add("../b".into(), at()), Ok(2));
}

#[test]
fn rows_with_a_path_that_is_not_canonical_are_refused() {
    let spelled = State::init_with(vec![favorite(1, "/a/./b")], vec![]);
    assert!(matches!(spelled, Err(FavError::ConsistencyViolation)));
    let empty = State::init_with(vec![favorite(1, "")], vec![]);
    assert!(matches!(empty, Err(FavError::ConsistencyViolation)));
}

#[test]
fn identifiers_run_out() {
    let mut state =
        State::init_with(vec![favorite(i64::MAX, "/last")], vec![alias(i64::MAX - 1, i64::MAX, "l")])
            .unwrap();
    assert_eq!(state.add("/more".into(), at()), Err(FavError::IdsExhausted));
    assert_eq!(Favorite::list_path(false, &state), vec!["/last"]);
    assert_eq!(
        state.attach(i64::MAX, &names(&["m", "n"]), at()),
        Err(FavError::IdsExhausted)
    );
    assert_eq!(Alias::list_name(false, &state), vec!["l"]);
    assert_eq!(state.attach(i64::MAX, &names(&["m"]), at()), Ok(()));
    assert_eq!(state.alias_by_name("m").map(|alias| alias.id), Some(i64::MAX));
}

#[test]
fn error_messages() {
    assert_eq!(FavError::InvalidPath.message(), "invalid path");
    assert_eq!(FavError::DuplicatePath.message(), "the path is already a favorite");
    assert_eq!(
        FavError::DuplicateAlias("d".to_string()).message(),
        "the alias already exists: d"
    );
    assert_eq!(FavError::FavoriteNotFound.message(), "no such favorite");
    assert_eq!(FavError::NotFound.message(), "not found");
    assert_eq!(FavError::ConsistencyViolation.message(), "the stored rows are inconsistent");
    assert_eq!(FavError::IdsExhausted.message(), "no identifier is left");
}
