use chrono::NaiveDateTime;
use fav::db::{Alias, AliasArg, Favorite};
use fav::state::State;

fn one_favorite_one_alias() -> State {
    let favorites = vec![Favorite {
        id: 99,
        path: "xyz".into(),
        created_at: NaiveDateTime::default(),
    }];
    let aliases = vec![Alias {
        id: 10,
        favorite_id: 99,
        name: "a".into(),
        created_at: NaiveDateTime::default(),
    }];
    State::init_with(favorites, aliases).unwrap()
}

#[test]
fn test_favorite_list_path() {
    let mut state = State::init();

    let list = Favorite::list_path(false, &state);
    assert!(list.is_empty());

    state.add("a".into(), NaiveDateTime::default()).unwrap();
    state.add("b".into(), NaiveDateTime::default()).unwrap();
    state.add("c".into(), NaiveDateTime::default()).unwrap();

    let list = Favorite::list_path(false, &state);
    assert_eq!(&list[..], &["a", "b", "c"]);
}

#[test]
fn test_alias_list_name() {
    let mut state = State::init();

    let list = Alias::list_name(false, &state);
    assert!(list.is_empty());

    let id = state.add("xyz".into(), NaiveDateTime::default()).unwrap();
    assert_eq!(id, 1);
    let names: Vec<String> = vec!["a".into(), "b".into(), "c".into()];
    state.attach(1, &names, NaiveDateTime::default()).unwrap();

    let list = Alias::list_name(false, &state);
    assert_eq!(&list[..], &["a", "b", "c"]);
}

#[test]
fn test_alias_from_id() {
    let state = State::init();

    let alias = Alias::from_id(10, &state);
    assert!(alias.is_none());

    let state = one_favorite_one_alias();

    let alias = Alias::from_id(10, &state).unwrap();
    let right = Alias {
        id: 10,
        favorite_id: 99,
        name: "a".into(),
        created_at: NaiveDateTime::default(),
    };

    assert_eq!(alias.id, right.id);
    assert_eq!(alias.favorite_id, right.favorite_id);
    assert_eq!(alias.name, right.name);
}

#[test]
fn test_alias_from_name() {
    let state = State::init();

    let alias = Alias::from_id(10, &state);
    assert!(alias.is_none());

    let state = one_favorite_one_alias();

    let alias = Alias::from_name("a", &state).unwrap();
    let right = Alias {
        id: 10,
        favorite_id: 99,
        name: "a".into(),
        created_at: NaiveDateTime::default(),
    };

    assert_eq!(alias.id, right.id);
    assert_eq!(alias.favorite_id, right.favorite_id);
    assert_eq!(alias.name, right.name);
}

#[test]
fn test_alias_get_favorite_path_id() {
    let state = State::init();

    let path = Alias::get_favorite_path(AliasArg::Id(&10), &state);
    assert!(path.is_none());

    let state = one_favorite_one_alias();

    let path = Alias::get_favorite_path(AliasArg::Id(&10), &state);
    assert_eq!(path, Some("xyz".into()));
}

#[test]
fn test_alias_get_favorite_path_name() {
    let state = State::init();

    let path = Alias::get_favorite_path(AliasArg::Name("a"), &state);
    assert!(path.is_none());

    let state = one_favorite_one_alias();

    let path = Alias::get_favorite_path(AliasArg::Name("a"), &state);
    assert_eq!(path, Some("xyz".into()));
}

#[test]
fn test_alias_get_favorite_path_alias() {
    let state = State::init();

    let alias = Alias {
        id: 10,
        favorite_id: 99,
        name: "a".into(),
        created_at: NaiveDateTime::default(),
    };

    let path = Alias::get_favorite_path(AliasArg::Alias(&alias), &state);
    assert!(path.is_none());

    let state = one_favorite_one_alias();

    let path = Alias::get_favorite_path(AliasArg::Alias(&alias), &state);
    assert_eq!(path, Some("xyz".into()));
}

#[test]
fn from_name_misses_other_names() {
    let state = one_favorite_one_alias();
    assert!(Alias::from_name("b", &state).is_none());
    assert!(Alias::from_name("", &state).is_none());
    assert!(Alias::from_id(99, &state).is_none());
}

#[test]
fn alias_in_hand_with_missing_favorite_resolves_to_none() {
    let state = one_favorite_one_alias();
    let stale = Alias {
        id: 10,
        favorite_id: 98,
        name: "a".into(),
        created_at: NaiveDateTime::default(),
    };
    assert_eq!(Alias::get_favorite_path(AliasArg::Alias(&stale), &state), None);
}

#[test]
fn clone_keeps_the_fields() {
    let favorite = Favorite {
        id: 7,
        path: "/srv".into(),
        created_at: NaiveDateTime::default(),
    };
    let copy = favorite.clone();
    assert_eq!(copy.id, 7);
    assert_eq!(copy.path, "/srv");
    assert_eq!(copy.created_at, favorite.created_at);

    let alias = Alias {
        id: 3,
        favorite_id: 7,
        name: "srv".into(),
        created_at: NaiveDateTime::default(),
    };
    let copy = alias.clone();
    assert_eq!(copy.id, 3);
    assert_eq!(copy.favorite_id, 7);
    assert_eq!(copy.name, "srv");
}
