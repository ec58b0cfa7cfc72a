use chrono::NaiveDateTime;
use fav::cli::{
    Action, Cli, CommandAdd, CommandGet, CommandInit, CommandList, CommandRemove, CommandResolve,
    CommandSet, CommandType, Commands, InitStep, Line,
};
use fav::db::{Alias, Favorite};
use fav::error::FavError;
use fav::state::State;

fn at() -> NaiveDateTime {
    NaiveDateTime::default()
}

fn strings(list: &[&str]) -> Vec<String> {
    list.iter().map(|item| item.to_string()).collect()
}

fn out(list: &[&str]) -> Vec<Line> {
    list.iter().map(|item| Line::Out(item.to_string())).collect()
}

fn add(state: &mut State, path: &str, aliases: &[&str]) -> Result<Vec<Line>, FavError> {
    CommandAdd { aliases: strings(aliases), path: path.into() }.run(state, at())
}

fn sample() -> State {
    let mut state = State::init();
    add(&mut state, "/home/u/docs", &["d", "docs"]).unwrap();
    add(&mut state, "/srv/./www/", &["w"]).unwrap();
    add(&mut state, "/tmp", &[]).unwrap();
    state
}

#[test]
fn add_normalizes_the_path_and_binds_the_names() {
    let state = sample();
    assert_eq!(Favorite::list_path(false, &state), vec!["/home/u/docs", "/srv/www", "/tmp"]);
    assert_eq!(Alias::list_name(false, &state), vec!["d", "docs", "w"]);
}

#[test]
fn add_gives_no_lines() {
    let mut state = State::init();
    assert_eq!(add(&mut state, "/a", &["x"]), Ok(vec![]));
}

#[test]
fn add_of_another_spelling_is_a_duplicate() {
    let mut state = sample();
    assert_eq!(add(&mut state, "/home/u/../u/docs/", &["e"]), Err(FavError::DuplicatePath));
    assert_eq!(Alias::list_name(false, &state), vec!["d", "docs", "w"]);
}

#[test]
fn add_of_an_invalid_path_changes_nothing() {
    let mut state = sample();
    assert_eq!(add(&mut state, "", &["e"]), Err(FavError::InvalidPath));
    assert_eq!(add(&mut state, "/a\0", &["e"]), Err(FavError::InvalidPath));
    assert_eq!(Favorite::list_path(false, &state), vec!["/home/u/docs", "/srv/www", "/tmp"]);
}

#[test]
fn add_keeps_the_path_where_a_name_is_taken() {
    let mut state = sample();
    assert_eq!(
        add(&mut state, "/new", &["n", "d"]),
        Err(FavError::DuplicateAlias("d".to_string()))
    );
    assert_eq!(
        Favorite::list_path(false, &state),
        vec!["/home/u/docs", "/srv/www", "/tmp", "/new"]
    );
    assert_eq!(Alias::list_name(false, &state), vec!["d", "docs", "w"]);
}

#[test]
fn set_binds_names_to_a_favorite() {
    let mut state = sample();
    let set = CommandSet { aliases: strings(&["t", "temp"]), path: "/tmp/a/..".into() };
    assert_eq!(set.run(&mut state, at()), Ok(vec![]));
    assert_eq!(state.alias_names("/tmp"), Ok(strings(&["t", "temp"])));
}

#[test]
fn set_for_a_path_that_is_no_favorite_fails() {
    let mut state = sample();
    let set = CommandSet { aliases: strings(&["t"]), path: "/nowhere".into() };
    assert_eq!(set.run(&mut state, at()), Err(FavError::FavoriteNotFound));
    assert_eq!(Alias::list_name(false, &state), vec!["d", "docs", "w"]);
}

#[test]
fn set_without_names_looks_nothing_up() {
    let mut state = sample();
    let set = CommandSet { aliases: vec![], path: "/nowhere".into() };
    assert_eq!(set.run(&mut state, at()), Ok(vec![]));
    let invalid = CommandSet { aliases: vec![], path: "".into() };
    assert_eq!(invalid.run(&mut state, at()), Err(FavError::InvalidPath));
}

#[test]
fn set_of_a_taken_name_binds_none() {
    let mut state = sample();
    let set = CommandSet { aliases: strings(&["t", "w"]), path: "/tmp".into() };
    assert_eq!(set.run(&mut state, at()), Err(FavError::DuplicateAlias("w".to_string())));
    assert_eq!(state.alias_names("/tmp"), Ok(vec![]));
}

#[test]
fn get_aliases_of_a_path() {
    let mut state = sample();
    let get = CommandGet { _type: CommandType::Alias, value: "/home/./u/docs".into() };
    assert_eq!(get.run(&mut state, at()), Ok(out(&["d", "docs"])));
    let none = CommandGet { _type: CommandType::Alias, value: "/tmp".into() };
    assert_eq!(none.run(&mut state, at()), Ok(vec![]));
    let unknown = CommandGet { _type: CommandType::Alias, value: "/nowhere".into() };
    assert_eq!(unknown.run(&mut state, at()), Ok(vec![]));
    let invalid = CommandGet { _type: CommandType::Alias, value: "".into() };
    assert_eq!(invalid.run(&mut state, at()), Err(FavError::InvalidPath));
}

#[test]
fn get_path_of_an_alias() {
    let mut state = sample();
    let get = CommandGet { _type: CommandType::Path, value: "w".into() };
    assert_eq!(get.run(&mut state, at()), Ok(out(&["/srv/www"])));
    let missing = CommandGet { _type: CommandType::Path, value: "zz".into() };
    assert_eq!(missing.run(&mut state, at()), Ok(vec![Line::NotFound("zz".to_string())]));
}

#[test]
fn resolve_goes_on_after_a_name_that_is_missing() {
    let mut state = sample();
    let resolve = CommandResolve { names: strings(&["d", "zz", "w", "docs"]) };
    assert_eq!(
        resolve.run(&mut state, at()),
        Ok(vec![
            Line::Out("/home/u/docs".to_string()),
            Line::NotFound("zz".to_string()),
            Line::Out("/srv/www".to_string()),
            Line::Out("/home/u/docs".to_string()),
        ])
    );
    let nothing = CommandResolve { names: vec![] };
    assert_eq!(nothing.run(&mut state, at()), Ok(vec![]));
}

#[test]
fn remove_aliases_goes_on_after_a_name_that_is_missing() {
    let mut state = sample();
    let remove = CommandRemove { _type: CommandType::Alias, values: strings(&["d", "zz", "w", "d"]) };
    assert_eq!(
        remove.run(&mut state, at()),
        Ok(vec![Line::NotFound("zz".to_string()), Line::NotFound("d".to_string())])
    );
    assert_eq!(Alias::list_name(false, &state), vec!["docs"]);
    assert_eq!(Favorite::list_path(false, &state), vec!["/home/u/docs", "/srv/www", "/tmp"]);
}

#[test]
fn remove_paths_takes_the_aliases_along() {
    let mut state = sample();
    let remove = CommandRemove {
        _type: CommandType::Path,
        values: strings(&["/home/u/docs/.", "/nowhere", "/tmp"]),
    };
    assert_eq!(remove.run(&mut state, at()), Ok(vec![Line::NotFound("/nowhere".to_string())]));
    assert_eq!(Favorite::list_path(false, &state), vec!["/srv/www"]);
    assert_eq!(Alias::list_name(false, &state), vec!["w"]);
}

#[test]
fn remove_paths_stops_at_a_string_that_is_no_path() {
    let mut state = sample();
    let remove = CommandRemove {
        _type: CommandType::Path,
        values: strings(&["/tmp", "", "/srv/www"]),
    };
    assert_eq!(remove.run(&mut state, at()), Err(FavError::InvalidPath));
    assert_eq!(Favorite::list_path(false, &state), vec!["/home/u/docs", "/srv/www"]);
}

#[test]
fn list_paths_and_aliases() {
    let mut state = sample();
    let paths = CommandList { _type: CommandType::Path, verbose: false };
    assert_eq!(paths.run(&mut state, at()), Ok(out(&["/home/u/docs", "/srv/www", "/tmp"])));
    let aliases = CommandList { _type: CommandType::Alias, verbose: false };
    assert_eq!(aliases.run(&mut state, at()), Ok(out(&["d", "docs", "w"])));
}

#[test]
fn commands_run_what_they_hold() {
    let mut state = State::init();
    let cli = Cli {
        cmd: Some(Commands::Add(CommandAdd { aliases: strings(&["d"]), path: "/home/u/docs".into() })),
    };
    assert_eq!(cli.run(&mut state, at()), Ok(vec![]));
    assert_eq!(Favorite::list_path(false, &state), vec!["/home/u/docs"]);
    assert_eq!(Cli { cmd: None }.run(&mut state, at()), Ok(vec![]));
    assert_eq!(Favorite::list_path(false, &state), vec!["/home/u/docs"]);
    let set = Commands::SetAliases(CommandSet { aliases: strings(&["e"]), path: "/home/u/docs".into() });
    assert_eq!(set.run(&mut state, at()), Ok(vec![]));
    let get = Commands::Get(CommandGet { _type: CommandType::Path, value: "e".into() });
    assert_eq!(get.run(&mut state, at()), Ok(out(&["/home/u/docs"])));
    let resolve = Commands::Resolve(CommandResolve { names: strings(&["d"]) });
    assert_eq!(resolve.run(&mut state, at()), Ok(out(&["/home/u/docs"])));
    let list = Commands::List(CommandList { _type: CommandType::Alias, verbose: false });
    assert_eq!(list.run(&mut state, at()), Ok(out(&["d", "e"])));
    let remove = Commands::Remove(CommandRemove { _type: CommandType::Path, values: strings(&["/home/u/docs"]) });
    assert_eq!(remove.run(&mut state, at()), Ok(vec![]));
    assert!(state.favorites().is_empty());
    assert!(state.aliases().is_empty());
}

#[test]
fn rows_get_the_time_of_the_command() {
    let mut state = State::init();
    let now = chrono::DateTime::from_timestamp(1_700_000_000, 0).unwrap().naive_utc();
    CommandAdd { aliases: strings(&["d"]), path: "/a".into() }.run(&mut state, now).unwrap();
    assert_eq!(state.favorites()[0].created_at, now);
    assert_eq!(state.aliases()[0].created_at, now);
}

#[test]
fn init_keeps_a_database_unless_forced() {
    assert_eq!(CommandInit { force: false }.init(true), InitStep::Keep);
    assert_eq!(CommandInit { force: false }.init(false), InitStep::Create);
    assert_eq!(CommandInit { force: true }.init(true), InitStep::Create);
    assert_eq!(CommandInit { force: true }.init(false), InitStep::Create);
}

#[test]
fn lines_as_they_are_shown() {
    assert_eq!(Line::Out("/a b".to_string()).text(), "/a b");
    assert_eq!(Line::NotFound("zz".to_string()).text(), "\"zz\" could not be found");
    assert!(!Line::Out("x".to_string()).is_diagnostic());
    assert!(Line::NotFound("x".to_string()).is_diagnostic());
}
