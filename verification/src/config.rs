//! Where the program keeps its database.
//!
//! The database is the file `fav.db` in the directory `.config/fav` under
//! the home directory of the user.

use vstd::prelude::*;
use vstd::string::*;

verus! {

/// The path of the entry `name` in the directory `base`: the two with one
/// separator between them. No separator is added where `base` is empty or
/// ends in one.
pub open spec fn entry_of(base: Seq<char>, name: Seq<char>) -> Seq<char> {
    if base.len() == 0 || base.last() == '/' {
        base + name
    } else {
        base + seq!['/'] + name
    }
}

/// The directory of the program under the home directory `home`.
pub open spec fn config_dir_of(home: Seq<char>) -> Seq<char> {
    entry_of(entry_of(home, ".config"@), "fav"@)
}

/// The database file under the home directory `home`.
pub open spec fn db_path_of(home: Seq<char>) -> Seq<char> {
    entry_of(config_dir_of(home), "fav.db"@)
}

/// Calls `dirs::home_dir` and hands back the home directory of the user as
/// text. Nothing is claimed of the result: it depends on the environment of
/// the process, there is none where the system knows of none, and none is
/// handed back where the directory is not valid Unicode.
#[verifier::external_body]
fn home_dir() -> (home: Option<String>) {
    match dirs::home_dir() {
        Some(home) => home.into_os_string().into_string().ok(),
        None => None,
    }
}

/// Writes `name` behind `base` as an entry of that directory.
fn push_entry(base: String, name: &str) -> (entry: String)
    ensures
        entry@ == entry_of(base@, name@),
{
    let len: usize = base.as_str().unicode_len();
    let mut entry: String = base;
    if len > 0 && entry.as_str().get_char(len - 1) != '/' {
        proof {
            reveal_strlit("/");
        }
        entry.append("/");
    }
    entry.append(name);
    entry
}

/// The directory of the program under the home directory `home`.
pub fn config_dir_in(home: &str) -> (dir: String)
    ensures
        dir@ == config_dir_of(home@),
{
    push_entry(push_entry(home.to_owned(), ".config"), "fav")
}

/// The database file under the home directory `home`.
pub fn db_path_in(home: &str) -> (file: String)
    ensures
        file@ == db_path_of(home@),
{
    push_entry(config_dir_in(home), "fav.db")
}

/// The directory of the program, under the home directory of the user.
/// There is none where the home directory is not known.
pub fn config_dir() -> (dir: Option<String>)
    ensures
        dir matches Some(d) ==> exists|home: Seq<char>| d@ == #[trigger] config_dir_of(home),
{
    let home: Option<String> = home_dir();
    config_dir_for(home)
}

/// The database file, under the home directory of the user. There is none
/// where the home directory is not known. Which directory that is depends
/// on the environment of the process, so this says what holds of every home
/// directory that there could be; `db_path_for` says what comes of each.
pub fn db_path() -> (file: Option<String>)
    ensures
        file matches Some(f) ==> exists|home: Seq<char>| f@ == #[trigger] db_path_of(home),
{
    let home: Option<String> = home_dir();
    db_path_for(home)
}

/// The directory of the program, given the home directory of the user as
/// far as it is known: the directory under that home, and none where the
/// home is not known.
pub fn config_dir_for(home: Option<String>) -> (dir: Option<String>)
    ensures
        match home {
            Some(known) => dir matches Some(d) && d@ == config_dir_of(known@),
            None => dir is None,
        },
{
    match home {
        Some(known) => Some(config_dir_in(known.as_str())),
        None => None,
    }
}

/// The database file, given the home directory of the user as far as it is
/// known: the file under that home, and none where the home is not known.
pub fn db_path_for(home: Option<String>) -> (file: Option<String>)
    ensures
        match home {
            Some(known) => file matches Some(f) && f@ == db_path_of(known@),
            None => file is None,
        },
{
    match home {
        Some(known) => Some(db_path_in(known.as_str())),
        None => None,
    }
}

} // verus!
