//! The commands, and what each of them does to the store.
//!
//! A command is a plain value: the words of the command line, already
//! parsed. Running it changes the store and returns the lines to show. What
//! a command does is written down once, as a function from the store before
//! to the store after and the lines, and the code that runs the command is
//! proved to do that.

use crate::db::{texts, Alias, AliasArg, Favorite};
use crate::error::{FavError, Refusal};
use crate::path::{is_valid_path, normalize_path, normalized};
use crate::relations::{AliasKey, Relations};
use crate::state::State;
use vstd::prelude::*;
use vstd::string::*;

verus! {

/// A line that a command gives back.
#[derive(Debug, PartialEq, Eq)]
pub enum Line {
    /// A value that was asked for, for the standard output.
    Out(String),
    /// A notice that the item could not be found, for the diagnostics.
    NotFound(String),
}

/// The mathematical value of a [`Line`].
pub enum LineView {
    Out(Seq<char>),
    NotFound(Seq<char>),
}

impl View for Line {
    type V = LineView;

    open spec fn view(&self) -> LineView {
        match self {
            Line::Out(value) => LineView::Out(value@),
            Line::NotFound(item) => LineView::NotFound(item@),
        }
    }
}

impl LineView {
    /// The line as it is shown: a value as it is, a missing item in quotes
    /// and with the notice behind it.
    pub open spec fn text(self) -> Seq<char> {
        match self {
            LineView::Out(value) => value,
            LineView::NotFound(item) => seq!['"'] + item + "\" could not be found"@,
        }
    }
}

impl Line {
    /// The line as it is shown.
    pub fn text(&self) -> (shown: String)
        ensures
            shown@ == self@.text(),
    {
        match self {
            Line::Out(value) => value.clone(),
            Line::NotFound(item) => {
                proof {
                    reveal_strlit("\"");
                }
                let mut shown: String = "\"".to_owned();
                shown.append(item.as_str());
                shown.append("\" could not be found");
                shown
            },
        }
    }

    /// Whether the line belongs to the diagnostics.
    pub fn is_diagnostic(&self) -> (diagnostic: bool)
        ensures
            diagnostic == (self@ is NotFound),
    {
        match self {
            Line::Out(_) => false,
            Line::NotFound(_) => true,
        }
    }
}

/// The values that `lines` stand for.
pub open spec fn line_views(lines: Seq<Line>) -> Seq<LineView> {
    Seq::new(lines.len(), |i: int| lines[i]@)
}

/// One line of output for each of `values`.
pub open spec fn out_lines(values: Seq<Seq<char>>) -> Seq<LineView> {
    Seq::new(values.len(), |i: int| LineView::Out(values[i]))
}

/// What running a command ends in, as a mathematical value.
pub open spec fn outcome(r: Result<Vec<Line>, FavError>) -> Result<Seq<LineView>, Refusal> {
    match r {
        Ok(lines) => Ok(line_views(lines@)),
        Err(e) => Err(e@),
    }
}

/// What a command makes of the store, and what it ends in: the lines to
/// show, or the reason why it was given up.
pub struct Effect {
    pub after: Relations,
    pub result: Result<Seq<LineView>, Refusal>,
}

/// The effect of a command that leaves the store alone and ends in `lines`.
pub open spec fn shows(before: Relations, lines: Seq<LineView>) -> Effect {
    Effect { after: before, result: Ok(lines) }
}

/// The effect of a command that is given up with the store as it is.
pub open spec fn gives_up(before: Relations, refusal: Refusal) -> Effect {
    Effect { after: before, result: Err(refusal) }
}

/// The line for the alias `name`: the path it stands for, or the notice that
/// it could not be found.
pub open spec fn resolved_line(before: Relations, name: Seq<char>) -> LineView {
    match before.resolve(AliasKey::Name(name)) {
        Some(path) => LineView::Out(path),
        None => LineView::NotFound(name),
    }
}

/// Binding `names` to the favorite with the canonical path `path`. Without
/// names nothing is looked up and nothing changes; with names the path must
/// be a favorite, and the names are attached all or none.
pub open spec fn set_effect(
    before: Relations,
    path: Seq<char>,
    names: Seq<Seq<char>>,
    now: chrono::NaiveDateTime,
) -> Effect {
    if names.len() == 0 {
        shows(before, Seq::empty())
    } else {
        match before.favorite_by_path(path) {
            None => gives_up(before, Refusal::FavoriteNotFound),
            Some(favorite) => match before.attach_refusal(favorite.id, names) {
                Some(refusal) => gives_up(before, refusal),
                None => shows(before.attach(favorite.id, names, now), Seq::empty()),
            },
        }
    }
}

/// Removing the aliases `names` one after the other. A name that is no alias
/// gets a notice, and the rest is still removed.
pub open spec fn remove_aliases_effect(before: Relations, names: Seq<Seq<char>>) -> (
    Relations,
    Seq<LineView>,
)
    decreases names.len(),
{
    if names.len() == 0 {
        (before, Seq::empty())
    } else {
        let (store, lines) = remove_aliases_effect(before, names.drop_last());
        match store.remove_alias_refusal(names.last()) {
            Some(_) => (store, lines.push(LineView::NotFound(names.last()))),
            None => (store.remove_alias(names.last()), lines),
        }
    }
}

/// Removing the favorites with the paths `paths` one after the other, each
/// under its canonical form. A path that is no favorite gets a notice, and
/// the rest is still removed; a string that is no path ends the command, and
/// what was removed before it stays removed.
pub open spec fn remove_paths_effect(before: Relations, paths: Seq<Seq<char>>) -> Effect
    decreases paths.len(),
{
    if paths.len() == 0 {
        shows(before, Seq::empty())
    } else {
        let done = remove_paths_effect(before, paths.drop_last());
        match done.result {
            Err(_) => done,
            Ok(lines) => if !is_valid_path(paths.last()) {
                gives_up(done.after, Refusal::InvalidPath)
            } else {
                match done.after.remove_refusal(normalized(paths.last())) {
                    Some(_) => shows(done.after, lines.push(LineView::NotFound(paths.last()))),
                    None => shows(done.after.remove(normalized(paths.last())), lines),
                }
            },
        }
    }
}

/// Something that can be run against the store.
pub trait Action {
    /// The command can be run at all.
    spec fn can_run(&self) -> bool;

    /// What running the command at the time `now` makes of the store
    /// `before`.
    spec fn effect(&self, before: Relations, now: chrono::NaiveDateTime) -> Effect;

    /// Runs the command. `now` becomes the time of creation of the rows
    /// that the command adds.
    fn run(&self, state: &mut State, now: chrono::NaiveDateTime) -> (r: Result<Vec<Line>, FavError>)
        requires
            old(state).wf(),
            self.can_run(),
        ensures
            final(state).wf(),
            final(state)@ == self.effect(old(state)@, now).after,
            outcome(r) == self.effect(old(state)@, now).result,
    ;
}

/// Whether a command speaks of aliases or of paths.
#[derive(Debug, Clone, Copy, PartialEq, Eq, Structural)]
pub enum CommandType {
    /// The command is about aliases.
    Alias,
    /// The command is about paths.
    Path,
}

/// What is to be done about the database file when the program is set up.
#[derive(Debug, Clone, Copy, PartialEq, Eq, Structural)]
pub enum InitStep {
    /// The file exists and is kept as it is.
    Keep,
    /// The file is removed if it exists, and made anew.
    Create,
}

/// Sets the program up.
#[derive(Debug)]
pub struct CommandInit {
    /// Make the database anew even if one exists.
    pub force: bool,
}

impl CommandInit {
    /// Decides what to do about the database file, given whether one is
    /// present: a file that is there is kept unless the command forces a new
    /// one.
    pub fn init(&self, present: bool) -> (step: InitStep)
        ensures
            !self.force && present ==> step == InitStep::Keep,
            self.force || !present ==> step == InitStep::Create,
    {
        if !self.force && present {
            InitStep::Keep
        } else {
            InitStep::Create
        }
    }
}

/// Binds `names` to the favorite with the canonical path `path`.
fn set_aliases(
    state: &mut State,
    path: &str,
    names: &Vec<String>,
    now: chrono::NaiveDateTime,
) -> (r: Result<Vec<Line>, FavError>)
    requires
        old(state).wf(),
    ensures
        final(state).wf(),
        final(state)@ == set_effect(old(state)@, path@, texts(names@), now).after,
        outcome(r) == set_effect(old(state)@, path@, texts(names@), now).result,
{
    let lines: Vec<Line> = Vec::new();
    assert(line_views(lines@) =~= Seq::<LineView>::empty());
    if names.len() == 0 {
        return Ok(lines);
    }
    let id: i64 = match state.favorite_by_path(path) {
        Some(favorite) => favorite.id,
        None => {
            return Err(FavError::FavoriteNotFound);
        },
    };
    match state.attach(id, names, now) {
        Ok(()) => Ok(lines),
        Err(e) => Err(e),
    }
}

/// Adds a path, with names for it.
#[derive(Debug)]
pub struct CommandAdd {
    /// The names to bind to the path.
    pub aliases: Vec<String>,
    /// The path, in any spelling.
    pub path: String,
}

impl Action for CommandAdd {
    open spec fn can_run(&self) -> bool {
        true
    }

    /// The path is normalized and added; then the names are bound to it.
    /// Where the names are refused, the path stays added.
    open spec fn effect(&self, before: Relations, now: chrono::NaiveDateTime) -> Effect {
        if !is_valid_path(self.path@) {
            gives_up(before, Refusal::InvalidPath)
        } else {
            match before.add_refusal(normalized(self.path@)) {
                Some(refusal) => gives_up(before, refusal),
                None => set_effect(
                    before.add(normalized(self.path@), now),
                    normalized(self.path@),
                    texts(self.aliases@),
                    now,
                ),
            }
        }
    }

    fn run(&self, state: &mut State, now: chrono::NaiveDateTime) -> (r: Result<Vec<Line>, FavError>) {
        let path: String = match normalize_path(self.path.as_str()) {
            Ok(path) => path,
            Err(e) => {
                return Err(e);
            },
        };
        match state.add(path.clone(), now) {
            Ok(_) => set_aliases(state, path.as_str(), &self.aliases, now),
            Err(e) => Err(e),
        }
    }
}

/// Shows the names of a path, or the path of a name.
#[derive(Debug)]
pub struct CommandGet {
    /// What is asked for: the aliases of a path, or the path of an alias.
    pub _type: CommandType,
    /// The path whose aliases are asked for, or the alias whose path is
    /// asked for.
    pub value: String,
}

impl Action for CommandGet {
    open spec fn can_run(&self) -> bool {
        true
    }

    /// Asked for aliases, the command takes its value for a path and shows
    /// the names of that path; asked for a path, it takes its value for a
    /// name and shows what the name resolves to.
    open spec fn effect(&self, before: Relations, now: chrono::NaiveDateTime) -> Effect {
        match self._type {
            CommandType::Alias => if !is_valid_path(self.value@) {
                gives_up(before, Refusal::InvalidPath)
            } else {
                shows(before, out_lines(before.names_of(normalized(self.value@))))
            },
            CommandType::Path => shows(before, seq![resolved_line(before, self.value@)]),
        }
    }

    fn run(&self, state: &mut State, now: chrono::NaiveDateTime) -> (r: Result<Vec<Line>, FavError>) {
        match self._type {
            CommandType::Alias => match state.alias_names(self.value.as_str()) {
                Ok(names) => Ok(output(names)),
                Err(e) => Err(e),
            },
            CommandType::Path => {
                let mut lines: Vec<Line> = Vec::new();
                lines.push(resolve_name(state, &self.value));
                assert(line_views(lines@) =~= seq![resolved_line(state@, self.value@)]);
                Ok(lines)
            },
        }
    }
}

/// One line of output for each of `values`.
fn output(values: Vec<String>) -> (lines: Vec<Line>)
    ensures
        line_views(lines@) == out_lines(texts(values@)),
{
    let mut lines: Vec<Line> = Vec::new();
    let mut i: usize = 0;
    while i < values.len()
        invariant
            i <= values@.len(),
            lines@.len() == i,
            forall|k: int| 0 <= k < i ==> (#[trigger] lines@[k])@ == LineView::Out(values@[k]@),
        decreases values@.len() - i,
    {
        lines.push(Line::Out(values[i].clone()));
        i += 1;
    }
    lines
}

/// The line for the alias `name`.
fn resolve_name(state: &State, name: &String) -> (line: Line)
    requires
        state.wf(),
    ensures
        line@ == resolved_line(state@, name@),
{
    match Alias::get_favorite_path(AliasArg::Name(name.as_str()), state) {
        Some(path) => Line::Out(path),
        None => Line::NotFound(name.clone()),
    }
}

/// Binds names to a path that is a favorite already.
#[derive(Debug)]
pub struct CommandSet {
    /// The names to bind to the path.
    pub aliases: Vec<String>,
    /// The path, in any spelling.
    pub path: String,
}

impl Action for CommandSet {
    open spec fn can_run(&self) -> bool {
        true
    }

    /// The path is normalized; then the names are bound to it.
    open spec fn effect(&self, before: Relations, now: chrono::NaiveDateTime) -> Effect {
        if !is_valid_path(self.path@) {
            gives_up(before, Refusal::InvalidPath)
        } else {
            set_effect(before, normalized(self.path@), texts(self.aliases@), now)
        }
    }

    fn run(&self, state: &mut State, now: chrono::NaiveDateTime) -> (r: Result<Vec<Line>, FavError>) {
        let path: String = match normalize_path(self.path.as_str()) {
            Ok(path) => path,
            Err(e) => {
                return Err(e);
            },
        };
        set_aliases(state, path.as_str(), &self.aliases, now)
    }
}

/// Removes aliases, or paths together with their aliases.
#[derive(Debug)]
pub struct CommandRemove {
    /// What the values are: aliases or paths.
    pub _type: CommandType,
    /// The aliases or the paths to remove.
    pub values: Vec<String>,
}

impl Action for CommandRemove {
    open spec fn can_run(&self) -> bool {
        true
    }

    /// The values are removed one after the other, as aliases or as paths.
    open spec fn effect(&self, before: Relations, now: chrono::NaiveDateTime) -> Effect {
        match self._type {
            CommandType::Alias => {
                let (after, lines) = remove_aliases_effect(before, texts(self.values@));
                shows(after, lines)
            },
            CommandType::Path => remove_paths_effect(before, texts(self.values@)),
        }
    }

    fn run(&self, state: &mut State, now: chrono::NaiveDateTime) -> (r: Result<Vec<Line>, FavError>) {
        let ghost before = state@;
        let ghost wanted = texts(self.values@);
        let mut lines: Vec<Line> = Vec::new();
        let mut i: usize = 0;
        assert(line_views(lines@) =~= Seq::<LineView>::empty());
        match self._type {
            CommandType::Alias => {
                while i < self.values.len()
                    invariant
                        i <= self.values@.len(),
                        wanted == texts(self.values@),
                        state.wf(),
                        (state@, line_views(lines@)) == remove_aliases_effect(
                            before,
                            wanted.take(i as int),
                        ),
                    decreases self.values@.len() - i,
                {
                    assert(wanted.take(i as int + 1).drop_last() =~= wanted.take(i as int));
                    if state.remove_by_name(self.values[i].as_str()).is_err() {
                        lines.push(Line::NotFound(self.values[i].clone()));
                    }
                    i += 1;
                }
                assert(wanted.take(i as int) =~= wanted);
                Ok(lines)
            },
            CommandType::Path => {
                while i < self.values.len()
                    invariant
                        i <= self.values@.len(),
                        wanted == texts(self.values@),
                        before == old(state)@,
                        self._type == CommandType::Path,
                        state.wf(),
                        shows(state@, line_views(lines@)) == remove_paths_effect(
                            before,
                            wanted.take(i as int),
                        ),
                    decreases self.values@.len() - i,
                {
                    let ghost shown = line_views(lines@);
                    assert(wanted.take(i as int + 1).drop_last() =~= wanted.take(i as int));
                    let path: String = match normalize_path(self.values[i].as_str()) {
                        Ok(path) => path,
                        Err(e) => {
                            proof {
                                lemma_remove_paths_given_up(before, wanted, i as int + 1);
                            }
                            return Err(e);
                        },
                    };
                    match state.remove(path.as_str()) {
                        Ok(()) => {},
                        Err(_) => {
                            lines.push(Line::NotFound(self.values[i].clone()));
                            assert(line_views(lines@) =~= shown.push(
                                LineView::NotFound(self.values@[i as int]@),
                            ));
                        },
                    }
                    i += 1;
                }
                assert(wanted.take(i as int) =~= wanted);
                Ok(lines)
            },
        }
    }
}

/// Once the removal of paths was given up, the paths behind change nothing.
proof fn lemma_remove_paths_given_up(before: Relations, paths: Seq<Seq<char>>, n: int)
    requires
        0 <= n <= paths.len(),
        remove_paths_effect(before, paths.take(n)).result is Err,
    ensures
        remove_paths_effect(before, paths) == remove_paths_effect(before, paths.take(n)),
    decreases paths.len() - n,
{
    if n < paths.len() {
        assert(paths.take(n + 1).drop_last() =~= paths.take(n));
        lemma_remove_paths_given_up(before, paths, n + 1);
    } else {
        assert(paths.take(n) =~= paths);
    }
}

/// Shows the paths that names stand for.
#[derive(Debug)]
pub struct CommandResolve {
    /// The names to resolve.
    pub names: Vec<String>,
}

impl Action for CommandResolve {
    open spec fn can_run(&self) -> bool {
        true
    }

    /// One line for each name, in the order of the names: the path that the
    /// name stands for, or the notice that it could not be found.
    open spec fn effect(&self, before: Relations, now: chrono::NaiveDateTime) -> Effect {
        shows(
            before,
            Seq::new(self.names@.len(), |i: int| resolved_line(before, self.names@[i]@)),
        )
    }

    fn run(&self, state: &mut State, now: chrono::NaiveDateTime) -> (r: Result<Vec<Line>, FavError>) {
        let mut lines: Vec<Line> = Vec::new();
        let mut i: usize = 0;
        while i < self.names.len()
            invariant
                i <= self.names@.len(),
                state.wf(),
                state@ == old(state)@,
                lines@.len() == i,
                forall|k: int|
                    0 <= k < i ==> (#[trigger] lines@[k])@ == resolved_line(
                        state@,
                        self.names@[k]@,
                    ),
            decreases self.names@.len() - i,
        {
            lines.push(resolve_name(state, &self.names[i]));
            i += 1;
        }
        assert(line_views(lines@) =~= self.effect(state@, now).result->Ok_0);
        Ok(lines)
    }
}

/// Lists the paths or the aliases.
#[derive(Debug)]
pub struct CommandList {
    /// What to list: the paths or the aliases.
    pub _type: CommandType,
    /// The verbose listing, which does not exist yet.
    pub verbose: bool,
}

impl Action for CommandList {
    /// Only the plain listing can be run.
    open spec fn can_run(&self) -> bool {
        !self.verbose
    }

    /// One line for each path, or for each alias, in the order of insertion.
    open spec fn effect(&self, before: Relations, now: chrono::NaiveDateTime) -> Effect {
        match self._type {
            CommandType::Path => shows(before, out_lines(before.paths())),
            CommandType::Alias => shows(before, out_lines(before.names())),
        }
    }

    fn run(&self, state: &mut State, now: chrono::NaiveDateTime) -> (r: Result<Vec<Line>, FavError>) {
        match self._type {
            CommandType::Path => Ok(output(Favorite::list_path(self.verbose, state))),
            CommandType::Alias => Ok(output(Alias::list_name(self.verbose, state))),
        }
    }
}

/// The commands of the program.
#[derive(Debug)]
pub enum Commands {
    /// Set the program up.
    Init(CommandInit),
    /// Add a path.
    Add(CommandAdd),
    /// Get the aliases of a path, or the path of an alias.
    Get(CommandGet),
    /// Bind aliases to a path.
    SetAliases(CommandSet),
    /// Remove aliases or paths.
    Remove(CommandRemove),
    /// Resolve aliases.
    Resolve(CommandResolve),
    /// List paths or aliases.
    List(CommandList),
}

impl Action for Commands {
    /// Setting up is not done against a store: that command cannot be run
    /// here.
    open spec fn can_run(&self) -> bool {
        match self {
            Commands::Init(_) => false,
            Commands::Add(cmd) => cmd.can_run(),
            Commands::Get(cmd) => cmd.can_run(),
            Commands::SetAliases(cmd) => cmd.can_run(),
            Commands::Remove(cmd) => cmd.can_run(),
            Commands::Resolve(cmd) => cmd.can_run(),
            Commands::List(cmd) => cmd.can_run(),
        }
    }

    open spec fn effect(&self, before: Relations, now: chrono::NaiveDateTime) -> Effect {
        match self {
            Commands::Init(_) => shows(before, Seq::empty()),
            Commands::Add(cmd) => cmd.effect(before, now),
            Commands::Get(cmd) => cmd.effect(before, now),
            Commands::SetAliases(cmd) => cmd.effect(before, now),
            Commands::Remove(cmd) => cmd.effect(before, now),
            Commands::Resolve(cmd) => cmd.effect(before, now),
            Commands::List(cmd) => cmd.effect(before, now),
        }
    }

    fn run(&self, state: &mut State, now: chrono::NaiveDateTime) -> (r: Result<Vec<Line>, FavError>) {
        match self {
            Commands::Init(_) => Ok(Vec::new()),
            Commands::Add(cmd) => cmd.run(state, now),
            Commands::Get(cmd) => cmd.run(state, now),
            Commands::SetAliases(cmd) => cmd.run(state, now),
            Commands::Remove(cmd) => cmd.run(state, now),
            Commands::Resolve(cmd) => cmd.run(state, now),
            Commands::List(cmd) => cmd.run(state, now),
        }
    }
}

/// The command line: at most one command.
#[derive(Debug)]
pub struct Cli {
    /// The command, if one was given.
    pub cmd: Option<Commands>,
}

impl Action for Cli {
    /// A command line without a command can always be run.
    open spec fn can_run(&self) -> bool {
        match self.cmd {
            Some(cmd) => cmd.can_run(),
            None => true,
        }
    }

    /// The command is run, if there is one; without a command nothing
    /// happens.
    open spec fn effect(&self, before: Relations, now: chrono::NaiveDateTime) -> Effect {
        match self.cmd {
            Some(cmd) => cmd.effect(before, now),
            None => shows(before, Seq::empty()),
        }
    }

    fn run(&self, state: &mut State, now: chrono::NaiveDateTime) -> (r: Result<Vec<Line>, FavError>) {
        match &self.cmd {
            Some(cmd) => cmd.run(state, now),
            None => {
                let lines: Vec<Line> = Vec::new();
                assert(line_views(lines@) =~= Seq::<LineView>::empty());
                Ok(lines)
            },
        }
    }
}

} // verus!
