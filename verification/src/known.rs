//! Persisted state and the set of targets it already stands for.

use vstd::prelude::*;
use crate::filter::{kind, kind_of, Kind};
use crate::text::{list_has, lists, views};

verus! {

/// One accepted command: the name it is called by and the path it launches.
#[derive(Clone, Debug, PartialEq, Eq)]
pub struct Command {
    pub name: String,
    pub target: String,
}

/// The state that outlives a session: the accepted commands, whose names
/// are unique, and the paths the user chose to hide.
#[derive(Clone, Debug, PartialEq, Eq)]
pub struct Config {
    pub commands: Vec<Command>,
    pub skipped: Vec<String>,
}

/// What the shortcut resolver found for one shortcut file: its target, or
/// nothing where the file could not be read or parsed.
#[derive(Clone, Debug, PartialEq, Eq)]
pub struct Resolution {
    pub path: String,
    pub target: Option<String>,
}

/// The characters of an optional string.
pub open spec fn option_view(s: Option<String>) -> Option<Seq<char>> {
    match s {
        Some(t) => Some(t@),
        None => None,
    }
}

/// The names of a list of commands, in order.
pub open spec fn command_names(commands: Seq<Command>) -> Seq<Seq<char>> {
    Seq::new(commands.len(), |i: int| commands[i].name@)
}

/// The targets of a list of commands, in order.
pub open spec fn command_targets(commands: Seq<Command>) -> Seq<Seq<char>> {
    Seq::new(commands.len(), |i: int| commands[i].target@)
}

/// What the resolver recorded for `path` in `table[from..]`: the target of
/// the first record with that path.
pub open spec fn looked_up(table: Seq<Resolution>, path: Seq<char>, from: int) -> Option<
    Seq<char>,
>
    decreases table.len() - from,
{
    if from < 0 || from >= table.len() {
        None
    } else if table[from].path@ == path {
        option_view(table[from].target)
    } else {
        looked_up(table, path, from + 1)
    }
}

/// The canonical target of a path, by the kind of file that its extension
/// names in whatever case: for a shortcut what the resolver found, for a
/// direct executable the path itself, for anything else nothing.
pub open spec fn canonical(table: Seq<Resolution>, path: Seq<char>) -> Option<Seq<char>> {
    match kind(path) {
        Some(Kind::Exe) => Some(path),
        Some(_) => looked_up(table, path, 0),
        None => None,
    }
}

/// The canonical targets of `paths[..n]`, in order, without those that have
/// none.
pub open spec fn known_targets(table: Seq<Resolution>, paths: Seq<Seq<char>>, n: int) -> Seq<
    Seq<char>,
>
    decreases n,
{
    if n <= 0 {
        Seq::empty()
    } else {
        let before = known_targets(table, paths, n - 1);
        match canonical(table, paths[n - 1]) {
            Some(t) => before.push(t),
            None => before,
        }
    }
}

/// A target is among `known_targets` exactly if one of the paths has it as
/// its canonical target.
pub proof fn lemma_known_targets_hold(
    table: Seq<Resolution>,
    paths: Seq<Seq<char>>,
    n: int,
    t: Seq<char>,
)
    requires
        0 <= n <= paths.len(),
    ensures
        lists(known_targets(table, paths, n), t) <==> exists|i: int|
            0 <= i < n && canonical(table, paths[i]) == Some(t),
    decreases n,
{
    if n > 0 {
        lemma_known_targets_hold(table, paths, n - 1, t);
        let before = known_targets(table, paths, n - 1);
        let now = known_targets(table, paths, n);
        if lists(now, t) {
            let k = choose|k: int| 0 <= k < now.len() && now[k] == t;
            if k < before.len() {
                assert(before[k] == t);
            } else {
                assert(canonical(table, paths[n - 1]) == Some(t));
            }
        }
        if exists|i: int| 0 <= i < n && canonical(table, paths[i]) == Some(t) {
            let i = choose|i: int| 0 <= i < n && canonical(table, paths[i]) == Some(t);
            if i < n - 1 {
                let k = choose|k: int| 0 <= k < before.len() && before[k] == t;
                assert(now[k] == t);
            } else {
                assert(now[now.len() - 1] == t);
            }
        }
    }
}

impl Config {
    /// Every stored path: the targets of the commands, then the skipped
    /// paths.
    pub open spec fn paths(&self) -> Seq<Seq<char>> {
        command_targets(self.commands@) + views(self.skipped@)
    }

    /// No two commands share a name.
    pub open spec fn wf(&self) -> bool {
        forall|i: int, j: int|
            0 <= i < j < self.commands@.len() ==> self.commands@[i].name@
                != self.commands@[j].name@
    }

    /// The known-target set of this state under `table`.
    pub open spec fn known(&self, table: Seq<Resolution>) -> Seq<Seq<char>> {
        known_targets(table, self.paths(), self.paths().len() as int)
    }

    /// A state with no command and nothing skipped.
    pub fn new() -> (c: Config)
        ensures
            c.commands@.len() == 0,
            c.skipped@.len() == 0,
            c.wf(),
    {
        Config { commands: Vec::new(), skipped: Vec::new() }
    }

    /// Whether no two commands share a name.
    pub fn has_unique_names(&self) -> (b: bool)
        ensures
            b == self.wf(),
    {
        let mut j: usize = 0;
        while j < self.commands.len()
            invariant
                j <= self.commands.len(),
                forall|a: int, b: int|
                    0 <= a < b < j ==> self.commands@[a].name@ != self.commands@[b].name@,
            decreases self.commands.len() - j,
        {
            let mut i: usize = 0;
            while i < j
                invariant
                    i <= j < self.commands.len(),
                    forall|a: int|
                        0 <= a < i ==> self.commands@[a].name@ != self.commands@[j as int].name@,
                decreases j - i,
            {
                if self.commands[i].name == self.commands[j].name {
                    return false;
                }
                i += 1;
            }
            j += 1;
        }
        true
    }

    /// Builds the known-target set: each stored path is resolved once, a
    /// shortcut through `table` and a direct executable as itself; a path
    /// without a canonical target is left out.
    pub fn expand(&self, table: &Vec<Resolution>) -> (known: Vec<String>)
        ensures
            views(known@) == self.known(table@),
    {
        let mut known: Vec<String> = Vec::new();
        let ghost paths = self.paths();
        let mut i: usize = 0;
        while i < self.commands.len()
            invariant
                i <= self.commands.len(),
                paths == self.paths(),
                views(known@) == known_targets(table@, paths, i as int),
            decreases self.commands.len() - i,
        {
            assert(paths[i as int] == self.commands@[i as int].target@);
            match resolve(table, &self.commands[i].target) {
                Some(t) => {
                    known.push(t);
                },
                None => {},
            }
            i += 1;
            assert(views(known@) =~= known_targets(table@, paths, i as int));
        }
        let n: usize = self.commands.len();
        let mut j: usize = 0;
        while j < self.skipped.len()
            invariant
                j <= self.skipped.len(),
                n == self.commands.len(),
                paths == self.paths(),
                views(known@) == known_targets(table@, paths, n + j),
            decreases self.skipped.len() - j,
        {
            assert(paths[n + j] == self.skipped@[j as int]@);
            match resolve(table, &self.skipped[j]) {
                Some(t) => {
                    known.push(t);
                },
                None => {},
            }
            j += 1;
            assert(views(known@) =~= known_targets(table@, paths, n + j));
        }
        known
    }
}

impl Default for Config {
    fn default() -> (c: Config)
        ensures
            c.commands@.len() == 0,
            c.skipped@.len() == 0,
            c.wf(),
    {
        Config::new()
    }
}

/// What the resolver recorded for `path`, if anything.
pub fn look_up(table: &Vec<Resolution>, path: &String) -> (target: Option<String>)
    ensures
        option_view(target) == looked_up(table@, path@, 0),
{
    let mut i: usize = 0;
    while i < table.len()
        invariant
            i <= table.len(),
            looked_up(table@, path@, 0) == looked_up(table@, path@, i as int),
        decreases table.len() - i,
    {
        if table[i].path == *path {
            return match &table[i].target {
                Some(t) => Some(t.clone()),
                None => None,
            };
        }
        i += 1;
    }
    None
}

/// The canonical target of `path`: through the resolver's table for a
/// shortcut, the path itself for a direct executable. The extension tells
/// them apart, as the walk does, whatever its case.
pub fn resolve(table: &Vec<Resolution>, path: &String) -> (target: Option<String>)
    ensures
        option_view(target) == canonical(table@, path@),
{
    match kind_of(path.as_str()) {
        Some(Kind::Exe) => Some(path.clone()),
        Some(_) => look_up(table, path),
        None => None,
    }
}

/// Whether the canonical target of `path` is already among `expanded_lnks`.
/// A shortcut that does not resolve, and a file that is neither a shortcut
/// nor a direct executable, is never counted as present.
pub fn file_exists(expanded_lnks: &Vec<String>, path: &str, table: &Vec<Resolution>) -> (b: bool)
    ensures
        b == match canonical(table@, path@) {
            Some(t) => lists(views(expanded_lnks@), t),
            None => false,
        },
{
    let owned = path.to_owned();
    match resolve(table, &owned) {
        Some(t) => list_has(expanded_lnks, &t),
        None => false,
    }
}

} // verus!
