//! The crawler's per-entry predicates: which paths are pruned, which files
//! count as launchable, and which of those are noise.

use vstd::prelude::*;
use crate::text::{
    chars_of, contains, has_substring, list_has, lists, lowercase, lowercase_of, occurs_at, same,
    slice, string_of, views,
};

verus! {

/// A character that parts the components of a path.
pub open spec fn is_separator(c: char) -> bool {
    c == '\\' || c == '/'
}

/// `path[from..to]` is one whole component of `path`: it reaches from one
/// separator (or the start) to the next (or the end).
pub open spec fn is_component(path: Seq<char>, from: int, to: int) -> bool {
    &&& 0 <= from <= to <= path.len()
    &&& (from == 0 || is_separator(path[from - 1]))
    &&& (to == path.len() || is_separator(path[to]))
    &&& forall|k: int| from <= k < to ==> !is_separator(#[trigger] path[k])
}

/// Where the file name begins in `path[..n]`: behind its last separator.
pub open spec fn name_start(path: Seq<char>, n: int) -> int
    decreases n,
{
    if n <= 0 {
        0
    } else if is_separator(path[n - 1]) {
        n
    } else {
        name_start(path, n - 1)
    }
}

/// Where the file name ends in `path[..n]`: before the separators that
/// close the path.
pub open spec fn name_end(path: Seq<char>, n: int) -> int
    decreases n,
{
    if n <= 0 {
        0
    } else if is_separator(path[n - 1]) {
        name_end(path, n - 1)
    } else {
        n
    }
}

/// The file name of a path: its last component, whether or not separators
/// follow it. A path of separators alone, and the empty path, have none.
pub open spec fn file_name(path: Seq<char>) -> Seq<char> {
    let end = name_end(path, path.len() as int);
    path.subrange(name_start(path, end), end)
}

/// The position of the last `.` in `name[..n]`, or -1.
pub open spec fn last_dot(name: Seq<char>, n: int) -> int
    decreases n,
{
    if n <= 0 {
        -1
    } else if name[n - 1] == '.' {
        n - 1
    } else {
        last_dot(name, n - 1)
    }
}

/// The file name without its extension. A name with no dot, or with its only
/// dot in front, is its own stem.
pub open spec fn file_stem(path: Seq<char>) -> Seq<char> {
    let name = file_name(path);
    let dot = last_dot(name, name.len() as int);
    if dot <= 0 {
        name
    } else {
        name.subrange(0, dot)
    }
}

/// What follows the last dot of the file name, if a dot stands inside it.
pub open spec fn extension(path: Seq<char>) -> Option<Seq<char>> {
    let name = file_name(path);
    let dot = last_dot(name, name.len() as int);
    if dot <= 0 {
        None
    } else {
        Some(name.subrange(dot + 1, name.len() as int))
    }
}

/// Directory names that mark build output and scratch space.
pub open spec fn noisy_dirs() -> Seq<Seq<char>> {
    seq!["debug"@, "release"@, "obj"@, "bin"@, "build"@, "node_modules"@, "temp"@]
}

/// Words in a file stem that mark installers, tests and samples.
pub open spec fn noisy_words() -> Seq<Seq<char>> {
    seq!["debug"@, "test"@, "example"@, "sample"@, "setup"@, "uninstall"@, "install"@]
}

/// Some component of `path`, in lower case, is one of `noisy_dirs`.
pub open spec fn in_noisy_dir(path: Seq<char>) -> bool {
    exists|from: int, to: int|
        is_component(path, from, to) && lists(
            noisy_dirs(),
            lowercase_of(#[trigger] path.subrange(from, to)),
        )
}

/// The stem of the file, in lower case, holds one of `noisy_words`.
pub open spec fn has_noisy_stem(path: Seq<char>) -> bool {
    exists|k: int|
        0 <= k < noisy_words().len() && has_substring(
            lowercase_of(file_stem(path)),
            #[trigger] noisy_words()[k],
        )
}

/// A path that a user would want to launch: outside build directories, and
/// not named like an installer, a test or a sample.
pub open spec fn user_friendly(path: Seq<char>) -> bool {
    !in_noisy_dir(path) && !has_noisy_stem(path)
}

/// A regular file whose extension, in lower case, is one of `extensions`.
pub open spec fn executable(is_dir: bool, path: Seq<char>, extensions: Seq<Seq<char>>) -> bool {
    !is_dir && match extension(path) {
        Some(ext) => lists(extensions, lowercase_of(ext)),
        None => false,
    }
}

/// The kinds of launchable file.
#[derive(Clone, Copy, Debug, PartialEq, Eq, Structural)]
pub enum Kind {
    Exe,
    Lnk,
    Url,
}

/// The kind that a folded extension stands for.
pub open spec fn kind_named(folded: Seq<char>) -> Option<Kind> {
    if folded == seq!['e', 'x', 'e'] {
        Some(Kind::Exe)
    } else if folded == seq!['l', 'n', 'k'] {
        Some(Kind::Lnk)
    } else if folded == seq!['u', 'r', 'l'] {
        Some(Kind::Url)
    } else {
        None
    }
}

/// The kind of the file at `path`, by its extension in lower case.
pub open spec fn kind(path: Seq<char>) -> Option<Kind> {
    match extension(path) {
        Some(ext) => kind_named(lowercase_of(ext)),
        None => None,
    }
}

/// One of `excluded` stands somewhere in `path`.
pub open spec fn pruned(path: Seq<char>, excluded: Seq<Seq<char>>) -> bool {
    exists|k: int| 0 <= k < excluded.len() && has_substring(path, #[trigger] excluded[k])
}

/// What prunes a directory prunes everything below it: a path that holds
/// an excluded substring still holds it however it is continued, so the
/// walk loses nothing by not descending.
pub proof fn lemma_pruning_covers_subtree(
    path: Seq<char>,
    below: Seq<char>,
    excluded: Seq<Seq<char>>,
)
    requires
        pruned(path, excluded),
    ensures
        pruned(path + below, excluded),
{
    let k = choose|k: int| 0 <= k < excluded.len() && has_substring(path, #[trigger] excluded[k]);
    let at = choose|at: int| occurs_at(path, excluded[k], at);
    assert((path + below).subrange(at, at + excluded[k].len()) =~= path.subrange(
        at,
        at + excluded[k].len(),
    ));
    assert(occurs_at(path + below, excluded[k], at));
}

/// Substrings that prune an entry, and with it the subtree below it, from
/// the walk of the start-menu and desktop roots.
pub open spec fn default_exclusions() -> Seq<Seq<char>> {
    seq![
        "Windows Kits"@,
        "Windows Accessories"@,
        "PowerShell"@,
        "Visual Studio"@,
        "Windows System"@,
        "Windows Tools"@,
        "Accessibility"@,
        "System Tools"@,
        "Accessories"@,
        "Git"@,
        "make"@,
        "Make"@,
        "Microsoft Edge"@,
        "Node.js"@,
        "Administrative Tools"@,
        "Python"@,
        "rhiza"@,
    ]
}

/// The extensions of launchable files.
pub open spec fn default_extensions() -> Seq<Seq<char>> {
    seq!["exe"@, "lnk"@, "url"@]
}

fn noisy_dir_list() -> (r: Vec<String>)
    ensures
        views(r@) == noisy_dirs(),
{
    let mut r: Vec<String> = Vec::new();
    r.push("debug".to_owned());
    r.push("release".to_owned());
    r.push("obj".to_owned());
    r.push("bin".to_owned());
    r.push("build".to_owned());
    r.push("node_modules".to_owned());
    r.push("temp".to_owned());
    assert(views(r@) =~= noisy_dirs());
    r
}

fn noisy_word_list() -> (r: Vec<String>)
    ensures
        views(r@) == noisy_words(),
{
    let mut r: Vec<String> = Vec::new();
    r.push("debug".to_owned());
    r.push("test".to_owned());
    r.push("example".to_owned());
    r.push("sample".to_owned());
    r.push("setup".to_owned());
    r.push("uninstall".to_owned());
    r.push("install".to_owned());
    assert(views(r@) =~= noisy_words());
    r
}

/// The exclusion list that discovery uses when the caller names none.
pub fn exclusion_list() -> (r: Vec<String>)
    ensures
        views(r@) == default_exclusions(),
{
    let mut r: Vec<String> = Vec::new();
    r.push("Windows Kits".to_owned());
    r.push("Windows Accessories".to_owned());
    r.push("PowerShell".to_owned());
    r.push("Visual Studio".to_owned());
    r.push("Windows System".to_owned());
    r.push("Windows Tools".to_owned());
    r.push("Accessibility".to_owned());
    r.push("System Tools".to_owned());
    r.push("Accessories".to_owned());
    r.push("Git".to_owned());
    r.push("make".to_owned());
    r.push("Make".to_owned());
    r.push("Microsoft Edge".to_owned());
    r.push("Node.js".to_owned());
    r.push("Administrative Tools".to_owned());
    r.push("Python".to_owned());
    r.push("rhiza".to_owned());
    assert(views(r@) =~= default_exclusions());
    r
}

/// The extension list that discovery uses when the caller names none.
pub fn extension_list() -> (r: Vec<String>)
    ensures
        views(r@) == default_extensions(),
{
    let mut r: Vec<String> = Vec::new();
    r.push("exe".to_owned());
    r.push("lnk".to_owned());
    r.push("url".to_owned());
    assert(views(r@) =~= default_extensions());
    r
}

fn separates(c: char) -> (b: bool)
    ensures
        b == is_separator(c),
{
    c == '\\' || c == '/'
}

/// The file name of `path`.
pub(crate) fn name_of(path: &Vec<char>) -> (name: Vec<char>)
    ensures
        name@ == file_name(path@),
{
    let mut end: usize = path.len();
    while end > 0 && separates(path[end - 1])
        invariant
            end <= path.len(),
            name_end(path@, path@.len() as int) == name_end(path@, end as int),
        decreases end,
    {
        end -= 1;
    }
    let mut start: usize = end;
    while start > 0 && !separates(path[start - 1])
        invariant
            start <= end <= path.len(),
            name_start(path@, end as int) == name_start(path@, start as int),
        decreases start,
    {
        start -= 1;
    }
    slice(path, start, end)
}

/// The position of the last dot in `path[from..]`, counted from `from`.
fn find_last_dot(path: &Vec<char>, from: usize) -> (dot: Option<usize>)
    requires
        from <= path.len(),
    ensures
        match dot {
            Some(d) => d == last_dot(
                path@.subrange(from as int, path@.len() as int),
                path@.len() - from,
            ) && d < path.len() - from,
            None => last_dot(path@.subrange(from as int, path@.len() as int), path@.len() - from)
                == -1,
        },
{
    let ghost name = path@.subrange(from as int, path@.len() as int);
    let mut i: usize = path.len();
    while i > from
        invariant
            from <= i <= path.len(),
            name == path@.subrange(from as int, path@.len() as int),
            last_dot(name, path@.len() - from) == last_dot(name, i - from),
        decreases i,
    {
        if path[i - 1] == '.' {
            assert(name[i - 1 - from] == '.');
            return Some(i - 1 - from);
        }
        assert(name[i - 1 - from] == path@[i - 1]);
        i -= 1;
    }
    None
}

/// Whether one of `excluded` stands somewhere in `path`, compared case by
/// case. The walk drops such an entry and never descends below it.
pub fn is_pruned(path: &str, excluded: &Vec<String>) -> (b: bool)
    ensures
        b == pruned(path@, views(excluded@)),
{
    let hay = chars_of(path);
    let mut k: usize = 0;
    while k < excluded.len()
        invariant
            k <= excluded.len(),
            hay@ == path@,
            forall|j: int| 0 <= j < k ==> !has_substring(path@, #[trigger] views(excluded@)[j]),
        decreases excluded.len() - k,
    {
        let needle = chars_of(excluded[k].as_str());
        if contains(&hay, &needle) {
            assert(has_substring(path@, views(excluded@)[k as int]));
            return true;
        }
        k += 1;
    }
    false
}

/// Whether an entry is a regular file with one of the wanted extensions. The
/// extension is compared in lower case; `extensions` is taken as given.
pub fn is_executable(is_dir: bool, path: &str, extensions: &Vec<String>) -> (b: bool)
    ensures
        b == executable(is_dir, path@, views(extensions@)),
{
    if is_dir {
        return false;
    }
    let v = chars_of(path);
    match extension_of(&v) {
        Some(ext) => {
            let low = lowercase(ext.as_str());
            list_has(extensions, &low)
        },
        None => false,
    }
}

/// The kind that an extension stands for, where it is already in lower
/// case.
pub fn kind_of_extension(folded: &str) -> (k: Option<Kind>)
    ensures
        k == kind_named(folded@),
{
    let e = chars_of(folded);
    let exe: Vec<char> = vec!['e', 'x', 'e'];
    let lnk: Vec<char> = vec!['l', 'n', 'k'];
    let url: Vec<char> = vec!['u', 'r', 'l'];
    assert(exe@ =~= seq!['e', 'x', 'e'] && lnk@ =~= seq!['l', 'n', 'k'] && url@ =~= seq![
        'u',
        'r',
        'l',
    ]);
    if same(&e, &exe) {
        Some(Kind::Exe)
    } else if same(&e, &lnk) {
        Some(Kind::Lnk)
    } else if same(&e, &url) {
        Some(Kind::Url)
    } else {
        None
    }
}

/// The kind of a candidate: executable, binary shortcut or internet
/// shortcut, by its extension in whatever case it is written.
pub fn kind_of(path: &str) -> (k: Option<Kind>)
    ensures
        k == kind(path@),
{
    let v = chars_of(path);
    match extension_of(&v) {
        Some(ext) => {
            let low = lowercase(ext.as_str());
            kind_of_extension(low.as_str())
        },
        None => None,
    }
}

/// The extension of a path, as written.
pub(crate) fn extension_of(v: &Vec<char>) -> (ext: Option<String>)
    ensures
        crate::known::option_view(ext) == extension(v@),
{
    let name = name_of(v);
    assert(name@.subrange(0, name@.len() as int) =~= name@);
    match find_last_dot(&name, 0) {
        Some(d) => {
            if d == 0 {
                return None;
            }
            Some(string_of(&name, d + 1, name.len()))
        },
        None => None,
    }
}

/// The stem of a path's file name.
pub(crate) fn stem_of(v: &Vec<char>) -> (stem: String)
    ensures
        stem@ == file_stem(v@),
{
    let name = name_of(v);
    assert(name@.subrange(0, name@.len() as int) =~= name@);
    let end: usize = match find_last_dot(&name, 0) {
        Some(d) => if d == 0 {
            name.len()
        } else {
            d
        },
        None => name.len(),
    };
    string_of(&name, 0, end)
}

/// Whether the stem of `path`, in lower case, holds one of the noisy words.
fn stem_is_noisy(v: &Vec<char>) -> (b: bool)
    ensures
        b == has_noisy_stem(v@),
{
    let stem = stem_of(v);
    let low = lowercase(stem.as_str());
    let hay = chars_of(low.as_str());
    let words = noisy_word_list();
    let mut k: usize = 0;
    while k < words.len()
        invariant
            k <= words.len(),
            views(words@) == noisy_words(),
            hay@ == lowercase_of(file_stem(v@)),
            forall|j: int| 0 <= j < k ==> !has_substring(hay@, #[trigger] noisy_words()[j]),
        decreases words.len() - k,
    {
        let needle = chars_of(words[k].as_str());
        assert(needle@ == views(words@)[k as int]);
        if contains(&hay, &needle) {
            return true;
        }
        k += 1;
    }
    false
}

/// Whether some component of `path`, in lower case, is a noisy directory.
fn dir_is_noisy(v: &Vec<char>) -> (b: bool)
    ensures
        b == in_noisy_dir(v@),
{
    let dirs = noisy_dir_list();
    let mut start: usize = 0;
    let mut i: usize = 0;
    loop
        invariant
            start <= i <= v.len(),
            views(dirs@) == noisy_dirs(),
            start == 0 || is_separator(v@[start - 1]),
            forall|k: int| start <= k < i ==> !is_separator(#[trigger] v@[k]),
            forall|from: int, to: int|
                is_component(v@, from, to) && to < start ==> !lists(
                    noisy_dirs(),
                    lowercase_of(#[trigger] v@.subrange(from, to)),
                ),
        decreases v.len() - i,
    {
        if i == v.len() || separates(v[i]) {
            let part = string_of(v, start, i);
            let low = lowercase(part.as_str());
            assert(is_component(v@, start as int, i as int));
            if list_has(&dirs, &low) {
                return true;
            }
            assert forall|from: int, to: int|
                is_component(v@, from, to) && to <= i implies !lists(
                noisy_dirs(),
                lowercase_of(#[trigger] v@.subrange(from, to)),
            ) by {
                if to >= start {
                    if to < i {
                        assert(!is_separator(v@[to]));
                    }
                    if from < start {
                        assert(is_separator(v@[start - 1]));
                    }
                    if from > start {
                        assert(!is_separator(v@[from - 1]));
                    }
                    assert(from == start && to == i);
                }
            }
            if i == v.len() {
                return false;
            }
            start = i + 1;
        }
        i += 1;
    }
}

/// Whether a file is worth offering: it lies in no build or scratch
/// directory and its stem names no installer, test or sample. A pure
/// predicate of the path.
pub fn is_user_friendly(path: &str) -> (b: bool)
    ensures
        b == user_friendly(path@),
{
    let v = chars_of(path);
    if dir_is_noisy(&v) {
        return false;
    }
    !stem_is_noisy(&v)
}

} // verus!
