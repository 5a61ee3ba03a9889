//! Discovery: which of the entries that a walk found are offered to the user.

use vstd::prelude::*;
use crate::filter::{
    executable, is_executable, is_pruned, is_user_friendly, pruned, user_friendly,
};
use crate::known::{
    canonical, known_targets, lemma_known_targets_hold, resolve, Config, Resolution,
};
use crate::text::{list_has, lists, views};

verus! {

/// One entry that the walk of the roots came upon.
#[derive(Clone, Debug, PartialEq, Eq)]
pub struct Entry {
    pub path: String,
    pub is_dir: bool,
}

/// An entry that passes the filters of the walk: not pruned, a regular file
/// with a wanted extension, and user friendly.
pub open spec fn qualifies(e: Entry, excluded: Seq<Seq<char>>, extensions: Seq<Seq<char>>) -> bool {
    &&& !pruned(e.path@, excluded)
    &&& executable(e.is_dir, e.path@, extensions)
    &&& user_friendly(e.path@)
}

/// Some path of `found` has `t` as its canonical target.
pub open spec fn claimed(table: Seq<Resolution>, found: Seq<Seq<char>>, t: Seq<char>) -> bool {
    exists|k: int| 0 <= k < found.len() && canonical(table, #[trigger] found[k]) == Some(t)
}

/// A path that must not be offered: it is stored already, it was found
/// already, or its canonical target is that of a stored or found path.
pub open spec fn suppressed(
    table: Seq<Resolution>,
    stored: Seq<Seq<char>>,
    found: Seq<Seq<char>>,
    path: Seq<char>,
) -> bool {
    ||| lists(stored, path)
    ||| lists(found, path)
    ||| match canonical(table, path) {
        Some(t) => claimed(table, stored, t) || claimed(table, found, t),
        None => false,
    }
}

/// The candidates among `entries[..n]`, in the order of their arrival: each
/// entry that qualifies and is not suppressed by the state or by a candidate
/// before it.
pub open spec fn candidates(
    table: Seq<Resolution>,
    stored: Seq<Seq<char>>,
    excluded: Seq<Seq<char>>,
    extensions: Seq<Seq<char>>,
    entries: Seq<Entry>,
    n: int,
) -> Seq<Seq<char>>
    decreases n,
{
    if n <= 0 {
        Seq::empty()
    } else {
        let found = candidates(table, stored, excluded, extensions, entries, n - 1);
        let e = entries[n - 1];
        if qualifies(e, excluded, extensions) && !suppressed(table, stored, found, e.path@) {
            found.push(e.path@)
        } else {
            found
        }
    }
}

/// The candidates of a whole walk.
pub open spec fn all_candidates(
    table: Seq<Resolution>,
    stored: Seq<Seq<char>>,
    excluded: Seq<Seq<char>>,
    extensions: Seq<Seq<char>>,
    entries: Seq<Entry>,
) -> Seq<Seq<char>> {
    candidates(table, stored, excluded, extensions, entries, entries.len() as int)
}

proof fn lemma_lists_push(list: Seq<Seq<char>>, item: Seq<char>, x: Seq<char>)
    ensures
        lists(list.push(item), x) <==> lists(list, x) || item == x,
{
    let grown = list.push(item);
    if lists(grown, x) {
        let k = choose|k: int| 0 <= k < grown.len() && grown[k] == x;
        if k < list.len() {
            assert(list[k] == x);
        }
    }
    if lists(list, x) {
        let k = choose|k: int| 0 <= k < list.len() && list[k] == x;
        assert(grown[k] == x);
    }
    if item == x {
        assert(grown[list.len() as int] == x);
    }
}

proof fn lemma_claimed_push(
    table: Seq<Resolution>,
    found: Seq<Seq<char>>,
    path: Seq<char>,
    t: Seq<char>,
)
    ensures
        claimed(table, found.push(path), t) <==> claimed(table, found, t) || canonical(
            table,
            path,
        ) == Some(t),
{
    let grown = found.push(path);
    if claimed(table, grown, t) {
        let k = choose|k: int| 0 <= k < grown.len() && canonical(table, grown[k]) == Some(t);
        if k < found.len() {
            assert(canonical(table, found[k]) == Some(t));
        }
    }
    if claimed(table, found, t) {
        let k = choose|k: int| 0 <= k < found.len() && canonical(table, found[k]) == Some(t);
        assert(canonical(table, grown[k]) == Some(t));
    }
    if canonical(table, path) == Some(t) {
        assert(canonical(table, grown[found.len() as int]) == Some(t));
    }
}

/// The candidates only grow as more entries arrive.
pub proof fn lemma_candidates_grow(
    table: Seq<Resolution>,
    stored: Seq<Seq<char>>,
    excluded: Seq<Seq<char>>,
    extensions: Seq<Seq<char>>,
    entries: Seq<Entry>,
    n: int,
    m: int,
    path: Seq<char>,
)
    requires
        n <= m,
        lists(candidates(table, stored, excluded, extensions, entries, n), path),
    ensures
        lists(candidates(table, stored, excluded, extensions, entries, m), path),
    decreases m - n,
{
    if n < m {
        lemma_candidates_grow(table, stored, excluded, extensions, entries, n, m - 1, path);
        let found = candidates(table, stored, excluded, extensions, entries, m - 1);
        if m > 0 {
            lemma_lists_push(found, entries[m - 1].path@, path);
        }
    }
}

/// No candidate is stored in the state, and none has a canonical target that
/// the state already stands for: what the known-target set holds is never
/// offered again.
pub proof fn lemma_candidates_are_new(
    table: Seq<Resolution>,
    stored: Seq<Seq<char>>,
    excluded: Seq<Seq<char>>,
    extensions: Seq<Seq<char>>,
    entries: Seq<Entry>,
    n: int,
)
    ensures
        forall|k: int|
            #![trigger candidates(table, stored, excluded, extensions, entries, n)[k]]
            0 <= k < candidates(table, stored, excluded, extensions, entries, n).len() ==> {
                let c = candidates(table, stored, excluded, extensions, entries, n)[k];
                &&& !lists(stored, c)
                &&& match canonical(table, c) {
                    Some(t) => !lists(known_targets(table, stored, stored.len() as int), t),
                    None => true,
                }
            },
    decreases n,
{
    if n > 0 {
        lemma_candidates_are_new(table, stored, excluded, extensions, entries, n - 1);
        let path = entries[n - 1].path@;
        match canonical(table, path) {
            Some(t) => {
                lemma_known_targets_hold(table, stored, stored.len() as int, t);
            },
            None => {},
        }
    }
}

/// No two candidates are the same path, and no two resolve to the same
/// canonical target: a file reached twice is offered once.
pub proof fn lemma_candidates_are_distinct(
    table: Seq<Resolution>,
    stored: Seq<Seq<char>>,
    excluded: Seq<Seq<char>>,
    extensions: Seq<Seq<char>>,
    entries: Seq<Entry>,
    n: int,
)
    ensures
        forall|i: int, j: int|
            #![trigger
                candidates(table, stored, excluded, extensions, entries, n)[i],
                candidates(table, stored, excluded, extensions, entries, n)[j],
            ]
            0 <= i < j < candidates(table, stored, excluded, extensions, entries, n).len() ==> {
                let a = candidates(table, stored, excluded, extensions, entries, n)[i];
                let b = candidates(table, stored, excluded, extensions, entries, n)[j];
                &&& a != b
                &&& (canonical(table, a) is Some ==> canonical(table, a) != canonical(table, b))
            },
    decreases n,
{
    if n > 0 {
        lemma_candidates_are_distinct(table, stored, excluded, extensions, entries, n - 1);
        let found = candidates(table, stored, excluded, extensions, entries, n - 1);
        let now = candidates(table, stored, excluded, extensions, entries, n);
        let path = entries[n - 1].path@;
        assert forall|i: int, j: int| 0 <= i < j < now.len() implies {
            &&& now[i] != now[j]
            &&& (canonical(table, now[i]) is Some ==> canonical(table, now[i]) != canonical(
                table,
                now[j],
            ))
        } by {
            if j == found.len() {
                assert(now[j] == path);
                assert(found[i] == now[i]);
                assert(!suppressed(table, stored, found, path));
                if canonical(table, now[i]) is Some {
                    let t = canonical(table, now[i])->0;
                    assert(canonical(table, found[i]) == Some(t));
                    if canonical(table, path) == Some(t) {
                        assert(claimed(table, found, t));
                    }
                }
            } else {
                assert(found[i] == now[i] && found[j] == now[j]);
            }
        }
    }
}

/// A second walk finds nothing new. Where a later state still holds every
/// path of the earlier one, and holds every candidate of the first walk as
/// accepted or skipped, the same entries under the same resolver table
/// yield no candidate at all.
pub proof fn lemma_second_walk_is_empty(
    table: Seq<Resolution>,
    stored: Seq<Seq<char>>,
    later: Seq<Seq<char>>,
    excluded: Seq<Seq<char>>,
    extensions: Seq<Seq<char>>,
    entries: Seq<Entry>,
    n: int,
)
    requires
        n <= entries.len(),
        forall|i: int| 0 <= i < stored.len() ==> lists(later, #[trigger] stored[i]),
        forall|k: int|
            0 <= k < all_candidates(table, stored, excluded, extensions, entries).len() ==> lists(
                later,
                #[trigger] all_candidates(table, stored, excluded, extensions, entries)[k],
            ),
    ensures
        candidates(table, later, excluded, extensions, entries, n).len() == 0,
    decreases n,
{
    if n > 0 {
        lemma_second_walk_is_empty(table, stored, later, excluded, extensions, entries, n - 1);
        let e = entries[n - 1];
        let path = e.path@;
        let first = candidates(table, stored, excluded, extensions, entries, n - 1);
        let whole = all_candidates(table, stored, excluded, extensions, entries);
        let empty = candidates(table, later, excluded, extensions, entries, n - 1);
        if qualifies(e, excluded, extensions) {
            // Whatever the first walk made of this entry, the later state
            // suppresses it.
            if !suppressed(table, stored, first, path) {
                let grown = candidates(table, stored, excluded, extensions, entries, n);
                assert(grown[first.len() as int] == path);
                assert(lists(grown, path));
                lemma_candidates_grow(
                    table,
                    stored,
                    excluded,
                    extensions,
                    entries,
                    n,
                    entries.len() as int,
                    path,
                );
                let k = choose|k: int| 0 <= k < whole.len() && whole[k] == path;
                assert(lists(later, whole[k]));
            } else if lists(stored, path) {
                let i = choose|i: int| 0 <= i < stored.len() && stored[i] == path;
                assert(lists(later, stored[i]));
            } else if lists(first, path) {
                lemma_candidates_grow(
                    table,
                    stored,
                    excluded,
                    extensions,
                    entries,
                    n - 1,
                    entries.len() as int,
                    path,
                );
                let k = choose|k: int| 0 <= k < whole.len() && whole[k] == path;
                assert(lists(later, whole[k]));
            } else {
                let t = canonical(table, path)->0;
                if claimed(table, stored, t) {
                    let i = choose|i: int|
                        0 <= i < stored.len() && canonical(table, stored[i]) == Some(t);
                    assert(lists(later, stored[i]));
                    let m = choose|m: int| 0 <= m < later.len() && later[m] == stored[i];
                    assert(canonical(table, later[m]) == Some(t));
                } else {
                    let j = choose|j: int|
                        0 <= j < first.len() && canonical(table, first[j]) == Some(t);
                    assert(lists(first, first[j]));
                    lemma_candidates_grow(
                        table,
                        stored,
                        excluded,
                        extensions,
                        entries,
                        n - 1,
                        entries.len() as int,
                        first[j],
                    );
                    let k = choose|k: int| 0 <= k < whole.len() && whole[k] == first[j];
                    assert(lists(later, whole[k]));
                    let m = choose|m: int| 0 <= m < later.len() && later[m] == first[j];
                    assert(canonical(table, later[m]) == Some(t));
                }
                assert(claimed(table, later, t));
            }
            assert(suppressed(table, later, empty, path));
        }
    }
}

/// Whether some command of `config` launches `path`.
fn launches(config: &Config, path: &String) -> (b: bool)
    ensures
        b == lists(crate::known::command_targets(config.commands@), path@),
{
    let ghost targets = crate::known::command_targets(config.commands@);
    let mut i: usize = 0;
    while i < config.commands.len()
        invariant
            i <= config.commands.len(),
            targets == crate::known::command_targets(config.commands@),
            forall|j: int| 0 <= j < i ==> targets[j] != path@,
        decreases config.commands.len() - i,
    {
        if config.commands[i].target == *path {
            assert(targets[i as int] == path@);
            return true;
        }
        i += 1;
    }
    false
}

/// Picks the candidates out of what a walk found. An entry is offered when
/// it passes the filters and neither the state nor an earlier candidate
/// stands for it, by its path or by its canonical target. The known-target
/// set is built once, before the first entry is looked at.
pub fn crawl_directory(
    config: &Config,
    table: &Vec<Resolution>,
    entries: &Vec<Entry>,
    excluded: &Vec<String>,
    extensions: &Vec<String>,
) -> (found: Vec<String>)
    ensures
        views(found@) == all_candidates(
            table@,
            config.paths(),
            views(excluded@),
            views(extensions@),
            entries@,
        ),
        forall|k: int|
            0 <= k < found@.len() ==> !lists(config.paths(), #[trigger] views(found@)[k]),
        forall|k: int|
            0 <= k < found@.len() ==> match canonical(table@, #[trigger] views(found@)[k]) {
                Some(t) => !lists(config.known(table@), t),
                None => true,
            },
        forall|i: int, j: int|
            0 <= i < j < found@.len() ==> {
                &&& #[trigger] views(found@)[i] != #[trigger] views(found@)[j]
                &&& (canonical(table@, views(found@)[i]) is Some ==> canonical(
                    table@,
                    views(found@)[i],
                ) != canonical(table@, views(found@)[j]))
            },
{
    let seen_before = config.expand(table);
    let mut seen: Vec<String> = Vec::new();
    let mut found: Vec<String> = Vec::new();
    let ghost stored = config.paths();
    let ghost ex = views(excluded@);
    let ghost exts = views(extensions@);
    let mut i: usize = 0;
    while i < entries.len()
        invariant
            i <= entries.len(),
            stored == config.paths(),
            ex == views(excluded@),
            exts == views(extensions@),
            views(seen_before@) == config.known(table@),
            views(found@) == candidates(table@, stored, ex, exts, entries@, i as int),
            forall|t: Seq<char>|
                lists(views(seen@), t) <==> claimed(table@, views(found@), t),
        decreases entries.len() - i,
    {
        let e = &entries[i];
        let ghost before = views(found@);
        let ghost seen_then = views(seen@);
        if !is_pruned(e.path.as_str(), excluded) && is_executable(
            e.is_dir,
            e.path.as_str(),
            extensions,
        ) && is_user_friendly(e.path.as_str()) {
            assert(qualifies(*e, ex, exts));
            if !launches(config, &e.path) && !list_has(&config.skipped, &e.path) && !list_has(
                &found,
                &e.path,
            ) {
                proof {
                    let targets = crate::known::command_targets(config.commands@);
                    let skipped = views(config.skipped@);
                    if lists(stored, e.path@) {
                        let k = choose|k: int| 0 <= k < stored.len() && stored[k] == e.path@;
                        if k < targets.len() {
                            assert(targets[k] == e.path@);
                        } else {
                            assert(skipped[k - targets.len()] == e.path@);
                        }
                    }
                    assert(!lists(stored, e.path@));
                }
                let target = resolve(table, &e.path);
                let fresh = match &target {
                    Some(t) => {
                        proof {
                            lemma_known_targets_hold(table@, stored, stored.len() as int, t@);
                        }
                        !list_has(&seen_before, t) && !list_has(&seen, t)
                    },
                    None => true,
                };
                if fresh {
                    assert(!suppressed(table@, stored, before, e.path@));
                    found.push(e.path.clone());
                    assert(views(found@) =~= before.push(e.path@));
                    match target {
                        Some(t) => {
                            seen.push(t);
                            assert(views(seen@) =~= seen_then.push(t@));
                        },
                        None => {},
                    }
                    proof {
                        assert forall|t: Seq<char>|
                            lists(views(seen@), t) <==> claimed(table@, views(found@), t) by {
                            lemma_claimed_push(table@, before, e.path@, t);
                            match canonical(table@, e.path@) {
                                Some(u) => {
                                    lemma_lists_push(seen_then, u, t);
                                },
                                None => {},
                            }
                        }
                    }
                } else {
                    assert(suppressed(table@, stored, before, e.path@));
                }
            } else {
                proof {
                    let targets = crate::known::command_targets(config.commands@);
                    let skipped = views(config.skipped@);
                    if lists(targets, e.path@) {
                        let k = choose|k: int| 0 <= k < targets.len() && targets[k] == e.path@;
                        assert(stored[k] == e.path@);
                    }
                    if lists(skipped, e.path@) {
                        let k = choose|k: int| 0 <= k < skipped.len() && skipped[k] == e.path@;
                        assert(stored[targets.len() + k] == e.path@);
                    }
                }
                assert(suppressed(table@, stored, before, e.path@));
            }
        }
        i += 1;
    }
    proof {
        lemma_candidates_are_new(table@, stored, ex, exts, entries@, entries@.len() as int);
        lemma_candidates_are_distinct(table@, stored, ex, exts, entries@, entries@.len() as int);
    }
    found
}

} // verus!
