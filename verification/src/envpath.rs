//! The search path of the user's environment, as one string of entries
//! parted by semicolons.

use vstd::prelude::*;
use crate::text::{chars_of, has_suffix, push_char, same, slice};

verus! {

/// `list[from..to]` is one whole entry of the list.
pub open spec fn is_entry(list: Seq<char>, from: int, to: int) -> bool {
    &&& 0 <= from <= to <= list.len()
    &&& (from == 0 || list[from - 1] == ';')
    &&& (to == list.len() || list[to] == ';')
    &&& forall|k: int| from <= k < to ==> #[trigger] list[k] != ';'
}

/// `entry` is one of the entries of `list`.
pub open spec fn on_path(list: Seq<char>, entry: Seq<char>) -> bool {
    exists|from: int, to: int|
        is_entry(list, from, to) && #[trigger] list.subrange(from, to) == entry
}

/// `list` with `entry` added at its end.
pub open spec fn extended(list: Seq<char>, entry: Seq<char>) -> Seq<char> {
    if has_suffix(list, seq![';']) {
        list + entry
    } else {
        list + seq![';'] + entry
    }
}

/// Whether `entry` is one of the entries of the search path `list`.
pub fn path_lists(list: &str, entry: &str) -> (b: bool)
    ensures
        b == on_path(list@, entry@),
{
    let v = chars_of(list);
    let e = chars_of(entry);
    let mut start: usize = 0;
    let mut i: usize = 0;
    loop
        invariant
            start <= i <= v.len(),
            v@ == list@,
            e@ == entry@,
            start == 0 || v@[start - 1] == ';',
            forall|k: int| start <= k < i ==> #[trigger] v@[k] != ';',
            forall|from: int, to: int|
                is_entry(v@, from, to) && to < start ==> #[trigger] v@.subrange(from, to) != e@,
        decreases v.len() - i,
    {
        if i == v.len() || v[i] == ';' {
            let part = slice(&v, start, i);
            assert(is_entry(v@, start as int, i as int));
            if same(&part, &e) {
                return true;
            }
            assert forall|from: int, to: int|
                is_entry(v@, from, to) && to <= i implies #[trigger] v@.subrange(from, to)
                != e@ by {
                if to >= start {
                    if to < i {
                        assert(v@[to] != ';');
                    }
                    if from < start {
                        assert(v@[start - 1] == ';');
                    }
                    if from > start {
                        assert(v@[from - 1] != ';');
                    }
                    assert(from == start && to == i);
                }
            }
            if i == v.len() {
                return false;
            }
            start = i + 1;
        }
        i += 1;
    }
}

/// The search path with `entry` added, or `None` where it is listed
/// already. The new entry goes to the end, behind one semicolon.
pub fn add_to_path(list: &str, entry: &str) -> (grown: Option<String>)
    ensures
        on_path(list@, entry@) ==> grown is None,
        !on_path(list@, entry@) ==> grown is Some && grown->0@ == extended(list@, entry@),
{
    if path_lists(list, entry) {
        return None;
    }
    let v = chars_of(list);
    let mut grown = list.to_owned();
    let ends = v.len() > 0 && v[v.len() - 1] == ';';
    proof {
        let mark = seq![';'];
        if v@.len() > 0 {
            assert(v@.subrange(v@.len() - 1, v@.len() as int) =~= seq![v@[v@.len() - 1]]);
            assert(seq![v@[v@.len() - 1]][0] == v@[v@.len() - 1]);
            assert(mark[0] == ';');
        }
        assert(ends == has_suffix(list@, mark));
    }
    if !ends {
        push_char(&mut grown, ';');
    }
    grown.append(entry);
    assert(grown@ =~= extended(list@, entry@));
    Some(grown)
}

/// Whether the first-run setup has to be made: the home of the tool or its
/// state file is missing, or its directory is not on the search path.
pub fn needs_setup(home_exists: bool, state_exists: bool, listed: bool) -> (b: bool)
    ensures
        b == (!home_exists || !state_exists || !listed),
{
    !home_exists || !state_exists || !listed
}

} // verus!
