//! What a discovery session does to the persisted state, and the phases it
//! goes through.

use vstd::prelude::*;
use crate::known::{command_names, command_targets, Command, Config};
use crate::text::{list_has, lists, views};

verus! {

/// The members of `offered[..n]` that are not in `selected`, in order.
pub open spec fn unselected(offered: Seq<Seq<char>>, selected: Seq<Seq<char>>, n: int) -> Seq<
    Seq<char>,
>
    decreases n,
{
    if n <= 0 {
        Seq::empty()
    } else {
        let before = unselected(offered, selected, n - 1);
        if lists(selected, offered[n - 1]) {
            before
        } else {
            before.push(offered[n - 1])
        }
    }
}

/// Every offered path is either selected or among the unselected ones.
pub proof fn lemma_offered_is_split(
    offered: Seq<Seq<char>>,
    selected: Seq<Seq<char>>,
    n: int,
    k: int,
)
    requires
        0 <= k < n <= offered.len(),
    ensures
        lists(selected, offered[k]) || lists(unselected(offered, selected, n), offered[k]),
    decreases n,
{
    let now = unselected(offered, selected, n);
    let before = unselected(offered, selected, n - 1);
    if k < n - 1 {
        lemma_offered_is_split(offered, selected, n - 1, k);
        if lists(before, offered[k]) {
            let i = choose|i: int| 0 <= i < before.len() && before[i] == offered[k];
            assert(now[i] == offered[k]);
        }
    } else if !lists(selected, offered[k]) {
        assert(now[before.len() as int] == offered[k]);
    }
}

impl Config {
    /// Whether a command of this name exists, so that accepting under it
    /// needs the user's word.
    pub fn has_name(&self, name: &String) -> (b: bool)
        ensures
            b == lists(command_names(self.commands@), name@),
    {
        self.position(name).is_some()
    }

    /// The place of the command called `name`.
    fn position(&self, name: &String) -> (at: Option<usize>)
        ensures
            match at {
                Some(i) => i < self.commands@.len() && self.commands@[i as int].name@ == name@,
                None => !lists(command_names(self.commands@), name@),
            },
            at is Some <==> lists(command_names(self.commands@), name@),
    {
        let ghost names = command_names(self.commands@);
        let mut i: usize = 0;
        while i < self.commands.len()
            invariant
                i <= self.commands.len(),
                names == command_names(self.commands@),
                forall|j: int| 0 <= j < i ==> names[j] != name@,
            decreases self.commands.len() - i,
        {
            if self.commands[i].name == *name {
                assert(names[i as int] == name@);
                return Some(i);
            }
            i += 1;
        }
        None
    }

    /// Accepts `path` under `name`. A new name is added. A name that exists
    /// is given the new path only if `overwrite` says so; otherwise the
    /// state stays exactly as it was and the new mapping is dropped. Returns
    /// whether the mapping was stored.
    pub fn accept(&mut self, name: String, path: String, overwrite: bool) -> (stored: bool)
        requires
            old(self).wf(),
        ensures
            final(self).wf(),
            final(self).skipped == old(self).skipped,
            stored == (overwrite || !lists(command_names(old(self).commands@), name@)),
            !stored ==> *final(self) == *old(self),
            stored ==> lists(command_names(final(self).commands@), name@),
            stored ==> lists(command_targets(final(self).commands@), path@),
            stored && !lists(command_names(old(self).commands@), name@) ==> {
                &&& command_names(final(self).commands@) == command_names(
                    old(self).commands@,
                ).push(name@)
                &&& command_targets(final(self).commands@) == command_targets(
                    old(self).commands@,
                ).push(path@)
            },
            stored && lists(command_names(old(self).commands@), name@) ==> {
                &&& command_names(final(self).commands@) == command_names(old(self).commands@)
                &&& final(self).commands@.len() == old(self).commands@.len()
                &&& forall|i: int|
                    0 <= i < old(self).commands@.len() ==> #[trigger] command_targets(
                        final(self).commands@,
                    )[i] == if old(self).commands@[i].name@ == name@ {
                        path@
                    } else {
                        old(self).commands@[i].target@
                    }
            },
    {
        let ghost before = self.commands@;
        match self.position(&name) {
            Some(i) => {
                if !overwrite {
                    return false;
                }
                self.commands.set(i, Command { name, target: path });
                assert(command_names(self.commands@) =~= command_names(before));
                assert(command_targets(self.commands@)[i as int] == path@);
                assert(command_names(self.commands@)[i as int] == name@);
                assert forall|a: int, b: int|
                    0 <= a < b < self.commands@.len() implies self.commands@[a].name@
                    != self.commands@[b].name@ by {
                    assert(command_names(self.commands@)[a] == command_names(before)[a]);
                    assert(command_names(self.commands@)[b] == command_names(before)[b]);
                }
                true
            },
            None => {
                self.commands.push(Command { name, target: path });
                assert(command_names(self.commands@) =~= command_names(before).push(name@));
                assert(command_targets(self.commands@) =~= command_targets(before).push(path@));
                assert(command_targets(self.commands@)[before.len() as int] == path@);
                assert(command_names(self.commands@)[before.len() as int] == name@);
                assert forall|a: int, b: int|
                    0 <= a < b < self.commands@.len() implies self.commands@[a].name@
                    != self.commands@[b].name@ by {
                    if b == before.len() {
                        assert(command_names(before)[a] != name@);
                    }
                }
                true
            },
        }
    }

    /// Hides every offered path that was not selected, so that no later
    /// session offers it again. The commands are not touched.
    pub fn skip_unselected(&mut self, offered: &Vec<String>, selected: &Vec<String>)
        ensures
            final(self).commands == old(self).commands,
            views(final(self).skipped@) == views(old(self).skipped@) + unselected(
                views(offered@),
                views(selected@),
                offered@.len() as int,
            ),
            forall|k: int|
                0 <= k < offered@.len() ==> lists(views(selected@), #[trigger] views(offered@)[k])
                    || lists(views(final(self).skipped@), views(offered@)[k]),
    {
        let ghost start = views(self.skipped@);
        let mut i: usize = 0;
        while i < offered.len()
            invariant
                i <= offered.len(),
                self.commands == old(self).commands,
                start == views(old(self).skipped@),
                views(self.skipped@) == start + unselected(
                    views(offered@),
                    views(selected@),
                    i as int,
                ),
            decreases offered.len() - i,
        {
            let ghost then = views(self.skipped@);
            assert(views(offered@)[i as int] == offered@[i as int]@);
            if !list_has(selected, &offered[i]) {
                self.skipped.push(offered[i].clone());
                assert(views(self.skipped@) =~= then.push(offered@[i as int]@));
            }
            i += 1;
            assert(views(self.skipped@) =~= start + unselected(
                views(offered@),
                views(selected@),
                i as int,
            ));
        }
        proof {
            let rest = unselected(views(offered@), views(selected@), offered@.len() as int);
            assert forall|k: int| 0 <= k < offered@.len() implies lists(
                views(selected@),
                #[trigger] views(offered@)[k],
            ) || lists(views(self.skipped@), views(offered@)[k]) by {
                lemma_offered_is_split(views(offered@), views(selected@), offered@.len() as int, k);
                if lists(rest, views(offered@)[k]) {
                    let i = choose|i: int| 0 <= i < rest.len() && rest[i] == views(offered@)[k];
                    assert(views(self.skipped@)[start.len() + i] == views(offered@)[k]);
                }
            }
        }
    }
}

/// The phases of a discovery session.
#[derive(Clone, Copy, Debug, PartialEq, Eq, Structural)]
pub enum Phase {
    Idle,
    Walking,
    Collecting,
    Presenting,
    Updating,
    Done,
}

/// What can happen to a session from outside.
#[derive(Clone, Copy, Debug, PartialEq, Eq, Structural)]
pub enum Signal {
    /// The walk of the roots was started.
    Begin,
    /// A candidate arrived while the walk is still running.
    Arrived,
    /// Every worker has finished; `candidates` survived the filters.
    Closed { candidates: usize },
    /// The user made a choice among the candidates.
    Chosen,
    /// The user left the choice without selecting.
    Aborted,
    /// The state was written.
    Saved,
}

/// The phase that follows `phase` on `signal`. A walk that closes without a
/// candidate ends the session at once, with nothing presented; a signal that
/// the phase does not wait for leaves it as it is.
pub open spec fn phase_after(phase: Phase, signal: Signal) -> Phase {
    match (phase, signal) {
        (Phase::Idle, Signal::Begin) => Phase::Walking,
        (Phase::Walking, Signal::Arrived) => Phase::Collecting,
        (Phase::Walking, Signal::Closed { candidates }) => if candidates == 0 {
            Phase::Done
        } else {
            Phase::Presenting
        },
        (Phase::Collecting, Signal::Closed { candidates }) => if candidates == 0 {
            Phase::Done
        } else {
            Phase::Presenting
        },
        (Phase::Presenting, Signal::Chosen) => Phase::Updating,
        (Phase::Presenting, Signal::Aborted) => Phase::Done,
        (Phase::Updating, Signal::Saved) => Phase::Done,
        _ => phase,
    }
}

/// Moves a session on by one signal.
pub fn advance(phase: Phase, signal: Signal) -> (next: Phase)
    ensures
        next == phase_after(phase, signal),
{
    match (phase, signal) {
        (Phase::Idle, Signal::Begin) => Phase::Walking,
        (Phase::Walking, Signal::Arrived) => Phase::Collecting,
        (Phase::Walking, Signal::Closed { candidates }) => if candidates == 0 {
            Phase::Done
        } else {
            Phase::Presenting
        },
        (Phase::Collecting, Signal::Closed { candidates }) => if candidates == 0 {
            Phase::Done
        } else {
            Phase::Presenting
        },
        (Phase::Presenting, Signal::Chosen) => Phase::Updating,
        (Phase::Presenting, Signal::Aborted) => Phase::Done,
        (Phase::Updating, Signal::Saved) => Phase::Done,
        _ => phase,
    }
}

/// A finished session stays finished, whatever arrives.
pub proof fn lemma_done_is_final(signal: Signal)
    ensures
        phase_after(Phase::Done, signal) == Phase::Done,
{
}

} // verus!
