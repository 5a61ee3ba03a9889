//! The selector: a live external filter where one can be launched, and the
//! buffered list otherwise.

use vstd::prelude::*;
use crate::text::{chars_of, string_of, trim, trimmed};

verus! {

/// Where a selection stands.
#[derive(Clone, Copy, Debug, PartialEq, Eq, Structural)]
pub enum Selector {
    Start,
    /// An external filter is being launched.
    ProbeExternal,
    /// The external filter runs and takes lines.
    ExternalLive,
    /// The external filter runs but takes no more lines.
    ExternalStopped,
    /// No external filter: the stream is drained into memory.
    BufferedFallback,
    Resolved,
    Cancelled,
}

/// What can happen during a selection.
#[derive(Clone, Copy, Debug, PartialEq, Eq, Structural)]
pub enum Happening {
    Begin,
    Launched,
    LaunchFailed,
    /// An item arrived from the stream.
    Item,
    /// A write to the external filter failed.
    WriteFailed,
    /// Every sender is gone: the stream has ended.
    StreamClosed,
    /// The external filter exited, with status zero or not.
    Exited { success: bool },
    /// The user picked from the buffered list.
    Picked,
    /// The user left the buffered list without picking.
    Dismissed,
}

/// What the caller is to do next.
#[derive(Clone, Copy, Debug, PartialEq, Eq, Structural)]
pub enum Task {
    Nothing,
    /// Launch the external filter with piped input and output.
    Launch,
    /// Write the item to the filter's input as one line.
    WriteLine,
    /// Keep the item in memory.
    Buffer,
    /// Close the filter's input and wait for it to exit.
    CloseInput,
    /// Score, rank and cut what was buffered, and present it.
    Present,
    /// Take the filter's trimmed output as the selection.
    TakeOutput,
}

/// The state and the task that follow on a happening. A failed launch falls
/// back to the buffered list; a failed write only stops the writing; the
/// external filter resolves the selection exactly when it exits with
/// success. What a state does not wait for changes nothing.
pub open spec fn selector_after(state: Selector, event: Happening) -> (Selector, Task) {
    match (state, event) {
        (Selector::Start, Happening::Begin) => (Selector::ProbeExternal, Task::Launch),
        (Selector::ProbeExternal, Happening::Launched) => (Selector::ExternalLive, Task::Nothing),
        (Selector::ProbeExternal, Happening::LaunchFailed) => (
            Selector::BufferedFallback,
            Task::Nothing,
        ),
        (Selector::ExternalLive, Happening::Item) => (Selector::ExternalLive, Task::WriteLine),
        (Selector::ExternalLive, Happening::WriteFailed) => (
            Selector::ExternalStopped,
            Task::Nothing,
        ),
        (Selector::ExternalLive, Happening::StreamClosed) => (
            Selector::ExternalLive,
            Task::CloseInput,
        ),
        (Selector::ExternalStopped, Happening::StreamClosed) => (
            Selector::ExternalStopped,
            Task::CloseInput,
        ),
        (Selector::ExternalLive, Happening::Exited { success }) => if success {
            (Selector::Resolved, Task::TakeOutput)
        } else {
            (Selector::Cancelled, Task::Nothing)
        },
        (Selector::ExternalStopped, Happening::Exited { success }) => if success {
            (Selector::Resolved, Task::TakeOutput)
        } else {
            (Selector::Cancelled, Task::Nothing)
        },
        (Selector::BufferedFallback, Happening::Item) => (Selector::BufferedFallback, Task::Buffer),
        (Selector::BufferedFallback, Happening::StreamClosed) => (
            Selector::BufferedFallback,
            Task::Present,
        ),
        (Selector::BufferedFallback, Happening::Picked) => (Selector::Resolved, Task::Nothing),
        (Selector::BufferedFallback, Happening::Dismissed) => (Selector::Cancelled, Task::Nothing),
        _ => (state, Task::Nothing),
    }
}

/// Moves a selection on by one happening and says what to do.
pub fn select_step(state: Selector, event: Happening) -> (next: (Selector, Task))
    ensures
        next == selector_after(state, event),
{
    match (state, event) {
        (Selector::Start, Happening::Begin) => (Selector::ProbeExternal, Task::Launch),
        (Selector::ProbeExternal, Happening::Launched) => (Selector::ExternalLive, Task::Nothing),
        (Selector::ProbeExternal, Happening::LaunchFailed) => (
            Selector::BufferedFallback,
            Task::Nothing,
        ),
        (Selector::ExternalLive, Happening::Item) => (Selector::ExternalLive, Task::WriteLine),
        (Selector::ExternalLive, Happening::WriteFailed) => (
            Selector::ExternalStopped,
            Task::Nothing,
        ),
        (Selector::ExternalLive, Happening::StreamClosed) => (
            Selector::ExternalLive,
            Task::CloseInput,
        ),
        (Selector::ExternalStopped, Happening::StreamClosed) => (
            Selector::ExternalStopped,
            Task::CloseInput,
        ),
        (Selector::ExternalLive, Happening::Exited { success }) => if success {
            (Selector::Resolved, Task::TakeOutput)
        } else {
            (Selector::Cancelled, Task::Nothing)
        },
        (Selector::ExternalStopped, Happening::Exited { success }) => if success {
            (Selector::Resolved, Task::TakeOutput)
        } else {
            (Selector::Cancelled, Task::Nothing)
        },
        (Selector::BufferedFallback, Happening::Item) => (Selector::BufferedFallback, Task::Buffer),
        (Selector::BufferedFallback, Happening::StreamClosed) => (
            Selector::BufferedFallback,
            Task::Present,
        ),
        (Selector::BufferedFallback, Happening::Picked) => (Selector::Resolved, Task::Nothing),
        (Selector::BufferedFallback, Happening::Dismissed) => (Selector::Cancelled, Task::Nothing),
        _ => (state, Task::Nothing),
    }
}

/// The text of a selection as a selector process printed it, without the
/// white space and line end around it.
pub fn selection_of(output: &str) -> (s: String)
    ensures
        s@ == trimmed(output@),
{
    let v = chars_of(output);
    let t = trim(&v);
    string_of(&t, 0, t.len())
}

/// A selection that is resolved or cancelled stays so and asks for nothing.
pub proof fn lemma_outcome_is_final(state: Selector, event: Happening)
    requires
        state == Selector::Resolved || state == Selector::Cancelled,
    ensures
        selector_after(state, event) == (state, Task::Nothing),
{
}

/// Nothing is ever written to an external filter that has stopped taking
/// lines, or that never ran.
pub proof fn lemma_writes_only_while_live(state: Selector, event: Happening)
    ensures
        selector_after(state, event).1 == Task::WriteLine ==> state == Selector::ExternalLive
            && event == Happening::Item,
{
}

} // verus!
