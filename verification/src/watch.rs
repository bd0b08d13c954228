//! The watch loop, as an explicit state machine.
//!
//! One edit session watches the source file's parent directory, debounces
//! the bursts of filesystem events an editor emits per save, re-converts the
//! source once a burst has settled, and polls the supervised editor process
//! between events. The machine here makes every decision; the caller owns
//! the channel, the timers and the child process, performs the action each
//! step asks for, and feeds the outcome back as the next input.

use vstd::prelude::*;

use crate::ErrorKind;
use crate::ProcStatus;

verus! {

/// The states of a watch session that is still running.
#[derive(Debug, Clone, Copy, PartialEq, Eq, Structural)]
pub enum WatchState {
    /// Waiting for the next filesystem event, polling the child process
    /// between timeouts.
    Watching,
    /// A matching event arrived; draining further events until the debounce
    /// window passes with none.
    Debouncing,
    /// The burst settled; the source is being re-converted.
    Reconverting,
}

/// What the session's surroundings report to the machine.
pub enum WatchInput {
    /// Polling the child process found it exited with this status.
    ChildExited(ProcStatus),
    /// A filesystem event arrived; `matches_source` says whether it names
    /// the exact source path with a modify or create kind.
    FsEvent { matches_source: bool },
    /// The watch subsystem delivered an error instead of an event.
    WatchFailed(String),
    /// No event arrived within the wait the last action asked for.
    TimedOut,
    /// The event channel disconnected: the watcher is gone.
    Disconnected,
    /// The re-conversion the machine asked for finished; `None` is success,
    /// `Some` carries the conversion error.
    Converted(Option<ErrorKind>),
}

/// What the machine asks its caller to do next.
#[derive(Debug, Clone, Copy, PartialEq, Eq, Structural)]
pub enum WatchAction {
    /// Poll the child process, then wait up to the polling timeout for an
    /// event.
    WaitForEvent,
    /// Wait up to the debounce window for a further event.
    WaitForQuiet,
    /// Re-read the source, convert it, and overwrite the cache file.
    Reconvert,
}

/// One step of the machine: either the session continues in a state with an
/// action to perform, or it is over.
pub enum WatchStep {
    /// The session goes on.
    Continue(WatchState, WatchAction),
    /// The session is over. `kill_child` asks the caller to terminate the
    /// child process first; `outcome` is `None` for a clean end and carries
    /// the session's error otherwise.
    Finish { kill_child: bool, outcome: Option<ErrorKind> },
}

/// The transition relation of the watch loop.
///
/// In any state, a child exit ends the session: cleanly on success, with
/// `MarimoExited` otherwise, and never by killing the child. A watch error
/// ends it with `Watch`; a disconnected channel ends it with
/// `WatchDisconnected` after killing the child. While watching, only a
/// modify-or-create event on the exact source path opens the debounce
/// window; any event at all keeps it open, and a quiet window triggers one
/// re-conversion. A failed re-conversion kills the child and ends the
/// session with the conversion's error. Inputs a state never waits for
/// leave the session where it stands.
pub open spec fn watch_transition(state: WatchState, input: WatchInput) -> WatchStep {
    match input {
        WatchInput::ChildExited(st) => if st.success {
            WatchStep::Finish { kill_child: false, outcome: None }
        } else {
            WatchStep::Finish { kill_child: false, outcome: Some(ErrorKind::MarimoExited(st)) }
        },
        WatchInput::WatchFailed(m) => WatchStep::Finish {
            kill_child: false,
            outcome: Some(ErrorKind::Watch(m)),
        },
        WatchInput::Disconnected => WatchStep::Finish {
            kill_child: true,
            outcome: Some(ErrorKind::WatchDisconnected),
        },
        WatchInput::FsEvent { matches_source } => match state {
            WatchState::Watching => if matches_source {
                WatchStep::Continue(WatchState::Debouncing, WatchAction::WaitForQuiet)
            } else {
                WatchStep::Continue(WatchState::Watching, WatchAction::WaitForEvent)
            },
            WatchState::Debouncing => WatchStep::Continue(
                WatchState::Debouncing,
                WatchAction::WaitForQuiet,
            ),
            WatchState::Reconverting => WatchStep::Continue(
                WatchState::Reconverting,
                WatchAction::Reconvert,
            ),
        },
        WatchInput::TimedOut => match state {
            WatchState::Watching => WatchStep::Continue(
                WatchState::Watching,
                WatchAction::WaitForEvent,
            ),
            WatchState::Debouncing => WatchStep::Continue(
                WatchState::Reconverting,
                WatchAction::Reconvert,
            ),
            WatchState::Reconverting => WatchStep::Continue(
                WatchState::Reconverting,
                WatchAction::Reconvert,
            ),
        },
        WatchInput::Converted(outcome) => match state {
            WatchState::Reconverting => match outcome {
                None => WatchStep::Continue(WatchState::Watching, WatchAction::WaitForEvent),
                Some(e) => WatchStep::Finish { kill_child: true, outcome: Some(e) },
            },
            WatchState::Watching => WatchStep::Continue(
                WatchState::Watching,
                WatchAction::WaitForEvent,
            ),
            WatchState::Debouncing => WatchStep::Continue(
                WatchState::Debouncing,
                WatchAction::WaitForQuiet,
            ),
        },
    }
}

/// Performs one step of the watch loop.
pub fn watch_step(state: WatchState, input: WatchInput) -> (r: WatchStep)
    ensures
        r == watch_transition(state, input),
{
    match input {
        WatchInput::ChildExited(st) => if st.success {
            WatchStep::Finish { kill_child: false, outcome: None }
        } else {
            WatchStep::Finish { kill_child: false, outcome: Some(ErrorKind::MarimoExited(st)) }
        },
        WatchInput::WatchFailed(m) => WatchStep::Finish {
            kill_child: false,
            outcome: Some(ErrorKind::Watch(m)),
        },
        WatchInput::Disconnected => WatchStep::Finish {
            kill_child: true,
            outcome: Some(ErrorKind::WatchDisconnected),
        },
        WatchInput::FsEvent { matches_source } => match state {
            WatchState::Watching => if matches_source {
                WatchStep::Continue(WatchState::Debouncing, WatchAction::WaitForQuiet)
            } else {
                WatchStep::Continue(WatchState::Watching, WatchAction::WaitForEvent)
            },
            WatchState::Debouncing => WatchStep::Continue(
                WatchState::Debouncing,
                WatchAction::WaitForQuiet,
            ),
            WatchState::Reconverting => WatchStep::Continue(
                WatchState::Reconverting,
                WatchAction::Reconvert,
            ),
        },
        WatchInput::TimedOut => match state {
            WatchState::Watching => WatchStep::Continue(
                WatchState::Watching,
                WatchAction::WaitForEvent,
            ),
            WatchState::Debouncing => WatchStep::Continue(
                WatchState::Reconverting,
                WatchAction::Reconvert,
            ),
            WatchState::Reconverting => WatchStep::Continue(
                WatchState::Reconverting,
                WatchAction::Reconvert,
            ),
        },
        WatchInput::Converted(outcome) => match state {
            WatchState::Reconverting => match outcome {
                None => WatchStep::Continue(WatchState::Watching, WatchAction::WaitForEvent),
                Some(e) => WatchStep::Finish { kill_child: true, outcome: Some(e) },
            },
            WatchState::Watching => WatchStep::Continue(
                WatchState::Watching,
                WatchAction::WaitForEvent,
            ),
            WatchState::Debouncing => WatchStep::Continue(
                WatchState::Debouncing,
                WatchAction::WaitForQuiet,
            ),
        },
    }
}

/// Decides whether a filesystem event concerns the watched source: its kind
/// is modify or create, and one of its paths is exactly the source path.
pub fn event_matches(paths: &Vec<String>, source: &String, is_modify: bool, is_create: bool) -> (r:
    bool)
    ensures
        r == ((is_modify || is_create) && exists|j: int|
            0 <= j < paths@.len() && paths@[j]@ == source@),
{
    if !is_modify && !is_create {
        return false;
    }
    let mut j: usize = 0;
    while j < paths.len()
        invariant
            is_modify || is_create,
            0 <= j <= paths@.len(),
            forall|m: int| 0 <= m < j ==> paths@[m]@ != source@,
        decreases paths@.len() - j,
    {
        if paths[j].eq(source) {
            proof {
                assert(0 <= j < paths@.len() && paths@[j as int]@ == source@);
            }
            return true;
        }
        j = j + 1;
    }
    false
}

/// The state the machine is in after feeding it `inputs` from `state`, or
/// `None` if some input ended the session first.
pub open spec fn state_after(state: WatchState, inputs: Seq<WatchInput>) -> Option<WatchState>
    decreases inputs.len(),
{
    if inputs.len() == 0 {
        Some(state)
    } else {
        match watch_transition(state, inputs[0]) {
            WatchStep::Continue(next, _action) => state_after(next, inputs.drop_first()),
            WatchStep::Finish { .. } => None,
        }
    }
}

/// How many re-conversions the machine asks for while feeding it `inputs`
/// from `state`; none are counted past the input that ends the session.
pub open spec fn reconversions(state: WatchState, inputs: Seq<WatchInput>) -> nat
    decreases inputs.len(),
{
    if inputs.len() == 0 {
        0
    } else {
        match watch_transition(state, inputs[0]) {
            WatchStep::Continue(next, action) => (if action is Reconvert {
                1nat
            } else {
                0nat
            }) + reconversions(next, inputs.drop_first()),
            WatchStep::Finish { .. } => 0,
        }
    }
}

/// While the debounce window is open, a burst of further events keeps it
/// open without a re-conversion: whatever follows the burst finds the
/// machine exactly as the burst found it.
proof fn lemma_debounce_drains(burst: Seq<WatchInput>, tail: Seq<WatchInput>)
    requires
        forall|j: int| 0 <= j < burst.len() ==> burst[j] is FsEvent,
    ensures
        state_after(WatchState::Debouncing, burst + tail) == state_after(
            WatchState::Debouncing,
            tail,
        ),
        reconversions(WatchState::Debouncing, burst + tail) == reconversions(
            WatchState::Debouncing,
            tail,
        ),
    decreases burst.len(),
{
    let inputs = burst + tail;
    if burst.len() == 0 {
        assert(inputs =~= tail);
    } else {
        assert(inputs[0] == burst[0]);
        assert(inputs[0] is FsEvent);
        assert(watch_transition(WatchState::Debouncing, inputs[0]) == WatchStep::Continue(
            WatchState::Debouncing,
            WatchAction::WaitForQuiet,
        ));
        assert(inputs.drop_first() =~= burst.drop_first() + tail);
        assert(forall|j: int|
            0 <= j < burst.drop_first().len() ==> burst.drop_first()[j] == burst[j + 1]);
        lemma_debounce_drains(burst.drop_first(), tail);
    }
}

/// A burst of modify events within the debounce window, followed by one
/// quiet window, triggers exactly one re-conversion: the first matching
/// event opens the window, the burst only keeps it open, and the quiet
/// window asks for the single re-conversion. When that re-conversion
/// succeeds, the machine is back to watching, still with exactly one
/// re-conversion asked for.
pub proof fn lemma_debounce_single_reconversion(burst: Seq<WatchInput>)
    requires
        forall|j: int| 0 <= j < burst.len() ==> burst[j] is FsEvent,
    ensures
        ({
            let inputs = seq![WatchInput::FsEvent { matches_source: true }] + burst + seq![
                WatchInput::TimedOut,
            ];
            &&& state_after(WatchState::Watching, inputs) == Some(WatchState::Reconverting)
            &&& reconversions(WatchState::Watching, inputs) == 1
        }),
        ({
            let cycle = seq![WatchInput::FsEvent { matches_source: true }] + burst + seq![
                WatchInput::TimedOut,
                WatchInput::Converted(None),
            ];
            &&& state_after(WatchState::Watching, cycle) == Some(WatchState::Watching)
            &&& reconversions(WatchState::Watching, cycle) == 1
        }),
{
    let first = WatchInput::FsEvent { matches_source: true };
    let quiet = seq![WatchInput::TimedOut];
    let quiet_then_done = seq![WatchInput::TimedOut, WatchInput::Converted(None)];
    let inputs = seq![first] + burst + quiet;
    let cycle = seq![first] + burst + quiet_then_done;
    assert(inputs[0] == first && cycle[0] == first);
    assert(watch_transition(WatchState::Watching, first) == WatchStep::Continue(
        WatchState::Debouncing,
        WatchAction::WaitForQuiet,
    ));
    assert(inputs.drop_first() =~= burst + quiet);
    assert(cycle.drop_first() =~= burst + quiet_then_done);
    lemma_debounce_drains(burst, quiet);
    lemma_debounce_drains(burst, quiet_then_done);
    assert(quiet[0] == WatchInput::TimedOut);
    assert(quiet.drop_first() =~= Seq::<WatchInput>::empty());
    assert(state_after(WatchState::Reconverting, Seq::<WatchInput>::empty()) == Some(
        WatchState::Reconverting,
    ));
    assert(reconversions(WatchState::Reconverting, Seq::<WatchInput>::empty()) == 0);
    assert(quiet_then_done[0] == WatchInput::TimedOut);
    let after_quiet = quiet_then_done.drop_first();
    assert(after_quiet =~= seq![WatchInput::Converted(None)]);
    assert(state_after(WatchState::Debouncing, quiet_then_done) == state_after(
        WatchState::Reconverting,
        after_quiet,
    ));
    assert(reconversions(WatchState::Debouncing, quiet_then_done) == 1 + reconversions(
        WatchState::Reconverting,
        after_quiet,
    ));
    assert(after_quiet[0] == WatchInput::Converted(None));
    assert(watch_transition(WatchState::Reconverting, WatchInput::Converted(None))
        == WatchStep::Continue(WatchState::Watching, WatchAction::WaitForEvent));
    assert(after_quiet.drop_first() =~= Seq::<WatchInput>::empty());
    assert(state_after(WatchState::Reconverting, after_quiet) == state_after(
        WatchState::Watching,
        Seq::<WatchInput>::empty(),
    ));
    assert(reconversions(WatchState::Reconverting, after_quiet) == reconversions(
        WatchState::Watching,
        Seq::<WatchInput>::empty(),
    ));
    assert(state_after(WatchState::Watching, Seq::<WatchInput>::empty()) == Some(
        WatchState::Watching,
    ));
    assert(reconversions(WatchState::Watching, Seq::<WatchInput>::empty()) == 0);
}

/// A child process that exits with a failure status while the loop is
/// watching ends the session at once with `MarimoExited`, without killing
/// the already-gone child and without any further re-conversion, whatever
/// inputs would have followed.
pub proof fn lemma_child_failure_ends_session(st: ProcStatus, later: Seq<WatchInput>)
    requires
        !st.success,
    ensures
        watch_transition(WatchState::Watching, WatchInput::ChildExited(st)) == (WatchStep::Finish {
            kill_child: false,
            outcome: Some(ErrorKind::MarimoExited(st)),
        }),
        state_after(WatchState::Watching, seq![WatchInput::ChildExited(st)] + later) is None,
        reconversions(WatchState::Watching, seq![WatchInput::ChildExited(st)] + later) == 0,
{
    let inputs = seq![WatchInput::ChildExited(st)] + later;
    assert(inputs[0] == WatchInput::ChildExited(st));
}

} // verus!
