//! The resize bridge: an eagerly established signal subscription, a
//! registration loop that invokes a callback once per resize signal, and a
//! cleanup capability that terminates the subscription so a blocked loop
//! returns instead of hanging forever.

use vstd::prelude::*;

verus! {

/// One event observed on the signal subscription.
#[derive(Clone, Copy, Debug, PartialEq, Eq, Structural)]
pub enum SignalEvent {
    /// A terminal-resize signal was delivered.
    Resize,
    /// The subscription was closed by cleanup; the loop must return.
    Closed,
}

/// The bridge's state. Construction performs the subscribe step eagerly, so
/// cleanup is well-defined even if registration never runs.
#[derive(Debug)]
pub struct ResizeBridge {
    /// Whether cleanup has terminated the subscription.
    pub closed: bool,
}

impl ResizeBridge {
    /// Establishes the subscription; exactly one registration may be active.
    pub fn new() -> (b: Self)
        ensures
            !b.closed,
    {
        ResizeBridge { closed: false }
    }

    /// Terminates the subscription: after this, the subscription delivers
    /// `Closed` and a blocked registration loop returns.
    pub fn cleanup(&mut self)
        ensures
            final(self).closed,
    {
        self.closed = true;
    }
}

/// What the registration loop does with a finite observation of the
/// subscription: `Some(n)` means it returned after invoking the callback
/// `n` times; `None` means every observed event was a resize and the loop
/// is still blocked waiting for more.
pub open spec fn loop_invocations(events: Seq<SignalEvent>) -> Option<int>
    decreases events.len(),
{
    if events.len() == 0 {
        None
    } else if events[0] is Closed {
        Some(0int)
    } else {
        match loop_invocations(events.drop_first()) {
            Some(n) => Some(n + 1),
            None => None,
        }
    }
}

pub proof fn lemma_loop_invocations_at(events: Seq<SignalEvent>, i: int)
    requires
        0 <= i < events.len(),
        events[i] is Closed,
        forall|k: int| 0 <= k < i ==> #[trigger] events[k] is Resize,
    ensures
        loop_invocations(events) == Some(i),
    decreases i,
{
    if i > 0 {
        lemma_loop_invocations_at(events.drop_first(), i - 1);
    }
}

pub proof fn lemma_loop_invocations_none(events: Seq<SignalEvent>)
    requires
        forall|k: int| 0 <= k < events.len() ==> #[trigger] events[k] is Resize,
    ensures
        loop_invocations(events) is None,
    decreases events.len(),
{
    if events.len() > 0 {
        assert(forall|k: int|
            0 <= k < events.drop_first().len() ==> #[trigger] events.drop_first()[k]
                == events[k + 1]);
        lemma_loop_invocations_none(events.drop_first());
    }
}

/// Replays the registration loop over a finite observation of the
/// subscription: the callback runs once per resize event, and the loop
/// returns as soon as the subscription reports itself closed.
pub fn run_signal_loop(events: &Vec<SignalEvent>) -> (r: Option<usize>)
    ensures
        match r {
            Some(n) => loop_invocations(events@) == Some(n as int),
            None => loop_invocations(events@) is None,
        },
{
    let mut i: usize = 0;
    while i < events.len()
        invariant
            0 <= i <= events.len(),
            forall|k: int| 0 <= k < i ==> #[trigger] events@[k] is Resize,
        decreases events.len() - i,
    {
        match events[i] {
            SignalEvent::Closed => {
                proof {
                    lemma_loop_invocations_at(events@, i as int);
                }
                return Some(i);
            },
            SignalEvent::Resize => {
                i += 1;
            },
        }
    }
    proof {
        lemma_loop_invocations_none(events@);
    }
    None
}

/// Cleanup before any signal unblocks registration: when the first event
/// the loop observes is the closed subscription, the loop returns at once,
/// having invoked the callback zero times.
pub proof fn lemma_cleanup_unblocks_loop(events: Seq<SignalEvent>)
    requires
        events.len() > 0,
        events[0] is Closed,
    ensures
        loop_invocations(events) == Some(0int),
{
}

} // verus!
