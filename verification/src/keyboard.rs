//! The keyboard stream's state: a non-restartable lazy sequence of input
//! events. Each pull of the underlying terminal source yields either one
//! event or nothing (the source erred or closed; the two are conflated).
//! Once the stream has ended it yields no further items, whatever the
//! source would hand it afterwards.

use vstd::prelude::*;

verus! {

/// The state of the terminal input stream.
#[derive(Debug)]
pub struct KeyboardEvents {
    /// Whether the underlying source has erred or closed.
    pub ended: bool,
}

impl KeyboardEvents {
    /// A fresh stream over a source that has not ended.
    pub fn new() -> (s: Self)
        ensures
            !s.ended,
    {
        KeyboardEvents { ended: false }
    }

    /// Advances the stream by one pull of the source. `pull` is what the
    /// source produced: one event, or nothing when it erred or closed.
    /// A stream that has ended stays ended and yields nothing.
    pub fn next<E>(&mut self, pull: Option<E>) -> (r: Option<E>)
        ensures
            old(self).ended ==> final(self).ended && r is None,
            !old(self).ended && pull is Some ==> !final(self).ended && r == pull,
            !old(self).ended && pull is None ==> final(self).ended && r is None,
    {
        if self.ended {
            None
        } else {
            match pull {
                Some(ev) => Some(ev),
                None => {
                    self.ended = true;
                    None
                },
            }
        }
    }
}

} // verus!
