//! The single-permit gate that serializes pipeline passes: the timer loop
//! and manual triggers must each win this permit before a pass may run, so
//! no two passes ever interleave.

use vstd::prelude::*;

verus! {

/// The exclusive permit around `run_once`: held while a pass is in flight.
pub struct RunGate {
    held: bool,
}

impl RunGate {
    /// Whether the permit is currently taken.
    pub closed spec fn held_spec(&self) -> bool {
        self.held
    }

    /// A fresh gate, not held.
    pub fn new() -> (g: Self)
        ensures
            !g.held_spec(),
    {
        RunGate { held: false }
    }

    /// Requests the permit; the request succeeds exactly when no pass
    /// holds it.
    pub fn try_acquire(&mut self) -> (ok: bool)
        ensures
            ok == !old(self).held_spec(),
            final(self).held_spec(),
    {
        if self.held {
            false
        } else {
            self.held = true;
            true
        }
    }

    /// Releases the permit, so that the next request can succeed.
    pub fn release(&mut self)
        ensures
            !final(self).held_spec(),
    {
        self.held = false;
    }
}

/// One acquisition request, as a function of the previous state: the
/// permit goes to the requester exactly when nobody held it.
pub open spec fn acquire_transition(held: bool) -> (bool, bool) {
    (true, !held)
}

/// Mutual exclusion: when two trigger requests reach the same gate, at
/// most one is granted, and on a free gate exactly the first one is — the
/// second can only proceed after a release.
pub proof fn lemma_single_permit(held0: bool)
    ensures
        !(acquire_transition(held0).1 && acquire_transition(acquire_transition(held0).0).1),
        !held0 ==> acquire_transition(held0).1 && !acquire_transition(
            acquire_transition(held0).0,
        ).1,
{
}

} // verus!
