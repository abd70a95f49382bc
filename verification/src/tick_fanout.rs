use vstd::prelude::*;

verus! {

/// Hands each process-cycle tick on to every registered recipient.
pub struct TickFanout {}

impl TickFanout {
    pub fn new() -> (t: TickFanout)
        ensures
            t == (TickFanout {}),
    {
        TickFanout {}
    }
}

} // verus!
