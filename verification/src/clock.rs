//! The system clock, and what it has said.

use vstd::prelude::*;

use crate::time::Timestamp;

verus! {

/// What is known of the system clock: the times that it has given to whoever has this record.
pub struct Clock {
    readings: Ghost<Seq<Timestamp>>,
}

impl Clock {
    /// The readings so far, the latest last.
    pub closed spec fn view(&self) -> Seq<Timestamp> {
        self.readings@
    }

    /// A record of a clock that has not been read.
    pub fn new() -> (r: Clock)
        ensures
            r@ == Seq::<Timestamp>::empty(),
    {
        Clock { readings: Ghost(Seq::empty()) }
    }

    /// What is on record as a reading was read off the clock.
    pub proof fn lemma_read(&self, t: Timestamp)
        requires
            self@.contains(t),
        ensures
            t.was_read(),
    {
    }
}

impl Timestamp {
    /// The system clock has given this time.
    pub closed spec fn was_read(self) -> bool {
        exists|clock: Clock| #[trigger] clock.view().contains(self)
    }
}

} // verus!
