//! The ids that were drawn by chance.

use vstd::prelude::*;

verus! {

/// What is known of ids that were drawn: those that were given to whoever has this record.
pub struct Draws {
    ids: Ghost<Seq<Seq<char>>>,
}

/// The text was drawn by chance.
pub closed spec fn was_drawn(id: Seq<char>) -> bool {
    exists|draws: Draws| #[trigger] draws.view().contains(id)
}

impl Draws {
    /// The ids so far, the latest last.
    pub closed spec fn view(&self) -> Seq<Seq<char>> {
        self.ids@
    }

    /// A record without draws.
    pub fn new() -> (r: Draws)
        ensures
            r@ == Seq::<Seq<char>>::empty(),
    {
        Draws { ids: Ghost(Seq::empty()) }
    }

    /// What is on record as a draw was drawn.
    pub proof fn lemma_drawn(&self, id: Seq<char>)
        requires
            self@.contains(id),
        ensures
            was_drawn(id),
    {
    }
}

} // verus!
