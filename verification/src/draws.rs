//! An account of the random draws of a ledger, kept for statements about them.

use vstd::prelude::*;

verus! {

/// Every secret that was drawn, in order. Nothing of it is there when the program
/// runs.
pub struct Draws {
    drawn: Ghost<Seq<Seq<u8>>>,
}

impl View for Draws {
    type V = Seq<Seq<u8>>;

    closed spec fn view(&self) -> Seq<Seq<u8>> {
        self.drawn@
    }
}

impl Draws {
    /// The account before the first draw.
    pub fn none() -> (r: Draws)
        ensures
            r@ == Seq::<Seq<u8>>::empty(),
    {
        Draws { drawn: Ghost(Seq::empty()) }
    }
}

} // verus!
