use vstd::prelude::*;

verus! {

/// The colour of a piece.
#[derive(Debug, Clone, Copy, PartialEq, Eq, Structural)]
pub enum CellState {
    Red,
    Yellow,
}

impl CellState {
    /// The opposing colour.
    pub open spec fn spec_other(self) -> CellState {
        match self {
            CellState::Red => CellState::Yellow,
            CellState::Yellow => CellState::Red,
        }
    }

    /// The canonical bit of a colour: Red is 1, Yellow is 0.
    pub open spec fn spec_bit(self) -> nat {
        match self {
            CellState::Red => 1,
            CellState::Yellow => 0,
        }
    }

    pub fn other(&self) -> (r: CellState)
        ensures
            r == self.spec_other(),
            r != *self,
            r.spec_other() == *self,
    {
        match self {
            CellState::Red => CellState::Yellow,
            CellState::Yellow => CellState::Red,
        }
    }

    pub fn to_bit(&self) -> (r: u64)
        ensures
            r == self.spec_bit(),
    {
        match self {
            CellState::Red => 1,
            CellState::Yellow => 0,
        }
    }
}

/// `other` is an involution without fixed points.
pub proof fn lemma_other_involution(c: CellState)
    ensures
        c.spec_other().spec_other() == c,
        c.spec_other() != c,
{
}

} // verus!
