use vstd::prelude::*;

verus! {

/// An undirected edge between two rooms of the board, each named by its
/// handle (its index into the board's room arena).
#[derive(Debug, Clone, Copy, PartialEq, Eq, Structural)]
pub struct Hall {
    pub left: usize,
    pub right: usize,
}

impl Hall {
    pub fn new(left: usize, right: usize) -> (h: Hall)
        ensures
            h.left == left,
            h.right == right,
    {
        Hall { left, right }
    }

    /// The endpoint opposite `room`.
    pub open spec fn spec_other(self, room: int) -> int {
        if self.left == room {
            self.right as int
        } else {
            self.left as int
        }
    }

    /// Given a Room handle `room`, find the room at the other end of Hall `self`.
    pub fn other(&self, room: usize) -> (r: usize)
        ensures
            r == self.spec_other(room as int),
    {
        if self.left == room {
            self.right
        } else {
            self.left
        }
    }
}

/// Both ends of a hall answer `other` with the opposite end: from `left` it
/// names `right`, and from `right` it names `left`.
pub proof fn lemma_other_symmetric(h: Hall)
    ensures
        h.spec_other(h.left as int) == h.right as int,
        h.spec_other(h.right as int) == h.left as int,
{
}

} // verus!
