use vstd::prelude::*;

use crate::VA;

verus! {

/// The kind and destination of one control transfer.
#[derive(Debug, Clone, Copy, PartialEq, Eq, Structural)]
pub enum Flow {
    Fallthrough(VA),
    Call(VA),
    UnconditionalJump(VA),
    ConditionalJump(VA),
    ConditionalMove(VA),
}

impl Flow {
    /// The destination of the flow.
    pub open spec fn dest(self) -> VA {
        match self {
            Flow::Fallthrough(va) => va,
            Flow::Call(va) => va,
            Flow::UnconditionalJump(va) => va,
            Flow::ConditionalJump(va) => va,
            Flow::ConditionalMove(va) => va,
        }
    }

    /// The same kind of flow, with the destination replaced by `va`.
    pub open spec fn retarget(self, va: VA) -> Flow {
        match self {
            Flow::Fallthrough(_) => Flow::Fallthrough(va),
            Flow::Call(_) => Flow::Call(va),
            Flow::UnconditionalJump(_) => Flow::UnconditionalJump(va),
            Flow::ConditionalJump(_) => Flow::ConditionalJump(va),
            Flow::ConditionalMove(_) => Flow::ConditionalMove(va),
        }
    }

    pub fn va(&self) -> (r: VA)
        ensures
            r == self.dest(),
    {
        match *self {
            Flow::Fallthrough(va) => va,
            Flow::Call(va) => va,
            Flow::UnconditionalJump(va) => va,
            Flow::ConditionalJump(va) => va,
            Flow::ConditionalMove(va) => va,
        }
    }

    /// Create a flow of the same kind whose destination is `va`;
    /// used to turn a successor edge around into a predecessor edge.
    pub fn swap(&self, va: VA) -> (r: Flow)
        ensures
            r == self.retarget(va),
    {
        match *self {
            Flow::Fallthrough(_) => Flow::Fallthrough(va),
            Flow::Call(_) => Flow::Call(va),
            Flow::UnconditionalJump(_) => Flow::UnconditionalJump(va),
            Flow::ConditionalJump(_) => Flow::ConditionalJump(va),
            Flow::ConditionalMove(_) => Flow::ConditionalMove(va),
        }
    }
}

} // verus!
