//! Call frames: the per-call state of the dispatch loop.
use vstd::prelude::*;

use crate::chunk::Ip;

verus! {

/// At most this many calls can be active at once.
pub const FRAMES_MAX: usize = 64;

/// One active call: the closure being run, the cursor into its function's
/// code, and the stack slot its locals start at (slot zero holds the callee
/// or the receiver).
#[derive(Debug, Clone, Copy, PartialEq, Eq, Structural)]
pub struct CallFrame {
    pub closure: usize,
    pub ip: Ip,
    pub slots: usize,
}

impl CallFrame {
    /// A frame at the start of the given closure's code.
    pub fn new(closure: usize, slots: usize) -> (r: CallFrame)
        ensures
            r.closure == closure,
            r.slots == slots,
            r.ip.pos == 0,
    {
        CallFrame { closure, ip: Ip::null(), slots }
    }

    /// Moves the cursor forward over `span` bytes it consumed.
    pub fn advance_position(&mut self, span: usize)
        requires
            old(self).ip.pos + span <= usize::MAX,
        ensures
            final(self).ip.pos == old(self).ip.pos + span,
            final(self).closure == old(self).closure,
            final(self).slots == old(self).slots,
    {
        self.ip.jump_forward(span);
    }
}

} // verus!
