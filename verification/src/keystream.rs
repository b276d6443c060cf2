//! The keystream interface: stateful, sequential, one 32-bit word per call.

use vstd::prelude::*;

use crate::zuc::spec_step;
use crate::zuc::spec_word;
use crate::zuc::ZucView;

verus! {

/// A pull-based keystream source. Every implementation is backed by a ZUC
/// register engine; each call advances the engine by exactly one step.
pub trait KeyStream {
    /// The abstract engine state behind the stream.
    spec fn stream(&self) -> ZucView;

    /// Draw the next 32-bit keystream word.
    fn next_key(&mut self) -> (z: u32)
        requires
            old(self).stream().wf(),
        ensures
            z == spec_word(old(self).stream()),
            final(self).stream() == spec_step(old(self).stream()),
            final(self).stream().wf(),
    ;
}

} // verus!
