use vstd::prelude::*;

verus! {

/// The JACK ports of one track, by index.
pub struct AudioTrack {
    pub input_idx: usize,
    pub output_idx: usize,
}

impl AudioTrack {
    /// Sending output through the track object is not wired: the samples
    /// travel through the track's combiner instead, and this does nothing.
    pub fn send_output<S>(&self, tup: (S, S)) {
    }
}

} // verus!
