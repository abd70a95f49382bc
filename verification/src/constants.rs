use vstd::prelude::*;

verus! {

/// Number of audio tracks, each with its own input and output pair.
pub const AUDIO_TRACK_COUNT: usize = 8;

/// Number of user scenes; scene 0 is the special empty scene on top of these.
pub const SCENE_COUNT: usize = 8;

/// Name under which the looper registers with JACK and the session manager.
pub const CLIENT_NAME: &'static str = "st-loop";

} // verus!
