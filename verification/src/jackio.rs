//! What the JACK process callback keeps per track: whether it records the
//! track's input, plays its output, or must silence it once after a stop.
use vstd::prelude::*;
use crate::constants::AUDIO_TRACK_COUNT;

verus! {

/// Commands from the dispatcher to the JACK process callback.
#[derive(Clone, Copy, Debug, PartialEq, Eq, Structural)]
pub enum JackioCommand {
    StartPlaying { track: usize },
    StopPlaying { track: usize },
    StartRecording { track: usize },
    StopRecording { track: usize },
}

/// Per-track flags of the process callback.
pub struct TrackFlags {
    recording: Vec<bool>,
    playing: Vec<bool>,
    stopping: Vec<bool>,
}

/// The mathematical state of [`TrackFlags`].
pub struct TrackFlagsView {
    pub recording: Seq<bool>,
    pub playing: Seq<bool>,
    pub stopping: Seq<bool>,
}

impl View for TrackFlags {
    type V = TrackFlagsView;

    closed spec fn view(&self) -> TrackFlagsView {
        TrackFlagsView {
            recording: self.recording@,
            playing: self.playing@,
            stopping: self.stopping@,
        }
    }
}

/// `s` with position `i` set to `b`, unchanged when `i` is out of range.
pub open spec fn set_if_present(s: Seq<bool>, i: usize, b: bool) -> Seq<bool> {
    if i < s.len() {
        s.update(i as int, b)
    } else {
        s
    }
}

impl TrackFlagsView {
    /// The flags after a command; a track out of range changes nothing.
    pub open spec fn after(self, cmd: JackioCommand) -> TrackFlagsView {
        match cmd {
            JackioCommand::StartPlaying { track } => TrackFlagsView {
                playing: set_if_present(self.playing, track, true),
                ..self
            },
            JackioCommand::StopPlaying { track } => TrackFlagsView {
                playing: set_if_present(self.playing, track, false),
                stopping: set_if_present(self.stopping, track, true),
                ..self
            },
            JackioCommand::StartRecording { track } => TrackFlagsView {
                recording: set_if_present(self.recording, track, true),
                ..self
            },
            JackioCommand::StopRecording { track } => TrackFlagsView {
                recording: set_if_present(self.recording, track, false),
                ..self
            },
        }
    }
}

/// `n` copies of `false`.
fn all_false(n: usize) -> (v: Vec<bool>)
    ensures
        v@ == Seq::new(n as nat, |i: int| false),
{
    let mut v: Vec<bool> = Vec::new();
    let mut i: usize = 0;
    while i < n
        invariant
            0 <= i <= n,
            v@ =~= Seq::new(i as nat, |k: int| false),
        decreases n - i,
    {
        v.push(false);
        i = i + 1;
    }
    v
}

/// Reads flag `t`, `false` when out of range.
fn flag(v: &Vec<bool>, t: usize) -> (b: bool)
    ensures
        b == (t < v@.len() && v@[t as int]),
{
    if t < v.len() {
        v[t]
    } else {
        false
    }
}

/// Sets flag `t` when in range.
fn set_flag(v: &mut Vec<bool>, t: usize, b: bool)
    ensures
        final(v)@ == set_if_present(old(v)@, t, b),
{
    if t < v.len() {
        v.set(t, b);
    }
}

impl TrackFlags {
    /// All tracks idle.
    pub fn new() -> (f: TrackFlags)
        ensures
            f@.recording == Seq::new(AUDIO_TRACK_COUNT as nat, |i: int| false),
            f@.playing == Seq::new(AUDIO_TRACK_COUNT as nat, |i: int| false),
            f@.stopping == Seq::new(AUDIO_TRACK_COUNT as nat, |i: int| false),
    {
        TrackFlags {
            recording: all_false(AUDIO_TRACK_COUNT),
            playing: all_false(AUDIO_TRACK_COUNT),
            stopping: all_false(AUDIO_TRACK_COUNT),
        }
    }

    /// Applies a command from the dispatcher.
    pub fn apply(&mut self, cmd: JackioCommand)
        ensures
            final(self)@ == old(self)@.after(cmd),
    {
        match cmd {
            JackioCommand::StartPlaying { track } => {
                set_flag(&mut self.playing, track, true);
            },
            JackioCommand::StopPlaying { track } => {
                set_flag(&mut self.playing, track, false);
                set_flag(&mut self.stopping, track, true);
            },
            JackioCommand::StartRecording { track } => {
                set_flag(&mut self.recording, track, true);
            },
            JackioCommand::StopRecording { track } => {
                set_flag(&mut self.recording, track, false);
            },
        }
    }

    /// Whether track `t` records its input.
    pub fn is_recording(&self, t: usize) -> (b: bool)
        ensures
            b == (t < self@.recording.len() && self@.recording[t as int]),
    {
        flag(&self.recording, t)
    }

    /// Whether track `t` plays its output.
    pub fn is_playing(&self, t: usize) -> (b: bool)
        ensures
            b == (t < self@.playing.len() && self@.playing[t as int]),
    {
        flag(&self.playing, t)
    }

    /// Whether track `t` must be silenced this cycle; the request is
    /// consumed, so the next cycle does not silence it again.
    pub fn take_stopping(&mut self, t: usize) -> (b: bool)
        ensures
            b == (t < old(self)@.stopping.len() && old(self)@.stopping[t as int]),
            final(self)@ == (TrackFlagsView {
                stopping: if b {
                    set_if_present(old(self)@.stopping, t, false)
                } else {
                    old(self)@.stopping
                },
                ..old(self)@
            }),
    {
        let b = flag(&self.stopping, t);
        if b {
            set_flag(&mut self.stopping, t, false);
        }
        b
    }
}

/// Stopping a track makes it silent once: right after the stop it is not
/// playing and is marked for silencing; taking that mark clears it.
pub proof fn lemma_stop_silences_once(f: TrackFlagsView, t: usize)
    requires
        t < f.playing.len(),
        t < f.stopping.len(),
    ensures
        !f.after(JackioCommand::StopPlaying { track: t }).playing[t as int],
        f.after(JackioCommand::StopPlaying { track: t }).stopping[t as int],
        !set_if_present(f.after(JackioCommand::StopPlaying { track: t }).stopping, t, false)[t as int],
{
}

/// Starting to record on a track changes only that track's recording flag:
/// every track, that one included, plays and is marked for silencing as
/// before, so the loops already playing on it go on playing under the new
/// recording.
pub proof fn lemma_recording_keeps_playback(f: TrackFlagsView, t: usize)
    ensures
        f.after(JackioCommand::StartRecording { track: t }).playing == f.playing,
        f.after(JackioCommand::StartRecording { track: t }).stopping == f.stopping,
        f.after(JackioCommand::StartRecording { track: t }).recording.len() == f.recording.len(),
        t < f.recording.len() ==> f.after(JackioCommand::StartRecording { track: t }).recording[t as int],
        forall|i: int|
            0 <= i < f.recording.len() && i != t ==> #[trigger] f.after(
                JackioCommand::StartRecording { track: t },
            ).recording[i] == f.recording[i],
{
}

} // verus!
