//! Turns MIDI control messages into looper commands, buffering the ones
//! that must wait for the next bar boundary.
use vstd::prelude::*;
use crate::constants::{AUDIO_TRACK_COUNT, SCENE_COUNT};
use crate::midi_control;
use crate::midi_control::{decode_midi, decoded, MidiEvent};
use crate::scene::vec_contains;

verus! {

/// A MIDI message received on the control port, stamped with its frame in the cycle.
pub struct OwnedMidi {
    pub time: u32,
    pub bytes: Vec<u8>,
}

/// Commands that the command manager hands to the dispatcher.
#[derive(Clone, Debug, PartialEq, Eq)]
pub enum CommandManagerMessage {
    /// Commit the recording sequences and start recording on `tracks`,
    /// adding the new sequences to `scenes`.
    Go { tracks: Vec<usize>, scenes: Vec<usize> },
    /// Start scene `scene`.
    Start { scene: usize },
    Stop,
    Undo,
}

/// Requests that the dispatcher makes of the command manager.
pub enum CommandManagerRequest {
    BarBoundary,
}

/// What a control message asks for.
pub enum Control {
    Go,
    Clear,
    Stop,
    Undo,
    Scene(usize),
    Track(usize),
}

/// The control that a MIDI message selects: program changes 31, 30, 29 and
/// 28 on channel 1 are go, clear, stop and undo, program changes 0 to 7 are
/// scenes 1 to 8, and the pads of notes 80, 81, 82, 83, 76, 77, 78 and 79
/// on channel 10 are the eight tracks, 0 to 7.
pub open spec fn control_of(e: MidiEvent) -> Option<Control> {
    match e {
        MidiEvent::ProgramChange { channel, program } => {
            if channel != 0 {
                None
            } else if program == 31 {
                Some(Control::Go)
            } else if program == 30 {
                Some(Control::Clear)
            } else if program == 29 {
                Some(Control::Stop)
            } else if program == 28 {
                Some(Control::Undo)
            } else if program < 8 {
                Some(Control::Scene((program + 1) as usize))
            } else {
                None
            }
        },
        MidiEvent::NoteOff { channel, note, velocity } => {
            if channel != 9 || velocity != 0 {
                None
            } else if note == 80 {
                Some(Control::Track(0))
            } else if note == 81 {
                Some(Control::Track(1))
            } else if note == 82 {
                Some(Control::Track(2))
            } else if note == 83 {
                Some(Control::Track(3))
            } else if note == 76 {
                Some(Control::Track(4))
            } else if note == 77 {
                Some(Control::Track(5))
            } else if note == 78 {
                Some(Control::Track(6))
            } else if note == 79 {
                Some(Control::Track(7))
            } else {
                None
            }
        },
        MidiEvent::Unrecognized => None,
    }
}

/// Buffers armed tracks and scenes until the next bar boundary.
#[derive(Debug)]
pub struct CommandManager {
    rec_tracks_idx: Vec<usize>,
    rec_scenes_idx: Vec<usize>,
    play_scene_idx: usize,
    go: bool,
    trigger_scene: bool,
}

/// The mathematical state of a [`CommandManager`].
pub struct CommandManagerView {
    /// Tracks armed for recording, in the order armed.
    pub tracks: Seq<usize>,
    /// Scenes that the new sequences will join, in the order armed.
    pub scenes: Seq<usize>,
    /// The scene to start, or 0 after a stop.
    pub play_scene: usize,
    /// Whether go was pressed since the last bar boundary.
    pub go: bool,
    /// Whether a scene start waits for the next bar boundary.
    pub trigger_scene: bool,
}

impl View for CommandManager {
    type V = CommandManagerView;

    closed spec fn view(&self) -> CommandManagerView {
        CommandManagerView {
            tracks: self.rec_tracks_idx@,
            scenes: self.rec_scenes_idx@,
            play_scene: self.play_scene_idx,
            go: self.go,
            trigger_scene: self.trigger_scene,
        }
    }
}

impl CommandManagerView {
    /// Armed tracks are tracks of the looper and armed scenes are scenes 1
    /// to 8, none armed twice.
    pub open spec fn wf(self) -> bool {
        &&& forall|i: int| 0 <= i < self.tracks.len() ==> #[trigger] self.tracks[i] < AUDIO_TRACK_COUNT
        &&& forall|i: int| 0 <= i < self.scenes.len() ==> 1 <= #[trigger] self.scenes[i] <= SCENE_COUNT
        &&& self.tracks.no_duplicates()
        &&& self.scenes.no_duplicates()
        &&& self.play_scene <= SCENE_COUNT
    }

    /// The state after a control.
    pub open spec fn after(self, c: Control) -> CommandManagerView {
        match c {
            Control::Go => CommandManagerView { go: true, ..self },
            Control::Clear => CommandManagerView {
                go: false,
                tracks: Seq::empty(),
                scenes: Seq::empty(),
                ..self
            },
            Control::Stop => CommandManagerView { play_scene: 0, ..self },
            Control::Undo => self,
            Control::Scene(n) => if self.tracks.len() == 0 {
                CommandManagerView { play_scene: n, trigger_scene: true, ..self }
            } else if self.scenes.contains(n) {
                self
            } else {
                CommandManagerView { scenes: self.scenes.push(n), ..self }
            },
            Control::Track(n) => if self.tracks.contains(n) {
                self
            } else {
                CommandManagerView { tracks: self.tracks.push(n), ..self }
            },
        }
    }

    /// The state after a bar boundary: a pending go and a pending scene
    /// start are handed out and forgotten.
    pub open spec fn after_bar(self) -> CommandManagerView {
        CommandManagerView {
            go: false,
            trigger_scene: false,
            tracks: if self.go {
                Seq::empty()
            } else {
                self.tracks
            },
            scenes: if self.go {
                Seq::empty()
            } else {
                self.scenes
            },
            ..self
        }
    }
}

/// `v` is exactly the one message `Stop`.
pub open spec fn is_stop_batch(v: Seq<CommandManagerMessage>) -> bool {
    v.len() == 1 && v[0] is Stop
}

/// `v` is exactly the one message `Undo`.
pub open spec fn is_undo_batch(v: Seq<CommandManagerMessage>) -> bool {
    v.len() == 1 && v[0] is Undo
}

impl CommandManager {
    /// Nothing armed, no scene pending.
    pub fn new() -> (c: CommandManager)
        ensures
            c@ == (CommandManagerView {
                tracks: Seq::empty(),
                scenes: Seq::empty(),
                play_scene: 0,
                go: false,
                trigger_scene: false,
            }),
            c@.wf(),
    {
        CommandManager {
            rec_tracks_idx: Vec::new(),
            rec_scenes_idx: Vec::new(),
            play_scene_idx: 0,
            go: false,
            trigger_scene: false,
        }
    }

    /// At a bar boundary, hands out the pending go, with the armed tracks
    /// and scenes, then the pending scene start; `None` when nothing is pending.
    pub fn process_request(&mut self, req: CommandManagerRequest) -> (r: Option<
        Vec<CommandManagerMessage>,
    >)
        requires
            old(self)@.wf(),
        ensures
            final(self)@ == old(self)@.after_bar(),
            final(self)@.wf(),
            !old(self)@.go && !old(self)@.trigger_scene ==> r is None,
            old(self)@.go || old(self)@.trigger_scene ==> r is Some,
            r matches Some(out) ==> {
                &&& out.len() == (if old(self)@.go {
                    1int
                } else {
                    0
                }) + (if old(self)@.trigger_scene {
                    1int
                } else {
                    0
                })
                &&& old(self)@.go ==> (out[0] matches CommandManagerMessage::Go { tracks, scenes }
                    && tracks@ == old(self)@.tracks && scenes@ == old(self)@.scenes)
                &&& old(self)@.trigger_scene ==> (out[out.len() - 1] matches
                    CommandManagerMessage::Start { scene } && scene == old(self)@.play_scene)
            },
    {
        let mut ret: Vec<CommandManagerMessage> = Vec::new();
        match req {
            CommandManagerRequest::BarBoundary => {
                if self.go {
                    let tracks = self.rec_tracks_idx.clone();
                    let scenes = self.rec_scenes_idx.clone();
                    ret.push(CommandManagerMessage::Go { tracks, scenes });
                    self.go = false;
                    self.rec_tracks_idx.clear();
                    self.rec_scenes_idx.clear();
                }
                if self.trigger_scene {
                    ret.push(CommandManagerMessage::Start { scene: self.play_scene_idx });
                    self.trigger_scene = false;
                }
            },
        }
        if ret.len() == 0 {
            return None;
        }
        Some(ret)
    }

    /// Reads a control message: arms tracks and scenes, selects a scene,
    /// or returns the stop or undo that the dispatcher must carry out now.
    pub fn process_midi(&mut self, om: &OwnedMidi) -> (r: Option<Vec<CommandManagerMessage>>)
        requires
            old(self)@.wf(),
        ensures
            final(self)@.wf(),
            match control_of(decoded(om.bytes@)) {
                None => final(self)@ == old(self)@ && r is None,
                Some(c) => {
                    &&& final(self)@ == old(self)@.after(c)
                    &&& c is Stop ==> (r matches Some(v) && is_stop_batch(v@))
                    &&& c is Undo ==> (r matches Some(v) && is_undo_batch(v@))
                    &&& !(c is Stop || c is Undo) ==> r is None
                },
            },
    {
        let m = decode_midi(om.bytes.as_slice());
        if m == midi_control::go() {
            self.go();
            None
        } else if m == midi_control::clear() {
            self.clear();
            None
        } else if m == midi_control::stop() {
            Some(self.stop())
        } else if m == midi_control::undo() {
            Some(self.undo())
        } else if m == midi_control::scene1() {
            self.scene(1);
            None
        } else if m == midi_control::scene2() {
            self.scene(2);
            None
        } else if m == midi_control::scene3() {
            self.scene(3);
            None
        } else if m == midi_control::scene4() {
            self.scene(4);
            None
        } else if m == midi_control::scene5() {
            self.scene(5);
            None
        } else if m == midi_control::scene6() {
            self.scene(6);
            None
        } else if m == midi_control::scene7() {
            self.scene(7);
            None
        } else if m == midi_control::scene8() {
            self.scene(8);
            None
        } else if m == midi_control::track1() {
            self.track(0);
            None
        } else if m == midi_control::track2() {
            self.track(1);
            None
        } else if m == midi_control::track3() {
            self.track(2);
            None
        } else if m == midi_control::track4() {
            self.track(3);
            None
        } else if m == midi_control::track5() {
            self.track(4);
            None
        } else if m == midi_control::track6() {
            self.track(5);
            None
        } else if m == midi_control::track7() {
            self.track(6);
            None
        } else if m == midi_control::track8() {
            self.track(7);
            None
        } else {
            None
        }
    }

    fn go(&mut self)
        ensures
            final(self)@ == old(self)@.after(Control::Go),
    {
        self.go = true;
    }

    /// Disarms go and every armed track and scene.
    pub fn clear(&mut self)
        ensures
            final(self)@ == old(self)@.after(Control::Clear),
    {
        self.go = false;
        self.rec_tracks_idx.clear();
        self.rec_scenes_idx.clear();
    }

    fn stop(&mut self) -> (out: Vec<CommandManagerMessage>)
        ensures
            final(self)@ == old(self)@.after(Control::Stop),
            is_stop_batch(out@),
    {
        self.play_scene_idx = 0;
        let mut out = Vec::new();
        out.push(CommandManagerMessage::Stop);
        out
    }

    fn undo(&mut self) -> (out: Vec<CommandManagerMessage>)
        ensures
            final(self)@ == old(self)@.after(Control::Undo),
            is_undo_batch(out@),
    {
        let mut out = Vec::new();
        out.push(CommandManagerMessage::Undo);
        out
    }

    fn track(&mut self, n: usize)
        ensures
            final(self)@ == old(self)@.after(Control::Track(n)),
    {
        if !vec_contains(&self.rec_tracks_idx, n) {
            self.rec_tracks_idx.push(n);
        }
    }

    fn scene(&mut self, n: usize)
        ensures
            final(self)@ == old(self)@.after(Control::Scene(n)),
    {
        if self.rec_tracks_idx.len() == 0 {
            self.play_scene_idx = n;
            self.trigger_scene = true;
        } else {
            if !vec_contains(&self.rec_scenes_idx, n) {
                self.rec_scenes_idx.push(n);
            }
        }
    }
}

/// Commands wait for the bar boundary: at a boundary the pending go and
/// scene start are handed out, and a second boundary right after it has
/// nothing left to hand out.
pub proof fn lemma_bar_boundary_hands_out_once(v: CommandManagerView)
    requires
        v.wf(),
    ensures
        v.after_bar().wf(),
        !v.after_bar().go,
        !v.after_bar().trigger_scene,
        v.after_bar().after_bar() == v.after_bar(),
{
}

/// Selecting a scene while no track is armed schedules that scene to start
/// at the next bar boundary; while tracks are armed it only arms the scene.
pub proof fn lemma_scene_select(v: CommandManagerView, n: usize)
    requires
        v.wf(),
        1 <= n <= SCENE_COUNT,
    ensures
        v.tracks.len() == 0 ==> v.after(Control::Scene(n)).trigger_scene && v.after(
            Control::Scene(n),
        ).play_scene == n,
        v.tracks.len() > 0 ==> v.after(Control::Scene(n)).scenes.contains(n) && v.after(
            Control::Scene(n),
        ).play_scene == v.play_scene,
{
    if v.tracks.len() > 0 && !v.scenes.contains(n) {
        assert(v.scenes.push(n)[v.scenes.len() as int] == n);
    }
}

/// Armed tracks and scenes wait for go: a bar boundary with no go pending
/// keeps them armed, and a go pressed after it hands out those same tracks
/// and scenes at the following boundary.
pub proof fn lemma_armed_wait_for_go(v: CommandManagerView)
    requires
        v.wf(),
        !v.go,
    ensures
        v.after_bar().tracks == v.tracks,
        v.after_bar().scenes == v.scenes,
        v.after_bar().after(Control::Go).go,
        v.after_bar().after(Control::Go).tracks == v.tracks,
        v.after_bar().after(Control::Go).scenes == v.scenes,
{
}

/// Arming a track keeps everything armed before, arms that track once, and
/// changes nothing else; clear disarms everything and forgets a pending go.
pub proof fn lemma_arm_track(v: CommandManagerView, n: usize)
    requires
        v.wf(),
        n < AUDIO_TRACK_COUNT,
    ensures
        v.after(Control::Track(n)).wf(),
        v.after(Control::Track(n)).tracks.contains(n),
        forall|i: int| 0 <= i < v.tracks.len() ==> v.after(Control::Track(n)).tracks.contains(#[trigger] v.tracks[i]),
        forall|x: usize| v.after(Control::Track(n)).tracks.contains(x) ==> x == n || v.tracks.contains(x),
        v.after(Control::Track(n)).scenes == v.scenes,
        v.after(Control::Track(n)).go == v.go,
        v.after(Control::Clear).tracks.len() == 0,
        v.after(Control::Clear).scenes.len() == 0,
        !v.after(Control::Clear).go,
{
    let w = v.after(Control::Track(n));
    if !v.tracks.contains(n) {
        assert(w.tracks[v.tracks.len() as int] == n);
        assert forall|i: int| 0 <= i < v.tracks.len() implies w.tracks.contains(#[trigger] v.tracks[i]) by {
            assert(w.tracks[i] == v.tracks[i]);
        }
        assert forall|x: usize| w.tracks.contains(x) implies x == n || v.tracks.contains(x) by {
            let j = choose|j: int| 0 <= j < w.tracks.len() && w.tracks[j] == x;
            if j < v.tracks.len() {
                assert(v.tracks[j] == x);
            }
        }
    }
}

} // verus!
