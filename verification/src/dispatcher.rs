//! The looper's conductor: it keeps the list of sequences, the scenes and
//! which sequences record and play, and turns each event (a sync message, a
//! session-manager message, a command) into the actions that the caller
//! performs on the sequence tasks, the JACK process callback and the track
//! combiners.
use vstd::prelude::*;
use crate::command_manager::CommandManagerMessage;
use crate::constants::{AUDIO_TRACK_COUNT, SCENE_COUNT};
use crate::jack_sync_fanout::JackSyncFanoutMessage;
use crate::jackio::JackioCommand;
use crate::scene::{Scene, other_than, vec_contains, without};
use crate::sequence::SequenceCommand;
use crate::yaml_config::{SeqMeta, YamlConfig};
use vstd::string::StringExecFns;
use std::collections::BTreeMap;

verus! {

/// Commands to the combiner that mixes a track's sequences.  Adding a
/// sequence's channel is part of creating the sequence.
#[derive(Clone, Copy, Debug, PartialEq, Eq, Structural)]
pub enum TrackAudioCommand {
    DelLastSeq,
    Play,
    Stop,
}

/// Messages from the session manager.
#[derive(Debug, PartialEq, Eq)]
pub enum NsmClientMessage {
    Save,
    Open { path: String },
}

/// An action that the caller performs for the dispatcher, in order.
#[derive(Debug, PartialEq, Eq)]
pub enum DispatchAction {
    /// Send `command` to the sequence at position `id` of the list.
    Sequence { id: usize, command: SequenceCommand },
    /// Send a command to the JACK process callback.
    Jack(JackioCommand),
    /// Send a command to the combiner of `track`.
    Track { track: usize, command: TrackAudioCommand },
    /// Create a recording sequence on `track`, wire it to the track's input
    /// and combiner, and append it to the list.
    NewSequence { track: usize, beats_per_bar: usize, last_frame: usize, framerate: usize },
    /// Take the sequence at position `id` out of the list; later positions
    /// move down by one.
    RemoveSequence { id: usize },
    /// Ask the command manager for what waits for this bar boundary.
    BarBoundary,
    /// Read the session's configuration and hand it to `load_session`.
    LoadSession,
    /// Create the session directory.
    CreateSessionDir { path: String },
    /// Gather the sequences' descriptions and write the session's configuration.
    WriteSessionConfig { path: String },
}

/// A [`SequenceCommand`] with its strings as character sequences.
pub enum SequenceCommandView {
    StartRecord,
    StopRecord,
    Play,
    Stop,
    Save { path: Seq<char> },
    Load { path: Seq<char>, beats: usize },
    Shutdown,
}

impl View for SequenceCommand {
    type V = SequenceCommandView;

    open spec fn view(&self) -> SequenceCommandView {
        match self {
            SequenceCommand::StartRecord => SequenceCommandView::StartRecord,
            SequenceCommand::StopRecord => SequenceCommandView::StopRecord,
            SequenceCommand::Play => SequenceCommandView::Play,
            SequenceCommand::Stop => SequenceCommandView::Stop,
            SequenceCommand::Save { path } => SequenceCommandView::Save { path: path@ },
            SequenceCommand::Load { path, beats } => SequenceCommandView::Load {
                path: path@,
                beats: *beats,
            },
            SequenceCommand::Shutdown => SequenceCommandView::Shutdown,
        }
    }
}

/// A [`DispatchAction`] with its strings as character sequences.
pub enum Action {
    Sequence { id: usize, command: SequenceCommandView },
    Jack(JackioCommand),
    Track { track: usize, command: TrackAudioCommand },
    NewSequence { track: usize, beats_per_bar: usize, last_frame: usize, framerate: usize },
    RemoveSequence { id: usize },
    BarBoundary,
    LoadSession,
    CreateSessionDir { path: Seq<char> },
    WriteSessionConfig { path: Seq<char> },
}

impl View for DispatchAction {
    type V = Action;

    open spec fn view(&self) -> Action {
        match self {
            DispatchAction::Sequence { id, command } => Action::Sequence {
                id: *id,
                command: command@,
            },
            DispatchAction::Jack(c) => Action::Jack(*c),
            DispatchAction::Track { track, command } => Action::Track {
                track: *track,
                command: *command,
            },
            DispatchAction::NewSequence { track, beats_per_bar, last_frame, framerate } =>
                Action::NewSequence {
                track: *track,
                beats_per_bar: *beats_per_bar,
                last_frame: *last_frame,
                framerate: *framerate,
            },
            DispatchAction::RemoveSequence { id } => Action::RemoveSequence { id: *id },
            DispatchAction::BarBoundary => Action::BarBoundary,
            DispatchAction::LoadSession => Action::LoadSession,
            DispatchAction::CreateSessionDir { path } => Action::CreateSessionDir { path: path@ },
            DispatchAction::WriteSessionConfig { path } => Action::WriteSessionConfig {
                path: path@,
            },
        }
    }
}

/// The actions of a list, as character-sequence actions.
pub open spec fn actions_view(v: Seq<DispatchAction>) -> Seq<Action> {
    v.map_values(|a: DispatchAction| a@)
}

/// The looper's state as the dispatcher keeps it.
pub struct Dispatcher {
    path: Option<String>,
    seq_tracks: Vec<usize>,
    scenes: Vec<Scene>,
    framerate: usize,
    beats_per_bar: usize,
    last_frame: usize,
    current_scene: usize,
    recording_sequences: Vec<usize>,
    playing_sequences: Vec<usize>,
    newest_sequences: Vec<usize>,
    sync_message_received: bool,
    load_request_ready: bool,
}

/// The mathematical state of a [`Dispatcher`].
pub struct DispatcherView {
    /// The session directory, once the session manager has opened one.
    pub path: Option<Seq<char>>,
    /// The track of each sequence, by position in the list of sequences.
    pub tracks: Seq<usize>,
    /// The sequence ids of each scene; scene 0 is the empty scene.
    pub scenes: Seq<Seq<usize>>,
    pub framerate: usize,
    pub beats_per_bar: usize,
    pub last_frame: usize,
    pub current_scene: usize,
    pub recording: Seq<usize>,
    pub playing: Seq<usize>,
    /// What undo takes back, newest first: after a go that armed tracks,
    /// every sequence that it created; nothing before any go or after an
    /// undo.
    pub newest: Seq<usize>,
    pub sync_received: bool,
    pub load_ready: bool,
}

/// The sequence lists of some scenes.
pub open spec fn scene_lists(s: Seq<Scene>) -> Seq<Seq<usize>> {
    s.map_values(|sc: Scene| sc.sequences@)
}

impl View for Dispatcher {
    type V = DispatcherView;

    closed spec fn view(&self) -> DispatcherView {
        DispatcherView {
            path: match self.path {
                Some(p) => Some(p@),
                None => None,
            },
            tracks: self.seq_tracks@,
            scenes: scene_lists(self.scenes@),
            framerate: self.framerate,
            beats_per_bar: self.beats_per_bar,
            last_frame: self.last_frame,
            current_scene: self.current_scene,
            recording: self.recording_sequences@,
            playing: self.playing_sequences@,
            newest: self.newest_sequences@,
            sync_received: self.sync_message_received,
            load_ready: self.load_request_ready,
        }
    }
}

/// Every track is a track of the looper.
pub open spec fn tracks_ok(t: Seq<usize>) -> bool {
    forall|i: int| 0 <= i < t.len() ==> #[trigger] t[i] < AUDIO_TRACK_COUNT
}

/// Every id is below `n`.
pub open spec fn ids_below(ids: Seq<usize>, n: nat) -> bool {
    forall|i: int| 0 <= i < ids.len() ==> #[trigger] ids[i] < n
}

/// Actions that stop the playing sequences `ids`.
pub open spec fn stop_actions(tracks: Seq<usize>, ids: Seq<usize>) -> Seq<Action>
    decreases ids.len(),
{
    if ids.len() == 0 {
        Seq::empty()
    } else {
        let id = ids.last();
        let t = tracks[id as int];
        stop_actions(tracks, ids.drop_last()) + seq![
            Action::Sequence { id, command: SequenceCommandView::Stop },
            Action::Jack(JackioCommand::StopPlaying { track: t }),
            Action::Track { track: t, command: TrackAudioCommand::Stop },
        ]
    }
}

/// Actions that start the sequences `ids` of a scene.
pub open spec fn play_actions(tracks: Seq<usize>, ids: Seq<usize>) -> Seq<Action>
    decreases ids.len(),
{
    if ids.len() == 0 {
        Seq::empty()
    } else {
        let id = ids.last();
        let t = tracks[id as int];
        play_actions(tracks, ids.drop_last()) + seq![
            Action::Sequence { id, command: SequenceCommandView::Play },
            Action::Jack(JackioCommand::StartPlaying { track: t }),
            Action::Track { track: t, command: TrackAudioCommand::Play },
        ]
    }
}

/// Actions of an immediate stop: each playing sequence that exists stops
/// and its track stops playing; the combiners are left as they are.
pub open spec fn halt_actions(tracks: Seq<usize>, ids: Seq<usize>) -> Seq<Action>
    decreases ids.len(),
{
    if ids.len() == 0 {
        Seq::empty()
    } else {
        let id = ids.last();
        if id < tracks.len() {
            halt_actions(tracks, ids.drop_last()) + seq![
                Action::Sequence { id, command: SequenceCommandView::Stop },
                Action::Jack(JackioCommand::StopPlaying { track: tracks[id as int] }),
            ]
        } else {
            halt_actions(tracks, ids.drop_last())
        }
    }
}

/// Actions that commit the recording sequences `ids`: recording stops and
/// they play at once.
pub open spec fn commit_actions(tracks: Seq<usize>, ids: Seq<usize>) -> Seq<Action>
    decreases ids.len(),
{
    if ids.len() == 0 {
        Seq::empty()
    } else {
        let id = ids.last();
        let t = tracks[id as int];
        commit_actions(tracks, ids.drop_last()) + seq![
            Action::Jack(JackioCommand::StopRecording { track: t }),
            Action::Sequence { id, command: SequenceCommandView::Play },
            Action::Sequence { id, command: SequenceCommandView::StopRecord },
            Action::Track { track: t, command: TrackAudioCommand::Play },
            Action::Jack(JackioCommand::StartPlaying { track: t }),
        ]
    }
}

/// `scenes` with `id` appended to each scene listed in `which`.
pub open spec fn add_to_scenes(scenes: Seq<Seq<usize>>, which: Seq<usize>, id: usize) -> Seq<
    Seq<usize>,
>
    decreases which.len(),
{
    if which.len() == 0 {
        scenes
    } else {
        let s = add_to_scenes(scenes, which.drop_last(), id);
        s.update(which.last() as int, s[which.last() as int].push(id))
    }
}

/// Each scene without `id`.
pub open spec fn scenes_without(scenes: Seq<Seq<usize>>, id: usize) -> Seq<Seq<usize>> {
    scenes.map_values(|s: Seq<usize>| without(s, id))
}

/// The tracks, scenes and actions after undo has taken back `ids`, in order:
/// each id that is a position of the list shuts its sequence down, drops
/// the last sequence of its track's combiner and leaves the list, and every
/// id leaves every scene.
pub open spec fn undone(tracks: Seq<usize>, scenes: Seq<Seq<usize>>, ids: Seq<usize>) -> (
    Seq<usize>,
    Seq<Seq<usize>>,
    Seq<Action>,
)
    decreases ids.len(),
{
    if ids.len() == 0 {
        (tracks, scenes, Seq::empty())
    } else {
        let (t, s, a) = undone(tracks, scenes, ids.drop_last());
        let id = ids.last();
        if id < t.len() {
            (
                t.remove(id as int),
                scenes_without(s, id),
                a + seq![
                    Action::Sequence { id, command: SequenceCommandView::Shutdown },
                    Action::Track { track: t[id as int], command: TrackAudioCommand::DelLastSeq },
                    Action::RemoveSequence { id },
                ],
            )
        } else {
            (t, scenes_without(s, id), a)
        }
    }
}

/// Actions that create a recording sequence on each of `new_tracks`, the
/// first with id `first`.
pub open spec fn record_actions(v: DispatcherView, new_tracks: Seq<usize>, first: nat) -> Seq<
    Action,
>
    decreases new_tracks.len(),
{
    if new_tracks.len() == 0 {
        Seq::empty()
    } else {
        let t = new_tracks.last();
        let id = (first + new_tracks.len() - 1) as usize;
        record_actions(v, new_tracks.drop_last(), first) + seq![
            Action::NewSequence {
                track: t,
                beats_per_bar: v.beats_per_bar,
                last_frame: v.last_frame,
                framerate: v.framerate,
            },
            Action::Sequence { id, command: SequenceCommandView::StartRecord },
            Action::Jack(JackioCommand::StartRecording { track: t }),
        ]
    }
}

/// `scenes` after each sequence `first + k` of `k < count` joined the scenes `which`.
pub open spec fn join_scenes(scenes: Seq<Seq<usize>>, which: Seq<usize>, first: nat, count: nat) -> Seq<
    Seq<usize>,
>
    decreases count,
{
    if count == 0 {
        scenes
    } else {
        add_to_scenes(
            join_scenes(scenes, which, first, (count - 1) as nat),
            which,
            (first + count - 1) as usize,
        )
    }
}

/// The ids `first, first + 1, ..., first + count - 1`.
pub open spec fn id_range(first: nat, count: nat) -> Seq<usize> {
    Seq::new(count, |k: int| (first + k) as usize)
}

/// The ids `first + count - 1` down to `first`.
pub open spec fn id_desc(first: nat, count: nat) -> Seq<usize> {
    Seq::new(count, |k: int| (first + count - 1 - k) as usize)
}

impl DispatcherView {
    /// Nine scenes (the empty scene and eight user scenes), a current scene
    /// among them, and every sequence on a track of the looper.
    pub open spec fn wf(self) -> bool {
        &&& self.scenes.len() == SCENE_COUNT + 1
        &&& self.current_scene < self.scenes.len()
        &&& tracks_ok(self.tracks)
    }

    /// Starting scene `s` is possible: it exists, and the sequences that
    /// play now and those of the scene exist.
    pub open spec fn can_start_scene(self, s: usize) -> bool {
        &&& s < self.scenes.len()
        &&& ids_below(self.playing, self.tracks.len())
        &&& ids_below(self.scenes[s as int], self.tracks.len())
    }

    /// The state after scene `s` started.
    pub open spec fn scene_started(self, s: usize) -> DispatcherView {
        DispatcherView { current_scene: s, playing: self.scenes[s as int], ..self }
    }

    /// The actions of starting scene `s`: the playing sequences stop, then
    /// the scene's sequences play.
    pub open spec fn scene_start_actions(self, s: usize) -> Seq<Action> {
        stop_actions(self.tracks, self.playing) + play_actions(self.tracks, self.scenes[s as int])
    }

    /// The state after undo, before the current scene restarts.
    pub open spec fn undo_cleared(self) -> DispatcherView {
        let (t, s, a) = undone(self.tracks, self.scenes, self.newest);
        DispatcherView {
            tracks: t,
            scenes: s,
            newest: Seq::empty(),
            recording: Seq::empty(),
            playing: Seq::empty(),
            ..self
        }
    }

    /// The state after go: without armed tracks and scenes it commits the
    /// recording sequences; then each armed track gets a new recording
    /// sequence that joins the armed scenes.  Nothing happens before the
    /// first sync message.
    pub open spec fn after_go(self, new_tracks: Seq<usize>, which: Seq<usize>) -> DispatcherView {
        if !self.sync_received {
            self
        } else {
            let committed = if new_tracks.len() == 0 && which.len() == 0 {
                DispatcherView {
                    playing: self.playing + self.recording,
                    recording: Seq::empty(),
                    ..self
                }
            } else {
                self
            };
            let n = self.tracks.len();
            let k = new_tracks.len();
            DispatcherView {
                tracks: self.tracks + new_tracks,
                recording: committed.recording + id_range(n, k),
                newest: if k == 0 {
                    self.newest
                } else {
                    id_desc(n, k)
                },
                scenes: join_scenes(self.scenes, which, n, k),
                ..committed
            }
        }
    }

    /// The actions of go.
    pub open spec fn go_actions(self, new_tracks: Seq<usize>, which: Seq<usize>) -> Seq<Action> {
        if !self.sync_received {
            Seq::empty()
        } else {
            (if new_tracks.len() == 0 && which.len() == 0 {
                commit_actions(self.tracks, self.recording)
            } else {
                Seq::empty()
            }) + record_actions(self, new_tracks, self.tracks.len())
        }
    }

    /// A command can be carried out without failing: every sequence it
    /// touches exists, every track and scene it names exists.
    pub open spec fn can_handle(self, msg: CommandManagerMessage) -> bool {
        match msg {
            CommandManagerMessage::Go { tracks, scenes } => self.sync_received ==> {
                &&& tracks@.len() == 0 && scenes@.len() == 0 ==> ids_below(
                    self.recording,
                    self.tracks.len(),
                )
                &&& tracks_ok(tracks@)
                &&& ids_below(scenes@, self.scenes.len())
            },
            CommandManagerMessage::Start { scene } => self.can_start_scene(scene),
            CommandManagerMessage::Stop => true,
            CommandManagerMessage::Undo => self.undo_cleared().can_start_scene(self.current_scene),
        }
    }

    /// The state after a command.
    pub open spec fn handled(self, msg: CommandManagerMessage) -> DispatcherView {
        match msg {
            CommandManagerMessage::Go { tracks, scenes } => self.after_go(tracks@, scenes@),
            CommandManagerMessage::Start { scene } => self.scene_started(scene),
            CommandManagerMessage::Stop => self,
            CommandManagerMessage::Undo => self.undo_cleared().scene_started(self.current_scene),
        }
    }

    /// The actions of a command.
    pub open spec fn handled_actions(self, msg: CommandManagerMessage) -> Seq<Action> {
        match msg {
            CommandManagerMessage::Go { tracks, scenes } => self.go_actions(tracks@, scenes@),
            CommandManagerMessage::Start { scene } => self.scene_start_actions(scene),
            CommandManagerMessage::Stop => halt_actions(self.tracks, self.playing),
            CommandManagerMessage::Undo => {
                let (t, s, a) = undone(self.tracks, self.scenes, self.newest);
                a + self.undo_cleared().scene_start_actions(self.current_scene)
            },
        }
    }
}

impl Dispatcher {
    /// No sequence, nine empty scenes (the empty scene 0 and eight user
    /// scenes), scene 1 current, nothing heard from the transport yet.
    pub fn new() -> (d: Dispatcher)
        ensures
            d@.wf(),
            d@ == (DispatcherView {
                path: None,
                tracks: Seq::empty(),
                scenes: Seq::new((SCENE_COUNT + 1) as nat, |i: int| Seq::<usize>::empty()),
                framerate: 0,
                beats_per_bar: 0,
                last_frame: 0,
                current_scene: 1,
                recording: Seq::empty(),
                playing: Seq::empty(),
                newest: Seq::empty(),
                sync_received: false,
                load_ready: false,
            }),
    {
        let mut scenes: Vec<Scene> = Vec::new();
        let mut i: usize = 0;
        while i < SCENE_COUNT + 1
            invariant
                0 <= i <= SCENE_COUNT + 1,
                scene_lists(scenes@) =~= Seq::new(i as nat, |k: int| Seq::<usize>::empty()),
            decreases SCENE_COUNT + 1 - i,
        {
            let ghost before = scenes@;
            scenes.push(Scene::new());
            proof {
                assert(scene_lists(scenes@) =~= scene_lists(before).push(Seq::<usize>::empty()));
            }
            i = i + 1;
        }
        Dispatcher {
            path: None,
            seq_tracks: Vec::new(),
            scenes,
            framerate: 0,
            beats_per_bar: 0,
            last_frame: 0,
            current_scene: 1,
            recording_sequences: Vec::new(),
            playing_sequences: Vec::new(),
            newest_sequences: Vec::new(),
            sync_message_received: false,
            load_request_ready: false,
        }
    }
}

/// Appends an action.
fn push_action(acts: &mut Vec<DispatchAction>, a: DispatchAction)
    ensures
        actions_view(final(acts)@) == actions_view(old(acts)@).push(a@),
{
    let ghost before = acts@;
    acts.push(a);
    proof {
        assert(actions_view(acts@) =~= actions_view(before).push(a@));
    }
}

/// Appends sequence `id` to scene `s`.
fn add_to_scene(scenes: &mut Vec<Scene>, s: usize, id: usize)
    requires
        s < old(scenes).len(),
    ensures
        scene_lists(final(scenes)@) == scene_lists(old(scenes)@).update(
            s as int,
            scene_lists(old(scenes)@)[s as int].push(id),
        ),
{
    let ghost before = scenes@;
    let mut sc = scenes.remove(s);
    sc.add_sequence(id);
    scenes.insert(s, sc);
    proof {
        assert(scenes@ =~= before.update(s as int, sc));
        assert(scene_lists(scenes@) =~= scene_lists(before).update(
            s as int,
            scene_lists(before)[s as int].push(id),
        ));
    }
}

/// Takes sequence `id` out of every scene.
fn remove_from_scenes(scenes: &mut Vec<Scene>, id: usize)
    ensures
        scene_lists(final(scenes)@) == scenes_without(scene_lists(old(scenes)@), id),
{
    let ghost before = scene_lists(scenes@);
    let n = scenes.len();
    let mut k: usize = 0;
    while k < n
        invariant
            0 <= k <= n,
            n == before.len(),
            scenes@.len() == n,
            forall|j: int| 0 <= j < k ==> #[trigger] scene_lists(scenes@)[j] == without(before[j], id),
            forall|j: int| k <= j < n ==> #[trigger] scene_lists(scenes@)[j] == before[j],
        decreases n - k,
    {
        let ghost cur = scenes@;
        proof {
            assert(scene_lists(cur)[k as int] == before[k as int]);
            assert(cur[k as int].sequences@ == before[k as int]);
        }
        let mut sc = scenes.remove(k);
        sc.remove_sequence(id);
        scenes.insert(k, sc);
        proof {
            assert(scenes@ =~= cur.update(k as int, sc));
            assert(scene_lists(scenes@) =~= scene_lists(cur).update(
                k as int,
                without(before[k as int], id),
            ));
        }
        k = k + 1;
    }
    proof {
        assert(scene_lists(scenes@) =~= scenes_without(before, id));
    }
}

impl Dispatcher {
    /// Starts scene `s`: the playing sequences stop, then the scene's play.
    fn start_scene(&mut self, s: usize, acts: &mut Vec<DispatchAction>)
        requires
            old(self)@.wf(),
            old(self)@.can_start_scene(s),
        ensures
            final(self)@ == old(self)@.scene_started(s),
            actions_view(final(acts)@) == actions_view(old(acts)@) + old(self)@.scene_start_actions(
                s,
            ),
    {
        let ghost v0 = self@;
        let ghost a0 = actions_view(acts@);
        self.current_scene = s;
        let n = self.playing_sequences.len();
        let mut i: usize = 0;
        while i < n
            invariant
                0 <= i <= n,
                n == v0.playing.len(),
                self@ == (DispatcherView { current_scene: s, ..v0 }),
                v0.wf(),
                v0.can_start_scene(s),
                actions_view(acts@) == a0 + stop_actions(v0.tracks, v0.playing.take(i as int)),
            decreases n - i,
        {
            let id = self.playing_sequences[i];
            let t = self.seq_tracks[id];
            push_action(acts, DispatchAction::Sequence { id, command: SequenceCommand::Stop });
            push_action(acts, DispatchAction::Jack(JackioCommand::StopPlaying { track: t }));
            push_action(acts, DispatchAction::Track { track: t, command: TrackAudioCommand::Stop });
            proof {
                assert(v0.playing.take(i + 1).drop_last() =~= v0.playing.take(i as int));
                assert(actions_view(acts@) =~= a0 + stop_actions(v0.tracks, v0.playing.take(i + 1)));
            }
            i = i + 1;
        }
        proof {
            assert(v0.playing.take(n as int) =~= v0.playing);
        }
        self.playing_sequences.clear();
        proof {
            assert(v0.scenes[s as int].take(0) =~= Seq::<usize>::empty());
        }
        let ghost a1 = actions_view(acts@);
        let m = self.scenes[s].sequences.len();
        let mut j: usize = 0;
        while j < m
            invariant
                0 <= j <= m,
                m == v0.scenes[s as int].len(),
                self@ == (DispatcherView {
                    current_scene: s,
                    playing: v0.scenes[s as int].take(j as int),
                    ..v0
                }),
                v0.wf(),
                v0.can_start_scene(s),
                actions_view(acts@) == a1 + play_actions(v0.tracks, v0.scenes[s as int].take(j as int)),
            decreases m - j,
        {
            let id = self.scenes[s].sequences[j];
            let t = self.seq_tracks[id];
            push_action(acts, DispatchAction::Sequence { id, command: SequenceCommand::Play });
            push_action(acts, DispatchAction::Jack(JackioCommand::StartPlaying { track: t }));
            self.playing_sequences.push(id);
            push_action(acts, DispatchAction::Track { track: t, command: TrackAudioCommand::Play });
            proof {
                let sq = v0.scenes[s as int];
                assert(sq.take(j + 1).drop_last() =~= sq.take(j as int));
                assert(sq.take(j as int).push(id) =~= sq.take(j + 1));
                assert(actions_view(acts@) =~= a1 + play_actions(v0.tracks, sq.take(j + 1)));
            }
            j = j + 1;
        }
        proof {
            assert(v0.scenes[s as int].take(m as int) =~= v0.scenes[s as int]);
            assert(actions_view(acts@) =~= a0 + v0.scene_start_actions(s));
        }
    }
}

impl Dispatcher {
    /// Immediate stop: each playing sequence that exists stops, and its track
    /// stops playing.
    fn halt(&self, acts: &mut Vec<DispatchAction>)
        ensures
            actions_view(final(acts)@) == actions_view(old(acts)@) + halt_actions(
                self@.tracks,
                self@.playing,
            ),
    {
        let ghost a0 = actions_view(acts@);
        let n = self.playing_sequences.len();
        let mut i: usize = 0;
        while i < n
            invariant
                0 <= i <= n,
                n == self@.playing.len(),
                actions_view(acts@) == a0 + halt_actions(self@.tracks, self@.playing.take(i as int)),
            decreases n - i,
        {
            let id = self.playing_sequences[i];
            proof {
                assert(self@.playing.take(i + 1).drop_last() =~= self@.playing.take(i as int));
            }
            if id < self.seq_tracks.len() {
                let t = self.seq_tracks[id];
                push_action(acts, DispatchAction::Sequence { id, command: SequenceCommand::Stop });
                push_action(acts, DispatchAction::Jack(JackioCommand::StopPlaying { track: t }));
                proof {
                    assert(actions_view(acts@) =~= a0 + halt_actions(
                        self@.tracks,
                        self@.playing.take(i + 1),
                    ));
                }
            }
            i = i + 1;
        }
        proof {
            assert(self@.playing.take(n as int) =~= self@.playing);
        }
    }

    /// Undo: the sequences held for undo are shut down, removed from the
    /// list and from every scene; nothing records or plays any more, and
    /// the current scene starts again.
    fn undo(&mut self, acts: &mut Vec<DispatchAction>)
        requires
            old(self)@.wf(),
            old(self)@.can_handle(CommandManagerMessage::Undo),
        ensures
            final(self)@.wf(),
            final(self)@ == old(self)@.handled(CommandManagerMessage::Undo),
            actions_view(final(acts)@) == actions_view(old(acts)@) + old(self)@.handled_actions(
                CommandManagerMessage::Undo,
            ),
    {
        let ghost v0 = self@;
        let ghost a0 = actions_view(acts@);
        let n = self.newest_sequences.len();
        let mut i: usize = 0;
        while i < n
            invariant
                0 <= i <= n,
                n == v0.newest.len(),
                v0.wf(),
                self@ == (DispatcherView {
                    tracks: undone(v0.tracks, v0.scenes, v0.newest.take(i as int)).0,
                    scenes: undone(v0.tracks, v0.scenes, v0.newest.take(i as int)).1,
                    ..v0
                }),
                actions_view(acts@) == a0 + undone(v0.tracks, v0.scenes, v0.newest.take(i as int)).2,
                self@.scenes.len() == SCENE_COUNT + 1,
                tracks_ok(self@.tracks),
            decreases n - i,
        {
            let id = self.newest_sequences[i];
            proof {
                assert(v0.newest.take(i + 1).drop_last() =~= v0.newest.take(i as int));
            }
            if id < self.seq_tracks.len() {
                let t = self.seq_tracks[id];
                push_action(acts, DispatchAction::Sequence { id, command: SequenceCommand::Shutdown });
                push_action(acts, DispatchAction::Track { track: t, command: TrackAudioCommand::DelLastSeq });
                push_action(acts, DispatchAction::RemoveSequence { id });
                let ghost pre = self@;
                self.seq_tracks.remove(id);
                proof {
                    assert forall|j: int| 0 <= j < self@.tracks.len() implies #[trigger] self@.tracks[j]
                        < AUDIO_TRACK_COUNT by {
                        if j < id {
                            assert(self@.tracks[j] == pre.tracks[j]);
                        } else {
                            assert(self@.tracks[j] == pre.tracks[j + 1]);
                        }
                    }
                    assert(tracks_ok(self@.tracks));
                }
            }
            remove_from_scenes(&mut self.scenes, id);
            proof {
                let u = undone(v0.tracks, v0.scenes, v0.newest.take(i + 1));
                assert(actions_view(acts@) =~= a0 + u.2);
                assert(self@.tracks =~= u.0);
                assert(self@.scenes =~= u.1);
            }
            i = i + 1;
        }
        proof {
            assert(v0.newest.take(n as int) =~= v0.newest);
        }
        self.newest_sequences.clear();
        self.recording_sequences.clear();
        self.playing_sequences.clear();
        proof {
            assert(self@ =~= v0.undo_cleared());
        }
        let cur = self.current_scene;
        self.start_scene(cur, acts);
    }

    /// Go: commits the recording sequences when nothing is armed, then
    /// starts a recording sequence on each armed track.
    fn go(&mut self, tracks: Vec<usize>, which: Vec<usize>, acts: &mut Vec<DispatchAction>)
        requires
            old(self)@.wf(),
            old(self)@.can_handle(CommandManagerMessage::Go { tracks, scenes: which }),
        ensures
            final(self)@.wf(),
            final(self)@ == old(self)@.after_go(tracks@, which@),
            actions_view(final(acts)@) == actions_view(old(acts)@) + old(self)@.go_actions(
                tracks@,
                which@,
            ),
    {
        if !self.sync_message_received {
            proof {
                assert(actions_view(acts@) =~= actions_view(acts@) + Seq::<Action>::empty());
            }
            return ;
        }
        let ghost v0 = self@;
        let ghost a0 = actions_view(acts@);
        if tracks.len() == 0 && which.len() == 0 {
            let n = self.recording_sequences.len();
            let mut i: usize = 0;
            while i < n
                invariant
                    0 <= i <= n,
                    n == v0.recording.len(),
                    v0.wf(),
                    ids_below(v0.recording, v0.tracks.len()),
                    self@ == (DispatcherView {
                        playing: v0.playing + v0.recording.take(i as int),
                        ..v0
                    }),
                    actions_view(acts@) == a0 + commit_actions(v0.tracks, v0.recording.take(i as int)),
                decreases n - i,
            {
                let id = self.recording_sequences[i];
                let t = self.seq_tracks[id];
                push_action(acts, DispatchAction::Jack(JackioCommand::StopRecording { track: t }));
                push_action(acts, DispatchAction::Sequence { id, command: SequenceCommand::Play });
                push_action(acts, DispatchAction::Sequence { id, command: SequenceCommand::StopRecord });
                push_action(acts, DispatchAction::Track { track: t, command: TrackAudioCommand::Play });
                self.playing_sequences.push(id);
                push_action(acts, DispatchAction::Jack(JackioCommand::StartPlaying { track: t }));
                proof {
                    assert(v0.recording.take(i + 1).drop_last() =~= v0.recording.take(i as int));
                    assert(actions_view(acts@) =~= a0 + commit_actions(
                        v0.tracks,
                        v0.recording.take(i + 1),
                    ));
                    assert(v0.playing + v0.recording.take(i + 1) =~= (v0.playing
                        + v0.recording.take(i as int)).push(id));
                }
                i = i + 1;
            }
            self.recording_sequences.clear();
            proof {
                assert(v0.recording.take(n as int) =~= v0.recording);
            }
        } else {
            proof {
                assert(a0 =~= a0 + Seq::<Action>::empty());
            }
        }
        let ghost v1 = self@;
        let ghost a1 = actions_view(acts@);
        let base = self.seq_tracks.len();
        let k = tracks.len();
        let mut i: usize = 0;
        proof {
            assert(tracks@.take(0) =~= Seq::<usize>::empty());
            assert(v1.tracks + tracks@.take(0) =~= v1.tracks);
            assert(v1.recording + id_range(base as nat, 0) =~= v1.recording);
            assert(a1 =~= a1 + record_actions(v0, tracks@.take(0), base as nat));
        }
        while i < k
            invariant
                0 <= i <= k,
                k == tracks@.len(),
                base == v0.tracks.len(),
                v1.tracks == v0.tracks,
                v1.scenes == v0.scenes,
                v1.beats_per_bar == v0.beats_per_bar,
                v1.last_frame == v0.last_frame,
                v1.framerate == v0.framerate,
                v0.wf(),
                v0.sync_received,
                v0.can_handle(CommandManagerMessage::Go { tracks, scenes: which }),
                self@ == (DispatcherView {
                    tracks: v1.tracks + tracks@.take(i as int),
                    recording: v1.recording + id_range(base as nat, i as nat),
                    newest: if i == 0 {
                        v1.newest
                    } else {
                        id_desc(base as nat, i as nat)
                    },
                    scenes: join_scenes(v1.scenes, which@, base as nat, i as nat),
                    ..v1
                }),
                self@.scenes.len() == SCENE_COUNT + 1,
                actions_view(acts@) == a1 + record_actions(v0, tracks@.take(i as int), base as nat),
            decreases k - i,
        {
            let t = tracks[i];
            push_action(
                acts,
                DispatchAction::NewSequence {
                    track: t,
                    beats_per_bar: self.beats_per_bar,
                    last_frame: self.last_frame,
                    framerate: self.framerate,
                },
            );
            self.seq_tracks.push(t);
            let id = self.seq_tracks.len() - 1;
            push_action(acts, DispatchAction::Sequence { id, command: SequenceCommand::StartRecord });
            self.recording_sequences.push(id);
            if i == 0 {
                self.newest_sequences.clear();
            }
            let ghost nw = self.newest_sequences@;
            self.newest_sequences.insert(0, id);
            proof {
                if i == 0 {
                    assert(nw.insert(0, id) =~= id_desc(base as nat, 1));
                } else {
                    assert(nw.insert(0, id) =~= id_desc(base as nat, (i + 1) as nat));
                }
            }
            push_action(acts, DispatchAction::Jack(JackioCommand::StartRecording { track: t }));
            let ghost j0 = scene_lists(self.scenes@);
            let ghost before_inner = self@;
            proof {
                assert(which@.take(0) =~= Seq::<usize>::empty());
            }
            let m = which.len();
            let mut j: usize = 0;
            while j < m
                invariant
                    0 <= j <= m,
                    m == which@.len(),
                    ids_below(which@, (SCENE_COUNT + 1) as nat),
                    self@ == (DispatcherView {
                        scenes: add_to_scenes(j0, which@.take(j as int), id),
                        ..before_inner
                    }),
                    j0 == before_inner.scenes,
                    j0.len() == SCENE_COUNT + 1,
                decreases m - j,
            {
                let sidx = which[j];
                proof {
                    assert(which@.take(j + 1).drop_last() =~= which@.take(j as int));
                    lemma_add_to_scenes_len(j0, which@.take(j as int), id);
                }
                add_to_scene(&mut self.scenes, sidx, id);
                j = j + 1;
            }
            proof {
                assert(which@.take(m as int) =~= which@);
                lemma_add_to_scenes_len(j0, which@, id);
                assert(tracks@.take(i + 1).drop_last() =~= tracks@.take(i as int));
                assert(v1.tracks + tracks@.take(i + 1) =~= (v1.tracks + tracks@.take(i as int)).push(t));
                assert(id_range(base as nat, (i + 1) as nat) =~= id_range(base as nat, i as nat).push(id));
                assert(v1.recording + id_range(base as nat, (i + 1) as nat) =~= (v1.recording
                    + id_range(base as nat, i as nat)).push(id));
                assert(actions_view(acts@) =~= a1 + record_actions(v0, tracks@.take(i + 1), base as nat));
            }
            i = i + 1;
        }
        proof {
            assert(tracks@.take(k as int) =~= tracks@);
            assert forall|j: int| 0 <= j < self@.tracks.len() implies #[trigger] self@.tracks[j]
                < AUDIO_TRACK_COUNT by {
                if j >= v0.tracks.len() {
                    assert(self@.tracks[j] == tracks@[j - v0.tracks.len()]);
                } else {
                    assert(self@.tracks[j] == v0.tracks[j]);
                }
            }
            assert(tracks_ok(self@.tracks));
        }
    }

    /// Carries out a command from the command manager and returns the
    /// actions it takes, in order.
    pub fn on_command(&mut self, msg: CommandManagerMessage) -> (acts: Vec<DispatchAction>)
        requires
            old(self)@.wf(),
            old(self)@.can_handle(msg),
        ensures
            final(self)@.wf(),
            final(self)@ == old(self)@.handled(msg),
            actions_view(acts@) == old(self)@.handled_actions(msg),
    {
        let mut acts: Vec<DispatchAction> = Vec::new();
        proof {
            assert(actions_view(acts@) =~= Seq::<Action>::empty());
        }
        match msg {
            CommandManagerMessage::Stop => {
                self.halt(&mut acts);
            },
            CommandManagerMessage::Undo => {
                self.undo(&mut acts);
            },
            CommandManagerMessage::Go { tracks, scenes } => {
                self.go(tracks, scenes, &mut acts);
            },
            CommandManagerMessage::Start { scene } => {
                self.start_scene(scene, &mut acts);
            },
        }
        proof {
            assert(actions_view(acts@) =~= Seq::<Action>::empty() + old(self)@.handled_actions(msg));
        }
        acts
    }
}

/// Adding a sequence to scenes keeps the number of scenes.
proof fn lemma_add_to_scenes_len(scenes: Seq<Seq<usize>>, which: Seq<usize>, id: usize)
    requires
        ids_below(which, scenes.len()),
    ensures
        add_to_scenes(scenes, which, id).len() == scenes.len(),
    decreases which.len(),
{
    if which.len() > 0 {
        lemma_add_to_scenes_len(scenes, which.drop_last(), id);
    }
}

/// `c` is the configuration saved for the state `v` whose sequences are
/// described by `metas`: the descriptions, and every scene by number, as
/// the file names of its sequences.
pub open spec fn saved_as(v: DispatcherView, metas: Seq<SeqMeta>, c: YamlConfig) -> bool {
    &&& c.sequences@ == metas
    &&& forall|k: usize| #[trigger] c.scenes@.contains_key(k) <==> k < v.scenes.len()
    &&& forall|k: usize| #[trigger] c.scenes@.contains_key(k) ==> c.scenes@[k]@.map_values(
        |n: String| n@,
    ) == v.scenes[k as int].map_values(|id: usize| metas[id as int].filename@)
}

/// The actions of saving the session in `p` with `n` sequences: the
/// directory is created, each sequence saves its samples there, then the
/// configuration is written.
pub open spec fn save_actions(p: Seq<char>, n: nat) -> Seq<Action> {
    seq![Action::CreateSessionDir { path: p }] + Seq::new(
        n,
        |i: int| Action::Sequence { id: i as usize, command: SequenceCommandView::Save { path: p } },
    ) + seq![Action::WriteSessionConfig { path: p }]
}

/// Position of the last sequence of `metas` saved under file name `name`,
/// or -1 when there is none.
pub open spec fn last_index(metas: Seq<SeqMeta>, name: Seq<char>) -> int
    decreases metas.len(),
{
    if metas.len() == 0 {
        -1
    } else if metas.last().filename@ == name {
        metas.len() - 1
    } else {
        last_index(metas.drop_last(), name)
    }
}

/// The sequence ids that the file names of a saved scene stand for.
pub open spec fn name_ids(metas: Seq<SeqMeta>, names: Seq<String>) -> Seq<usize> {
    names.map_values(|n: String| last_index(metas, n@) as usize)
}

/// The tracks of saved sequences.
pub open spec fn meta_tracks(metas: Seq<SeqMeta>) -> Seq<usize> {
    metas.map_values(|m: SeqMeta| m.track)
}

/// A saved session can be loaded without failing: its sequences are on
/// tracks of the looper, its scenes are scenes of the looper, and each file
/// name of a scene is the name of a saved sequence.
pub open spec fn config_ok(c: YamlConfig, n_scenes: nat) -> bool {
    &&& tracks_ok(meta_tracks(c.sequences@))
    &&& forall|k: usize| #[trigger] c.scenes@.contains_key(k) ==> k < n_scenes
    &&& forall|k: usize, j: int|
        c.scenes@.contains_key(k) && 0 <= j < c.scenes@[k]@.len() ==> last_index(
            c.sequences@,
            #[trigger] c.scenes@[k]@[j]@,
        ) >= 0
}

/// The actions that create and load the saved sequences `metas` from the
/// session directory `p`, the first getting id `first`.
pub open spec fn load_actions(v: DispatcherView, p: Seq<char>, metas: Seq<SeqMeta>, first: nat) -> Seq<
    Action,
>
    decreases metas.len(),
{
    if metas.len() == 0 {
        Seq::empty()
    } else {
        let m = metas.last();
        load_actions(v, p, metas.drop_last(), first) + seq![
            Action::NewSequence {
                track: m.track,
                beats_per_bar: v.beats_per_bar,
                last_frame: v.last_frame,
                framerate: v.framerate,
            },
            Action::Sequence {
                id: (first + metas.len() - 1) as usize,
                command: SequenceCommandView::Load {
                    path: p + seq!['/'] + m.filename@,
                    beats: m.beats,
                },
            },
        ]
    }
}

impl DispatcherView {
    /// The state after a sync message.
    pub open spec fn synced(self, msg: JackSyncFanoutMessage) -> DispatcherView {
        DispatcherView {
            sync_received: true,
            framerate: msg.framerate,
            beats_per_bar: msg.beats_per_bar,
            last_frame: msg.pos_frame,
            load_ready: false,
            ..self
        }
    }

    /// The actions of a sync message: a downbeat asks for what waits for
    /// the bar boundary, and a pending open loads the session.
    pub open spec fn sync_actions(self, msg: JackSyncFanoutMessage) -> Seq<Action> {
        (if msg.beat_this_cycle && msg.beat == 1 {
            seq![Action::BarBoundary]
        } else {
            Seq::empty()
        }) + (if self.load_ready {
            seq![Action::LoadSession]
        } else {
            Seq::empty()
        })
    }

    /// The state once a saved session `c` is read in, before the current
    /// scene starts: its sequences are appended, and each scene that it
    /// lists gets the ids its file names stand for, counted from the start
    /// of the saved list.
    pub open spec fn session_loaded(self, c: YamlConfig) -> DispatcherView {
        DispatcherView {
            tracks: self.tracks + meta_tracks(c.sequences@),
            scenes: Seq::new(
                self.scenes.len(),
                |i: int|
                    if c.scenes@.contains_key(i as usize) {
                        name_ids(c.sequences@, c.scenes@[i as usize]@)
                    } else {
                        self.scenes[i]
                    },
            ),
            ..self
        }
    }

    /// Loading is possible: without a session directory nothing happens;
    /// otherwise the session (when there is one) loads and the current
    /// scene can start.
    pub open spec fn can_load(self, c: Option<YamlConfig>) -> bool {
        self.path is Some ==> match c {
            None => self.can_start_scene(self.current_scene),
            Some(c) => config_ok(c, self.scenes.len()) && self.session_loaded(c).can_start_scene(
                self.current_scene,
            ),
        }
    }

    /// The state after loading.
    pub open spec fn loaded(self, c: Option<YamlConfig>) -> DispatcherView {
        if self.path is None {
            self
        } else {
            match c {
                None => self.scene_started(self.current_scene),
                Some(c) => self.session_loaded(c).scene_started(self.current_scene),
            }
        }
    }

    /// The actions of loading.
    pub open spec fn load_session_actions(self, c: Option<YamlConfig>) -> Seq<Action> {
        match self.path {
            None => Seq::empty(),
            Some(p) => match c {
                None => self.scene_start_actions(self.current_scene),
                Some(c) => load_actions(self, p, c.sequences@, self.tracks.len())
                    + self.session_loaded(c).scene_start_actions(self.current_scene),
            },
        }
    }
}

/// The file names of scene `i` of a saved session, if it lists that scene.
fn saved_scene(map: &BTreeMap<usize, Vec<String>>, i: usize) -> (r: Option<&Vec<String>>)
    ensures
        r matches Some(v) ==> map@.contains_key(i) && map@[i] == *v,
        r is None ==> !map@.contains_key(i),
{
    broadcast use {vstd::laws_cmp::group_laws_cmp, vstd::std_specs::btree::group_btree_axioms};

    map.get(&i)
}

/// Records the file names of scene `i`.
fn put_scene(map: &mut BTreeMap<usize, Vec<String>>, i: usize, names: Vec<String>)
    ensures
        final(map)@ == old(map)@.insert(i, names),
{
    broadcast use {vstd::laws_cmp::group_laws_cmp, vstd::std_specs::btree::group_btree_axioms};

    map.insert(i, names);
}

/// Position of the last of `metas` saved under the file name `name`.
fn find_last(metas: &Vec<SeqMeta>, name: &String) -> (r: usize)
    requires
        last_index(metas@, name@) >= 0,
    ensures
        r == last_index(metas@, name@),
{
    let mut j: usize = metas.len();
    proof {
        assert(metas@.take(j as int) =~= metas@);
    }
    while j > 0
        invariant
            0 <= j <= metas@.len(),
            last_index(metas@, name@) == last_index(metas@.take(j as int), name@),
            last_index(metas@, name@) >= 0,
        decreases j,
    {
        proof {
            assert(metas@.take(j as int).drop_last() =~= metas@.take(j - 1));
        }
        if metas[j - 1].filename == *name {
            return j - 1;
        }
        j = j - 1;
    }
    proof {
        assert(metas@.take(0) =~= Seq::<SeqMeta>::empty());
    }
    0
}

impl Dispatcher {
    /// The session directory, once the session manager has opened one.
    pub fn session_path(&self) -> (p: Option<String>)
        ensures
            match p {
                Some(s) => self@.path == Some(s@),
                None => self@.path is None,
            },
    {
        match &self.path {
            Some(s) => Some(s.clone()),
            None => None,
        }
    }

    /// Takes a sync message: records that the transport runs and its frame
    /// rate, bar length and position; a downbeat asks for the bar
    /// boundary's commands, and a pending open loads the session.
    pub fn on_sync(&mut self, msg: &JackSyncFanoutMessage) -> (acts: Vec<DispatchAction>)
        ensures
            old(self)@.wf() ==> final(self)@.wf(),
            final(self)@ == old(self)@.synced(*msg),
            actions_view(acts@) == old(self)@.sync_actions(*msg),
    {
        let mut acts: Vec<DispatchAction> = Vec::new();
        let ghost a0 = actions_view(acts@);
        self.sync_message_received = true;
        self.framerate = msg.framerate;
        self.beats_per_bar = msg.beats_per_bar;
        self.last_frame = msg.pos_frame;
        if msg.beat_this_cycle && msg.beat == 1 {
            push_action(&mut acts, DispatchAction::BarBoundary);
        }
        if self.load_request_ready {
            push_action(&mut acts, DispatchAction::LoadSession);
            self.load_request_ready = false;
        }
        proof {
            assert(actions_view(acts@) =~= old(self)@.sync_actions(*msg));
        }
        acts
    }

    /// Takes a message of the session manager: save saves the session when
    /// a directory is known; open records the directory and loads the
    /// session at the next sync message.
    pub fn on_nsm(&mut self, msg: NsmClientMessage) -> (acts: Vec<DispatchAction>)
        ensures
            old(self)@.wf() ==> final(self)@.wf(),
            match msg {
                NsmClientMessage::Save => final(self)@ == old(self)@ && match old(self)@.path {
                    Some(p) => actions_view(acts@) == save_actions(p, old(self)@.tracks.len()),
                    None => acts@.len() == 0,
                },
                NsmClientMessage::Open { path } => final(self)@ == (DispatcherView {
                    path: Some(path@),
                    load_ready: true,
                    ..old(self)@
                }) && acts@.len() == 0,
            },
    {
        let mut acts: Vec<DispatchAction> = Vec::new();
        match msg {
            NsmClientMessage::Save => {
                match &self.path {
                    Some(p) => {
                        push_action(&mut acts, DispatchAction::CreateSessionDir { path: p.clone() });
                        let n = self.seq_tracks.len();
                        let mut i: usize = 0;
                        while i < n
                            invariant
                                0 <= i <= n,
                                n == self@.tracks.len(),
                                self@.path == Some(p@),
                                actions_view(acts@) =~= seq![Action::CreateSessionDir { path: p@ }]
                                    + Seq::new(
                                    i as nat,
                                    |k: int| Action::Sequence {
                                        id: k as usize,
                                        command: SequenceCommandView::Save { path: p@ },
                                    },
                                ),
                            decreases n - i,
                        {
                            push_action(
                                &mut acts,
                                DispatchAction::Sequence {
                                    id: i,
                                    command: SequenceCommand::Save { path: p.clone() },
                                },
                            );
                            i = i + 1;
                        }
                        push_action(&mut acts, DispatchAction::WriteSessionConfig { path: p.clone() });
                        proof {
                            assert(actions_view(acts@) =~= save_actions(p@, n as nat));
                        }
                    },
                    None => {},
                }
            },
            NsmClientMessage::Open { path } => {
                self.path = Some(path);
                self.load_request_ready = true;
            },
        }
        acts
    }

    /// The configuration to save, given the description of each sequence
    /// in list order: every scene, by number, as the file names of its
    /// sequences, and the descriptions themselves.
    pub fn session_config(&self, metas: Vec<SeqMeta>) -> (c: YamlConfig)
        requires
            self@.wf(),
            forall|i: int| 0 <= i < self@.scenes.len() ==> ids_below(#[trigger] self@.scenes[i], metas@.len()),
        ensures
            saved_as(self@, metas@, c),
    {
        let mut map: BTreeMap<usize, Vec<String>> = BTreeMap::new();
        let n = self.scenes.len();
        let mut i: usize = 0;
        while i < n
            invariant
                0 <= i <= n,
                n == self@.scenes.len(),
                self@.wf(),
                forall|i: int| 0 <= i < self@.scenes.len() ==> ids_below(#[trigger] self@.scenes[i], metas@.len()),
                forall|k: usize| #[trigger] map@.contains_key(k) <==> k < i,
                forall|k: usize| #[trigger] map@.contains_key(k) ==> map@[k]@.map_values(
                    |n: String| n@,
                ) == self@.scenes[k as int].map_values(|id: usize| metas@[id as int].filename@),
            decreases n - i,
        {
            let mut names: Vec<String> = Vec::new();
            let m = self.scenes[i].sequences.len();
            let ghost ids = self@.scenes[i as int];
            proof {
                assert(ids =~= self.scenes@[i as int].sequences@);
                assert(ids_below(ids, metas@.len()));
            }
            let mut j: usize = 0;
            while j < m
                invariant
                    0 <= j <= m,
                    m == ids.len(),
                    i < self.scenes@.len(),
                    ids == self.scenes@[i as int].sequences@,
                    ids_below(ids, metas@.len()),
                    names@.map_values(|n: String| n@) =~= ids.take(j as int).map_values(
                        |id: usize| metas@[id as int].filename@,
                    ),
                decreases m - j,
            {
                let idx = self.scenes[i].sequences[j];
                names.push(metas[idx].filename.clone());
                j = j + 1;
                proof {
                    assert(ids.take(j as int).map_values(|id: usize| metas@[id as int].filename@)
                        =~= ids.take(j - 1).map_values(|id: usize| metas@[id as int].filename@).push(
                        metas@[idx as int].filename@,
                    ));
                }
            }
            proof {
                assert(ids.take(m as int) =~= ids);
            }
            put_scene(&mut map, i, names);
            i = i + 1;
        }
        let c = YamlConfig { scenes: map, sequences: metas };
        proof {
            assert(saved_as(self@, metas@, c));
        }
        c
    }
}

impl Dispatcher {
    /// Loads a saved session read from the session directory (`None` when
    /// there is no configuration file there): its sequences are created and
    /// told to load their files, its scenes are filled in, and the current
    /// scene starts.  Without a session directory nothing happens.
    pub fn load_session(&mut self, config: Option<YamlConfig>) -> (acts: Vec<DispatchAction>)
        requires
            old(self)@.wf(),
            old(self)@.can_load(config),
        ensures
            final(self)@.wf(),
            final(self)@ == old(self)@.loaded(config),
            actions_view(acts@) == old(self)@.load_session_actions(config),
    {
        let mut acts: Vec<DispatchAction> = Vec::new();
        let p: String = match &self.path {
            Some(p) => p.clone(),
            None => {
                return acts;
            },
        };
        let ghost v0 = self@;
        proof {
            assert(actions_view(acts@) =~= Seq::<Action>::empty());
        }
        match config {
            None => {},
            Some(config) => {
                let base = self.seq_tracks.len();
                let n = config.sequences.len();
                let mut k: usize = 0;
                proof {
                    assert(config.sequences@.take(0) =~= Seq::<SeqMeta>::empty());
                    assert(v0.tracks + meta_tracks(config.sequences@.take(0)) =~= v0.tracks);
                }
                while k < n
                    invariant
                        0 <= k <= n,
                        n == config.sequences@.len(),
                        base == v0.tracks.len(),
                        v0.path == Some(p@),
                        v0.wf(),
                        config_ok(config, v0.scenes.len()),
                        self@ == (DispatcherView {
                            tracks: v0.tracks + meta_tracks(config.sequences@.take(k as int)),
                            ..v0
                        }),
                        actions_view(acts@) == load_actions(
                            v0,
                            p@,
                            config.sequences@.take(k as int),
                            base as nat,
                        ),
                    decreases n - k,
                {
                    let item = &config.sequences[k];
                    push_action(
                        &mut acts,
                        DispatchAction::NewSequence {
                            track: item.track,
                            beats_per_bar: self.beats_per_bar,
                            last_frame: self.last_frame,
                            framerate: self.framerate,
                        },
                    );
                    self.seq_tracks.push(item.track);
                    let mut full = p.clone();
                    full.append("/");
                    full.append(item.filename.as_str());
                    let id = self.seq_tracks.len() - 1;
                    push_action(
                        &mut acts,
                        DispatchAction::Sequence {
                            id,
                            command: SequenceCommand::Load { path: full, beats: item.beats },
                        },
                    );
                    proof {
                        reveal_strlit("/");
                        let t = config.sequences@.take(k + 1);
                        assert(t.drop_last() =~= config.sequences@.take(k as int));
                        assert(meta_tracks(t) =~= meta_tracks(config.sequences@.take(k as int)).push(
                            item.track,
                        ));
                        assert(v0.tracks + meta_tracks(t) =~= (v0.tracks + meta_tracks(
                            config.sequences@.take(k as int),
                        )).push(item.track));
                        assert(full@ =~= p@ + seq!['/'] + item.filename@);
                        assert(actions_view(acts@) =~= load_actions(v0, p@, t, base as nat));
                    }
                    k = k + 1;
                }
                proof {
                    assert(config.sequences@.take(n as int) =~= config.sequences@);
                    let tt = self@.tracks;
                    assert forall|j: int| 0 <= j < tt.len() implies #[trigger] tt[j] < AUDIO_TRACK_COUNT by {
                        if j < v0.tracks.len() {
                            assert(tt[j] == v0.tracks[j]);
                        } else {
                            assert(tt[j] == meta_tracks(config.sequences@)[j - v0.tracks.len()]);
                        }
                    }
                }
                let ghost v1 = self@;
                let ns = self.scenes.len();
                let mut i: usize = 0;
                proof {
                    assert(v0.scenes =~= Seq::new(
                        ns as nat,
                        |x: int|
                            if x < 0 && config.scenes@.contains_key(x as usize) {
                                name_ids(config.sequences@, config.scenes@[x as usize]@)
                            } else {
                                v0.scenes[x]
                            },
                    ));
                }
                while i < ns
                    invariant
                        0 <= i <= ns,
                        ns == v0.scenes.len(),
                        v0.wf(),
                        tracks_ok(v1.tracks),
                        v1 == (DispatcherView { tracks: v1.tracks, ..v0 }),
                        config_ok(config, v0.scenes.len()),
                        self@ == (DispatcherView {
                            scenes: Seq::new(
                                ns as nat,
                                |x: int|
                                    if x < i && config.scenes@.contains_key(x as usize) {
                                        name_ids(config.sequences@, config.scenes@[x as usize]@)
                                    } else {
                                        v0.scenes[x]
                                    },
                            ),
                            ..v1
                        }),
                    decreases ns - i,
                {
                    match saved_scene(&config.scenes, i) {
                        Some(names) => {
                            let mut ids: Vec<usize> = Vec::new();
                            let m = names.len();
                            let mut j: usize = 0;
                            while j < m
                                invariant
                                    0 <= j <= m,
                                    m == names@.len(),
                                    config.scenes@.contains_key(i),
                                    config.scenes@[i] == *names,
                                    config_ok(config, v0.scenes.len()),
                                    ids@ =~= name_ids(config.sequences@, names@.take(j as int)),
                                decreases m - j,
                            {
                                proof {
                                    assert(last_index(config.sequences@, config.scenes@[i]@[j as int]@) >= 0);
                                }
                                let id = find_last(&config.sequences, &names[j]);
                                ids.push(id);
                                j = j + 1;
                                proof {
                                    assert(name_ids(config.sequences@, names@.take(j as int)) =~= name_ids(
                                        config.sequences@,
                                        names@.take(j - 1),
                                    ).push(id));
                                }
                            }
                            proof {
                                assert(names@.take(m as int) =~= names@);
                            }
                            let ghost before = self.scenes@;
                            proof {
                                assert(scene_lists(before).len() == before.len());
                            }
                            self.scenes.set(i, Scene { sequences: ids });
                            proof {
                                assert(scene_lists(self.scenes@) =~= scene_lists(before).update(
                                    i as int,
                                    name_ids(config.sequences@, names@),
                                ));
                            }
                        },
                        None => {},
                    }
                    proof {
                        assert(self@.scenes =~= Seq::new(
                            ns as nat,
                            |x: int|
                                if x < i + 1 && config.scenes@.contains_key(x as usize) {
                                    name_ids(config.sequences@, config.scenes@[x as usize]@)
                                } else {
                                    v0.scenes[x]
                                },
                        ));
                    }
                    i = i + 1;
                }
                proof {
                    assert(self@.scenes =~= v0.session_loaded(config).scenes);
                    assert(self@.tracks =~= v0.session_loaded(config).tracks);
                }
            },
        }
        let cur = self.current_scene;
        self.start_scene(cur, &mut acts);
        proof {
            assert(actions_view(acts@) =~= v0.load_session_actions(config));
        }
        acts
    }
}

/// Each sequence in `ids` gets a `Play` action.
proof fn lemma_play_actions_cover(tracks: Seq<usize>, ids: Seq<usize>, k: int)
    requires
        0 <= k < ids.len(),
    ensures
        play_actions(tracks, ids).contains(
            Action::Sequence { id: ids[k], command: SequenceCommandView::Play },
        ),
    decreases ids.len(),
{
    let a = Action::Sequence { id: ids[k], command: SequenceCommandView::Play };
    let prev = play_actions(tracks, ids.drop_last());
    let t = tracks[ids.last() as int];
    let tail = seq![
        Action::Sequence { id: ids.last(), command: SequenceCommandView::Play },
        Action::Jack(JackioCommand::StartPlaying { track: t }),
        Action::Track { track: t, command: TrackAudioCommand::Play },
    ];
    if k == ids.len() - 1 {
        assert((prev + tail)[prev.len() as int] == a);
    } else {
        lemma_play_actions_cover(tracks, ids.drop_last(), k);
        let j = choose|j: int| 0 <= j < prev.len() && prev[j] == a;
        assert((prev + tail)[j] == a);
    }
}

/// Activating a scene starts playback of its sequences: afterwards the
/// scene is current, exactly its sequences play, and each of them is told
/// to play.
pub proof fn lemma_start_scene_plays_its_sequences(v: DispatcherView, s: usize)
    requires
        v.wf(),
        v.can_start_scene(s),
    ensures
        v.handled(CommandManagerMessage::Start { scene: s }).current_scene == s,
        v.handled(CommandManagerMessage::Start { scene: s }).playing == v.scenes[s as int],
        v.handled(CommandManagerMessage::Start { scene: s }).scenes == v.scenes,
        v.handled(CommandManagerMessage::Start { scene: s }).tracks == v.tracks,
        forall|k: int|
            0 <= k < v.scenes[s as int].len() ==> v.handled_actions(
                CommandManagerMessage::Start { scene: s },
            ).contains(
                Action::Sequence { id: v.scenes[s as int][k], command: SequenceCommandView::Play },
            ),
{
    assert forall|k: int| 0 <= k < v.scenes[s as int].len() implies v.handled_actions(
        CommandManagerMessage::Start { scene: s },
    ).contains(
        Action::Sequence { id: v.scenes[s as int][k], command: SequenceCommandView::Play },
    ) by {
        let a = Action::Sequence { id: v.scenes[s as int][k], command: SequenceCommandView::Play };
        let st = stop_actions(v.tracks, v.playing);
        let pl = play_actions(v.tracks, v.scenes[s as int]);
        lemma_play_actions_cover(v.tracks, v.scenes[s as int], k);
        let j = choose|j: int| 0 <= j < pl.len() && pl[j] == a;
        assert((st + pl)[st.len() + j] == a);
    }
}

/// An id taken out of a scene is not in it, and other ids stay as they were.
proof fn lemma_without_contains(s: Seq<usize>, x: usize, y: usize)
    ensures
        without(s, x).contains(y) <==> (s.contains(y) && y != x),
{
    let p = other_than(x);
    if s.contains(y) && y != x {
        let i = choose|i: int| 0 <= i < s.len() && s[i] == y;
        s.lemma_filter_contains(p, i);
    }
    if without(s, x).contains(y) {
        s.lemma_filter_contains_rev(p, y);
        let j = choose|j: int| 0 <= j < s.filter(p).len() && s.filter(p)[j] == y;
        s.lemma_filter_pred(p, j);
    }
}

/// After undo has taken back `ids`, no scene holds any of them, and the
/// scenes hold nothing they did not hold before.
proof fn lemma_undone_scenes(tracks: Seq<usize>, scenes: Seq<Seq<usize>>, ids: Seq<usize>)
    ensures
        undone(tracks, scenes, ids).1.len() == scenes.len(),
        forall|i: int, k: int|
            0 <= i < scenes.len() && 0 <= k < ids.len() ==> !#[trigger] undone(
                tracks,
                scenes,
                ids,
            ).1[i].contains(#[trigger] ids[k]),
    decreases ids.len(),
{
    if ids.len() > 0 {
        let prev = ids.drop_last();
        lemma_undone_scenes(tracks, scenes, prev);
        let s0 = undone(tracks, scenes, prev).1;
        let x = ids.last();
        let s1 = undone(tracks, scenes, ids).1;
        assert(s1 == scenes_without(s0, x));
        assert forall|i: int, k: int| 0 <= i < scenes.len() && 0 <= k < ids.len() implies !s1[i].contains(
            ids[k],
        ) by {
            lemma_without_contains(s0[i], x, ids[k]);
            if k < ids.len() - 1 {
                assert(ids[k] == prev[k]);
            }
        }
    }
}

/// Undo takes back the sequences held for it: afterwards no scene holds
/// any of them, nothing records, and the only sequences that play are
/// those of the current scene.
pub proof fn lemma_undo_forgets_newest(v: DispatcherView)
    requires
        v.wf(),
        v.can_handle(CommandManagerMessage::Undo),
    ensures
        forall|i: int, k: int|
            0 <= i < v.scenes.len() && 0 <= k < v.newest.len() ==> !#[trigger] v.handled(
                CommandManagerMessage::Undo,
            ).scenes[i].contains(#[trigger] v.newest[k]),
        v.handled(CommandManagerMessage::Undo).recording.len() == 0,
        v.handled(CommandManagerMessage::Undo).newest.len() == 0,
        v.handled(CommandManagerMessage::Undo).playing == v.handled(
            CommandManagerMessage::Undo,
        ).scenes[v.current_scene as int],
{
    lemma_undone_scenes(v.tracks, v.scenes, v.newest);
}

/// Each created sequence joins each scene of `which`, and a scene keeps
/// what it held.
proof fn lemma_add_to_scenes_contains(scenes: Seq<Seq<usize>>, which: Seq<usize>, id: usize, w: usize, y: usize)
    requires
        ids_below(which, scenes.len()),
        w < scenes.len(),
    ensures
        which.contains(w) ==> add_to_scenes(scenes, which, id)[w as int].contains(id),
        scenes[w as int].contains(y) ==> add_to_scenes(scenes, which, id)[w as int].contains(y),
    decreases which.len(),
{
    if which.len() > 0 {
        let prev = which.drop_last();
        lemma_add_to_scenes_contains(scenes, prev, id, w, y);
        lemma_add_to_scenes_len(scenes, prev, id);
        let s = add_to_scenes(scenes, prev, id);
        let l = which.last();
        if l == w {
            assert(s[w as int].push(id)[s[w as int].len() as int] == id);
            if s[w as int].contains(y) {
                let j = choose|j: int| 0 <= j < s[w as int].len() && s[w as int][j] == y;
                assert(s[w as int].push(id)[j] == y);
            }
        }
        if which.contains(w) && l != w {
            let j = choose|j: int| 0 <= j < which.len() && which[j] == w;
            assert(prev[j] == w);
        }
    }
}

/// The scenes after created sequences joined them: each sequence
/// `first + k` is in each scene of `which`.
proof fn lemma_join_scenes_contains(scenes: Seq<Seq<usize>>, which: Seq<usize>, first: nat, count: nat, k: nat, w: usize)
    requires
        ids_below(which, scenes.len()),
        w < scenes.len(),
        k < count,
        which.contains(w),
    ensures
        join_scenes(scenes, which, first, count)[w as int].contains((first + k) as usize),
        join_scenes(scenes, which, first, count).len() == scenes.len(),
    decreases count,
{
    lemma_join_scenes_len(scenes, which, first, (count - 1) as nat);
    let prev = join_scenes(scenes, which, first, (count - 1) as nat);
    lemma_add_to_scenes_len(prev, which, (first + count - 1) as usize);
    if k == count - 1 {
        lemma_add_to_scenes_contains(prev, which, (first + count - 1) as usize, w, 0);
    } else {
        lemma_join_scenes_contains(scenes, which, first, (count - 1) as nat, k, w);
        lemma_add_to_scenes_contains(prev, which, (first + count - 1) as usize, w, (first + k) as usize);
    }
}

/// Joining scenes keeps the number of scenes.
proof fn lemma_join_scenes_len(scenes: Seq<Seq<usize>>, which: Seq<usize>, first: nat, count: nat)
    requires
        ids_below(which, scenes.len()),
    ensures
        join_scenes(scenes, which, first, count).len() == scenes.len(),
    decreases count,
{
    if count > 0 {
        lemma_join_scenes_len(scenes, which, first, (count - 1) as nat);
        lemma_add_to_scenes_len(
            join_scenes(scenes, which, first, (count - 1) as nat),
            which,
            (first + count - 1) as usize,
        );
    }
}

/// Go, once the transport runs, starts one recording sequence per armed
/// track, appended to the list in the order of the tracks; each joins every
/// armed scene, and undo would take back all of them, newest first.
pub proof fn lemma_go_records_armed_tracks(v: DispatcherView, tracks: Seq<usize>, which: Seq<usize>)
    requires
        v.wf(),
        v.sync_received,
        ids_below(which, v.scenes.len()),
        tracks.len() > 0,
    ensures
        v.after_go(tracks, which).tracks == v.tracks + tracks,
        forall|k: int|
            0 <= k < tracks.len() ==> #[trigger] v.after_go(tracks, which).recording.contains(
                (v.tracks.len() + k) as usize,
            ),
        forall|k: int, w: usize|
            0 <= k < tracks.len() && w < v.scenes.len() && which.contains(w)
                ==> #[trigger] v.after_go(tracks, which).scenes[w as int].contains(
                (v.tracks.len() + k) as usize,
            ),
        v.after_go(tracks, which).newest == id_desc(v.tracks.len(), tracks.len()),
{
    let n = v.tracks.len();
    let after = v.after_go(tracks, which);
    assert forall|k: int| 0 <= k < tracks.len() implies #[trigger] after.recording.contains(
        (n + k) as usize,
    ) by {
        let r = after.recording;
        let base = v.recording.len();
        assert(r[base + k] == (n + k) as usize);
    }
    assert forall|k: int, w: usize|
        0 <= k < tracks.len() && w < v.scenes.len() && which.contains(w)
            implies #[trigger] after.scenes[w as int].contains((n + k) as usize) by {
        lemma_join_scenes_contains(v.scenes, which, n, tracks.len(), k as nat, w);
    }
}

/// Taking back the last `k` ids of a list of `n + k` sequences, newest
/// first, leaves the first `n`.
proof fn lemma_undone_tail(t: Seq<usize>, s: Seq<Seq<usize>>, n: nat, k: nat)
    requires
        t.len() == n + k,
        n + k <= usize::MAX,
    ensures
        undone(t, s, id_desc(n, k)).0 == t.take(n as int),
    decreases k,
{
    if k > 0 {
        let ids = id_desc(n, k);
        assert(ids.drop_last() =~= id_desc(n + 1, (k - 1) as nat));
        lemma_undone_tail(t, s, n + 1, (k - 1) as nat);
        assert(ids.last() == n as usize);
        assert(t.take((n + 1) as int).remove(n as int) =~= t.take(n as int));
    } else {
        assert(t.take(n as int) =~= t);
    }
}

/// Undo right after a go that armed tracks takes back every sequence that
/// the go created: the list of sequences is as before the go, and no scene
/// holds any of the new ones.
pub proof fn lemma_undo_takes_back_go(v: DispatcherView, tracks: Seq<usize>, which: Seq<usize>)
    requires
        v.wf(),
        v.sync_received,
        ids_below(which, v.scenes.len()),
        tracks.len() > 0,
        v.tracks.len() + tracks.len() <= usize::MAX,
    ensures
        v.after_go(tracks, which).handled(CommandManagerMessage::Undo).tracks == v.tracks,
        forall|i: int, k: int|
            0 <= i < v.scenes.len() && 0 <= k < tracks.len() ==> !#[trigger] v.after_go(
                tracks,
                which,
            ).handled(CommandManagerMessage::Undo).scenes[i].contains((v.tracks.len() + k) as usize),
{
    let n = v.tracks.len();
    let w = v.after_go(tracks, which);
    lemma_undone_tail(w.tracks, w.scenes, n, tracks.len());
    assert(w.tracks.take(n as int) =~= v.tracks);
    lemma_join_scenes_len(v.scenes, which, n, tracks.len());
    assert forall|i: int, k: int|
        0 <= i < v.scenes.len() && 0 <= k < tracks.len() implies !#[trigger] w.handled(
            CommandManagerMessage::Undo,
        ).scenes[i].contains((n + k) as usize) by {
        let ids = id_desc(n, tracks.len());
        assert(ids[tracks.len() - 1 - k] == (n + k) as usize);
        lemma_undone_scene_members(w.tracks, w.scenes, ids, i, (n + k) as usize);
    }
}

/// What undo leaves of the scenes: every scene without the taken-back ids.
proof fn lemma_undone_scene_members(tracks: Seq<usize>, scenes: Seq<Seq<usize>>, ids: Seq<usize>, i: int, x: usize)
    requires
        0 <= i < scenes.len(),
    ensures
        undone(tracks, scenes, ids).1.len() == scenes.len(),
        undone(tracks, scenes, ids).1[i].contains(x) <==> (scenes[i].contains(x) && !ids.contains(x)),
    decreases ids.len(),
{
    if ids.len() > 0 {
        let prev = ids.drop_last();
        lemma_undone_scene_members(tracks, scenes, prev, i, x);
        let s0 = undone(tracks, scenes, prev).1;
        lemma_without_contains(s0[i], ids.last(), x);
        if ids.contains(x) && x != ids.last() {
            let j = choose|j: int| 0 <= j < ids.len() && ids[j] == x;
            assert(prev[j] == x);
        }
        if prev.contains(x) {
            let j = choose|j: int| 0 <= j < prev.len() && prev[j] == x;
            assert(ids[j] == x);
        }
        if x == ids.last() {
            assert(ids[ids.len() - 1] == x);
        }
    }
}

/// Every element of `s` is below `n` exactly when every id is.
proof fn lemma_ids_below_contains(s: Seq<usize>, n: nat)
    ensures
        ids_below(s, n) <==> forall|x: usize| #[trigger] s.contains(x) ==> x < n,
{
    if forall|x: usize| #[trigger] s.contains(x) ==> x < n {
        assert forall|i: int| 0 <= i < s.len() implies #[trigger] s[i] < n by {
            assert(s.contains(s[i]));
        }
    }
}

/// Whether every id of `v` is below `n`.
fn all_below(v: &Vec<usize>, n: usize) -> (b: bool)
    ensures
        b == ids_below(v@, n as nat),
{
    let mut i: usize = 0;
    while i < v.len()
        invariant
            0 <= i <= v.len(),
            forall|j: int| 0 <= j < i ==> v@[j] < n,
        decreases v.len() - i,
    {
        if v[i] >= n {
            return false;
        }
        i = i + 1;
    }
    true
}

impl Dispatcher {
    /// Whether the configuration can be made from `n` descriptions of
    /// sequences: every sequence of every scene is one of them.
    pub fn can_save(&self, n: usize) -> (b: bool)
        ensures
            b == forall|i: int| 0 <= i < self@.scenes.len() ==> ids_below(#[trigger] self@.scenes[i], n as nat),
    {
        let mut i: usize = 0;
        while i < self.scenes.len()
            invariant
                0 <= i <= self.scenes@.len(),
                self@.scenes.len() == self.scenes@.len(),
                forall|k: int| 0 <= k < i ==> ids_below(#[trigger] self@.scenes[k], n as nat),
            decreases self.scenes@.len() - i,
        {
            proof {
                assert(self@.scenes[i as int] == self.scenes@[i as int].sequences@);
            }
            if !all_below(&self.scenes[i].sequences, n) {
                return false;
            }
            i = i + 1;
        }
        true
    }

    /// Whether scene `s` can start.
    pub fn can_start_scene(&self, s: usize) -> (b: bool)
        ensures
            b == self@.can_start_scene(s),
    {
        proof {
            assert(scene_lists(self.scenes@).len() == self.scenes@.len());
        }
        if s >= self.scenes.len() {
            return false;
        }
        all_below(&self.playing_sequences, self.seq_tracks.len()) && all_below(
            &self.scenes[s].sequences,
            self.seq_tracks.len(),
        )
    }

    /// Whether a command can be carried out without failing.
    pub fn can_handle(&self, msg: &CommandManagerMessage) -> (b: bool)
        requires
            self@.wf(),
        ensures
            b == self@.can_handle(*msg),
    {
        match msg {
            CommandManagerMessage::Stop => true,
            CommandManagerMessage::Start { scene } => self.can_start_scene(*scene),
            CommandManagerMessage::Go { tracks, scenes } => {
                if !self.sync_message_received {
                    return true;
                }
                proof {
                    assert(scene_lists(self.scenes@).len() == self.scenes@.len());
                }
                proof {
                    assert(tracks_ok(tracks@) == ids_below(tracks@, AUDIO_TRACK_COUNT as nat));
                }
                let rec_ok = !(tracks.len() == 0 && scenes.len() == 0) || all_below(
                    &self.recording_sequences,
                    self.seq_tracks.len(),
                );
                rec_ok && all_below(tracks, AUDIO_TRACK_COUNT) && all_below(
                    scenes,
                    self.scenes.len(),
                )
            },
            CommandManagerMessage::Undo => {
                let ghost v = self@;
                // the number of sequences once undo has removed its ids
                let mut len = self.seq_tracks.len();
                let n = self.newest_sequences.len();
                let mut i: usize = 0;
                while i < n
                    invariant
                        0 <= i <= n,
                        n == v.newest.len(),
                        self@ == v,
                        *msg is Undo,
                        len == undone(v.tracks, v.scenes, v.newest.take(i as int)).0.len(),
                    decreases n - i,
                {
                    proof {
                        assert(v.newest.take(i + 1).drop_last() =~= v.newest.take(i as int));
                    }
                    if self.newest_sequences[i] < len {
                        len = len - 1;
                    }
                    i = i + 1;
                }
                proof {
                    assert(v.newest.take(n as int) =~= v.newest);
                    assert(scene_lists(self.scenes@).len() == self.scenes@.len());
                }
                let c = self.current_scene;
                let m = self.scenes[c].sequences.len();
                let ghost sc = v.scenes[c as int];
                proof {
                    assert(sc == self.scenes@[c as int].sequences@);
                }
                let mut j: usize = 0;
                while j < m
                    invariant
                        0 <= j <= m,
                        m == sc.len(),
                        c == v.current_scene,
                        v.wf(),
                        sc == v.scenes[c as int],
                        sc == self.scenes@[c as int].sequences@,
                        self@ == v,
                        *msg is Undo,
                        len == undone(v.tracks, v.scenes, v.newest).0.len(),
                        forall|k: int| 0 <= k < j ==> v.newest.contains(sc[k]) || sc[k] < len,
                    decreases m - j,
                {
                    let x = self.scenes[c].sequences[j];
                    if !vec_contains(&self.newest_sequences, x) && x >= len {
                        proof {
                            assert(!v.newest.contains(x));
                            assert(sc[j as int] == x);
                            lemma_undone_scene_members(v.tracks, v.scenes, v.newest, c as int, x);
                            let u = undone(v.tracks, v.scenes, v.newest).1;
                            lemma_undone_scene_members(v.tracks, v.scenes, v.newest, c as int, x);
                            assert(sc.contains(x));
                            assert(u[c as int].contains(x));
                            lemma_ids_below_contains(u[c as int], len as nat);
                            assert(!ids_below(u[c as int], len as nat));
                            assert(v.undo_cleared().scenes == u);
                            assert(v.undo_cleared().tracks.len() == len);
                            assert(!v.undo_cleared().can_start_scene(c));
                        }
                        return false;
                    }
                    j = j + 1;
                }
                proof {
                    let u = undone(v.tracks, v.scenes, v.newest).1;
                    lemma_undone_scene_members(v.tracks, v.scenes, v.newest, c as int, 0);
                    lemma_ids_below_contains(u[c as int], len as nat);
                    assert forall|x: usize| #[trigger] u[c as int].contains(x) implies x < len by {
                        lemma_undone_scene_members(v.tracks, v.scenes, v.newest, c as int, x);
                        let k = choose|k: int| 0 <= k < sc.len() && sc[k] == x;
                    }
                    assert(ids_below(Seq::<usize>::empty(), len as nat));
                }
                true
            },
        }
    }

    /// Whether a saved session can be loaded without failing, given that
    /// every scene number it lists is a scene of the looper.
    pub fn can_load(&self, config: &Option<YamlConfig>) -> (b: bool)
        requires
            self@.wf(),
            config matches Some(c) ==> forall|k: usize| #[trigger] c.scenes@.contains_key(k) ==> k
                < self@.scenes.len(),
        ensures
            b == self@.can_load(*config),
    {
        match &self.path {
            None => {
                return true;
            },
            Some(_) => {},
        }
        let cur = self.current_scene;
        match config {
            None => self.can_start_scene(cur),
            Some(c) => {
                let ghost v = self@;
                proof {
                    assert(scene_lists(self.scenes@).len() == self.scenes@.len());
                    assert(v.path is Some);
                }
                // the saved sequences' tracks
                let n = c.sequences.len();
                let mut k: usize = 0;
                while k < n
                    invariant
                        0 <= k <= n,
                        self@ == v,
                        v.path is Some,
                        *config == Some(*c),
                        n == c.sequences@.len(),
                        forall|j: int| 0 <= j < k ==> #[trigger] meta_tracks(c.sequences@)[j] < AUDIO_TRACK_COUNT,
                    decreases n - k,
                {
                    if c.sequences[k].track >= AUDIO_TRACK_COUNT {
                        proof {
                            assert(self@.path is Some);
                            assert(meta_tracks(c.sequences@)[k as int] >= AUDIO_TRACK_COUNT);
                            assert(!tracks_ok(meta_tracks(c.sequences@)));
                        }
                        return false;
                    }
                    k = k + 1;
                }
                // every file name of every listed scene names a sequence
                let ns = self.scenes.len();
                let mut i: usize = 0;
                while i < ns
                    invariant
                        0 <= i <= ns,
                        self@ == v,
                        v.path is Some,
                        *config == Some(*c),
                        ns == v.scenes.len(),
                        forall|kk: usize, j: int|
                            kk < i && c.scenes@.contains_key(kk) && 0 <= j < c.scenes@[kk]@.len()
                                ==> last_index(c.sequences@, #[trigger] c.scenes@[kk]@[j]@) >= 0,
                    decreases ns - i,
                {
                    match saved_scene(&c.scenes, i) {
                        Some(names) => {
                            let mut j: usize = 0;
                            while j < names.len()
                                invariant
                                    0 <= j <= names@.len(),
                                    self@ == v,
                                    v.path is Some,
                                    *config == Some(*c),
                                    c.scenes@.contains_key(i),
                                    c.scenes@[i] == *names,
                                    forall|jj: int| 0 <= jj < j ==> last_index(c.sequences@, #[trigger] names@[jj]@) >= 0,
                                decreases names@.len() - j,
                            {
                                if !has_file(&c.sequences, &names[j]) {
                                    proof {
                                        assert(self@.path is Some);
                                        assert(last_index(c.sequences@, c.scenes@[i]@[j as int]@) < 0);
                                        assert(!config_ok(*c, v.scenes.len()));
                                    }
                                    return false;
                                }
                                j = j + 1;
                            }
                        },
                        None => {},
                    }
                    i = i + 1;
                }
                proof {
                    assert(config_ok(*c, v.scenes.len()));
                }
                // the current scene, once loaded, and what plays must exist
                let total = self.seq_tracks.len() as u128 + n as u128;
                let ghost lv = v.session_loaded(*c);
                proof {
                    assert(lv.tracks.len() == total);
                    assert(lv.scenes.len() == v.scenes.len());
                }
                let playing_ok = all_below_wide(&self.playing_sequences, total);
                match saved_scene(&c.scenes, cur) {
                    Some(names) => {
                        // the ids of the names are positions in the saved list
                        proof {
                            assert forall|j: int| 0 <= j < names@.len() implies #[trigger] name_ids(
                                c.sequences@,
                                names@,
                            )[j] < lv.tracks.len() by {
                                lemma_last_index_below(c.sequences@, names@[j]@);
                            }
                            assert(lv.scenes[cur as int] == name_ids(c.sequences@, names@));
                        }
                        playing_ok
                    },
                    None => {
                        proof {
                            assert(lv.scenes[cur as int] == v.scenes[cur as int]);
                            assert(v.scenes[cur as int] == self.scenes@[cur as int].sequences@);
                        }
                        playing_ok && all_below_wide(&self.scenes[cur].sequences, total)
                    },
                }
            },
        }
    }
}

/// A position found by name is a position of the list.
proof fn lemma_last_index_below(metas: Seq<SeqMeta>, name: Seq<char>)
    ensures
        last_index(metas, name) < metas.len(),
    decreases metas.len(),
{
    if metas.len() > 0 {
        lemma_last_index_below(metas.drop_last(), name);
    }
}

/// Whether some sequence of `metas` was saved under `name`.
fn has_file(metas: &Vec<SeqMeta>, name: &String) -> (b: bool)
    ensures
        b == (last_index(metas@, name@) >= 0),
{
    let mut j: usize = metas.len();
    proof {
        assert(metas@.take(j as int) =~= metas@);
    }
    while j > 0
        invariant
            0 <= j <= metas@.len(),
            last_index(metas@, name@) == last_index(metas@.take(j as int), name@),
        decreases j,
    {
        proof {
            assert(metas@.take(j as int).drop_last() =~= metas@.take(j - 1));
        }
        if metas[j - 1].filename == *name {
            return true;
        }
        j = j - 1;
    }
    proof {
        assert(metas@.take(0) =~= Seq::<SeqMeta>::empty());
    }
    false
}

/// Whether every id of `v` is below `n`, for a bound that may exceed `usize`.
fn all_below_wide(v: &Vec<usize>, n: u128) -> (b: bool)
    ensures
        b == ids_below(v@, n as nat),
{
    let mut i: usize = 0;
    while i < v.len()
        invariant
            0 <= i <= v.len(),
            forall|j: int| 0 <= j < i ==> v@[j] < n,
        decreases v.len() - i,
    {
        if v[i] as u128 >= n {
            return false;
        }
        i = i + 1;
    }
    true
}

/// Among descriptions with distinct file names, the name of the
/// description at `i` stands for `i`.
proof fn lemma_last_index_of_own_name(metas: Seq<SeqMeta>, i: int)
    requires
        0 <= i < metas.len(),
        forall|a: int, b: int|
            0 <= a < b < metas.len() ==> metas[a].filename@ != metas[b].filename@,
    ensures
        last_index(metas, metas[i].filename@) == i,
    decreases metas.len(),
{
    if i < metas.len() - 1 {
        let d = metas.drop_last();
        assert(metas.last().filename@ != metas[i].filename@);
        assert(d[i] == metas[i]);
        lemma_last_index_of_own_name(d, i);
    }
}

/// Loading is the inverse of saving: a session saved from a state whose
/// sequences have distinct file names, loaded into a looper without
/// sequences, gives back the sequences' tracks and every scene.
pub proof fn lemma_load_inverts_save(
    v: DispatcherView,
    metas: Seq<SeqMeta>,
    c: YamlConfig,
    fresh: DispatcherView,
)
    requires
        v.wf(),
        saved_as(v, metas, c),
        metas.len() == v.tracks.len(),
        forall|i: int| 0 <= i < metas.len() ==> #[trigger] metas[i].track == v.tracks[i],
        forall|a: int, b: int|
            0 <= a < b < metas.len() ==> metas[a].filename@ != metas[b].filename@,
        forall|i: int| 0 <= i < v.scenes.len() ==> ids_below(#[trigger] v.scenes[i], metas.len()),
        fresh.wf(),
        fresh.tracks.len() == 0,
    ensures
        config_ok(c, fresh.scenes.len()),
        fresh.session_loaded(c).tracks == v.tracks,
        fresh.session_loaded(c).scenes == v.scenes,
{
    let l = fresh.session_loaded(c);
    assert(l.tracks =~= v.tracks);
    assert(meta_tracks(c.sequences@) =~= v.tracks);
    assert forall|k: usize, j: int|
        c.scenes@.contains_key(k) && 0 <= j < c.scenes@[k]@.len() implies last_index(
            c.sequences@,
            #[trigger] c.scenes@[k]@[j]@,
        ) >= 0 by {
        let names = c.scenes@[k]@;
        let ids = v.scenes[k as int];
        let named = names.map_values(|n: String| n@);
        assert(k < v.scenes.len());
        assert(named == ids.map_values(|id: usize| metas[id as int].filename@));
        assert(named.len() == ids.len());
        assert(ids[j] < metas.len());
        assert(named[j] == metas[ids[j] as int].filename@);
        lemma_last_index_of_own_name(metas, ids[j] as int);
    }
    assert forall|i: int| 0 <= i < v.scenes.len() implies #[trigger] l.scenes[i] == v.scenes[i] by {
        let k = i as usize;
        if c.scenes@.contains_key(k) {
            let names = c.scenes@[k]@;
            let named = names.map_values(|n: String| n@);
            let ids = v.scenes[i];
            assert(named == ids.map_values(|id: usize| metas[id as int].filename@));
            assert forall|j: int| 0 <= j < ids.len() implies name_ids(metas, names)[j] == ids[j] by {
                assert(named[j] == metas[ids[j] as int].filename@);
                assert(names[j]@ == named[j]);
                lemma_last_index_of_own_name(metas, ids[j] as int);
            }
            assert(name_ids(metas, names).len() == ids.len());
            assert(name_ids(metas, names) =~= ids);
        }
    }
    assert(l.scenes =~= v.scenes);
}

/// Every sequence of `ids` that exists is told to stop, and its track to
/// stop playing.
proof fn lemma_halt_stops_each(tracks: Seq<usize>, ids: Seq<usize>, k: int)
    requires
        0 <= k < ids.len(),
        ids[k] < tracks.len(),
    ensures
        halt_actions(tracks, ids).contains(
            Action::Sequence { id: ids[k], command: SequenceCommandView::Stop },
        ),
        halt_actions(tracks, ids).contains(
            Action::Jack(JackioCommand::StopPlaying { track: tracks[ids[k] as int] }),
        ),
    decreases ids.len(),
{
    let a = halt_actions(tracks, ids);
    let prev = halt_actions(tracks, ids.drop_last());
    let s = Action::Sequence { id: ids[k], command: SequenceCommandView::Stop };
    let j = Action::Jack(JackioCommand::StopPlaying { track: tracks[ids[k] as int] });
    if k == ids.len() - 1 {
        assert(a[prev.len() as int] == s);
        assert(a[prev.len() as int + 1] == j);
    } else {
        assert(ids.drop_last()[k] == ids[k]);
        lemma_halt_stops_each(tracks, ids.drop_last(), k);
        let p = choose|p: int| 0 <= p < prev.len() && prev[p] == s;
        let q = choose|q: int| 0 <= q < prev.len() && prev[q] == j;
        assert(a[p] == s);
        assert(a[q] == j);
    }
}

/// Stop stops everything that plays: each playing sequence that exists is
/// told to stop, and its track stops playing.
pub proof fn lemma_stop_stops_every_playing_sequence(v: DispatcherView, k: int)
    requires
        0 <= k < v.playing.len(),
        v.playing[k] < v.tracks.len(),
    ensures
        v.handled_actions(CommandManagerMessage::Stop).contains(
            Action::Sequence { id: v.playing[k], command: SequenceCommandView::Stop },
        ),
        v.handled_actions(CommandManagerMessage::Stop).contains(
            Action::Jack(JackioCommand::StopPlaying { track: v.tracks[v.playing[k] as int] }),
        ),
{
    lemma_halt_stops_each(v.tracks, v.playing, k);
}

/// Go with nothing armed commits the recordings and keeps what plays: every
/// sequence that played still plays, every recording one now plays too,
/// nothing else is added, nothing records, and a following stop stops all
/// of them.
pub proof fn lemma_commit_keeps_playing(v: DispatcherView)
    requires
        v.wf(),
        v.sync_received,
    ensures
        ({
            let w = v.after_go(Seq::empty(), Seq::empty());
            &&& w.recording.len() == 0
            &&& w.playing.len() == v.playing.len() + v.recording.len()
            &&& forall|k: int| 0 <= k < v.playing.len() ==> w.playing.contains(#[trigger] v.playing[k])
            &&& forall|k: int| 0 <= k < v.recording.len() ==> w.playing.contains(#[trigger] v.recording[k])
            &&& w.tracks == v.tracks
            &&& forall|k: int|
                0 <= k < v.playing.len() && v.playing[k] < v.tracks.len()
                    ==> w.handled_actions(CommandManagerMessage::Stop).contains(
                    Action::Sequence { id: #[trigger] v.playing[k], command: SequenceCommandView::Stop },
                )
        }),
{
    let w = v.after_go(Seq::empty(), Seq::empty());
    assert(w.tracks =~= v.tracks);
    assert(w.recording =~= Seq::<usize>::empty());
    assert(w.playing =~= v.playing + v.recording);
    assert forall|k: int| 0 <= k < v.playing.len() implies w.playing.contains(#[trigger] v.playing[k]) by {
        assert(w.playing[k] == v.playing[k]);
    }
    assert forall|k: int| 0 <= k < v.recording.len() implies w.playing.contains(
        #[trigger] v.recording[k],
    ) by {
        assert(w.playing[v.playing.len() + k] == v.recording[k]);
    }
    assert forall|k: int|
        0 <= k < v.playing.len() && v.playing[k] < v.tracks.len()
            implies w.handled_actions(CommandManagerMessage::Stop).contains(
            Action::Sequence { id: #[trigger] v.playing[k], command: SequenceCommandView::Stop },
        ) by {
        assert(w.playing[k] == v.playing[k]);
        lemma_halt_stops_each(w.tracks, w.playing, k);
    }
}

} // verus!
