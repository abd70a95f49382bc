use std::collections::BTreeMap;
use st_loop::command_manager::CommandManagerMessage;
use st_loop::dispatcher::{DispatchAction, Dispatcher, NsmClientMessage, TrackAudioCommand};
use st_loop::jack_sync_fanout::JackSyncFanoutMessage;
use st_loop::jackio::JackioCommand;
use st_loop::sequence::SequenceCommand;
use st_loop::yaml_config::{SeqMeta, YamlConfig};

fn msg(beat: usize, beat_this_cycle: bool) -> JackSyncFanoutMessage {
    JackSyncFanoutMessage {
        pos_frame: 1000,
        framerate: 48000,
        beats_per_bar: 4,
        beat,
        nframes: 256,
        next_beat_frame: 0,
        frames_per_beat: 0,
        beat_this_cycle,
    }
}

fn go(tracks: Vec<usize>, scenes: Vec<usize>) -> CommandManagerMessage {
    CommandManagerMessage::Go { tracks, scenes }
}

fn seq(id: usize, command: SequenceCommand) -> DispatchAction {
    DispatchAction::Sequence { id, command }
}

fn jack(c: JackioCommand) -> DispatchAction {
    DispatchAction::Jack(c)
}

fn track(track: usize, command: TrackAudioCommand) -> DispatchAction {
    DispatchAction::Track { track, command }
}

fn new_seq(track: usize) -> DispatchAction {
    DispatchAction::NewSequence { track, beats_per_bar: 4, last_frame: 1000, framerate: 48000 }
}

/// Two sequences recorded on tracks 0 and 2, both in scenes 1 and 3.
fn recorded() -> Dispatcher {
    let mut d = Dispatcher::new();
    d.on_sync(&msg(2, true));
    d.on_command(go(vec![0, 2], vec![1, 3]));
    d
}

#[test]
fn go_before_any_sync_message_does_nothing() {
    let mut d = Dispatcher::new();
    assert!(d.on_command(go(vec![0], vec![1])).is_empty());
    d.on_sync(&msg(2, false));
    // nothing was created: committing has nothing to commit
    assert!(d.on_command(go(vec![], vec![])).is_empty());
}

#[test]
fn a_downbeat_asks_for_the_bar_boundary() {
    let mut d = Dispatcher::new();
    assert_eq!(d.on_sync(&msg(1, true)), vec![DispatchAction::BarBoundary]);
    assert!(d.on_sync(&msg(1, false)).is_empty());
    assert!(d.on_sync(&msg(3, true)).is_empty());
}

#[test]
fn go_with_tracks_starts_recording_sequences() {
    let mut d = Dispatcher::new();
    d.on_sync(&msg(2, true));
    let acts = d.on_command(go(vec![0, 2], vec![1, 3]));
    assert_eq!(
        acts,
        vec![
            new_seq(0),
            seq(0, SequenceCommand::StartRecord),
            jack(JackioCommand::StartRecording { track: 0 }),
            new_seq(2),
            seq(1, SequenceCommand::StartRecord),
            jack(JackioCommand::StartRecording { track: 2 }),
        ]
    );
}

#[test]
fn go_without_tracks_commits_the_recordings_and_plays_them() {
    let mut d = recorded();
    let acts = d.on_command(go(vec![], vec![]));
    assert_eq!(
        acts,
        vec![
            jack(JackioCommand::StopRecording { track: 0 }),
            seq(0, SequenceCommand::Play),
            seq(0, SequenceCommand::StopRecord),
            track(0, TrackAudioCommand::Play),
            jack(JackioCommand::StartPlaying { track: 0 }),
            jack(JackioCommand::StopRecording { track: 2 }),
            seq(1, SequenceCommand::Play),
            seq(1, SequenceCommand::StopRecord),
            track(2, TrackAudioCommand::Play),
            jack(JackioCommand::StartPlaying { track: 2 }),
        ]
    );
    // committed once
    assert!(d.on_command(go(vec![], vec![])).is_empty());
}

#[test]
fn starting_a_scene_stops_what_plays_and_plays_the_scene() {
    let mut d = recorded();
    d.on_command(go(vec![], vec![]));
    let acts = d.on_command(CommandManagerMessage::Start { scene: 3 });
    assert_eq!(
        acts,
        vec![
            seq(0, SequenceCommand::Stop),
            jack(JackioCommand::StopPlaying { track: 0 }),
            track(0, TrackAudioCommand::Stop),
            seq(1, SequenceCommand::Stop),
            jack(JackioCommand::StopPlaying { track: 2 }),
            track(2, TrackAudioCommand::Stop),
            seq(0, SequenceCommand::Play),
            jack(JackioCommand::StartPlaying { track: 0 }),
            track(0, TrackAudioCommand::Play),
            seq(1, SequenceCommand::Play),
            jack(JackioCommand::StartPlaying { track: 2 }),
            track(2, TrackAudioCommand::Play),
        ]
    );
    // the empty scene stops everything and plays nothing
    let acts = d.on_command(CommandManagerMessage::Start { scene: 0 });
    assert_eq!(acts.len(), 6);
    assert!(d.on_command(CommandManagerMessage::Start { scene: 2 }).is_empty());
}

#[test]
fn stop_stops_what_plays_at_once() {
    let mut d = recorded();
    d.on_command(go(vec![], vec![]));
    let acts = d.on_command(CommandManagerMessage::Stop);
    assert_eq!(
        acts,
        vec![
            seq(0, SequenceCommand::Stop),
            jack(JackioCommand::StopPlaying { track: 0 }),
            seq(1, SequenceCommand::Stop),
            jack(JackioCommand::StopPlaying { track: 2 }),
        ]
    );
}

#[test]
fn undo_takes_back_every_sequence_of_the_last_go() {
    let mut d = recorded();
    let acts = d.on_command(CommandManagerMessage::Undo);
    // the go created 0 (track 0) and 1 (track 2); both go, newest first, and
    // scene 1, now empty, starts again with nothing to play
    assert_eq!(
        acts,
        vec![
            seq(1, SequenceCommand::Shutdown),
            track(2, TrackAudioCommand::DelLastSeq),
            DispatchAction::RemoveSequence { id: 1 },
            seq(0, SequenceCommand::Shutdown),
            track(0, TrackAudioCommand::DelLastSeq),
            DispatchAction::RemoveSequence { id: 0 },
        ]
    );
    // nothing records any more: a commit has nothing to do
    assert!(d.on_command(go(vec![], vec![])).is_empty());
    // a second undo has nothing to take back
    assert!(d.on_command(CommandManagerMessage::Undo).is_empty());
    // the ids are free again: the next go creates sequence 0
    let acts = d.on_command(go(vec![5], vec![]));
    assert_eq!(acts[1], seq(0, SequenceCommand::StartRecord));
}

#[test]
fn save_without_a_session_does_nothing() {
    let mut d = recorded();
    assert!(d.on_nsm(NsmClientMessage::Save).is_empty());
}

#[test]
fn open_then_save_saves_every_sequence() {
    let mut d = recorded();
    assert!(d.on_nsm(NsmClientMessage::Open { path: "/s".to_string() }).is_empty());
    let acts = d.on_nsm(NsmClientMessage::Save);
    assert_eq!(
        acts,
        vec![
            DispatchAction::CreateSessionDir { path: "/s".to_string() },
            seq(0, SequenceCommand::Save { path: "/s".to_string() }),
            seq(1, SequenceCommand::Save { path: "/s".to_string() }),
            DispatchAction::WriteSessionConfig { path: "/s".to_string() },
        ]
    );
}

#[test]
fn open_loads_at_the_next_sync_message() {
    let mut d = Dispatcher::new();
    d.on_nsm(NsmClientMessage::Open { path: "/s".to_string() });
    assert_eq!(
        d.on_sync(&msg(1, true)),
        vec![DispatchAction::BarBoundary, DispatchAction::LoadSession]
    );
    assert!(d.on_sync(&msg(2, true)).is_empty());
}

#[test]
fn session_config_lists_every_scene() {
    let d = recorded();
    let metas = vec![
        SeqMeta { filename: "a.wav".to_string(), beats: 4, track: 0 },
        SeqMeta { filename: "b.wav".to_string(), beats: 8, track: 2 },
    ];
    let c = d.session_config(metas);
    let keys: Vec<usize> = c.scenes.keys().copied().collect();
    assert_eq!(keys, vec![0, 1, 2, 3, 4, 5, 6, 7, 8]);
    assert_eq!(c.scenes[&1], vec!["a.wav".to_string(), "b.wav".to_string()]);
    assert_eq!(c.scenes[&3], vec!["a.wav".to_string(), "b.wav".to_string()]);
    assert!(c.scenes[&0].is_empty());
    assert!(c.scenes[&2].is_empty());
    assert_eq!(c.sequences.len(), 2);
    assert_eq!(c.sequences[1].filename, "b.wav");
}

#[test]
fn loading_a_session_creates_loads_and_plays() {
    let mut d = Dispatcher::new();
    d.on_nsm(NsmClientMessage::Open { path: "/s".to_string() });
    d.on_sync(&msg(2, true));
    let mut scenes = BTreeMap::new();
    scenes.insert(1usize, vec!["b.wav".to_string(), "a.wav".to_string()]);
    scenes.insert(2usize, vec!["a.wav".to_string()]);
    let config = YamlConfig {
        scenes,
        sequences: vec![
            SeqMeta { filename: "a.wav".to_string(), beats: 4, track: 1 },
            SeqMeta { filename: "b.wav".to_string(), beats: 8, track: 3 },
        ],
    };
    let acts = d.load_session(Some(config));
    assert_eq!(
        acts,
        vec![
            new_seq(1),
            seq(0, SequenceCommand::Load { path: "/s/a.wav".to_string(), beats: 4 }),
            new_seq(3),
            seq(1, SequenceCommand::Load { path: "/s/b.wav".to_string(), beats: 8 }),
            seq(1, SequenceCommand::Play),
            jack(JackioCommand::StartPlaying { track: 3 }),
            track(3, TrackAudioCommand::Play),
            seq(0, SequenceCommand::Play),
            jack(JackioCommand::StartPlaying { track: 1 }),
            track(1, TrackAudioCommand::Play),
        ]
    );
}

#[test]
fn a_file_name_saved_twice_stands_for_its_last_sequence() {
    let mut d = Dispatcher::new();
    d.on_nsm(NsmClientMessage::Open { path: "p".to_string() });
    d.on_sync(&msg(2, true));
    let mut scenes = BTreeMap::new();
    scenes.insert(1usize, vec!["a.wav".to_string()]);
    let config = YamlConfig {
        scenes,
        sequences: vec![
            SeqMeta { filename: "a.wav".to_string(), beats: 4, track: 0 },
            SeqMeta { filename: "a.wav".to_string(), beats: 4, track: 5 },
        ],
    };
    let acts = d.load_session(Some(config));
    assert_eq!(acts[4], seq(1, SequenceCommand::Play));
    assert_eq!(acts[5], jack(JackioCommand::StartPlaying { track: 5 }));
}

#[test]
fn loading_without_a_configuration_restarts_the_current_scene() {
    let mut d = recorded();
    d.on_command(go(vec![], vec![]));
    d.on_nsm(NsmClientMessage::Open { path: "/s".to_string() });
    let acts = d.load_session(None);
    // stops both playing sequences, then plays scene 1, which holds both
    assert_eq!(acts.len(), 12);
}

#[test]
fn loading_without_a_session_does_nothing() {
    let mut d = recorded();
    assert!(d.load_session(None).is_empty());
}

#[test]
fn undo_leaves_no_scene_with_the_taken_back_sequence() {
    let mut d = Dispatcher::new();
    d.on_sync(&msg(2, true));
    d.on_command(go(vec![0], vec![1, 3]));
    d.on_command(go(vec![], vec![]));
    d.on_command(go(vec![2], vec![3]));
    d.on_command(CommandManagerMessage::Undo);
    // scene 3 held sequences 0 and 1; 1, of the last go, was taken back
    let acts = d.on_command(CommandManagerMessage::Start { scene: 3 });
    assert_eq!(
        acts,
        vec![
            seq(0, SequenceCommand::Stop),
            jack(JackioCommand::StopPlaying { track: 0 }),
            track(0, TrackAudioCommand::Stop),
            seq(0, SequenceCommand::Play),
            jack(JackioCommand::StartPlaying { track: 0 }),
            track(0, TrackAudioCommand::Play),
        ]
    );
}

#[test]
fn a_saved_session_loads_back_into_the_same_scenes() {
    let mut d = recorded();
    d.on_command(go(vec![], vec![]));
    let metas = vec![
        SeqMeta { filename: "a.wav".to_string(), beats: 4, track: 0 },
        SeqMeta { filename: "b.wav".to_string(), beats: 8, track: 2 },
    ];
    let c = d.session_config(metas);
    let mut e = Dispatcher::new();
    e.on_nsm(NsmClientMessage::Open { path: "/s".to_string() });
    e.on_sync(&msg(2, true));
    e.load_session(Some(c));
    for scene in [1usize, 3] {
        let mut expect_d = d.on_command(CommandManagerMessage::Start { scene });
        let mut expect_e = e.on_command(CommandManagerMessage::Start { scene });
        // the scene's sequences, with their tracks, start in both
        expect_d.retain(|a| matches!(a, DispatchAction::Jack(JackioCommand::StartPlaying { .. })));
        expect_e.retain(|a| matches!(a, DispatchAction::Jack(JackioCommand::StartPlaying { .. })));
        assert_eq!(expect_d, expect_e);
        assert_eq!(expect_e.len(), 2);
    }
}

#[test]
fn the_last_scene_is_saved_and_loaded_back() {
    let mut d = Dispatcher::new();
    d.on_sync(&msg(2, true));
    d.on_command(go(vec![1, 4], vec![8]));
    d.on_command(go(vec![], vec![]));
    let metas = vec![
        SeqMeta { filename: "x.wav".to_string(), beats: 4, track: 1 },
        SeqMeta { filename: "y.wav".to_string(), beats: 4, track: 4 },
    ];
    assert!(d.can_save(metas.len()));
    assert!(!d.can_save(1));
    let c = d.session_config(metas);
    assert_eq!(c.scenes[&8], vec!["x.wav".to_string(), "y.wav".to_string()]);
    let mut e = Dispatcher::new();
    e.on_nsm(NsmClientMessage::Open { path: "/s".to_string() });
    e.on_sync(&msg(2, true));
    e.load_session(Some(c));
    let mut started = e.on_command(CommandManagerMessage::Start { scene: 8 });
    started.retain(|a| matches!(a, DispatchAction::Jack(JackioCommand::StartPlaying { .. })));
    assert_eq!(
        started,
        vec![
            DispatchAction::Jack(JackioCommand::StartPlaying { track: 1 }),
            DispatchAction::Jack(JackioCommand::StartPlaying { track: 4 }),
        ]
    );
}
