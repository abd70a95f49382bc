use st_loop::jack_sync_fanout::JackSyncFanoutMessage;
use st_loop::sequence::{
    deinterleave, interleave, AudioSequence, LoadedFrames, SequenceAction, SequenceCommand,
};

fn fresh(bpb: usize) -> AudioSequence<f32> {
    AudioSequence::with_file_stamp(2, bpb, 100, 48000, 1, 500_000_000)
}

fn sync(pos_frame: usize, nframes: usize, beat: usize, beat_this_cycle: bool) -> JackSyncFanoutMessage {
    JackSyncFanoutMessage {
        pos_frame,
        framerate: 48000,
        beats_per_bar: 4,
        beat,
        nframes,
        next_beat_frame: 0,
        frames_per_beat: 0,
        beat_this_cycle,
    }
}

#[test]
fn a_new_sequence_records_and_waits_for_the_downbeat() {
    let s = fresh(4);
    assert!(s.recording);
    assert!(s.recording_delay);
    assert_eq!(s.track, 2);
    assert_eq!(s.beats_per_bar, 4);
    assert_eq!(s.last_frame, 100);
    assert_eq!(s.beat_counter, 1);
    assert_eq!(s.n_beats, 0);
    assert_eq!(s.playhead, 0);
    assert_eq!(s.id, 0);
    assert!(s.left.is_empty() && s.right.is_empty());
    assert_eq!(s.framerate(), 48000);
    assert!(s.takes_input());
}

#[test]
fn file_name_is_track_and_time_stamp() {
    let s = fresh(4);
    assert_eq!(s.filename, "2-1.5s.wav");
    let t = AudioSequence::<f32>::with_file_stamp(7, 4, 0, 44100, 0, 0);
    assert_eq!(t.filename, "7-0ns.wav");
}

#[test]
fn new_stamps_the_file_name_with_the_track() {
    let s = AudioSequence::<f32>::new(5, 3, 0, 44100);
    assert!(s.filename.starts_with("5-"));
    assert!(s.filename.ends_with("s.wav"));
}

#[test]
fn samples_before_the_first_downbeat_are_not_recorded() {
    let mut s = fresh(4);
    s.process_record((0.5, -0.5));
    assert!(s.left.is_empty());
    s.observe_beat(3);
    assert!(s.recording_delay);
    assert_eq!(s.n_beats, 0);
    s.process_record((0.5, -0.5));
    assert!(s.left.is_empty());
    s.observe_beat(1);
    assert!(!s.recording_delay);
    assert_eq!(s.n_beats, 0);
    s.process_record((0.25, -0.25));
    assert_eq!(s.left, vec![0.25]);
    assert_eq!(s.right, vec![-0.25]);
    assert_eq!(s.length, 1);
    assert_eq!(s.cycles_since_beat, 1);
    assert_eq!(s.playhead, 1);
}

#[test]
fn beats_are_counted_once_recording_runs() {
    let mut s = fresh(4);
    s.observe_beat(1);
    s.observe_beat(2);
    s.observe_beat(3);
    assert_eq!(s.n_beats, 2);
    s.process_record((1.0, 1.0));
    assert_eq!(s.cycles_since_beat, 1);
    s.observe_beat(4);
    assert_eq!(s.cycles_since_beat, 0);
    assert_eq!(s.n_beats, 3);
}

#[test]
fn stopping_mid_bar_rounds_the_loop_up_to_the_next_bar() {
    let mut s = fresh(4);
    s.observe_beat(1);
    for b in 2..=6 {
        s.observe_beat(b);
    }
    assert_eq!(s.n_beats, 5);
    s.process_record((1.0, 2.0));
    s.process_record((3.0, 4.0));
    s.stop_recording();
    assert!(!s.recording);
    assert_eq!(s.n_beats, 8);
    assert_eq!(s.n_beats % s.beats_per_bar, 0);
    assert_eq!(s.beat_counter, 6);
    assert_eq!(s.left, vec![1.0, 3.0]);
}

#[test]
fn stopping_on_a_bar_drops_what_followed_the_last_beat() {
    let mut s = fresh(2);
    s.observe_beat(1);
    s.process_record((1.0, 1.0));
    s.observe_beat(2);
    s.process_record((2.0, 2.0));
    s.observe_beat(1);
    s.process_record((3.0, 3.0));
    s.process_record((4.0, 4.0));
    assert_eq!(s.n_beats, 2);
    assert_eq!(s.cycles_since_beat, 2);
    s.stop_recording();
    assert!(!s.recording);
    assert_eq!(s.n_beats, 2);
    assert_eq!(s.beat_counter, 1);
    assert_eq!(s.playhead, 2);
    assert_eq!(s.left, vec![1.0, 2.0]);
    assert_eq!(s.right, vec![1.0, 2.0]);
}

#[test]
fn stop_recording_when_not_recording_changes_nothing() {
    let mut s = fresh(0);
    s.load("x.wav".to_string(), 3, LoadedFrames::Interleaved(vec![]));
    s.stop_recording();
    assert_eq!(s.n_beats, 3);
    assert_eq!(s.beat_counter, 1);
}

#[test]
fn a_playing_loop_restarts_after_its_beats() {
    let mut s = fresh(4);
    s.load("x.wav".to_string(), 3, LoadedFrames::Interleaved(vec![1.0, 2.0]));
    s.playhead = 40;
    s.observe_beat(1);
    assert_eq!(s.beat_counter, 2);
    s.observe_beat(2);
    assert_eq!(s.beat_counter, 3);
    assert_eq!(s.playhead, 40);
    s.observe_beat(3);
    assert_eq!(s.beat_counter, 1);
    assert_eq!(s.playhead, 0);
}

#[test]
fn playback_plays_half_the_frames_from_the_playhead() {
    let mut s = fresh(4);
    s.load(
        "x.wav".to_string(),
        1,
        LoadedFrames::Interleaved(vec![1.0, -1.0, 2.0, -2.0, 3.0, -3.0]),
    );
    assert_eq!(s.process_position(4, 200), Some(vec![(1.0, -1.0), (2.0, -2.0)]));
    assert_eq!(s.playhead, 2);
    assert_eq!(s.last_frame, 200);
    // the playhead runs past the samples; only what exists is played
    assert_eq!(s.process_position(6, 300), Some(vec![(3.0, -3.0)]));
    assert_eq!(s.playhead, 5);
    assert_eq!(s.process_position(6, 400), None);
    assert_eq!(s.playhead, 8);
}

#[test]
fn playback_of_an_idle_cycle_changes_nothing() {
    let mut s = fresh(4);
    s.load("x.wav".to_string(), 1, LoadedFrames::Interleaved(vec![1.0, -1.0]));
    assert_eq!(s.process_position(0, 500), None);
    assert_eq!(s.process_position(4, 100), None);
    assert_eq!(s.playhead, 0);
    assert_eq!(s.last_frame, 100);
}

#[test]
fn reset_playhead_rewinds() {
    let mut s = fresh(4);
    s.playhead = 9;
    s.beat_counter = 3;
    s.reset_playhead();
    assert_eq!(s.playhead, 0);
    assert_eq!(s.beat_counter, 1);
}

#[test]
fn clear_and_set_id() {
    let mut s = fresh(4);
    s.observe_beat(1);
    s.process_record((1.0, 1.0));
    s.clear();
    assert!(s.left.is_empty() && s.right.is_empty());
    s.set_id(12);
    assert_eq!(s.id, 12);
}

#[test]
fn commands_drive_the_sequence() {
    let mut s = fresh(4);
    assert_eq!(s.on_command(SequenceCommand::Play), SequenceAction::Continue);
    assert!(!s.takes_input());
    s.playhead = 7;
    assert_eq!(s.on_command(SequenceCommand::Stop), SequenceAction::Continue);
    assert_eq!(s.playhead, 0);
    assert!(s.takes_input());
    assert_eq!(s.on_command(SequenceCommand::StopRecord), SequenceAction::Continue);
    assert!(!s.recording);
    assert_eq!(s.n_beats, 0);
    assert_eq!(s.on_command(SequenceCommand::StartRecord), SequenceAction::Continue);
    assert!(s.recording);
    assert_eq!(
        s.on_command(SequenceCommand::Save { path: "/tmp/s".to_string() }),
        SequenceAction::Save { path: "/tmp/s".to_string() }
    );
    assert_eq!(
        s.on_command(SequenceCommand::Load { path: "a.wav".to_string(), beats: 8 }),
        SequenceAction::Load { path: "a.wav".to_string(), beats: 8 }
    );
    assert_eq!(s.on_command(SequenceCommand::Shutdown), SequenceAction::Shutdown);
}

#[test]
fn a_recording_cycle_records_its_input() {
    let mut s = fresh(4);
    assert!(s.sync_fits(&sync(128, 128, 1, true), 2));
    assert_eq!(s.on_jack_sync(&sync(128, 128, 1, true), vec![(1.0, 2.0), (3.0, 4.0)]), None);
    assert!(!s.recording_delay);
    assert_eq!(s.left, vec![1.0, 3.0]);
    assert_eq!(s.right, vec![2.0, 4.0]);
    assert_eq!(s.cycles_since_beat, 2);
}

#[test]
fn a_playing_cycle_plays() {
    let mut s = fresh(4);
    s.load("x.wav".to_string(), 2, LoadedFrames::Interleaved(vec![1.0, 2.0, 3.0, 4.0]));
    s.start_playing();
    let out = s.on_jack_sync(&sync(300, 4, 2, true), vec![]);
    assert_eq!(out, Some(vec![(1.0, 2.0), (3.0, 4.0)]));
    assert_eq!(s.beat_counter, 2);
    assert_eq!(s.last_frame, 300);
}

#[test]
fn an_idle_sequence_ignores_cycles() {
    let mut s = fresh(4);
    s.load("x.wav".to_string(), 2, LoadedFrames::Interleaved(vec![1.0, 2.0]));
    assert_eq!(s.on_jack_sync(&sync(300, 4, 1, true), vec![]), None);
    assert_eq!(s.beat_counter, 1);
    assert_eq!(s.playhead, 0);
}

#[test]
fn sync_fits_refuses_an_overflowing_playhead() {
    let mut s = fresh(4);
    s.start_playing();
    s.playhead = usize::MAX - 1;
    assert!(!s.sync_fits(&sync(1, 8, 2, false), 0));
    assert!(s.sync_fits(&sync(1, 2, 2, false), 0));
}

#[test]
fn loading_interleaved_samples_replaces_the_channels() {
    let mut s = fresh(4);
    s.observe_beat(1);
    s.process_record((9.0, 9.0));
    s.load("song.wav".to_string(), 8, LoadedFrames::Interleaved(vec![1.0, 2.0, 3.0, 4.0, 5.0]));
    assert_eq!(s.left, vec![1.0, 3.0, 5.0]);
    assert_eq!(s.right, vec![2.0, 4.0]);
    assert_eq!(s.filename, "song.wav");
    assert_eq!(s.n_beats, 8);
    assert!(!s.recording);
}

#[test]
fn loading_resampled_chunks_appends_them() {
    let mut s = fresh(4);
    s.load(
        "a.wav".to_string(),
        4,
        LoadedFrames::Resampled { left: vec![1.0], right: vec![2.0] },
    );
    s.load(
        "a.wav".to_string(),
        4,
        LoadedFrames::Resampled { left: vec![3.0], right: vec![4.0] },
    );
    assert_eq!(s.left, vec![1.0, 3.0]);
    assert_eq!(s.right, vec![2.0, 4.0]);
}

#[test]
fn resampling_is_needed_for_another_rate() {
    let s = fresh(4);
    assert!(s.needs_resample(44100));
    assert!(!s.needs_resample(48000));
}

#[test]
fn meta_describes_the_sequence() {
    let mut s = fresh(4);
    s.load("a.wav".to_string(), 12, LoadedFrames::Interleaved(vec![]));
    let m = s.meta();
    assert_eq!(m.filename, "a.wav");
    assert_eq!(m.beats, 12);
    assert_eq!(m.track, 2);
}

#[test]
fn interleave_and_deinterleave() {
    assert_eq!(interleave(&vec![1, 3, 5], &vec![2, 4, 6]), vec![1, 2, 3, 4, 5, 6]);
    assert_eq!(interleave(&vec![1], &vec![2, 4]), vec![1, 2]);
    assert_eq!(deinterleave(vec![1, 2, 3, 4, 5]), (vec![1, 3, 5], vec![2, 4]));
    assert_eq!(deinterleave(Vec::<u8>::new()), (vec![], vec![]));
}

#[test]
fn interleave_then_deinterleave_gives_the_channels_back() {
    let l = vec![0.5f32, -0.25, 1.0];
    let r = vec![0.0f32, 0.75, -1.0];
    assert_eq!(deinterleave(interleave(&l, &r)), (l, r));
}

#[test]
fn deinterleave_then_interleave_gives_the_samples_back() {
    let v = vec![1u16, 2, 3, 4, 5, 6];
    let (l, r) = deinterleave(v.clone());
    assert_eq!(interleave(&l, &r), v);
}

#[test]
fn saved_samples_are_interleaved() {
    let mut s = fresh(4);
    s.load("a.wav".to_string(), 1, LoadedFrames::Interleaved(vec![1.0, 2.0, 3.0, 4.0]));
    assert_eq!(s.interleaved_samples(), vec![1.0, 2.0, 3.0, 4.0]);
}

#[test]
fn a_loaded_sequence_keeps_the_bare_file_name() {
    let mut s = fresh(0);
    s.load("/home/me/session/3-1.5s.wav".to_string(), 4, LoadedFrames::Interleaved(vec![1.0, 2.0]));
    assert_eq!(s.filename, "3-1.5s.wav");
    assert_eq!(s.meta().filename, "3-1.5s.wav");
    s.load("plain.wav".to_string(), 4, LoadedFrames::Interleaved(vec![]));
    assert_eq!(s.filename, "plain.wav");
    s.load("dir/".to_string(), 4, LoadedFrames::Interleaved(vec![]));
    assert_eq!(s.filename, "");
}

#[test]
fn an_idle_cycle_needs_no_room_on_the_playhead() {
    let mut s = fresh(4);
    s.load("x.wav".to_string(), 1, LoadedFrames::Interleaved(vec![1.0, -1.0]));
    s.start_playing();
    s.playhead = usize::MAX;
    let last = s.last_frame;
    assert_eq!(s.process_position(8, last), None);
    assert_eq!(s.process_position(0, last + 1), None);
    assert_eq!(s.playhead, usize::MAX);
}
