use st_loop::gui::app_state::{state_label, SlotState};
use st_loop::jack_sync_fanout::{fanout_message, next_beat_frame};
use st_loop::jackio::{JackioCommand, TrackFlags};
use st_loop::dispatcher::NsmClientMessage;
use st_loop::nsm::{
    announce_message, get_reply, nsm_message, nsm_request, nsm_server_address, NsmError, NsmRequest,
};
use st_loop::tick_fanout::TickFanout;
use st_loop::track::AudioTrack;

#[test]
fn track_flags_follow_the_commands() {
    let mut f = TrackFlags::new();
    assert!(!f.is_playing(3) && !f.is_recording(3));
    f.apply(JackioCommand::StartRecording { track: 3 });
    assert!(f.is_recording(3));
    f.apply(JackioCommand::StopRecording { track: 3 });
    assert!(!f.is_recording(3));
    f.apply(JackioCommand::StartPlaying { track: 3 });
    assert!(f.is_playing(3));
    assert!(!f.take_stopping(3));
    f.apply(JackioCommand::StopPlaying { track: 3 });
    assert!(!f.is_playing(3));
    // a stopped track is silenced once
    assert!(f.take_stopping(3));
    assert!(!f.take_stopping(3));
}

#[test]
fn track_flags_ignore_tracks_out_of_range() {
    let mut f = TrackFlags::new();
    f.apply(JackioCommand::StartPlaying { track: 8 });
    f.apply(JackioCommand::StopPlaying { track: 99 });
    assert!(!f.is_playing(8));
    assert!(!f.take_stopping(99));
    for t in 0..8 {
        assert!(!f.is_playing(t) && !f.is_recording(t));
    }
}

#[test]
fn next_beat_frame_is_the_first_window_frame_after_the_position() {
    let w = vec![100u64, 200, 300, 400];
    assert_eq!(next_beat_frame(&w, 250), 300);
    assert_eq!(next_beat_frame(&w, 99), 100);
    assert_eq!(next_beat_frame(&w, 200), 300);
    assert_eq!(next_beat_frame(&w, 400), 0);
    assert_eq!(next_beat_frame(&vec![], 5), 0);
}

#[test]
fn fanout_message_counts_the_cycle_frames() {
    let w = vec![1000u64, 2000];
    let m = fanout_message(1500, 1244, 48000, 4, 2, &w, 1000, true);
    assert_eq!(m.pos_frame, 1500);
    assert_eq!(m.nframes, 256);
    assert_eq!(m.next_beat_frame, 2000);
    assert_eq!(m.framerate, 48000);
    assert_eq!(m.beats_per_bar, 4);
    assert_eq!(m.beat, 2);
    assert_eq!(m.frames_per_beat, 1000);
    assert!(m.beat_this_cycle);
    // a position that went back covers no frames
    let m = fanout_message(10, 500, 48000, 4, 1, &w, 0, false);
    assert_eq!(m.nframes, 0);
    assert_eq!(m.next_beat_frame, 1000);
}

#[test]
fn nsm_requests_by_address() {
    assert_eq!(nsm_request("/nsm/client/save"), NsmRequest::Save);
    assert_eq!(nsm_request("/nsm/client/open"), NsmRequest::Open);
    assert_eq!(nsm_request("/nsm/client/show_optional_gui"), NsmRequest::Other);
    assert_eq!(nsm_request(""), NsmRequest::Other);
}

fn osc_string(s: &str) -> Vec<u8> {
    let mut v = s.as_bytes().to_vec();
    v.push(0);
    while v.len() % 4 != 0 {
        v.push(0);
    }
    v
}

#[test]
fn the_reply_echoes_the_address_with_a_greeting() {
    let mut expected = osc_string("/reply");
    expected.extend(osc_string(",ss"));
    expected.extend(osc_string("/nsm/client/save"));
    expected.extend(osc_string("hello from st-loop"));
    assert_eq!(get_reply("/nsm/client/save"), expected);
}

#[test]
fn transport_state_labels() {
    assert_eq!(state_label(0), "Stopped");
    assert_eq!(state_label(1), "Rolling");
    assert_eq!(state_label(2), "Unknown");
    assert_eq!(state_label(3), "Starting");
    assert_eq!(state_label(4), "Unknown");
}

#[test]
fn slots_start_empty() {
    assert_eq!(SlotState::default(), SlotState::Empty);
}

#[test]
fn tick_fanout_and_audio_track() {
    let _t = TickFanout::new();
    let a = AudioTrack { input_idx: 1, output_idx: 2 };
    a.send_output((0.5f32, 0.5f32));
    assert_eq!(a.input_idx, 1);
    assert_eq!(a.output_idx, 2);
}

#[test]
fn the_announcement_names_the_looper_and_its_process() {
    let mut expected = osc_string("/nsm/server/announce");
    expected.extend(osc_string(",sssiii"));
    expected.extend(osc_string("st-loop"));
    expected.extend(osc_string(""));
    expected.extend(osc_string("st-loop"));
    expected.extend(1i32.to_be_bytes());
    expected.extend(1i32.to_be_bytes());
    expected.extend(4321i32.to_be_bytes());
    assert_eq!(announce_message(4321), expected);
}

fn packet(addr: &str, tags: &str, strings: &[&str]) -> Vec<u8> {
    let mut v = osc_string(addr);
    v.extend(osc_string(tags));
    for s in strings {
        v.extend(osc_string(s));
    }
    v
}

#[test]
fn a_save_request_is_taken_and_answered() {
    let r = nsm_message(&packet("/nsm/client/save", ",", &[]));
    assert_eq!(r, Ok(Some((NsmClientMessage::Save, get_reply("/nsm/client/save")))));
}

#[test]
fn an_open_request_carries_the_session_path() {
    let r = nsm_message(&packet("/nsm/client/open", ",sss", &["/home/s/session", "Looper", "st-loop.nABCD"]));
    assert_eq!(
        r,
        Ok(Some((
            NsmClientMessage::Open { path: "/home/s/session".to_string() },
            get_reply("/nsm/client/open"),
        )))
    );
}

#[test]
fn an_open_request_without_a_path_is_refused() {
    assert_eq!(nsm_message(&packet("/nsm/client/open", ",", &[])), Err(NsmError::MissingPath));
    let mut with_int = packet("/nsm/client/open", ",i", &[]);
    with_int.extend(7i32.to_be_bytes());
    assert_eq!(nsm_message(&with_int), Err(NsmError::MissingPath));
}

#[test]
fn other_packets_are_nothing_for_the_looper() {
    assert_eq!(nsm_message(&packet("/nsm/client/show_optional_gui", ",", &[])), Ok(None));
    assert_eq!(nsm_message(&get_reply("/nsm/client/save")), Ok(None));
    let mut bundle = osc_string("#bundle");
    bundle.extend([0u8, 0, 0, 0, 0, 0, 0, 1]);
    assert_eq!(nsm_message(&bundle), Ok(None));
}

#[test]
fn bytes_that_are_no_packet_are_refused() {
    assert_eq!(nsm_message(&[]), Err(NsmError::MalformedPacket));
    assert_eq!(nsm_message(b"save"), Err(NsmError::MalformedPacket));
}

#[test]
fn the_server_address_is_the_third_part_of_the_url() {
    assert_eq!(nsm_server_address("osc.udp://localhost:1234/"), Some("localhost:1234".to_string()));
    assert_eq!(nsm_server_address("osc.udp://host"), Some("host".to_string()));
    assert_eq!(nsm_server_address("a//"), Some("".to_string()));
    assert_eq!(nsm_server_address("a/b"), None);
    assert_eq!(nsm_server_address("localhost"), None);
}
