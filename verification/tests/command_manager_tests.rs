use st_loop::command_manager::{CommandManager, CommandManagerMessage, CommandManagerRequest, OwnedMidi};
use st_loop::midi_control::{self, MidiEvent};

fn pc(program: u8) -> OwnedMidi {
    OwnedMidi { time: 0, bytes: vec![0xC0, program] }
}

fn pad(note: u8) -> OwnedMidi {
    OwnedMidi { time: 0, bytes: vec![0x89, note, 0] }
}

fn bar(c: &mut CommandManager) -> Option<Vec<CommandManagerMessage>> {
    c.process_request(CommandManagerRequest::BarBoundary)
}

#[test]
fn midi_control_vocabulary_matches_the_readme_table() {
    assert_eq!(midi_control::go(), MidiEvent::ProgramChange { channel: 0, program: 31 });
    assert_eq!(midi_control::clear(), MidiEvent::ProgramChange { channel: 0, program: 30 });
    assert_eq!(midi_control::stop(), MidiEvent::ProgramChange { channel: 0, program: 29 });
    assert_eq!(midi_control::undo(), MidiEvent::ProgramChange { channel: 0, program: 28 });
    let scenes = [
        midi_control::scene1(),
        midi_control::scene2(),
        midi_control::scene3(),
        midi_control::scene4(),
        midi_control::scene5(),
        midi_control::scene6(),
        midi_control::scene7(),
        midi_control::scene8(),
    ];
    for (i, m) in scenes.iter().enumerate() {
        assert_eq!(*m, MidiEvent::ProgramChange { channel: 0, program: i as u8 });
    }
}

#[test]
fn track_pads_are_note_offs_on_channel_ten() {
    let pads = [
        (midi_control::track1(), 80),
        (midi_control::track2(), 81),
        (midi_control::track3(), 82),
        (midi_control::track4(), 83),
        (midi_control::track5(), 76),
        (midi_control::track6(), 77),
        (midi_control::track7(), 78),
        (midi_control::track8(), 79),
        (midi_control::track9(), 72),
        (midi_control::track10(), 73),
        (midi_control::track11(), 74),
        (midi_control::track12(), 75),
        (midi_control::track13(), 68),
        (midi_control::track14(), 69),
        (midi_control::track15(), 70),
        (midi_control::track16(), 71),
    ];
    for (m, note) in pads {
        assert_eq!(m, MidiEvent::NoteOff { channel: 9, note, velocity: 0 });
    }
}

#[test]
fn nothing_pending_gives_nothing_at_the_bar() {
    let mut c = CommandManager::new();
    assert_eq!(bar(&mut c), None);
}

#[test]
fn go_waits_for_the_bar_boundary_with_armed_tracks_and_scenes() {
    let mut c = CommandManager::new();
    assert_eq!(c.process_midi(&pad(80)), None); // track 0
    assert_eq!(c.process_midi(&pad(82)), None); // track 2
    assert_eq!(c.process_midi(&pad(80)), None); // track 0 again: armed once
    assert_eq!(c.process_midi(&pc(1)), None); // scene 2, armed since tracks are
    assert_eq!(c.process_midi(&pc(1)), None);
    assert_eq!(c.process_midi(&pc(4)), None); // scene 5
    assert_eq!(c.process_midi(&pc(31)), None); // go
    assert_eq!(
        bar(&mut c),
        Some(vec![CommandManagerMessage::Go { tracks: vec![0, 2], scenes: vec![2, 5] }])
    );
    // handed out once: the next boundary has nothing
    assert_eq!(bar(&mut c), None);
}

#[test]
fn go_without_armed_tracks_commits_at_the_bar() {
    let mut c = CommandManager::new();
    c.process_midi(&pc(31));
    assert_eq!(
        bar(&mut c),
        Some(vec![CommandManagerMessage::Go { tracks: vec![], scenes: vec![] }])
    );
}

#[test]
fn scene_select_without_armed_tracks_starts_at_the_bar() {
    let mut c = CommandManager::new();
    assert_eq!(c.process_midi(&pc(2)), None); // scene 3
    assert_eq!(bar(&mut c), Some(vec![CommandManagerMessage::Start { scene: 3 }]));
    assert_eq!(bar(&mut c), None);
}

#[test]
fn go_and_scene_start_come_in_that_order() {
    let mut c = CommandManager::new();
    c.process_midi(&pc(7)); // scene 8 scheduled
    c.process_midi(&pc(31));
    assert_eq!(
        bar(&mut c),
        Some(vec![
            CommandManagerMessage::Go { tracks: vec![], scenes: vec![] },
            CommandManagerMessage::Start { scene: 8 },
        ])
    );
}

#[test]
fn stop_and_undo_are_handed_out_at_once() {
    let mut c = CommandManager::new();
    assert_eq!(c.process_midi(&pc(29)), Some(vec![CommandManagerMessage::Stop]));
    assert_eq!(c.process_midi(&pc(28)), Some(vec![CommandManagerMessage::Undo]));
    assert_eq!(bar(&mut c), None);
}

#[test]
fn stop_resets_the_scheduled_scene_to_the_empty_scene() {
    let mut c = CommandManager::new();
    c.process_midi(&pc(5)); // scene 6 scheduled
    c.process_midi(&pc(29)); // stop: the scene becomes 0, still triggered
    assert_eq!(bar(&mut c), Some(vec![CommandManagerMessage::Start { scene: 0 }]));
}

#[test]
fn clear_disarms_go_tracks_and_scenes() {
    let mut c = CommandManager::new();
    c.process_midi(&pad(81));
    c.process_midi(&pc(0));
    c.process_midi(&pc(31));
    assert_eq!(c.process_midi(&pc(30)), None);
    assert_eq!(bar(&mut c), None);
    c.process_midi(&pc(31));
    assert_eq!(
        bar(&mut c),
        Some(vec![CommandManagerMessage::Go { tracks: vec![], scenes: vec![] }])
    );
}

#[test]
fn clear_method_disarms_like_the_message() {
    let mut c = CommandManager::new();
    c.process_midi(&pad(83));
    c.process_midi(&pc(31));
    c.clear();
    assert_eq!(bar(&mut c), None);
}

#[test]
fn note_on_with_velocity_zero_is_a_pad() {
    let mut c = CommandManager::new();
    c.process_midi(&OwnedMidi { time: 3, bytes: vec![0x99, 76, 0] }); // track 4
    c.process_midi(&pc(31));
    assert_eq!(
        bar(&mut c),
        Some(vec![CommandManagerMessage::Go { tracks: vec![4], scenes: vec![] }])
    );
}

#[test]
fn messages_outside_the_vocabulary_are_ignored() {
    let mut c = CommandManager::new();
    for bytes in [
        vec![0xC1, 31],       // go on channel 2
        vec![0xC0, 8],        // program 8
        vec![0xC0],           // truncated
        vec![0xC0, 0x80],     // data byte out of range
        vec![0x89, 80, 5],    // pad with velocity
        vec![0x99, 80, 64],   // note-on
        vec![0x31, 31],       // no status byte
        vec![],
        vec![0xF8],
    ] {
        assert_eq!(c.process_midi(&OwnedMidi { time: 0, bytes }), None);
    }
    assert_eq!(bar(&mut c), None);
}

#[test]
fn extra_bytes_after_a_program_change_are_ignored() {
    let mut c = CommandManager::new();
    assert_eq!(
        c.process_midi(&OwnedMidi { time: 0, bytes: vec![0xC0, 29, 0x7F] }),
        Some(vec![CommandManagerMessage::Stop])
    );
}

#[test]
fn the_eight_pads_arm_the_eight_tracks() {
    let mut c = CommandManager::new();
    for note in [80u8, 81, 82, 83, 76, 77, 78, 79] {
        assert_eq!(c.process_midi(&pad(note)), None);
    }
    c.process_midi(&pc(31));
    assert_eq!(
        bar(&mut c),
        Some(vec![CommandManagerMessage::Go { tracks: vec![0, 1, 2, 3, 4, 5, 6, 7], scenes: vec![] }])
    );
}

#[test]
fn pad_eight_arms_the_last_track() {
    let mut c = CommandManager::new();
    c.process_midi(&OwnedMidi { time: 0, bytes: vec![0x89, 79, 0] });
    c.process_midi(&pc(31));
    assert_eq!(
        bar(&mut c),
        Some(vec![CommandManagerMessage::Go { tracks: vec![7], scenes: vec![] }])
    );
}
