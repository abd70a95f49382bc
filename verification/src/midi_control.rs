//! The MIDI vocabulary that controls the looper: program changes on the first
//! channel for go, clear, stop, undo and the eight scenes, and note-offs on
//! the tenth channel for the track pads.
use vstd::prelude::*;

verus! {

/// A MIDI message as the looper reads it.  Channels are numbered from 0, so
/// MIDI channel 1 is `0` and channel 10 is `9`.
#[derive(PartialEq, Eq, Structural, Clone, Copy, Debug)]
pub enum MidiEvent {
    ProgramChange { channel: u8, program: u8 },
    NoteOff { channel: u8, note: u8, velocity: u8 },
    /// Any other message, or bytes that are no MIDI message.
    Unrecognized,
}

/// The message that raw MIDI bytes hold, for the two kinds the looper
/// reads.  A program change is a status byte `0xC0`-`0xCF` followed by a
/// data byte (below `0x80`); a note-off is a status byte `0x80`-`0x8F`, or a
/// note-on `0x90`-`0x9F` with velocity 0, followed by two data bytes.
/// Bytes after those are ignored.
pub open spec fn decoded(b: Seq<u8>) -> MidiEvent {
    if b.len() >= 2 && 0xC0 <= b[0] < 0xD0 && b[1] < 0x80 {
        MidiEvent::ProgramChange { channel: (b[0] - 0xC0) as u8, program: b[1] }
    } else if b.len() >= 3 && b[1] < 0x80 && b[2] < 0x80 && ((0x80 <= b[0] < 0x90) || (0x90
        <= b[0] < 0xA0 && b[2] == 0)) {
        MidiEvent::NoteOff { channel: (b[0] % 16) as u8, note: b[1], velocity: b[2] }
    } else {
        MidiEvent::Unrecognized
    }
}

/// Decodes bytes with `wmidi::MidiMessage::from_bytes` and keeps the channel
/// index and data bytes of a `ProgramChange` or a `NoteOff`.  The contract
/// restates, for these two variants, what that function's source does: the
/// status byte selects the variant, `Channel::from_index` takes its low
/// nibble, each data byte must be below `0x80`, and a `NoteOn` of velocity 0
/// comes back as a `NoteOff`.
#[verifier::external_body]
pub(crate) fn decode_midi(bytes: &[u8]) -> (e: MidiEvent)
    ensures
        e == decoded(bytes@),
{
    match wmidi::MidiMessage::from_bytes(bytes) {
        Ok(wmidi::MidiMessage::ProgramChange(ch, p)) => MidiEvent::ProgramChange {
            channel: ch.index(),
            program: u8::from(p),
        },
        Ok(wmidi::MidiMessage::NoteOff(ch, n, v)) => MidiEvent::NoteOff {
            channel: ch.index(),
            note: u8::from(n),
            velocity: u8::from(v),
        },
        _ => MidiEvent::Unrecognized,
    }
}

/// A program change on MIDI channel 1.
pub open spec fn program_change(program: u8) -> MidiEvent {
    MidiEvent::ProgramChange { channel: 0, program }
}

/// A note-off of velocity 0 on MIDI channel 10.
pub open spec fn pad(note: u8) -> MidiEvent {
    MidiEvent::NoteOff { channel: 9, note, velocity: 0 }
}

/// Go: arm or commit, program change 31.
pub fn go() -> (m: MidiEvent)
    ensures
        m == program_change(31),
{
    MidiEvent::ProgramChange { channel: 0, program: 31 }
}

/// Clear the armed tracks and scenes, program change 30.
pub fn clear() -> (m: MidiEvent)
    ensures
        m == program_change(30),
{
    MidiEvent::ProgramChange { channel: 0, program: 30 }
}

/// Stop, program change 29.
pub fn stop() -> (m: MidiEvent)
    ensures
        m == program_change(29),
{
    MidiEvent::ProgramChange { channel: 0, program: 29 }
}

/// Undo, program change 28.
pub fn undo() -> (m: MidiEvent)
    ensures
        m == program_change(28),
{
    MidiEvent::ProgramChange { channel: 0, program: 28 }
}

/// Scene 1, program change 0.
pub fn scene1() -> (m: MidiEvent)
    ensures
        m == program_change(0),
{
    MidiEvent::ProgramChange { channel: 0, program: 0 }
}

/// Scene 2, program change 1.
pub fn scene2() -> (m: MidiEvent)
    ensures
        m == program_change(1),
{
    MidiEvent::ProgramChange { channel: 0, program: 1 }
}

/// Scene 3, program change 2.
pub fn scene3() -> (m: MidiEvent)
    ensures
        m == program_change(2),
{
    MidiEvent::ProgramChange { channel: 0, program: 2 }
}

/// Scene 4, program change 3.
pub fn scene4() -> (m: MidiEvent)
    ensures
        m == program_change(3),
{
    MidiEvent::ProgramChange { channel: 0, program: 3 }
}

/// Scene 5, program change 4.
pub fn scene5() -> (m: MidiEvent)
    ensures
        m == program_change(4),
{
    MidiEvent::ProgramChange { channel: 0, program: 4 }
}

/// Scene 6, program change 5.
pub fn scene6() -> (m: MidiEvent)
    ensures
        m == program_change(5),
{
    MidiEvent::ProgramChange { channel: 0, program: 5 }
}

/// Scene 7, program change 6.
pub fn scene7() -> (m: MidiEvent)
    ensures
        m == program_change(6),
{
    MidiEvent::ProgramChange { channel: 0, program: 6 }
}

/// Scene 8, program change 7.
pub fn scene8() -> (m: MidiEvent)
    ensures
        m == program_change(7),
{
    MidiEvent::ProgramChange { channel: 0, program: 7 }
}

/// Pad 1, note Ab5 (80).
pub fn track1() -> (m: MidiEvent)
    ensures
        m == pad(80),
{
    MidiEvent::NoteOff { channel: 9, note: 80, velocity: 0 }
}

/// Pad 2, note A5 (81).
pub fn track2() -> (m: MidiEvent)
    ensures
        m == pad(81),
{
    MidiEvent::NoteOff { channel: 9, note: 81, velocity: 0 }
}

/// Pad 3, note Bb5 (82).
pub fn track3() -> (m: MidiEvent)
    ensures
        m == pad(82),
{
    MidiEvent::NoteOff { channel: 9, note: 82, velocity: 0 }
}

/// Pad 4, note B5 (83).
pub fn track4() -> (m: MidiEvent)
    ensures
        m == pad(83),
{
    MidiEvent::NoteOff { channel: 9, note: 83, velocity: 0 }
}

/// Pad 5, note E5 (76).
pub fn track5() -> (m: MidiEvent)
    ensures
        m == pad(76),
{
    MidiEvent::NoteOff { channel: 9, note: 76, velocity: 0 }
}

/// Pad 6, note F5 (77).
pub fn track6() -> (m: MidiEvent)
    ensures
        m == pad(77),
{
    MidiEvent::NoteOff { channel: 9, note: 77, velocity: 0 }
}

/// Pad 7, note Gb5 (78).
pub fn track7() -> (m: MidiEvent)
    ensures
        m == pad(78),
{
    MidiEvent::NoteOff { channel: 9, note: 78, velocity: 0 }
}

/// Pad 8, note G5 (79).
pub fn track8() -> (m: MidiEvent)
    ensures
        m == pad(79),
{
    MidiEvent::NoteOff { channel: 9, note: 79, velocity: 0 }
}

/// Pad 9, note C5 (72).
pub fn track9() -> (m: MidiEvent)
    ensures
        m == pad(72),
{
    MidiEvent::NoteOff { channel: 9, note: 72, velocity: 0 }
}

/// Pad 10, note Db5 (73).
pub fn track10() -> (m: MidiEvent)
    ensures
        m == pad(73),
{
    MidiEvent::NoteOff { channel: 9, note: 73, velocity: 0 }
}

/// Pad 11, note D5 (74).
pub fn track11() -> (m: MidiEvent)
    ensures
        m == pad(74),
{
    MidiEvent::NoteOff { channel: 9, note: 74, velocity: 0 }
}

/// Pad 12, note Eb5 (75).
pub fn track12() -> (m: MidiEvent)
    ensures
        m == pad(75),
{
    MidiEvent::NoteOff { channel: 9, note: 75, velocity: 0 }
}

/// Pad 13, note Ab4 (68).
pub fn track13() -> (m: MidiEvent)
    ensures
        m == pad(68),
{
    MidiEvent::NoteOff { channel: 9, note: 68, velocity: 0 }
}

/// Pad 14, note A4 (69).
pub fn track14() -> (m: MidiEvent)
    ensures
        m == pad(69),
{
    MidiEvent::NoteOff { channel: 9, note: 69, velocity: 0 }
}

/// Pad 15, note Bb4 (70).
pub fn track15() -> (m: MidiEvent)
    ensures
        m == pad(70),
{
    MidiEvent::NoteOff { channel: 9, note: 70, velocity: 0 }
}

/// Pad 16, note B4 (71).
pub fn track16() -> (m: MidiEvent)
    ensures
        m == pad(71),
{
    MidiEvent::NoteOff { channel: 9, note: 71, velocity: 0 }
}

} // verus!
