//! Control logic of an eight-track, eight-scene live audio looper.
//!
//! The library holds what the looper decides: which scene plays, which
//! sequences record, how a recorded loop is quantized to whole bars, how
//! MIDI program changes become looper commands, and how a saved session
//! maps back onto scenes.  Audio transport, channels and files are left to
//! the caller, which hands the library plain values and performs the
//! actions it returns.
use vstd::prelude::*;

pub mod command_manager;
pub mod constants;
pub mod dispatcher;
pub mod gui;
pub mod jack_sync_fanout;
pub mod jackio;
pub mod midi_control;
pub mod nsm;
pub mod scene;
pub mod sequence;
pub mod tick_fanout;
pub mod track;
pub mod yaml_config;

verus! {

} // verus!
