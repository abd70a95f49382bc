use vstd::prelude::*;

verus! {

/// What a scene/track slot of the grid shows.
#[derive(Debug, Clone, Copy, Default, PartialEq, Eq, Structural)]
pub enum SlotState {
    #[default]
    Empty,
    Recording,
    Playing,
    Stopped,
}

/// JACK transport state codes (`jack_transport_state_t`).
pub const TRANSPORT_STOPPED: u32 = 0;
pub const TRANSPORT_ROLLING: u32 = 1;
pub const TRANSPORT_STARTING: u32 = 3;

/// The label of a JACK transport state.
pub fn state_label(state: u32) -> (label: &'static str)
    ensures
        state == TRANSPORT_STOPPED ==> label@ == "Stopped"@,
        state == TRANSPORT_ROLLING ==> label@ == "Rolling"@,
        state == TRANSPORT_STARTING ==> label@ == "Starting"@,
        state != TRANSPORT_STOPPED && state != TRANSPORT_ROLLING && state != TRANSPORT_STARTING
            ==> label@ == "Unknown"@,
{
    if state == TRANSPORT_STOPPED {
        "Stopped"
    } else if state == TRANSPORT_ROLLING {
        "Rolling"
    } else if state == TRANSPORT_STARTING {
        "Starting"
    } else {
        "Unknown"
    }
}

} // verus!
