use vstd::prelude::*;

verus! {

/// Per-cycle snapshot of timing facts, derived from JACK transport and the
/// shared beat window, broadcast to every downstream consumer.
#[derive(Copy, Clone, Debug)]
pub struct JackSyncFanoutMessage {
    /// Current JACK frame position (end of this process cycle).
    pub pos_frame: usize,
    /// JACK sample rate.
    pub framerate: usize,
    /// Time-signature numerator.
    pub beats_per_bar: usize,
    /// JACK transport's beat within the bar (1-indexed).
    pub beat: usize,
    /// Frames covered by this process cycle.
    pub nframes: usize,
    /// Absolute frame of the next published beat, `0` when none is known.
    pub next_beat_frame: usize,
    /// Frames per beat of the just completed beat, `0` when unknown.
    pub frames_per_beat: usize,
    /// True iff a beat boundary fell within this process cycle.
    pub beat_this_cycle: bool,
}

/// The first frame of the beat window, in order, that lies after
/// `pos_frame`; 0 when there is none.
pub fn next_beat_frame(window: &Vec<u64>, pos_frame: usize) -> (f: usize)
    ensures
        forall|j: int| 0 <= j < window@.len() && window@[j] as usize > pos_frame ==> {
            &&& f > pos_frame
            &&& exists|i: int|
                0 <= i <= j && f == window@[i] as usize && forall|k: int|
                    0 <= k < i ==> window@[k] as usize <= pos_frame
        },
        (forall|j: int| 0 <= j < window@.len() ==> window@[j] as usize <= pos_frame) ==> f == 0,
{
    let mut i: usize = 0;
    while i < window.len()
        invariant
            0 <= i <= window@.len(),
            forall|k: int| 0 <= k < i ==> window@[k] as usize <= pos_frame,
        decreases window@.len() - i,
    {
        let f = window[i] as usize;
        if f > pos_frame {
            return f;
        }
        i = i + 1;
    }
    0
}

/// The message of a process cycle ending at `pos_frame`, the previous one
/// having ended at `last_frame`: the frames covered (none if the position
/// went back), the transport's rate, meter and beat, the next frame of the
/// beat window after the position, the window's beat length and whether a
/// beat fell within the cycle.
pub fn fanout_message(
    pos_frame: usize,
    last_frame: usize,
    framerate: usize,
    beats_per_bar: usize,
    beat: usize,
    window: &Vec<u64>,
    frames_per_beat: usize,
    beat_this_cycle: bool,
) -> (m: JackSyncFanoutMessage)
    ensures
        m.pos_frame == pos_frame,
        m.framerate == framerate,
        m.beats_per_bar == beats_per_bar,
        m.beat == beat,
        m.nframes == (if pos_frame >= last_frame {
            pos_frame - last_frame
        } else {
            0
        }),
        m.frames_per_beat == frames_per_beat,
        m.beat_this_cycle == beat_this_cycle,
        forall|j: int| 0 <= j < window@.len() && window@[j] as usize > pos_frame ==> {
            &&& m.next_beat_frame > pos_frame
            &&& exists|i: int|
                0 <= i <= j && m.next_beat_frame == window@[i] as usize && forall|k: int|
                    0 <= k < i ==> window@[k] as usize <= pos_frame
        },
        (forall|j: int| 0 <= j < window@.len() ==> window@[j] as usize <= pos_frame)
            ==> m.next_beat_frame == 0,
{
    let next = next_beat_frame(window, pos_frame);
    JackSyncFanoutMessage {
        pos_frame,
        framerate,
        beats_per_bar,
        beat,
        nframes: pos_frame.saturating_sub(last_frame),
        next_beat_frame: next,
        frames_per_beat,
        beat_this_cycle,
    }
}

} // verus!
