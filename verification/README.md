# st_loop

The control logic of an 8-track, 8-scene live audio looper driven by MIDI
program changes and synchronised to a shared beat clock, with its
behaviour proved by Verus.

- `src/` is the verified library:
  - `command_manager.rs`, `midi_control.rs`: MIDI control messages become
    looper commands; go and scene starts wait for the next bar boundary.
  - `sequence.rs`: one recorded loop — recording after the first downbeat,
    bar-quantized stop, playback that wraps every loop length.
  - `dispatcher.rs`: the scenes, the list of sequences, what records and
    plays; each event becomes a list of actions for the caller.  Saving and
    loading a session.
  - `jackio.rs`, `jack_sync_fanout.rs`, `nsm.rs`, `scene.rs`, `gui/`:
    the per-track flags of the process callback, the per-cycle sync message,
    the session manager's announcement, requests and replies, scenes, and
    slot states.
- `app/` is the program around it: JACK ports and callback, tasks and
  channels, WAV files, resampling, the OSC socket.
- `tests/` runs the library on concrete values.
