use vstd::prelude::*;
use crate::jack_sync_fanout::JackSyncFanoutMessage;
use crate::yaml_config::SeqMeta;
use vstd::string::StrSliceExecFns;

verus! {

/// Commands that the dispatcher sends to the task that owns a sequence.
#[derive(Debug, PartialEq, Eq)]
pub enum SequenceCommand {
    StartRecord,
    StopRecord,
    Play,
    Stop,
    Save { path: String },
    Load { path: String, beats: usize },
    Shutdown,
}

/// What the owner of a sequence must do after a command: the file work
/// that the sequence cannot do itself, or ending its task.
#[derive(Debug, PartialEq, Eq)]
pub enum SequenceAction {
    Continue,
    Save { path: String },
    Load { path: String, beats: usize },
    Shutdown,
}

/// Samples read from a WAV file, ready to be put into a sequence.
pub enum LoadedFrames<S> {
    /// Interleaved left/right samples at the sequence's own frame rate;
    /// they replace the sequence's buffers.
    Interleaved(Vec<S>),
    /// One resampled chunk per channel; they are appended to the buffers.
    Resampled { left: Vec<S>, right: Vec<S> },
}

/// One recorded loop on one track.  `S` is the type of an audio sample.
#[derive(Debug)]
pub struct AudioSequence<S> {
    pub playing: bool,
    pub recording: bool,
    pub track: usize,
    pub beats_per_bar: usize,
    pub left: Vec<S>,
    pub right: Vec<S>,
    pub playhead: usize,
    pub cycles_since_beat: usize,
    pub length: usize,
    pub last_frame: usize,
    pub beat_counter: usize,
    pub n_beats: usize,
    pub recording_delay: bool,
    pub id: usize,
    pub filename: String,
    pub framerate: usize,
}

/// The mathematical state of an [`AudioSequence`].
pub struct SequenceView<S> {
    pub playing: bool,
    pub recording: bool,
    pub track: usize,
    pub beats_per_bar: usize,
    pub left: Seq<S>,
    pub right: Seq<S>,
    pub playhead: usize,
    pub cycles_since_beat: usize,
    pub length: usize,
    pub last_frame: usize,
    pub beat_counter: usize,
    pub n_beats: usize,
    pub recording_delay: bool,
    pub id: usize,
    pub filename: Seq<char>,
    pub framerate: usize,
}

impl<S> View for AudioSequence<S> {
    type V = SequenceView<S>;

    open spec fn view(&self) -> SequenceView<S> {
        SequenceView {
            playing: self.playing,
            recording: self.recording,
            track: self.track,
            beats_per_bar: self.beats_per_bar,
            left: self.left@,
            right: self.right@,
            playhead: self.playhead,
            cycles_since_beat: self.cycles_since_beat,
            length: self.length,
            last_frame: self.last_frame,
            beat_counter: self.beat_counter,
            n_beats: self.n_beats,
            recording_delay: self.recording_delay,
            id: self.id,
            filename: self.filename@,
            framerate: self.framerate,
        }
    }
}

/// `(left[i], right[i])` for `from <= i < to`.
pub open spec fn frame_pairs<S>(left: Seq<S>, right: Seq<S>, from: int, to: int) -> Seq<(S, S)> {
    Seq::new((to - from) as nat, |i: int| (left[from + i], right[from + i]))
}

/// `s` without its last `k` elements (empty when `k` is at least its length).
pub open spec fn drop_tail<T>(s: Seq<T>, k: int) -> Seq<T> {
    if k >= s.len() {
        Seq::empty()
    } else {
        s.take(s.len() - k)
    }
}

/// The first components of the pairs.
pub open spec fn lefts<S>(pairs: Seq<(S, S)>) -> Seq<S> {
    pairs.map_values(|p: (S, S)| p.0)
}

/// The second components of the pairs.
pub open spec fn rights<S>(pairs: Seq<(S, S)>) -> Seq<S> {
    pairs.map_values(|p: (S, S)| p.1)
}

/// Interleaving of `l` and `r`: `l[0], r[0], l[1], r[1], ...` over the length of `l`.
pub open spec fn interleaved<T>(l: Seq<T>, r: Seq<T>) -> Seq<T> {
    Seq::new(2 * l.len(), |i: int| if i % 2 == 0 { l[i / 2] } else { r[i / 2] })
}

/// The elements of `v` at even positions.
pub open spec fn evens<T>(v: Seq<T>) -> Seq<T> {
    Seq::new(((v.len() + 1) / 2) as nat, |i: int| v[2 * i])
}

/// The elements of `v` at odd positions.
pub open spec fn odds<T>(v: Seq<T>) -> Seq<T> {
    Seq::new((v.len() / 2) as nat, |i: int| v[2 * i + 1])
}

impl<S> SequenceView<S> {
    /// The sequence after a beat, with `beat` the transport's beat in the bar.
    /// While recording, beats are counted once the first downbeat has passed;
    /// while not recording, the beat counter advances and wraps the loop.
    pub open spec fn observed(self, beat: usize) -> SequenceView<S> {
        if self.recording {
            SequenceView {
                cycles_since_beat: 0,
                n_beats: if !self.recording_delay {
                    (self.n_beats + 1) as usize
                } else {
                    self.n_beats
                },
                recording_delay: if beat == 1 {
                    false
                } else {
                    self.recording_delay
                },
                ..self
            }
        } else if self.beat_counter == self.n_beats {
            SequenceView { cycles_since_beat: 0, playhead: 0, beat_counter: 1, ..self }
        } else {
            SequenceView {
                cycles_since_beat: 0,
                beat_counter: (self.beat_counter + 1) as usize,
                ..self
            }
        }
    }

    /// No counter that `observed` increments is at its maximum.
    pub open spec fn can_observe(self) -> bool {
        &&& (self.recording && !self.recording_delay) ==> self.n_beats < usize::MAX
        &&& (!self.recording && self.beat_counter != self.n_beats) ==> self.beat_counter
            < usize::MAX
    }

    /// Whether recorded samples are kept: recording, past the first downbeat.
    pub open spec fn capturing(self) -> bool {
        self.recording && !self.recording_delay
    }

    /// The sequence after receiving one input sample pair.
    pub open spec fn recorded(self, pair: (S, S)) -> SequenceView<S> {
        if !self.capturing() {
            self
        } else {
            SequenceView {
                cycles_since_beat: (self.cycles_since_beat + 1) as usize,
                left: self.left.push(pair.0),
                right: self.right.push(pair.1),
                length: (self.length + 1) as usize,
                playhead: (self.playhead + 1) as usize,
                ..self
            }
        }
    }

    /// The sequence after receiving `pairs` in order.
    pub open spec fn recorded_all(self, pairs: Seq<(S, S)>) -> SequenceView<S> {
        if !self.capturing() {
            self
        } else {
            SequenceView {
                cycles_since_beat: (self.cycles_since_beat + pairs.len()) as usize,
                left: self.left + lefts(pairs),
                right: self.right + rights(pairs),
                length: (self.length + pairs.len()) as usize,
                playhead: (self.playhead + pairs.len()) as usize,
                ..self
            }
        }
    }

    /// `n` more captured samples fit in the counters.
    pub open spec fn can_record(self, n: nat) -> bool {
        self.capturing() ==> {
            &&& self.cycles_since_beat + n <= usize::MAX
            &&& self.length + n <= usize::MAX
            &&& self.playhead + n <= usize::MAX
        }
    }

    /// Playhead back to the loop's start.
    pub open spec fn rewound(self) -> SequenceView<S> {
        SequenceView { playhead: 0, beat_counter: 1, ..self }
    }

    /// Last index, exclusive, of the samples played when the playhead
    /// advances by `k` positions: those that hold a sample on both channels.
    pub open spec fn end_after(self, k: int) -> int {
        let m = if self.left.len() < self.right.len() {
            self.left.len() as int
        } else {
            self.right.len() as int
        };
        let e = self.playhead + k;
        if e < m {
            e
        } else if m < self.playhead {
            self.playhead as int
        } else {
            m
        }
    }

    /// Last index, exclusive, of the samples that a cycle of `nframes`
    /// frames plays: the playhead advances by `nframes / 2`.
    pub open spec fn play_end(self, nframes: usize) -> int {
        self.end_after((nframes / 2) as int)
    }

    /// A cycle with these values plays nothing and changes nothing.
    pub open spec fn idle_cycle(self, nframes: usize, pos_frame: usize) -> bool {
        nframes == 0 || pos_frame == self.last_frame
    }

    /// The sequence after a playback cycle ending at `pos_frame`.
    pub open spec fn positioned(self, nframes: usize, pos_frame: usize) -> SequenceView<S> {
        if self.idle_cycle(nframes, pos_frame) {
            self
        } else {
            SequenceView {
                playhead: (self.playhead + nframes / 2) as usize,
                last_frame: pos_frame,
                ..self
            }
        }
    }

    /// What a playback cycle ending at `pos_frame` outputs.
    pub open spec fn played(self, nframes: usize, pos_frame: usize) -> Option<Seq<(S, S)>> {
        if self.idle_cycle(nframes, pos_frame) || self.play_end(nframes) <= self.playhead {
            None
        } else {
            Some(frame_pairs(self.left, self.right, self.playhead as int, self.play_end(nframes)))
        }
    }

    /// The playhead can advance by `nframes / 2`.
    pub open spec fn can_position(self, nframes: usize) -> bool {
        self.playhead + nframes / 2 <= usize::MAX
    }

    /// A playback cycle ending at `pos_frame` overflows nothing: it is idle,
    /// or the playhead can advance by `nframes / 2`.
    pub open spec fn positions_within(self, nframes: usize, pos_frame: usize) -> bool {
        !self.idle_cycle(nframes, pos_frame) ==> self.can_position(nframes)
    }

    /// The sequence after recording stops.  A loop whose beat count is a
    /// whole number of bars drops what was recorded since the last beat and
    /// plays from there; otherwise its length is rounded up to the next bar.
    pub open spec fn stopped_recording(self) -> SequenceView<S> {
        if !self.recording {
            self
        } else if self.n_beats % self.beats_per_bar == 0 {
            SequenceView {
                beat_counter: 1,
                playhead: self.cycles_since_beat,
                left: drop_tail(self.left, self.cycles_since_beat as int),
                right: drop_tail(self.right, self.cycles_since_beat as int),
                recording: false,
                ..self
            }
        } else {
            SequenceView {
                beat_counter: (self.n_beats + 1) as usize,
                n_beats: (self.n_beats - self.n_beats % self.beats_per_bar
                    + self.beats_per_bar) as usize,
                recording: false,
                ..self
            }
        }
    }

    /// Stopping recording divides by a positive bar length and overflows nothing.
    pub open spec fn can_stop_recording(self) -> bool {
        self.recording ==> {
            &&& self.beats_per_bar > 0
            &&& self.n_beats % self.beats_per_bar != 0 ==> {
                &&& self.n_beats < usize::MAX
                &&& self.n_beats - self.n_beats % self.beats_per_bar + self.beats_per_bar
                    <= usize::MAX
            }
        }
    }

    /// The sequence after the beat of a cycle, if the cycle has one.
    pub open spec fn beat_of(self, msg: JackSyncFanoutMessage) -> SequenceView<S> {
        if msg.beat_this_cycle {
            self.observed(msg.beat)
        } else {
            self
        }
    }

    /// A cycle described by `msg`, with `n` input sample pairs, overflows no counter.
    pub open spec fn sync_fits(self, msg: JackSyncFanoutMessage, n: nat) -> bool {
        &&& (self.playing || self.recording) ==> (msg.beat_this_cycle ==> self.can_observe())
        &&& self.playing ==> self.beat_of(msg).positions_within(msg.nframes, msg.pos_frame)
        &&& (!self.playing && self.recording) ==> self.beat_of(msg).can_record(n)
    }

    /// The sequence after a cycle described by `msg` with `input` recorded.
    pub open spec fn synced(self, msg: JackSyncFanoutMessage, input: Seq<(S, S)>) -> SequenceView<
        S,
    > {
        if self.playing {
            self.beat_of(msg).positioned(msg.nframes, msg.pos_frame)
        } else if self.recording {
            self.beat_of(msg).recorded_all(input)
        } else {
            self
        }
    }

    /// What a cycle described by `msg` outputs.
    pub open spec fn synced_output(self, msg: JackSyncFanoutMessage) -> Option<Seq<(S, S)>> {
        if self.playing {
            self.beat_of(msg).played(msg.nframes, msg.pos_frame)
        } else {
            None
        }
    }

    /// The sequence after `k` beats.
    pub open spec fn observed_times(self, beat: usize, k: nat) -> SequenceView<S>
        decreases k,
    {
        if k == 0 {
            self
        } else {
            self.observed_times(beat, (k - 1) as nat).observed(beat)
        }
    }
}

/// Name of the WAV file of a sequence on `track` created `secs` seconds and
/// `nanos` nanoseconds after the Unix epoch.
pub uninterp spec fn wav_file_name(track: usize, secs: u64, nanos: u32) -> Seq<char>;

/// Formats the file name with `std::format!`: the track and the
/// `std::time::Duration` of the stamp, both in their `Debug` form, joined by
/// `-`, then `.wav`.  The contract claims only that the same arguments give
/// the same name.
#[verifier::external_body]
fn format_wav_file_name(track: usize, secs: u64, nanos: u32) -> (name: String)
    requires
        nanos < 1_000_000_000,
    ensures
        name@ == wav_file_name(track, secs, nanos),
{
    format!("{:?}-{:?}.wav", track, std::time::Duration::new(secs, nanos))
}

/// Reads the system clock with `std::time::SystemTime::now` and measures it
/// from `UNIX_EPOCH` with `duration_since`, which fails for a clock set
/// before the epoch.  The contract claims only that the nanoseconds, a
/// `subsec_nanos`, are below one second; the value depends on the time.
#[verifier::external_body]
fn time_since_epoch() -> (t: Option<(u64, u32)>)
    ensures
        t matches Some(p) ==> p.1 < 1_000_000_000,
{
    match std::time::SystemTime::now().duration_since(std::time::UNIX_EPOCH) {
        Ok(d) => Some((d.as_secs(), d.subsec_nanos())),
        Err(_) => None,
    }
}

/// Position of the last `/` in `s`, or -1 where there is none.
pub open spec fn last_slash(s: Seq<char>) -> int
    decreases s.len(),
{
    if s.len() == 0 {
        -1
    } else if s.last() == '/' {
        s.len() - 1
    } else {
        last_slash(s.drop_last())
    }
}

/// The file name in a path: what follows its last `/`, or the whole path
/// where it has none.
pub open spec fn base_name(s: Seq<char>) -> Seq<char> {
    s.skip(last_slash(s) + 1)
}

/// The file name in `path`.
fn base_name_of(path: &str) -> (r: String)
    ensures
        r@ == base_name(path@),
{
    let n = path.unicode_len();
    let mut j: usize = n;
    proof {
        assert(path@.take(n as int) =~= path@);
    }
    while j > 0
        invariant
            0 <= j <= n,
            n == path@.len(),
            last_slash(path@) == last_slash(path@.take(j as int)),
        decreases j,
    {
        proof {
            assert(path@.take(j as int).drop_last() =~= path@.take(j - 1));
        }
        if path.get_char(j - 1) == '/' {
            let name = path.substring_char(j, n);
            proof {
                assert(name@ =~= path@.skip(j as int));
            }
            return name.to_owned();
        }
        j = j - 1;
    }
    proof {
        assert(path@.take(0) =~= Seq::<char>::empty());
        assert(path@.skip(0) =~= path@);
    }
    path.to_owned()
}

/// The last `/` of a path that ends in `/` and a name without one is that
/// `/`.
proof fn lemma_last_slash_before_name(dir: Seq<char>, name: Seq<char>)
    requires
        !name.contains('/'),
    ensures
        last_slash(dir + seq!['/'] + name) == dir.len(),
    decreases name.len(),
{
    let full = dir + seq!['/'] + name;
    if name.len() == 0 {
        assert(full.last() == '/');
    } else {
        let shorter = name.drop_last();
        assert(!shorter.contains('/')) by {
            if shorter.contains('/') {
                let i = choose|i: int| 0 <= i < shorter.len() && shorter[i] == '/';
                assert(name[i] == '/');
            }
        }
        assert(name.last() != '/') by {
            assert(name[name.len() - 1] == name.last());
        }
        lemma_last_slash_before_name(dir, shorter);
        assert(full.drop_last() =~= dir + seq!['/'] + shorter);
        assert(full.last() == name.last());
    }
}

/// A sequence loaded from the file `name` in directory `dir` keeps `name`
/// as its file name, so that saving it again writes that same file.
pub proof fn lemma_loaded_file_keeps_its_name(dir: Seq<char>, name: Seq<char>)
    requires
        !name.contains('/'),
    ensures
        base_name(dir + seq!['/'] + name) == name,
{
    lemma_last_slash_before_name(dir, name);
    let full = dir + seq!['/'] + name;
    assert(full.skip((dir.len() + 1) as int) =~= name);
}

/// The interleaving `l[0], r[0], l[1], r[1], ...` of two channels.
pub fn interleave<T: Copy>(l: &Vec<T>, r: &Vec<T>) -> (ret: Vec<T>)
    requires
        r.len() >= l.len(),
        2 * l.len() <= usize::MAX,
    ensures
        ret@ == interleaved(l@, r@),
{
    let mut ret: Vec<T> = Vec::new();
    let n = l.len();
    let mut i: usize = 0;
    while i < n
        invariant
            n == l.len(),
            r.len() >= n,
            2 * n <= usize::MAX,
            0 <= i <= n,
            ret@ =~= interleaved(l@.take(i as int), r@.take(i as int)),
        decreases n - i,
    {
        ret.push(l[i]);
        ret.push(r[i]);
        i = i + 1;
        proof {
            assert forall|k: int| 0 <= k < ret@.len() implies ret@[k] == interleaved(
                l@.take(i as int),
                r@.take(i as int),
            )[k] by {
                if k < ret@.len() - 2 {
                } else if k == ret@.len() - 2 {
                    assert(k / 2 == i - 1);
                } else {
                    assert(k / 2 == i - 1);
                }
            }
        }
    }
    proof {
        assert(l@.take(n as int) =~= l@);
        assert(interleaved(l@, r@.take(n as int)) =~= interleaved(l@, r@));
    }
    ret
}

/// Splits interleaved samples into the even-position and odd-position channels.
pub fn deinterleave<T: Copy>(v: Vec<T>) -> (ret: (Vec<T>, Vec<T>))
    ensures
        ret.0@ == evens(v@),
        ret.1@ == odds(v@),
{
    let mut l: Vec<T> = Vec::new();
    let mut r: Vec<T> = Vec::new();
    let n = v.len();
    let mut i: usize = 0;
    while i < n
        invariant
            n == v.len(),
            0 <= i <= n,
            l@ =~= evens(v@.take(i as int)),
            r@ =~= odds(v@.take(i as int)),
        decreases n - i,
    {
        if i % 2 == 0 {
            l.push(v[i]);
        } else if i % 2 == 1 {
            r.push(v[i]);
        }
        i = i + 1;
        proof {
            assert forall|k: int| 0 <= k < l@.len() implies l@[k] == evens(v@.take(i as int))[k] by {
                assert(2 * k < i);
            }
            assert forall|k: int| 0 <= k < r@.len() implies r@[k] == odds(v@.take(i as int))[k] by {
                assert(2 * k + 1 < i);
            }
        }
    }
    proof {
        assert(v@.take(n as int) =~= v@);
    }
    (l, r)
}

/// Interleaving two channels of equal length and splitting the result gives
/// the two channels back.
pub proof fn lemma_deinterleave_interleave<T>(l: Seq<T>, r: Seq<T>)
    requires
        l.len() == r.len(),
    ensures
        evens(interleaved(l, r)) == l,
        odds(interleaved(l, r)) == r,
{
    let v = interleaved(l, r);
    assert forall|i: int| 0 <= i < l.len() implies evens(v)[i] == l[i] by {
        assert((2 * i) % 2 == 0 && (2 * i) / 2 == i);
    }
    assert forall|i: int| 0 <= i < r.len() implies odds(v)[i] == r[i] by {
        assert((2 * i + 1) % 2 == 1 && (2 * i + 1) / 2 == i);
    }
    assert(evens(v) =~= l);
    assert(odds(v) =~= r);
}

/// Splitting samples of even length into channels and interleaving these
/// gives the samples back.
pub proof fn lemma_interleave_deinterleave<T>(v: Seq<T>)
    requires
        v.len() % 2 == 0,
    ensures
        interleaved(evens(v), odds(v)) == v,
{
    let w = interleaved(evens(v), odds(v));
    assert forall|i: int| 0 <= i < v.len() implies w[i] == v[i] by {
        if i % 2 == 0 {
            assert(2 * (i / 2) == i);
        } else {
            assert(2 * (i / 2) + 1 == i);
        }
    }
    assert(w =~= v);
}

/// A remainder is at most the number divided.
proof fn lemma_mod_at_most(n: int, b: int)
    requires
        n >= 0,
        b > 0,
    ensures
        n % b <= n,
{
    assert(n % b <= n) by (nonlinear_arith)
        requires
            n >= 0,
            b > 0,
    ;
}

impl<S: Copy> AudioSequence<S> {
    /// A new sequence on `track`, recording and waiting for the first
    /// downbeat, whose WAV file name is stamped with the given time.
    pub fn with_file_stamp(
        track: usize,
        beats_per_bar: usize,
        last_frame: usize,
        framerate: usize,
        secs: u64,
        nanos: u32,
    ) -> (s: AudioSequence<S>)
        requires
            nanos < 1_000_000_000,
        ensures
            s@ == (SequenceView::<S> {
                playing: false,
                recording: true,
                track,
                beats_per_bar,
                left: Seq::empty(),
                right: Seq::empty(),
                playhead: 0,
                cycles_since_beat: 0,
                length: 0,
                last_frame,
                beat_counter: 1,
                n_beats: 0,
                recording_delay: true,
                id: 0,
                filename: wav_file_name(track, secs, nanos),
                framerate,
            }),
    {
        let filename = format_wav_file_name(track, secs, nanos);
        AudioSequence {
            playing: false,
            recording: true,
            track,
            beats_per_bar,
            left: Vec::new(),
            right: Vec::new(),
            playhead: 0,
            cycles_since_beat: 0,
            length: 0,
            last_frame,
            beat_counter: 1,
            n_beats: 0,
            recording_delay: true,
            id: 0,
            filename,
            framerate,
        }
    }

    /// A new sequence on `track`, recording and waiting for the first
    /// downbeat, whose WAV file name is stamped with the current time (the
    /// zero stamp when the clock reads before the epoch).
    pub fn new(track: usize, beats_per_bar: usize, last_frame: usize, framerate: usize) -> (s:
        AudioSequence<S>)
        ensures
            exists|secs: u64, nanos: u32|
                s@ == (SequenceView::<S> {
                    playing: false,
                    recording: true,
                    track,
                    beats_per_bar,
                    left: Seq::empty(),
                    right: Seq::empty(),
                    playhead: 0,
                    cycles_since_beat: 0,
                    length: 0,
                    last_frame,
                    beat_counter: 1,
                    n_beats: 0,
                    recording_delay: true,
                    id: 0,
                    filename: wav_file_name(track, secs, nanos),
                    framerate,
                }),
    {
        let (secs, nanos) = match time_since_epoch() {
            Some(t) => t,
            None => (0, 0),
        };
        Self::with_file_stamp(track, beats_per_bar, last_frame, framerate, secs, nanos)
    }

    pub fn set_id(&mut self, id: usize)
        ensures
            final(self)@ == (SequenceView { id, ..old(self)@ }),
    {
        self.id = id;
    }

    /// Empties both channels.
    pub fn clear(&mut self)
        ensures
            final(self)@ == (SequenceView {
                left: Seq::<S>::empty(),
                right: Seq::<S>::empty(),
                ..old(self)@
            }),
    {
        self.left.clear();
        self.right.clear();
    }

    /// Takes one input sample pair; it is kept only while recording past the
    /// first downbeat.
    pub fn process_record(&mut self, sample_pair: (S, S))
        requires
            old(self)@.can_record(1),
        ensures
            final(self)@ == old(self)@.recorded(sample_pair),
    {
        if !self.recording || self.recording_delay {
            return ;
        }
        self.cycles_since_beat = self.cycles_since_beat + 1;
        self.left.push(sample_pair.0);
        self.right.push(sample_pair.1);
        self.length = self.length + 1;
        self.playhead = self.playhead + 1;
    }

    /// Back to the start of the loop.
    pub fn reset_playhead(&mut self)
        ensures
            final(self)@ == old(self)@.rewound(),
    {
        self.playhead = 0;
        self.beat_counter = 1;
    }

    /// Takes a beat; `beat` is the transport's beat within the bar.
    pub fn observe_beat(&mut self, beat: usize)
        requires
            old(self)@.can_observe(),
        ensures
            final(self)@ == old(self)@.observed(beat),
    {
        self.cycles_since_beat = 0;
        if self.recording {
            if !self.recording_delay {
                self.n_beats = self.n_beats + 1;
            }
            if beat == 1 {
                self.recording_delay = false;
            }
        } else {
            if self.beat_counter == self.n_beats {
                self.reset_playhead();
            } else {
                self.beat_counter = self.beat_counter + 1;
            }
        }
    }

    /// Ends recording and quantizes the loop to whole bars.
    pub fn stop_recording(&mut self)
        requires
            old(self)@.can_stop_recording(),
        ensures
            final(self)@ == old(self)@.stopped_recording(),
    {
        if !self.recording {
            return ;
        }
        proof {
            lemma_mod_at_most(self.n_beats as int, self.beats_per_bar as int);
        }
        if self.n_beats % self.beats_per_bar == 0 {
            self.beat_counter = 1;
            self.playhead = self.cycles_since_beat;
            let ghost v1 = self@;
            proof {
                assert(drop_tail(v1.left, 0) =~= v1.left);
                assert(drop_tail(v1.right, 0) =~= v1.right);
            }
            let c = self.cycles_since_beat;
            let mut j: usize = 0;
            while j < c
                invariant
                    0 <= j <= c,
                    self@ == (SequenceView {
                        left: drop_tail(v1.left, j as int),
                        right: drop_tail(v1.right, j as int),
                        ..v1
                    }),
                decreases c - j,
            {
                self.left.pop();
                self.right.pop();
                j = j + 1;
                proof {
                    assert(self.left@ =~= drop_tail(v1.left, j as int));
                    assert(self.right@ =~= drop_tail(v1.right, j as int));
                }
            }
        } else {
            self.beat_counter = self.n_beats + 1;
            self.n_beats = (self.n_beats - (self.n_beats % self.beats_per_bar))
                + self.beats_per_bar;
        }
        self.recording = false;
    }

    pub fn start_playing(&mut self)
        ensures
            final(self)@ == (SequenceView { playing: true, ..old(self)@ }),
    {
        self.playing = true;
    }

    /// Plays one cycle ending at frame `pos_frame`: `nframes / 2` positions
    /// from the playhead, skipping those past the recorded samples.  Returns
    /// `None` when nothing is played.
    pub fn process_position(&mut self, nframes: usize, pos_frame: usize) -> (r: Option<
        Vec<(S, S)>,
    >)
        requires
            old(self)@.positions_within(nframes, pos_frame),
        ensures
            final(self)@ == old(self)@.positioned(nframes, pos_frame),
            r matches Some(v) ==> old(self)@.played(nframes, pos_frame) == Some(v@),
            r is None ==> old(self)@.played(nframes, pos_frame) is None,
    {
        if nframes == 0 {
            return None;
        }
        if pos_frame == self.last_frame {
            return None;
        }
        let ghost v0 = self@;
        let mut ret: Vec<(S, S)> = Vec::new();
        let k = nframes / 2;
        let mut j: usize = 0;
        while j < k
            invariant
                0 <= j <= k,
                k == nframes / 2,
                v0.playhead + k <= usize::MAX,
                self@ == (SequenceView { playhead: (v0.playhead + j) as usize, ..v0 }),
                ret@ =~= frame_pairs(v0.left, v0.right, v0.playhead as int, v0.end_after(j as int)),
            decreases k - j,
        {
            if self.playhead < self.left.len() {
                if self.playhead < self.right.len() {
                    ret.push((self.left[self.playhead], self.right[self.playhead]));
                }
            }
            self.playhead = self.playhead + 1;
            j = j + 1;
        }
        self.last_frame = pos_frame;
        if ret.len() == 0 {
            return None;
        }
        Some(ret)
    }

    /// Puts samples read from the WAV file at `file` into the sequence,
    /// with `beats` its length in beats, and ends recording; the sequence
    /// keeps the file's name, without its directory.
    pub fn load(&mut self, file: String, beats: usize, frames: LoadedFrames<S>)
        ensures
            ({
                let v = SequenceView {
                    filename: base_name(file@),
                    n_beats: beats,
                    recording: false,
                    ..old(self)@
                };
                match frames {
                    LoadedFrames::Interleaved(data) => final(self)@ == (SequenceView {
                        left: evens(data@),
                        right: odds(data@),
                        ..v
                    }),
                    LoadedFrames::Resampled { left, right } => final(self)@ == (SequenceView {
                        left: old(self)@.left + left@,
                        right: old(self)@.right + right@,
                        ..v
                    }),
                }
            }),
    {
        self.filename = base_name_of(file.as_str());
        self.n_beats = beats;
        match frames {
            LoadedFrames::Interleaved(data) => {
                let (l, r) = deinterleave(data);
                self.left = l;
                self.right = r;
            },
            LoadedFrames::Resampled { left, right } => {
                let mut left = left;
                let mut right = right;
                self.left.append(&mut left);
                self.right.append(&mut right);
            },
        }
        self.recording = false;
    }

    /// Whether samples at `file_rate` must be resampled to the sequence's rate.
    pub fn needs_resample(&self, file_rate: usize) -> (b: bool)
        ensures
            b == (file_rate != self@.framerate),
    {
        file_rate != self.framerate
    }

    pub fn framerate(&self) -> (f: usize)
        ensures
            f == self@.framerate,
    {
        self.framerate
    }

    /// The samples to save: both channels interleaved.
    pub fn interleaved_samples(&self) -> (v: Vec<S>)
        requires
            self@.right.len() >= self@.left.len(),
            2 * self@.left.len() <= usize::MAX,
        ensures
            v@ == interleaved(self@.left, self@.right),
    {
        interleave(&self.left, &self.right)
    }

    /// The saved description of this sequence.
    pub fn meta(&self) -> (m: SeqMeta)
        ensures
            m.filename@ == self@.filename,
            m.beats == self@.n_beats,
            m.track == self@.track,
    {
        SeqMeta { filename: self.filename.clone(), beats: self.n_beats, track: self.track }
    }

    /// Whether the sequence's task takes input samples this cycle: it is
    /// recording and not playing.
    pub fn takes_input(&self) -> (b: bool)
        ensures
            b == (!self@.playing && self@.recording),
    {
        !self.playing && self.recording
    }

    /// Whether a cycle described by `msg`, with `n_input` input sample pairs,
    /// overflows no counter.
    pub fn sync_fits(&self, msg: &JackSyncFanoutMessage, n_input: usize) -> (b: bool)
        ensures
            b == self@.sync_fits(*msg, n_input as nat),
    {
        let observe_ok = (!(self.recording && !self.recording_delay) || self.n_beats < usize::MAX)
            && (!(!self.recording && self.beat_counter != self.n_beats) || self.beat_counter
            < usize::MAX);
        if !(self.playing || self.recording) {
            return true;
        }
        if msg.beat_this_cycle && !observe_ok {
            return false;
        }
        // the counters after the cycle's beat
        let (rec_delay, cycles, playhead) = if msg.beat_this_cycle {
            if self.recording {
                (if msg.beat == 1 { false } else { self.recording_delay }, 0, self.playhead)
            } else if self.beat_counter == self.n_beats {
                (self.recording_delay, 0, 0)
            } else {
                (self.recording_delay, 0, self.playhead)
            }
        } else {
            (self.recording_delay, self.cycles_since_beat, self.playhead)
        };
        if self.playing {
            msg.nframes == 0 || msg.pos_frame == self.last_frame || playhead <= usize::MAX
                - msg.nframes / 2
        } else {
            rec_delay || (cycles <= usize::MAX - n_input && self.length <= usize::MAX - n_input
                && playhead <= usize::MAX - n_input)
        }
    }

    /// One process cycle described by `msg`: a playing sequence takes the
    /// cycle's beat and returns the samples it plays; a recording one takes
    /// the beat and records `input`.
    pub fn on_jack_sync(&mut self, msg: &JackSyncFanoutMessage, input: Vec<(S, S)>) -> (r: Option<
        Vec<(S, S)>,
    >)
        requires
            old(self)@.sync_fits(*msg, input@.len()),
        ensures
            final(self)@ == old(self)@.synced(*msg, input@),
            r matches Some(v) ==> old(self)@.synced_output(*msg) == Some(v@),
            r is None ==> old(self)@.synced_output(*msg) is None,
    {
        if self.playing {
            if msg.beat_this_cycle {
                self.observe_beat(msg.beat);
            }
            self.process_position(msg.nframes, msg.pos_frame)
        } else if self.recording {
            if msg.beat_this_cycle {
                self.observe_beat(msg.beat);
            }
            let ghost v1 = self@;
            let n = input.len();
            let mut i: usize = 0;
            proof {
                assert(input@.take(0) =~= Seq::<(S, S)>::empty());
                assert(lefts(input@.take(0)) =~= Seq::<S>::empty());
                assert(rights(input@.take(0)) =~= Seq::<S>::empty());
                assert(v1.left + Seq::<S>::empty() =~= v1.left);
                assert(v1.right + Seq::<S>::empty() =~= v1.right);
            }
            while i < n
                invariant
                    n == input.len(),
                    0 <= i <= n,
                    v1.can_record(n as nat),
                    self@ == v1.recorded_all(input@.take(i as int)),
                decreases n - i,
            {
                let pair = input[i];
                self.process_record(pair);
                i = i + 1;
                proof {
                    let t = input@.take(i as int);
                    assert(t.drop_last() =~= input@.take(i - 1));
                    assert(lefts(t) =~= lefts(input@.take(i - 1)).push(pair.0));
                    assert(rights(t) =~= rights(input@.take(i - 1)).push(pair.1));
                    assert(v1.left + lefts(t) =~= v1.left + lefts(input@.take(i - 1)) + seq![pair.0]);
                    assert(v1.right + rights(t) =~= v1.right + rights(input@.take(i - 1)) + seq![pair.1]);
                }
            }
            proof {
                assert(input@.take(n as int) =~= input@);
            }
            None
        } else {
            None
        }
    }

    /// Whether stopping the recording divides by a positive bar length and
    /// overflows nothing.
    pub fn stop_fits(&self) -> (b: bool)
        ensures
            b == self@.can_stop_recording(),
    {
        if !self.recording {
            return true;
        }
        if self.beats_per_bar == 0 {
            return false;
        }
        proof {
            lemma_mod_at_most(self.n_beats as int, self.beats_per_bar as int);
        }
        let r = self.n_beats % self.beats_per_bar;
        r == 0 || (self.n_beats < usize::MAX && self.beats_per_bar <= usize::MAX - (self.n_beats
            - r))
    }

    /// Carries out a command; file work and shutdown are returned to the caller.
    pub fn on_command(&mut self, cmd: SequenceCommand) -> (a: SequenceAction)
        requires
            cmd is StopRecord ==> old(self)@.can_stop_recording(),
        ensures
            match cmd {
                SequenceCommand::StartRecord => final(self)@ == (SequenceView {
                    recording: true,
                    ..old(self)@
                }) && a is Continue,
                SequenceCommand::StopRecord => final(self)@ == old(self)@.stopped_recording()
                    && a is Continue,
                SequenceCommand::Play => final(self)@ == (SequenceView {
                    playing: true,
                    ..old(self)@
                }) && a is Continue,
                SequenceCommand::Stop => final(self)@ == (SequenceView {
                    playing: false,
                    ..old(self)@
                }).rewound() && a is Continue,
                SequenceCommand::Save { path } => final(self)@ == old(self)@ && a == (
                SequenceAction::Save { path }),
                SequenceCommand::Load { path, beats } => final(self)@ == old(self)@ && a == (
                SequenceAction::Load { path, beats }),
                SequenceCommand::Shutdown => final(self)@ == old(self)@ && a is Shutdown,
            },
    {
        match cmd {
            SequenceCommand::StartRecord => {
                self.recording = true;
                SequenceAction::Continue
            },
            SequenceCommand::StopRecord => {
                self.stop_recording();
                SequenceAction::Continue
            },
            SequenceCommand::Play => {
                self.start_playing();
                SequenceAction::Continue
            },
            SequenceCommand::Stop => {
                self.playing = false;
                self.reset_playhead();
                SequenceAction::Continue
            },
            SequenceCommand::Save { path } => SequenceAction::Save { path },
            SequenceCommand::Load { path, beats } => SequenceAction::Load { path, beats },
            SequenceCommand::Shutdown => SequenceAction::Shutdown,
        }
    }
}

/// A loop is bar-quantized: once recording stops, its length in beats is a
/// whole number of bars.
pub proof fn lemma_stopped_loop_is_whole_bars<S>(v: SequenceView<S>)
    requires
        v.recording,
        v.can_stop_recording(),
    ensures
        v.stopped_recording().n_beats % v.beats_per_bar == 0,
        !v.stopped_recording().recording,
{
    let n = v.n_beats as int;
    let b = v.beats_per_bar as int;
    if n % b != 0 {
        let q = n / b;
        vstd::arithmetic::div_mod::lemma_fundamental_div_mod(n, b);
        assert(b * q + b == (q + 1) * b) by (nonlinear_arith);
        vstd::arithmetic::div_mod::lemma_mod_multiples_basic(q + 1, b);
        assert(n - n % b + b == (q + 1) * b);
    }
}

/// A playing loop of `n` beats that starts at its first beat is back at its
/// first beat, with the playhead at the start, after `n` beats, and at beat
/// `k + 1` after `k < n` beats.
pub proof fn lemma_loop_restarts_every_n_beats<S>(v: SequenceView<S>, beat: usize, k: nat)
    requires
        !v.recording,
        v.n_beats >= 1,
        v.beat_counter == 1,
        k <= v.n_beats,
    ensures
        k < v.n_beats ==> v.observed_times(beat, k).beat_counter == k + 1,
        k == v.n_beats ==> v.observed_times(beat, k).beat_counter == 1,
        k == v.n_beats ==> v.observed_times(beat, k).playhead == 0,
        !v.observed_times(beat, k).recording,
        v.observed_times(beat, k).playing == v.playing,
        v.observed_times(beat, k).n_beats == v.n_beats,
    decreases k,
{
    if k > 0 {
        lemma_loop_restarts_every_n_beats(v, beat, (k - 1) as nat);
    }
}

/// Beats and process cycles never start or stop a sequence: whether it
/// plays and whether it records stay as they were, whatever the beat, the
/// cycle and the input.
pub proof fn lemma_cycles_keep_playing_and_recording<S>(
    v: SequenceView<S>,
    beat: usize,
    msg: JackSyncFanoutMessage,
    input: Seq<(S, S)>,
)
    ensures
        v.observed(beat).playing == v.playing,
        v.observed(beat).recording == v.recording,
        v.synced(msg, input).playing == v.playing,
        v.synced(msg, input).recording == v.recording,
{
}

/// A playing loop whose playhead is at its start plays its first frame in
/// the next cycle that covers a frame and brings no beat.
pub proof fn lemma_loop_start_plays_first_frame<S>(v: SequenceView<S>, msg: JackSyncFanoutMessage)
    requires
        v.playing,
        v.playhead == 0,
        !msg.beat_this_cycle,
        msg.nframes >= 2,
        msg.pos_frame != v.last_frame,
        v.left.len() > 0,
        v.right.len() > 0,
    ensures
        v.synced_output(msg) matches Some(out) && out.len() > 0 && out[0] == (v.left[0], v.right[0]),
{
    let e = v.play_end(msg.nframes);
    assert(e >= 1);
    let out = frame_pairs(v.left, v.right, 0, e);
    assert(out[0] == (v.left[0], v.right[0]));
}

} // verus!
