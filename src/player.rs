use vstd::prelude::*;
use crate::visualizer::{div_toward_zero, keep_latest, mono_of, window_of, Visualizer, HISTORY_LEN};

verus! {

/// Full volume, in thousandths.
pub const VOLUME_MAX: u16 = 1000;

/// Volume of a new sink: one half.
pub const DEFAULT_VOLUME: u16 = 500;

/// Errors that abort the current track.
#[derive(Debug, Clone, Copy, PartialEq, Eq, Structural)]
pub enum PlayerError {
    /// The decoder made no progress on non-empty input, or described a frame
    /// that cannot be.
    MalformedAudioStream,
    /// Bytes left over for the decoder would exceed their fixed capacity.
    ResidualOverflow,
    /// The audio bus reported a transfer fault.
    HardwareBusError,
    /// The track's file could not be read.
    FileSystemError,
}

/// What one push to the audio bus reported.
#[derive(Debug, Clone, Copy, PartialEq, Eq, Structural)]
pub enum PushOutcome {
    /// This many bytes were queued for transfer.
    Queued(usize),
    /// The transfer failed.
    Fault,
}

/// Bytes still to push after one push of `remaining` bytes. A fault, or a
/// claim of more bytes than were offered, is a bus error.
pub open spec fn push_result(remaining: int, pushed: PushOutcome) -> Result<usize, PlayerError> {
    match pushed {
        PushOutcome::Queued(n) => if n <= remaining {
            Ok((remaining - n) as usize)
        } else {
            Err(PlayerError::HardwareBusError)
        },
        PushOutcome::Fault => Err(PlayerError::HardwareBusError),
    }
}

/// A sample scaled by a volume in thousandths, rounded toward zero.
pub open spec fn scaled(s: i16, volume: int) -> i16 {
    div_toward_zero(s as int * volume, VOLUME_MAX as int) as i16
}

/// Most significant byte of a 16-bit sample.
pub open spec fn high_byte(x: i16) -> u8 {
    ((x as u16) >> 8u16) as u8
}

/// Least significant byte of a 16-bit sample.
pub open spec fn low_byte(x: i16) -> u8 {
    ((x as u16) & 0xffu16) as u8
}

/// PCM scaled by `volume` and laid out big-endian, two bytes per sample.
pub open spec fn encoded(pcm: Seq<i16>, volume: int) -> Seq<u8> {
    Seq::new(
        2 * pcm.len(),
        |j: int|
            if j % 2 == 0 {
                high_byte(scaled(pcm[j / 2], volume))
            } else {
                low_byte(scaled(pcm[j / 2], volume))
            },
    )
}

/// Relies on byteorder's BigEndian::write_i16: the two bytes of `n`, most
/// significant first.
#[verifier::external_body]
fn be_bytes(n: i16) -> (r: [u8; 2])
    ensures
        r@ == seq![high_byte(n), low_byte(n)],
{
    let mut b = [0u8; 2];
    <byteorder::BigEndian as byteorder::ByteOrder>::write_i16(&mut b, n);
    b
}

proof fn lemma_scaled_fits(s: int, v: int)
    requires
        -32768 <= s <= 32767,
        0 <= v <= 1000,
    ensures
        s * v >= 0 ==> (s * v) / 1000 <= 32767,
        s * v < 0 ==> (-(s * v)) / 1000 <= 32768,
        -32768000 <= s * v <= 32767000,
{
    assert(-32768000 <= s * v <= 32767000) by (nonlinear_arith)
        requires -32768 <= s <= 32767, 0 <= v <= 1000;
    if s * v >= 0 {
        assert(s * v <= 32767 * 1000) by (nonlinear_arith)
            requires s * v >= 0, s <= 32767, 0 <= v <= 1000;
    } else {
        assert(-(s * v) <= 32768 * 1000) by (nonlinear_arith)
            requires s * v < 0, -32768 <= s, 0 <= v <= 1000;
    }
}

/// One sample scaled by the volume, as `scaled` states it.
fn scale_sample(s: i16, volume: u16) -> (r: i16)
    requires
        volume <= VOLUME_MAX,
    ensures
        r == scaled(s, volume as int),
{
    proof {
        lemma_scaled_fits(s as int, volume as int);
    }
    let p: i32 = s as i32 * volume as i32;
    if p >= 0 {
        ((p as u32) / (VOLUME_MAX as u32)) as i16
    } else {
        let q: u32 = ((-p) as u32) / (VOLUME_MAX as u32);
        (-(q as i32)) as i16
    }
}

/// The audio output: the volume applied to PCM and its encoding for the bus,
/// whose transfer runs outside this library.
pub struct Sink {
    volume: u16,
}

impl Sink {
    /// The volume never exceeds full scale.
    #[verifier::type_invariant]
    spec fn volume_in_range(&self) -> bool {
        self.volume <= VOLUME_MAX
    }

    /// Current volume, in thousandths.
    pub closed spec fn volume_of(&self) -> int {
        self.volume as int
    }

    /// A sink at the default volume.
    pub fn new() -> (r: Sink)
        ensures
            r.volume_of() == DEFAULT_VOLUME,
    {
        Sink { volume: DEFAULT_VOLUME }
    }

    /// Current volume, in thousandths.
    pub fn get_volume(&self) -> (r: u16)
        ensures
            r == self.volume_of(),
            r <= VOLUME_MAX,
    {
        proof {
            use_type_invariant(self);
        }
        self.volume
    }

    /// Sets the volume, clamped to full scale.
    pub fn set_volume(&mut self, volume: u16)
        ensures
            final(self).volume_of() == if volume > VOLUME_MAX { VOLUME_MAX } else { volume },
    {
        self.volume = if volume > VOLUME_MAX { VOLUME_MAX } else { volume };
    }

    /// The bytes that carry `pcm` to the bus: each sample scaled by the
    /// volume, big-endian.
    pub fn write_frame(&self, pcm: &[i16]) -> (r: Vec<u8>)
        ensures
            r@ == encoded(pcm@, self.volume_of()),
    {
        proof {
            use_type_invariant(self);
        }
        let mut out: Vec<u8> = Vec::new();
        let mut i: usize = 0;
        while i < pcm.len()
            invariant
                i <= pcm@.len(),
                self.volume <= VOLUME_MAX,
                out@.len() == 2 * i,
                forall|k: int| 0 <= k < 2 * i ==> out@[k] == #[trigger] encoded(pcm@, self.volume_of())[k],
            decreases pcm@.len() - i,
        {
            let v = scale_sample(pcm[i], self.volume);
            let b = be_bytes(v);
            out.push(b[0]);
            out.push(b[1]);
            proof {
                let e = encoded(pcm@, self.volume_of());
                assert((2 * i) / 2 == i && (2 * i) % 2 == 0);
                assert((2 * i + 1) / 2 == i && (2 * i + 1) % 2 == 1);
                assert(out@[2 * i] == e[2 * i]);
                assert(out@[2 * i + 1] == e[2 * i + 1]);
            }
            i = i + 1;
        }
        assert(out@ =~= encoded(pcm@, self.volume_of()));
        out
    }

    /// Bytes still to push after one push of `remaining` bytes. A fault, or a
    /// claim of more bytes than were offered, is a bus error and is not retried.
    pub fn write(remaining: usize, pushed: PushOutcome) -> (r: Result<usize, PlayerError>)
        ensures
            r == push_result(remaining as int, pushed),
    {
        match pushed {
            PushOutcome::Queued(n) => if n <= remaining {
                Ok(remaining - n)
            } else {
                Err(PlayerError::HardwareBusError)
            },
            PushOutcome::Fault => Err(PlayerError::HardwareBusError),
        }
    }
}


/// Elapsed time is counted in ticks of 1/705,600,000 s: every MPEG audio
/// sample rate divides this count, so a frame adds a whole number of ticks.
pub const TICKS_PER_SECOND: u64 = 705_600_000;

/// Capacity of the buffer of compressed bytes not yet taken by the decoder.
pub const RESIDUAL_CAPACITY: usize = 256;

/// Bytes read from the track's file per advance.
pub const READ_CHUNK: usize = 128;

/// Static metadata of a track; the engine only refers to it.
#[derive(Debug, PartialEq, Eq)]
pub struct Track {
    pub title: String,
}

/// What the decoder reported of one frame of output.
#[derive(Debug, Clone, Copy, PartialEq, Eq, Structural)]
pub struct FrameInfo {
    /// Samples per channel.
    pub samples_produced: usize,
    pub channels: u8,
    pub sample_rate: u32,
}

/// Number of interleaved samples a frame carries.
pub open spec fn frame_len(f: FrameInfo) -> int {
    f.samples_produced as int * f.channels as int
}

/// Ticks that `samples` samples at `sample_rate` last, rounded down.
pub open spec fn ticks_for(samples: int, sample_rate: int) -> int {
    (samples * TICKS_PER_SECOND) / sample_rate
}

/// Elapsed time after a frame, saturating at the largest count.
pub open spec fn advanced(elapsed: int, f: FrameInfo) -> int {
    let t = elapsed + ticks_for(f.samples_produced as int, f.sample_rate as int);
    if t > u64::MAX {
        u64::MAX as int
    } else {
        t
    }
}

/// A decode step that cannot be accepted: more bytes taken than there were,
/// no progress at all on non-empty input, or a frame with no channels, no
/// sample rate, or more samples than the PCM handed over.
pub open spec fn malformed(consumed: int, frame: Option<FrameInfo>, pending: int, pcm_len: int) -> bool {
    ||| consumed > pending
    ||| (consumed == 0 && frame is None && pending > 0)
    ||| match frame {
        Some(f) => f.channels == 0 || f.sample_rate == 0 || frame_len(f) > pcm_len,
        None => false,
    }
}

/// What playback state of one track the contracts speak of.
pub struct DecoderModel {
    /// Title of the track being decoded.
    pub title: Seq<char>,
    /// Compressed bytes read but not yet taken by the decoder.
    pub residual: Seq<u8>,
    /// The track's visualizer history, oldest first.
    pub history: Seq<i16>,
    /// Elapsed time, in ticks.
    pub elapsed: int,
}

/// The state of the track titled `title` when it has just started.
pub open spec fn started(title: Seq<char>) -> DecoderModel {
    DecoderModel { title, residual: Seq::empty(), history: Seq::empty(), elapsed: 0 }
}

/// The state after one decode step was accepted.
pub open spec fn after_decode(m: DecoderModel, consumed: int, frame: Option<FrameInfo>, pcm: Seq<i16>) -> DecoderModel {
    match frame {
        None => DecoderModel { residual: m.residual.skip(consumed), ..m },
        Some(f) => DecoderModel {
            title: m.title,
            residual: m.residual.skip(consumed),
            history: keep_latest(
                m.history + mono_of(pcm.take(frame_len(f)), f.channels as nat),
                HISTORY_LEN as nat,
            ),
            elapsed: advanced(m.elapsed, f),
        },
    }
}

/// The bytes a decode step sends to the bus.
pub open spec fn frame_bytes(frame: Option<FrameInfo>, pcm: Seq<i16>, volume: int) -> Seq<u8> {
    match frame {
        None => Seq::empty(),
        Some(f) => encoded(pcm.take(frame_len(f)), volume),
    }
}

/// Decode state of the track being played.
pub struct TrackDecoder {
    track: Track,
    residual: Vec<u8>,
    visualizer: Visualizer,
    elapsed: u64,
}

impl View for TrackDecoder {
    type V = DecoderModel;

    closed spec fn view(&self) -> DecoderModel {
        DecoderModel {
            title: self.track.title@,
            residual: self.residual@,
            history: self.visualizer@,
            elapsed: self.elapsed as int,
        }
    }
}

impl TrackDecoder {
    /// Starts decoding `track` from its first byte.
    pub fn new(track: Track) -> (r: TrackDecoder)
        ensures
            r@ == started(track.title@),
    {
        TrackDecoder { track, residual: Vec::new(), visualizer: Visualizer::new(), elapsed: 0 }
    }

    /// The track being decoded.
    pub fn track(&self) -> (r: &Track)
        ensures
            r.title@ == self@.title,
    {
        &self.track
    }

    /// Appends freshly read bytes after the residual ones; fails, changing
    /// nothing, where they would not fit.
    pub fn feed(&mut self, bytes: &[u8]) -> (r: Result<(), PlayerError>)
        requires
            old(self)@.residual.len() <= RESIDUAL_CAPACITY,
        ensures
            old(self)@.residual.len() + bytes@.len() > RESIDUAL_CAPACITY ==> r == Err::<(), PlayerError>(
                PlayerError::ResidualOverflow,
            ) && final(self)@ == old(self)@,
            old(self)@.residual.len() + bytes@.len() <= RESIDUAL_CAPACITY ==> r is Ok && final(self)@
                == (DecoderModel { residual: old(self)@.residual + bytes@, ..old(self)@ }),
    {
        if bytes.len() > RESIDUAL_CAPACITY - self.residual.len() {
            return Err(PlayerError::ResidualOverflow);
        }
        let ghost before = self@;
        let ghost start = self.residual@;
        let mut i: usize = 0;
        while i < bytes.len()
            invariant
                i <= bytes@.len(),
                self.residual@ == start + bytes@.take(i as int),
                self@.title == before.title,
                self@.history == before.history,
                self@.elapsed == before.elapsed,
            decreases bytes@.len() - i,
        {
            self.residual.push(bytes[i]);
            proof {
                assert(start + bytes@.take(i as int + 1) =~= (start + bytes@.take(i as int)).push(bytes@[i as int]));
            }
            i = i + 1;
        }
        assert(bytes@.take(bytes@.len() as int) =~= bytes@);
        Ok(())
    }

    /// The compressed bytes waiting for the decoder.
    pub fn pending(&self) -> (r: &[u8])
        ensures
            r@ == self@.residual,
    {
        self.residual.as_slice()
    }

    /// Elapsed time, in ticks.
    pub fn elapsed(&self) -> (r: u64)
        ensures
            r == self@.elapsed,
    {
        self.elapsed
    }

    /// Takes the outcome of one decode call on the pending bytes: the decoder
    /// took `consumed` of them and, where `frame` is given, wrote that frame's
    /// interleaved samples at the start of `pcm`. The bytes taken leave the
    /// residual buffer; a frame goes to the visualizer and advances the
    /// elapsed time, and its bytes for the bus are returned.
    pub fn next(&mut self, sink: &Sink, consumed: usize, frame: Option<FrameInfo>, pcm: &[i16]) -> (r: Result<
        Vec<u8>,
        PlayerError,
    >)
        ensures
            malformed(consumed as int, frame, old(self)@.residual.len() as int, pcm@.len() as int) ==> r
                == Err::<Vec<u8>, PlayerError>(PlayerError::MalformedAudioStream) && final(self)@ == old(self)@,
            !malformed(consumed as int, frame, old(self)@.residual.len() as int, pcm@.len() as int) ==> r
                is Ok && final(self)@ == after_decode(old(self)@, consumed as int, frame, pcm@) && r->Ok_0@
                == frame_bytes(frame, pcm@, sink.volume_of()),
    {
        let pending = self.residual.len();
        if consumed > pending || (consumed == 0 && frame.is_none() && pending > 0) {
            return Err(PlayerError::MalformedAudioStream);
        }
        if let Some(f) = frame {
            assert(f.samples_produced as u128 * f.channels as u128 <= 0x1_0000_0000_0000_0000u128 * 256)
                by (nonlinear_arith)
                requires f.samples_produced < 0x1_0000_0000_0000_0000u128, f.channels < 256;
            if f.channels == 0 || f.sample_rate == 0 || f.samples_produced as u128 * f.channels as u128
                > pcm.len() as u128 {
                return Err(PlayerError::MalformedAudioStream);
            }
        }
        let mut rest: Vec<u8> = Vec::new();
        let mut i: usize = consumed;
        while i < pending
            invariant
                consumed <= i <= pending,
                pending == self.residual@.len(),
                rest@ == self.residual@.subrange(consumed as int, i as int),
            decreases pending - i,
        {
            rest.push(self.residual[i]);
            proof {
                assert(self.residual@.subrange(consumed as int, i as int + 1)
                    =~= self.residual@.subrange(consumed as int, i as int).push(self.residual@[i as int]));
            }
            i = i + 1;
        }
        self.residual = rest;
        match frame {
            None => Ok(Vec::new()),
            Some(f) => {
                let n: usize = f.samples_produced * (f.channels as usize);
                let out = vstd::slice::slice_subrange(pcm, 0, n);
                assert(out@ =~= pcm@.take(n as int));
                let bytes = sink.write_frame(out);
                self.visualizer.extend_with_chan(out, f.channels as usize);
                let t: u128 = (f.samples_produced as u128 * TICKS_PER_SECOND as u128) / (f.sample_rate as u128)
                    + self.elapsed as u128;
                self.elapsed = if t > u64::MAX as u128 { u64::MAX } else { t as u64 };
                Ok(bytes)
            },
        }
    }
}


/// What `Player::next` found at the start of a tick.
#[derive(Debug, Clone, Copy, PartialEq, Eq, Structural)]
pub enum AdvanceStep {
    /// No track is active; nothing to do.
    Idle,
    /// The track's file had reached its end: the track is dropped.
    Finished,
    /// Read one chunk of the track's file, feed it, and decode it.
    Read,
}

/// What playback state the contracts speak of.
pub struct PlayerModel {
    /// The active track's state, if a track is playing.
    pub track: Option<DecoderModel>,
    /// The sink's volume, in thousandths.
    pub volume: int,
}

/// The state after `play`: the new track's state replaces any other.
pub open spec fn after_play(p: PlayerModel, d: DecoderModel) -> PlayerModel {
    PlayerModel { track: Some(d), ..p }
}

/// Starting a track discards everything of the one before: two players that
/// differ only in what they were playing are equal after the same `play`, so
/// no byte of the earlier track is left to reach the bus.
pub proof fn lemma_play_discards_previous(p: PlayerModel, q: PlayerModel, d: DecoderModel)
    requires
        p.volume == q.volume,
    ensures
        after_play(p, d) == after_play(q, d),
        after_play(p, d).track == Some(d),
{
}

/// One frame of `S` samples per channel at rate `R` adds exactly `S / R`
/// seconds to the elapsed time, where `R` divides the tick rate (as every
/// MPEG audio rate does) and the count does not saturate.
pub proof fn lemma_frame_adds_its_duration(elapsed: int, f: FrameInfo)
    requires
        f.sample_rate > 0,
        (TICKS_PER_SECOND as int) % (f.sample_rate as int) == 0,
        elapsed + ticks_for(f.samples_produced as int, f.sample_rate as int) <= u64::MAX,
    ensures
        (advanced(elapsed, f) - elapsed) * f.sample_rate == f.samples_produced as int * TICKS_PER_SECOND,
        advanced(elapsed, f) >= elapsed,
{
    let s = f.samples_produced as int;
    let r = f.sample_rate as int;
    let tps = TICKS_PER_SECOND as int;
    let k = tps / r;
    assert(k * r == tps) by (nonlinear_arith)
        requires tps % r == 0, r > 0, k == tps / r;
    assert(s * tps == (s * k) * r) by (nonlinear_arith)
        requires k * r == tps;
    assert((s * k * r) / r == s * k) by (nonlinear_arith)
        requires r > 0;
    assert((s * k) * r >= 0) by (nonlinear_arith)
        requires s >= 0, k >= 0, r > 0;
}

/// Elapsed time never decreases while decoding: an accepted decode step
/// leaves it unchanged or moves it forward.
pub proof fn lemma_elapsed_never_decreases(m: DecoderModel, consumed: int, frame: Option<FrameInfo>, pcm: Seq<i16>)
    requires
        0 <= m.elapsed <= u64::MAX,
        !malformed(consumed, frame, m.residual.len() as int, pcm.len() as int),
    ensures
        after_decode(m, consumed, frame, pcm).elapsed >= m.elapsed,
{
    if let Some(f) = frame {
        let s = f.samples_produced as int;
        assert(s * TICKS_PER_SECOND >= 0) by (nonlinear_arith)
            requires s >= 0;
        assert(ticks_for(s, f.sample_rate as int) >= 0) by (nonlinear_arith)
            requires s * TICKS_PER_SECOND >= 0, f.sample_rate > 0;
    }
}

/// Elapsed time after the frames `frames` in turn, starting from `elapsed`.
pub open spec fn elapsed_after(elapsed: int, frames: Seq<FrameInfo>) -> int
    decreases frames.len(),
{
    if frames.len() == 0 {
        elapsed
    } else {
        advanced(elapsed_after(elapsed, frames.drop_last()), frames.last())
    }
}

/// The summed duration of `frames`, in ticks: `S / R` seconds for each.
pub open spec fn duration_of(frames: Seq<FrameInfo>) -> int
    decreases frames.len(),
{
    if frames.len() == 0 {
        0
    } else {
        duration_of(frames.drop_last()) + frames.last().samples_produced as int * (TICKS_PER_SECOND as int
            / frames.last().sample_rate as int)
    }
}

/// Frames with rates that divide the tick rate (every MPEG audio rate does)
/// add exactly the sum of their durations `S / R`, as long as the count does
/// not saturate.
pub proof fn lemma_frames_add_their_durations(elapsed: int, frames: Seq<FrameInfo>)
    requires
        elapsed >= 0,
        forall|j: int|
            0 <= j < frames.len() ==> #[trigger] frames[j].sample_rate > 0 && (TICKS_PER_SECOND as int)
                % (frames[j].sample_rate as int) == 0,
        elapsed + duration_of(frames) <= u64::MAX,
    ensures
        elapsed_after(elapsed, frames) == elapsed + duration_of(frames),
        duration_of(frames) >= 0,
    decreases frames.len(),
{
    if frames.len() > 0 {
        let init = frames.drop_last();
        let f = frames.last();
        assert(f == frames[frames.len() - 1]);
        assert forall|j: int| 0 <= j < init.len() implies #[trigger] init[j].sample_rate > 0 && (
        TICKS_PER_SECOND as int) % (init[j].sample_rate as int) == 0 by {
            assert(init[j] == frames[j]);
        }
        let s = f.samples_produced as int;
        let r = f.sample_rate as int;
        let tps = TICKS_PER_SECOND as int;
        let k = tps / r;
        assert(s * k >= 0) by (nonlinear_arith)
            requires s >= 0, k >= 0;
        lemma_frames_add_their_durations(elapsed, init);
        assert(k * r == tps) by (nonlinear_arith)
            requires tps % r == 0, r > 0, k == tps / r;
        assert((s * tps) / r == s * k) by (nonlinear_arith)
            requires k * r == tps, r > 0;
    }
}

/// Plays at most one track at a time into one sink.
pub struct Player {
    track: Option<TrackDecoder>,
    sink: Sink,
}

impl View for Player {
    type V = PlayerModel;

    closed spec fn view(&self) -> PlayerModel {
        PlayerModel {
            track: match self.track {
                Some(t) => Some(t@),
                None => None,
            },
            volume: self.sink.volume_of(),
        }
    }
}

impl Player {
    /// The residual bytes of the active track are within their capacity.
    pub open spec fn wf(&self) -> bool {
        self@.track matches Some(m) ==> m.residual.len() <= RESIDUAL_CAPACITY
    }

    /// An idle player over `sink`.
    pub fn new(sink: Sink) -> (r: Player)
        ensures
            r.wf(),
            r@ == (PlayerModel { track: None, volume: sink.volume_of() }),
    {
        Player { track: None, sink }
    }

    /// Makes `track` the active track, discarding any other at once.
    pub fn play(&mut self, track: TrackDecoder)
        requires
            old(self).wf(),
            track@.residual.len() <= RESIDUAL_CAPACITY,
        ensures
            final(self).wf(),
            final(self)@ == after_play(old(self)@, track@),
    {
        self.track = Some(track)
    }

    /// Aborts the active track, if any.
    pub fn stop(&mut self)
        requires
            old(self).wf(),
        ensures
            final(self).wf(),
            final(self)@ == (PlayerModel { track: None, ..old(self)@ }),
    {
        self.track = None;
    }

    /// Whether a track is active.
    pub fn is_playing(&self) -> (r: bool)
        ensures
            r == self@.track is Some,
    {
        self.track.is_some()
    }

    /// Elapsed time of the active track, in ticks.
    pub fn elapsed(&self) -> (r: Option<u64>)
        ensures
            r == match self@.track {
                Some(m) => Some(m.elapsed as u64),
                None => None::<u64>,
            },
    {
        match &self.track {
            Some(t) => Some(t.elapsed()),
            None => None,
        }
    }

    /// Current volume, in thousandths.
    pub fn volume(&self) -> (r: u16)
        ensures
            r == self@.volume,
            r <= VOLUME_MAX,
    {
        self.sink.get_volume()
    }

    /// Sets the volume, clamped to full scale.
    pub fn set_volume(&mut self, volume: u16)
        requires
            old(self).wf(),
        ensures
            final(self).wf(),
            final(self)@ == (PlayerModel {
                volume: if volume > VOLUME_MAX { VOLUME_MAX as int } else { volume as int },
                ..old(self)@
            }),
    {
        self.sink.set_volume(volume)
    }

    /// Starts one tick: idle stays idle; a track whose file is at its end
    /// (`eof`) is dropped; otherwise the caller reads one chunk of at most
    /// `READ_CHUNK` bytes and hands it to `feed`.
    pub fn next(&mut self, eof: bool) -> (r: AdvanceStep)
        requires
            old(self).wf(),
        ensures
            final(self).wf(),
            old(self)@.track is None ==> r == AdvanceStep::Idle && final(self)@ == old(self)@,
            old(self)@.track is Some && eof ==> r == AdvanceStep::Finished && final(self)@ == (PlayerModel {
                track: None,
                ..old(self)@
            }),
            old(self)@.track is Some && !eof ==> r == AdvanceStep::Read && final(self)@ == old(self)@,
    {
        if self.track.is_none() {
            AdvanceStep::Idle
        } else if eof {
            self.track = None;
            AdvanceStep::Finished
        } else {
            AdvanceStep::Read
        }
    }

    /// Appends bytes read from the active track's file. A chunk that would
    /// overflow the residual buffer aborts the track. Idle, nothing happens.
    pub fn feed(&mut self, bytes: &[u8]) -> (r: Result<(), PlayerError>)
        requires
            old(self).wf(),
        ensures
            final(self).wf(),
            old(self)@.track is None ==> r is Ok && final(self)@ == old(self)@,
            bytes@.len() == 0 ==> r is Ok && final(self)@ == old(self)@,
            old(self)@.track matches Some(m) ==> if m.residual.len() + bytes@.len() > RESIDUAL_CAPACITY {
                r == Err::<(), PlayerError>(PlayerError::ResidualOverflow) && final(self)@ == (PlayerModel {
                    track: None,
                    ..old(self)@
                })
            } else {
                r is Ok && final(self)@ == (PlayerModel {
                    track: Some(DecoderModel { residual: m.residual + bytes@, ..m }),
                    ..old(self)@
                })
            },
    {
        let r = match &mut self.track {
            Some(t) => t.feed(bytes),
            None => Ok(()),
        };
        if r.is_err() {
            self.track = None;
        }
        proof {
            if bytes@.len() == 0 {
                if let Some(m) = old(self)@.track {
                    assert(m.residual + bytes@ =~= m.residual);
                }
            }
        }
        r
    }

    /// Takes what one read of the active track's file gave: the bytes read,
    /// or `None` where the read failed. A failed read aborts the track with
    /// `FileSystemError`; bytes read are handed to `feed`. Idle, nothing
    /// happens.
    pub fn read(&mut self, read: Option<&[u8]>) -> (r: Result<(), PlayerError>)
        requires
            old(self).wf(),
        ensures
            final(self).wf(),
            old(self)@.track is None ==> r is Ok && final(self)@ == old(self)@,
            old(self)@.track is Some && read is None ==> r == Err::<(), PlayerError>(
                PlayerError::FileSystemError,
            ) && final(self)@ == (PlayerModel { track: None, ..old(self)@ }),
            read matches Some(bytes) ==> (bytes@.len() == 0 ==> r is Ok && final(self)@ == old(self)@),
            old(self)@.track matches Some(m) ==> (read matches Some(bytes) ==> if m.residual.len() + bytes@.len()
                > RESIDUAL_CAPACITY {
                r == Err::<(), PlayerError>(PlayerError::ResidualOverflow) && final(self)@ == (PlayerModel {
                    track: None,
                    ..old(self)@
                })
            } else {
                r is Ok && final(self)@ == (PlayerModel {
                    track: Some(DecoderModel { residual: m.residual + bytes@, ..m }),
                    ..old(self)@
                })
            }),
    {
        match read {
            Some(bytes) => self.feed(bytes),
            None => if self.track.is_some() {
                self.track = None;
                Err(PlayerError::FileSystemError)
            } else {
                Ok(())
            },
        }
    }

    /// Takes the outcome of one push of the `remaining` bytes of a frame to
    /// the bus and returns how many remain, as `Sink::write` decides. A bus
    /// error aborts the track and is not retried.
    pub fn pushed(&mut self, remaining: usize, outcome: PushOutcome) -> (r: Result<usize, PlayerError>)
        requires
            old(self).wf(),
        ensures
            final(self).wf(),
            r == push_result(remaining as int, outcome),
            r is Ok ==> final(self)@ == old(self)@,
            r is Err ==> final(self)@ == (PlayerModel { track: None, ..old(self)@ }),
    {
        let r = Sink::write(remaining, outcome);
        if r.is_err() {
            self.track = None;
        }
        r
    }

    /// The compressed bytes waiting for the decoder; none while idle.
    pub fn pending(&self) -> (r: &[u8])
        ensures
            r@ == match self@.track {
                Some(m) => m.residual,
                None => Seq::<u8>::empty(),
            },
    {
        match &self.track {
            Some(t) => t.pending(),
            None => &[],
        }
    }

    /// Takes the outcome of one decode call on `pending()` (see
    /// `TrackDecoder::next`) and returns the bytes to push to the bus. A
    /// malformed step aborts the track. Idle, nothing happens.
    pub fn decoded(&mut self, consumed: usize, frame: Option<FrameInfo>, pcm: &[i16]) -> (r: Result<
        Vec<u8>,
        PlayerError,
    >)
        requires
            old(self).wf(),
        ensures
            final(self).wf(),
            old(self)@.track is None ==> r is Ok && r->Ok_0@ == Seq::<u8>::empty() && final(self)@ == old(
                self,
            )@,
            old(self)@.track matches Some(m) ==> if malformed(
                consumed as int,
                frame,
                m.residual.len() as int,
                pcm@.len() as int,
            ) {
                r == Err::<Vec<u8>, PlayerError>(PlayerError::MalformedAudioStream) && final(self)@ == (
                PlayerModel { track: None, ..old(self)@ })
            } else {
                r is Ok && r->Ok_0@ == frame_bytes(frame, pcm@, old(self)@.volume) && final(self)@ == (
                PlayerModel { track: Some(after_decode(m, consumed as int, frame, pcm@)), ..old(self)@ })
            },
    {
        let r = match &mut self.track {
            Some(t) => t.next(&self.sink, consumed, frame, pcm),
            None => Ok(Vec::new()),
        };
        if r.is_err() {
            self.track = None;
        }
        r
    }

    /// The active track's visualizer window (the full history, oldest first),
    /// or `None` while idle or while that history is not yet full: the
    /// spectrum of `None` is all zeros.
    pub fn sample_visualizer(&self) -> (r: Option<Vec<i16>>)
        ensures
            r is Some <==> (self@.track matches Some(m) && window_of(m.history) is Some),
            r matches Some(w) ==> self@.track matches Some(m) && window_of(m.history) == Some(w@),
    {
        match &self.track {
            Some(t) => t.visualizer.read(),
            None => Visualizer::new().read(),
        }
    }
}

} // verus!
