use vstd::prelude::*;

verus! {

/// Number of mono samples the visualizer keeps.
pub const HISTORY_LEN: usize = 128;

/// The most recent `n` elements of `s`, oldest first.
pub open spec fn keep_latest(s: Seq<i16>, n: nat) -> Seq<i16> {
    if s.len() <= n {
        s
    } else {
        s.subrange(s.len() - n, s.len() as int)
    }
}

/// Fixed-capacity history of mono samples, oldest overwritten first.
#[verifier::external_body]
pub struct SampleHistory {
    buf: heapless::HistoryBuf<i16, 128>,
}

/// The samples held by a history, oldest first.
pub uninterp spec fn history_of(h: SampleHistory) -> Seq<i16>;

/// Relies on heapless::HistoryBuf::new: a new buffer holds nothing.
#[verifier::external_body]
fn history_new() -> (r: SampleHistory)
    ensures
        history_of(r) == Seq::<i16>::empty(),
{
    SampleHistory { buf: heapless::HistoryBuf::new() }
}

/// Relies on heapless::HistoryBuf::write: appends `v`, overwriting the oldest
/// value once all 128 slots are used; its write index stays below the capacity,
/// so it never panics.
#[verifier::external_body]
fn history_write(h: &mut SampleHistory, v: i16)
    ensures
        history_of(*final(h)) == keep_latest(history_of(*old(h)).push(v), HISTORY_LEN as nat),
    no_unwind
{
    h.buf.write(v)
}

/// Relies on heapless::HistoryBuf::is_full: set once 128 values were written.
#[verifier::external_body]
fn history_is_full(h: &SampleHistory) -> (r: bool)
    ensures
        r == (history_of(*h).len() == HISTORY_LEN),
{
    h.buf.is_full()
}

/// Relies on heapless::HistoryBuf::oldest_ordered: the contents, oldest first.
#[verifier::external_body]
fn history_oldest_first(h: &SampleHistory) -> (r: Vec<i16>)
    ensures
        r@ == history_of(*h),
{
    h.buf.oldest_ordered().copied().collect()
}


/// Sum of the samples of `s`.
pub open spec fn sum_of(s: Seq<i16>) -> int
    decreases s.len(),
{
    if s.len() == 0 {
        0
    } else {
        sum_of(s.drop_last()) + s.last() as int
    }
}

/// Integer division rounding toward zero, as Rust's `/` does.
pub open spec fn div_toward_zero(a: int, d: int) -> int {
    if a >= 0 {
        a / d
    } else {
        -((-a) / d)
    }
}

/// Mean of one channel group, divided by the full channel count.
pub open spec fn group_mean(g: Seq<i16>, channels: nat) -> i16 {
    div_toward_zero(sum_of(g), channels as int) as i16
}

/// Interleaved samples mixed down to mono: each run of `channels` samples
/// (the last one possibly shorter) becomes its mean.
pub open spec fn mono_of(s: Seq<i16>, channels: nat) -> Seq<i16>
    decreases s.len(),
{
    if s.len() == 0 || channels == 0 {
        Seq::empty()
    } else {
        let c = if channels < s.len() { channels as int } else { s.len() as int };
        seq![group_mean(s.take(c), channels)] + mono_of(s.skip(c), channels)
    }
}

/// Number of bins of a spectrum, DC first.
pub const SPECTRUM_BINS: usize = 64;

/// The sample value that stands for an amplitude of 1.
pub const FULL_SCALE: u64 = 32767;

/// Level of a bin at or above the Nyquist frequency, in thousandths.
pub const LEVEL_MAX: u16 = 1000;

/// The window handed to the transform: the whole history once it is full.
pub open spec fn window_of(h: Seq<i16>) -> Option<Seq<i16>> {
    if h.len() == HISTORY_LEN {
        Some(h)
    } else {
        None
    }
}

/// A bin's real part divided by the Nyquist frequency `sample_rate / 2`,
/// clamped to [0, 1], in thousandths (rounded down).
pub open spec fn level_of(re: int, sample_rate: int) -> int {
    let l = (re * 2 * LEVEL_MAX) / (sample_rate * FULL_SCALE);
    if l < 0 {
        0
    } else if l > LEVEL_MAX {
        LEVEL_MAX as int
    } else {
        l
    }
}

/// The spectrum of a transform's real parts, or all zeros where there was
/// no full window to transform.
pub open spec fn spectrum_of(bins: Option<Seq<i64>>, sample_rate: int) -> Seq<u16> {
    match bins {
        None => Seq::new(SPECTRUM_BINS as nat, |i: int| 0u16),
        Some(b) => Seq::new(b.len(), |i: int| level_of(b[i] as int, sample_rate) as u16),
    }
}

/// Before the history is full there is no window and the spectrum is all
/// zeros; once full, the window (and so the spectrum computed from it)
/// depends on the history's contents alone.
pub proof fn lemma_sample_is_pure(a: Visualizer, b: Visualizer, sample_rate: int)
    requires
        sample_rate > 0,
    ensures
        a@.len() < HISTORY_LEN ==> window_of(a@) is None,
        forall|i: int|
            0 <= i < SPECTRUM_BINS ==> #[trigger] spectrum_of(None, sample_rate)[i] == 0,
        spectrum_of(None, sample_rate).len() == SPECTRUM_BINS,
        a@ == b@ ==> window_of(a@) == window_of(b@),
{
}

/// Pushing `a` and then `b` into the ring leaves it as pushing `a + b` at once:
/// whatever the sequence of pushes, the ring holds exactly the latest
/// `min(total pushed, capacity)` samples, in push order.
pub proof fn lemma_history_keeps_latest(a: Seq<i16>, b: Seq<i16>)
    ensures
        keep_latest(keep_latest(a, HISTORY_LEN as nat) + b, HISTORY_LEN as nat)
            == keep_latest(a + b, HISTORY_LEN as nat),
        keep_latest(a + b, HISTORY_LEN as nat).len() == if a.len() + b.len() <= HISTORY_LEN {
            (a.len() + b.len()) as int
        } else {
            HISTORY_LEN as int
        },
        forall|i: int|
            0 <= i < keep_latest(a + b, HISTORY_LEN as nat).len() ==> #[trigger] keep_latest(
                a + b,
                HISTORY_LEN as nat,
            )[i] == (a + b)[(a + b).len() - keep_latest(a + b, HISTORY_LEN as nat).len() + i],
{
    let n = HISTORY_LEN as nat;
    let k = keep_latest(a, n);
    if a.len() > n {
        let lhs = keep_latest(k + b, n);
        let rhs = keep_latest(a + b, n);
        assert(lhs =~= rhs);
    } else {
        assert(k == a);
    }
}

/// The history after pushing each `(samples, channels)` pair of `pushes` in
/// turn, starting from `h`.
pub open spec fn history_after(h: Seq<i16>, pushes: Seq<(Seq<i16>, nat)>) -> Seq<i16>
    decreases pushes.len(),
{
    if pushes.len() == 0 {
        h
    } else {
        let (x, c) = pushes.last();
        keep_latest(history_after(h, pushes.drop_last()) + mono_of(x, c), HISTORY_LEN as nat)
    }
}

/// All mono samples of `pushes`, in push order.
pub open spec fn mono_pushed(pushes: Seq<(Seq<i16>, nat)>) -> Seq<i16>
    decreases pushes.len(),
{
    if pushes.len() == 0 {
        Seq::empty()
    } else {
        let (x, c) = pushes.last();
        mono_pushed(pushes.drop_last()) + mono_of(x, c)
    }
}

/// After any sequence of pushes into an empty history, it holds exactly the
/// latest `min(total pushed, capacity)` mono samples, in push order.
pub proof fn lemma_pushes_keep_latest(pushes: Seq<(Seq<i16>, nat)>)
    ensures
        history_after(Seq::empty(), pushes) == keep_latest(mono_pushed(pushes), HISTORY_LEN as nat),
        history_after(Seq::empty(), pushes).len() == if mono_pushed(pushes).len() <= HISTORY_LEN {
            mono_pushed(pushes).len() as int
        } else {
            HISTORY_LEN as int
        },
        forall|i: int|
            0 <= i < history_after(Seq::empty(), pushes).len() ==> #[trigger] history_after(
                Seq::empty(),
                pushes,
            )[i] == mono_pushed(pushes)[mono_pushed(pushes).len() - history_after(Seq::empty(), pushes).len()
                + i],
    decreases pushes.len(),
{
    if pushes.len() == 0 {
        assert(keep_latest(Seq::<i16>::empty(), HISTORY_LEN as nat) == Seq::<i16>::empty());
    } else {
        let init = pushes.drop_last();
        let (x, c) = pushes.last();
        lemma_pushes_keep_latest(init);
        lemma_history_keeps_latest(mono_pushed(init), mono_of(x, c));
    }
    lemma_history_keeps_latest(mono_pushed(pushes), Seq::empty());
    assert(mono_pushed(pushes) + Seq::<i16>::empty() =~= mono_pushed(pushes));
}

/// Rolling mono history of the live PCM stream, sampled for a spectrum.
pub struct Visualizer {
    buf: SampleHistory,
}

impl View for Visualizer {
    type V = Seq<i16>;

    closed spec fn view(&self) -> Seq<i16> {
        history_of(self.buf)
    }
}

impl Visualizer {
    /// The history never holds more than its capacity.
    #[verifier::type_invariant]
    spec fn within_capacity(&self) -> bool {
        history_of(self.buf).len() <= HISTORY_LEN
    }

    /// An empty visualizer.
    pub fn new() -> (r: Visualizer)
        ensures
            r@ == Seq::<i16>::empty(),
    {
        Visualizer { buf: history_new() }
    }

    /// Whether the history holds `HISTORY_LEN` samples.
    pub fn is_full(&self) -> (r: bool)
        ensures
            r == (self@.len() == HISTORY_LEN),
            self@.len() <= HISTORY_LEN,
    {
        proof {
            use_type_invariant(self);
        }
        history_is_full(&self.buf)
    }

    /// The full history, oldest first, or `None` while it is not yet full.
    pub fn read(&self) -> (r: Option<Vec<i16>>)
        ensures
            r is Some <==> window_of(self@) is Some,
            r matches Some(w) ==> window_of(self@) == Some(w@),
            self@.len() <= HISTORY_LEN,
    {
        proof {
            use_type_invariant(self);
        }
        if history_is_full(&self.buf) {
            Some(history_oldest_first(&self.buf))
        } else {
            None
        }
    }

    /// Mixes interleaved `channels`-channel samples down to mono (the mean of
    /// each group, rounded toward zero) and appends them to the history,
    /// evicting the oldest beyond `HISTORY_LEN`.
    pub fn extend_with_chan(&mut self, other: &[i16], channels: usize)
        requires
            channels >= 1,
        ensures
            final(self)@ == keep_latest(old(self)@ + mono_of(other@, channels as nat), HISTORY_LEN as nat),
            final(self)@.len() <= HISTORY_LEN,
            other@.len() == 0 ==> final(self)@ == old(self)@,
    {
        let n = other.len();
        let ghost s = other@;
        let ghost target = keep_latest(self@ + mono_of(s, channels as nat), HISTORY_LEN as nat);
        let mut start: usize = 0;
        proof {
            use_type_invariant(&*self);
            assert(s.skip(0) == s);
        }
        while start < n
            invariant
                start <= n,
                n == s.len(),
                s == other@,
                channels >= 1,
                self@.len() <= HISTORY_LEN,
                keep_latest(self@ + mono_of(s.skip(start as int), channels as nat), HISTORY_LEN as nat)
                    == target,
            decreases n - start,
        {
            let c: usize = if channels < n - start { channels } else { n - start };
            let end: usize = start + c;
            let mut acc: i128 = 0;
            let mut j: usize = start;
            while j < end
                invariant
                    start <= j <= end,
                    end <= n,
                    n == s.len(),
                    s == other@,
                    acc == sum_of(s.subrange(start as int, j as int)),
                    -32768 * (j - start) <= acc <= 32767 * (j - start),
                decreases end - j,
            {
                proof {
                    let g = s.subrange(start as int, j as int + 1);
                    assert(g.drop_last() =~= s.subrange(start as int, j as int));
                }
                acc = acc + other[j] as i128;
                j = j + 1;
            }
            let mag: u128 = if acc >= 0 { acc as u128 } else { (-acc) as u128 };
            let q: u128 = mag / (channels as u128);
            proof {
                lemma_mean_in_range(acc as int, c as int, channels as int);
            }
            let mean: i16 = if acc >= 0 { q as i16 } else { -(q as i32) as i16 };
            let ghost before = self@;
            let ghost rest = s.skip(start as int);
            proof {
                assert(s.subrange(start as int, end as int) == rest.take(c as int));
                assert(rest.skip(c as int) =~= s.skip(end as int));
                assert(mean == group_mean(rest.take(c as int), channels as nat));
                assert(mono_of(rest, channels as nat) == seq![mean] + mono_of(s.skip(end as int), channels as nat));
                lemma_history_keeps_latest(before.push(mean), mono_of(s.skip(end as int), channels as nat));
                assert(before + (seq![mean] + mono_of(s.skip(end as int), channels as nat))
                    =~= before.push(mean) + mono_of(s.skip(end as int), channels as nat));
            }
            history_write(&mut self.buf, mean);
            start = end;
        }
        proof {
            assert(s.skip(n as int) =~= Seq::<i16>::empty());
            assert(self@ + Seq::<i16>::empty() =~= self@);
        }
    }
}

impl Default for Visualizer {
    fn default() -> (r: Visualizer)
        ensures
            r@ == Seq::<i16>::empty(),
    {
        Visualizer::new()
    }
}

/// Level of one bin, as `level_of` states it.
pub fn level(re: i64, sample_rate: u32) -> (r: u16)
    requires
        sample_rate > 0,
    ensures
        r == level_of(re as int, sample_rate as int),
{
    if re <= 0 {
        proof {
            assert((re as int * 2 * LEVEL_MAX) / (sample_rate as int * FULL_SCALE) <= 0) by (nonlinear_arith)
                requires re <= 0, sample_rate > 0;
        }
        0
    } else {
        assert(sample_rate as u128 * FULL_SCALE as u128 <= 0x1_0000_0000u128 * 32767
            && sample_rate as u128 * FULL_SCALE as u128 > 0) by (nonlinear_arith)
            requires sample_rate < 0x1_0000_0000u128, sample_rate > 0;
        let nyquist_scale: u128 = sample_rate as u128 * FULL_SCALE as u128;
        let l: u128 = (re as u128 * 2 * (LEVEL_MAX as u128)) / nyquist_scale;
        if l > LEVEL_MAX as u128 {
            LEVEL_MAX
        } else {
            l as u16
        }
    }
}

/// Maps the real parts of a transform of the window to levels normalised by
/// the Nyquist frequency, in ascending bin order; with no window the
/// spectrum is all zeros.
pub fn spectrum(bins: Option<&Vec<i64>>, sample_rate: u32) -> (r: Vec<u16>)
    requires
        sample_rate > 0,
    ensures
        r@ == spectrum_of(
            match bins {
                Some(b) => Some(b@),
                None => None,
            },
            sample_rate as int,
        ),
{
    let mut out: Vec<u16> = Vec::new();
    match bins {
        None => {
            let mut i: usize = 0;
            while i < SPECTRUM_BINS
                invariant
                    i <= SPECTRUM_BINS,
                    out@.len() == i,
                    forall|k: int| 0 <= k < i ==> out@[k] == 0u16,
                decreases SPECTRUM_BINS - i,
            {
                out.push(0);
                i = i + 1;
            }
            assert(out@ =~= spectrum_of(None, sample_rate as int));
        },
        Some(b) => {
            let mut i: usize = 0;
            while i < b.len()
                invariant
                    i <= b@.len(),
                    sample_rate > 0,
                    out@.len() == i,
                    forall|k: int| 0 <= k < i ==> out@[k] == level_of(b@[k] as int, sample_rate as int) as u16,
                decreases b@.len() - i,
            {
                let l = level(b[i], sample_rate);
                out.push(l);
                i = i + 1;
            }
            assert(out@ =~= spectrum_of(Some(b@), sample_rate as int));
        },
    }
    out
}

proof fn lemma_mean_in_range(acc: int, c: int, d: int)
    requires
        1 <= c <= d,
        -32768 * c <= acc <= 32767 * c,
    ensures
        acc >= 0 ==> acc / d <= 32767,
        acc < 0 ==> (-acc) / d <= 32768,
{
    if acc >= 0 {
        assert(acc <= 32767 * d) by (nonlinear_arith)
            requires acc <= 32767 * c, c <= d;
        assert(acc / d <= 32767) by (nonlinear_arith)
            requires acc >= 0, acc <= 32767 * d, d >= 1;
    } else {
        assert(-acc <= 32768 * d) by (nonlinear_arith)
            requires -acc <= 32768 * c, c <= d;
        assert((-acc) / d <= 32768) by (nonlinear_arith)
            requires -acc >= 0, -acc <= 32768 * d, d >= 1;
    }
}

} // verus!
