//! A per-device delay line: samples go in at the back, frames come out at the
//! front once more than the delay is queued, and silence comes out before.
//!
//! A sample is carried as the bit pattern of an IEEE-754 binary32 value (what
//! `f32::to_bits` gives); the buffer never computes on samples, and silence is
//! `+0.0`, whose pattern is `0`.
use std::collections::VecDeque;
use vstd::prelude::*;

verus! {

broadcast use vstd::std_specs::vecdeque::group_vec_dequeue_axioms;

/// The bit pattern of a silent sample (`+0.0`).
pub const SILENCE: u32 = 0;

/// `a / d` rounded to the nearest integer, halves to the even one.
pub open spec fn round_half_even(a: nat, d: nat) -> nat {
    let q = a / d;
    let r = a % d;
    if 2 * r > d {
        q + 1
    } else if 2 * r < d {
        q
    } else if q % 2 == 0 {
        q
    } else {
        q + 1
    }
}

/// `2^53`: below it every integer is a binary64 value.
pub const F64_INTEGER_SPAN: u128 = 0x20_0000_0000_0000;

/// The spacing of the binary64 values around the integer `p`, found from the
/// spacing `unit` tried at step `k`: the least power of two `unit` (at most
/// `2^11`) with `p < 2^53 * unit`.
pub open spec fn f64_spacing_from(p: nat, unit: nat, k: nat) -> nat
    decreases 11 - k,
{
    if k >= 11 || p < F64_INTEGER_SPAN * unit {
        unit
    } else {
        f64_spacing_from(p, 2 * unit, k + 1)
    }
}

/// The binary64 value nearest the integer `p` (below `2^64`), ties to even:
/// what `p as f64` gives.
pub open spec fn nearest_f64(p: nat) -> nat {
    let unit = f64_spacing_from(p, 1, 0);
    round_half_even(p, unit) * unit
}

/// `2^52 * 1000`: a thousandth of a value at least this has a binary64
/// exponent of at least 52.
pub const THOUSANDTH_FLOOR: u128 = 4_503_599_627_370_496_000;

/// `2^53 * 1000`.
pub const THOUSANDTH_SPAN: u128 = 9_007_199_254_740_992_000;

/// `2^54 * 1000`.
pub const THOUSANDTH_TOP: u128 = 18_014_398_509_481_984_000;

/// The power of two `x` (with its exponent `s`, at most 62) that brings
/// `v * x` to at least `2^52 * 1000`, found from `x` tried at step `s`.
pub open spec fn thousandth_scale_from(v: nat, x: nat, s: nat) -> (nat, nat)
    decreases 62 - s,
{
    if s >= 62 || v * x >= THOUSANDTH_FLOOR {
        (x, s)
    } else {
        thousandth_scale_from(v, 2 * x, s + 1)
    }
}

/// `(v as f64 / 1000.0).round()` for a binary64 integer `v` below `2^65`:
/// the quotient rounded to 53 significant bits, halves to even, then to the
/// nearest integer, halves away from zero.
pub open spec fn rounded_thousandth(v: nat) -> nat {
    if v == 0 {
        0
    } else if v >= THOUSANDTH_TOP {
        4 * round_half_even(v, 4000)
    } else if v >= THOUSANDTH_SPAN {
        2 * round_half_even(v, 2000)
    } else {
        let (x, s) = thousandth_scale_from(v, 1, 0);
        let m = round_half_even(v * x, 1000);
        if s == 0 {
            m
        } else {
            (m + x / 2) / x
        }
    }
}

/// The number of frames in `delay_ms` milliseconds at `sample_rate` frames per
/// second as the binary64 computation
/// `(delay_ms as f64 * sample_rate as f64 / 1000.0).round()` gives it.
pub open spec fn delay_frames(delay_ms: u32, sample_rate: u32) -> int {
    rounded_thousandth(nearest_f64((delay_ms * sample_rate) as nat)) as int
}

/// The delay in frames converted to a `usize` as `as` does: saturating.
pub open spec fn delay_frames_usize(delay_ms: u32, sample_rate: u32) -> int {
    if delay_frames(delay_ms, sample_rate) > usize::MAX {
        usize::MAX as int
    } else {
        delay_frames(delay_ms, sample_rate)
    }
}

/// The delay in samples for `channels` interleaved channels: the delay in
/// frames times the channels, and at least one frame.
pub open spec fn delay_samples_for(delay_ms: u32, sample_rate: u32, channels: usize) -> int {
    let d = delay_frames_usize(delay_ms, sample_rate) * channels;
    if d < channels {
        channels as int
    } else {
        d
    }
}

/// Whether the delay in samples fits in a `usize`.
pub open spec fn delay_fits(delay_ms: u32, sample_rate: u32, channels: usize) -> bool {
    delay_frames_usize(delay_ms, sample_rate) * channels <= usize::MAX
}

/// A frame of silence for `channels` channels.
pub open spec fn silent_frame(channels: nat) -> Seq<u32> {
    Seq::new(channels, |j: int| SILENCE)
}

/// What one read does to the queue `q` of a buffer with `delay` and
/// `channels`: the frame it returns and the queue it leaves.  Past the delay
/// it takes the `channels` oldest samples (silence for those missing);
/// within the delay it returns silence and takes nothing.
pub open spec fn read_frame(q: Seq<u32>, delay: nat, channels: nat) -> (Seq<u32>, Seq<u32>) {
    if q.len() > delay {
        let taken = if q.len() < channels {
            q.len()
        } else {
            channels
        };
        (
            Seq::new(channels, |j: int| if j < q.len() { q[j] } else { SILENCE }),
            q.skip(taken as int),
        )
    } else {
        (silent_frame(channels), q)
    }
}

/// The frames that `count` reads return one after the other, joined, and the
/// queue they leave.
pub open spec fn read_frames(q: Seq<u32>, delay: nat, channels: nat, count: nat) -> (
    Seq<u32>,
    Seq<u32>,
)
    decreases count,
{
    if count == 0 {
        (seq![], q)
    } else {
        let first = read_frame(q, delay, channels);
        let rest = read_frames(first.1, delay, channels, (count - 1) as nat);
        (first.0 + rest.0, rest.1)
    }
}

/// The model `d` with its delay set to `delay_ms` milliseconds at `sample_rate`.
pub open spec fn with_delay_ms(d: DelayModel, delay_ms: u32, sample_rate: u32) -> DelayModel {
    DelayModel { delay: delay_samples_for(delay_ms, sample_rate, d.channels as usize) as nat, ..d }
}

/// The model `d` with `data` queued behind what it holds.
pub open spec fn with_pushed(d: DelayModel, data: Seq<u32>) -> DelayModel {
    DelayModel { queue: d.queue + data, ..d }
}

/// The model of a [`DelayBuffer`]: its queued samples, oldest first, its delay
/// in samples, and its number of channels.
pub struct DelayModel {
    pub queue: Seq<u32>,
    pub delay: nat,
    pub channels: nat,
}

/// Delay compensation for one output device.
pub struct DelayBuffer {
    buffer: VecDeque<u32>,
    delay_samples: usize,
    channels: usize,
}

impl View for DelayBuffer {
    type V = DelayModel;

    closed spec fn view(&self) -> DelayModel {
        DelayModel {
            queue: self.buffer@,
            delay: self.delay_samples as nat,
            channels: self.channels as nat,
        }
    }
}

/// Computes `round_half_even(a, d)`.
fn round_half_even_exec(a: u128, d: u128) -> (r: u128)
    requires
        d > 0,
        a < u128::MAX,
    ensures
        r == round_half_even(a as nat, d as nat),
{
    let q = a / d;
    let r = a % d;
    let up = if r > d - r {
        true
    } else if r < d - r {
        false
    } else {
        q % 2 != 0
    };
    proof {
        assert(q * d + r == a) by (nonlinear_arith)
            requires
                q == a / d,
                r == a % d,
                d > 0,
        ;
        assert(q <= a) by (nonlinear_arith)
            requires
                q == a / d,
                d > 0,
        ;
    }
    if up {
        q + 1
    } else {
        q
    }
}

/// Computes `delay_frames(delay_ms, sample_rate)`.
fn delay_frames_exec(delay_ms: u32, sample_rate: u32) -> (r: u128)
    ensures
        r == delay_frames(delay_ms, sample_rate),
{
    assert(delay_ms as int * sample_rate as int <= 0xFFFF_FFFF_FFFF_FFFF) by (nonlinear_arith)
        requires
            delay_ms <= u32::MAX,
            sample_rate <= u32::MAX,
    ;
    let p: u128 = delay_ms as u128 * sample_rate as u128;
    let ghost pn = (delay_ms * sample_rate) as nat;
    assert(p == pn);
    let mut unit: u128 = 1;
    let mut k: u32 = 0;
    while k < 11 && p >= F64_INTEGER_SPAN * unit
        invariant
            k <= 11,
            1 <= unit <= 4096,
            p == pn,
            p <= 0xFFFF_FFFF_FFFF_FFFF,
            f64_spacing_from(pn, unit as nat, k as nat) == f64_spacing_from(pn, 1, 0),
        decreases 11 - k,
    {
        unit = 2 * unit;
        k = k + 1;
    }
    let ghost unit_n = unit as nat;
    assert(unit_n == f64_spacing_from(pn, 1, 0));
    let rounded = round_half_even_exec(p, unit);
    proof {
        assert(round_half_even(pn, unit_n) <= pn / unit_n + 1);
        assert((pn / unit_n) * unit_n <= pn) by (nonlinear_arith)
            requires
                unit_n > 0,
        ;
        let q = pn / unit_n;
        assert(rounded * unit_n <= q * unit_n + unit_n) by (nonlinear_arith)
            requires
                rounded <= q + 1,
                unit_n > 0,
        ;
    }
    let v: u128 = rounded * unit;
    let ghost vn = v as nat;
    assert(vn == nearest_f64(pn));
    if v == 0 {
        return 0;
    }
    if v >= THOUSANDTH_TOP {
        return 4 * round_half_even_exec(v, 4000);
    }
    if v >= THOUSANDTH_SPAN {
        return 2 * round_half_even_exec(v, 2000);
    }
    let mut x: u128 = 1;
    let mut s: u32 = 0;
    while s < 62 && v * x < THOUSANDTH_FLOOR
        invariant
            s <= 62,
            1 <= x <= 2 * THOUSANDTH_FLOOR,
            1 <= v < THOUSANDTH_SPAN,
            v * x <= 2 * THOUSANDTH_FLOOR,
            v == vn,
            thousandth_scale_from(vn, x as nat, s as nat) == thousandth_scale_from(vn, 1, 0),
        decreases 62 - s,
    {
        assert(x < THOUSANDTH_FLOOR) by (nonlinear_arith)
            requires
                v * x < THOUSANDTH_FLOOR,
                v >= 1,
        ;
        assert(v * (2 * x) == 2 * (v * x)) by (nonlinear_arith);
        x = 2 * x;
        s = s + 1;
    }
    assert(v * x < 0xFFFF_FFFF_FFFF_FFFF_FFFF_FFFF_FFFF_FFFF) by (nonlinear_arith)
        requires
            v < THOUSANDTH_SPAN,
            x <= 2 * THOUSANDTH_FLOOR,
    ;
    let m = round_half_even_exec(v * x, 1000);
    if s == 0 {
        m
    } else {
        assert(m <= v * x / 1000 + 1);
        assert(v * x / 1000 + 1 + x / 2 < u128::MAX) by (nonlinear_arith)
            requires
                v < THOUSANDTH_SPAN,
                x <= 2 * THOUSANDTH_FLOOR,
        ;
        (m + x / 2) / x
    }
}

/// The delay in frames converted to a `usize`, saturating.
fn delay_frames_usize_exec(delay_ms: u32, sample_rate: u32) -> (r: usize)
    ensures
        r == delay_frames_usize(delay_ms, sample_rate),
{
    let frames = delay_frames_exec(delay_ms, sample_rate);
    if frames > usize::MAX as u128 {
        usize::MAX
    } else {
        frames as usize
    }
}

/// The delay in samples, computed without overflow.
fn delay_samples_exec(delay_ms: u32, sample_rate: u32, channels: usize) -> (r: usize)
    requires
        delay_fits(delay_ms, sample_rate, channels),
    ensures
        r == delay_samples_for(delay_ms, sample_rate, channels),
{
    let frames = delay_frames_usize_exec(delay_ms, sample_rate);
    let samples: usize = frames * channels;
    if samples < channels {
        channels
    } else {
        samples
    }
}

/// Whether the delay in samples for `delay_ms` at `sample_rate` with
/// `channels` channels fits in a `usize`.
pub fn delay_fits_exec(delay_ms: u32, sample_rate: u32, channels: usize) -> (r: bool)
    ensures
        r == delay_fits(delay_ms, sample_rate, channels),
{
    let f = delay_frames_usize_exec(delay_ms, sample_rate);
    if channels == 0 {
        assert(f * channels == 0) by (nonlinear_arith)
            requires
                channels == 0,
        ;
        return true;
    }
    let fits = f <= usize::MAX / channels;
    proof {
        if fits {
            assert(f * channels <= usize::MAX) by (nonlinear_arith)
                requires
                    f <= usize::MAX / channels,
                    channels >= 1,
            ;
        } else {
            assert(f * channels > usize::MAX) by (nonlinear_arith)
                requires
                    f > usize::MAX / channels,
                    channels >= 1,
            ;
        }
    }
    fits
}

impl DelayBuffer {
    /// A buffer for `channels` channels whose delay is `delay_ms` milliseconds
    /// at `sample_rate`, holding nothing yet.
    pub fn new(delay_ms: u32, sample_rate: u32, channels: usize) -> (r: Self)
        requires
            delay_fits(delay_ms, sample_rate, channels),
        ensures
            r@.queue == Seq::<u32>::empty(),
            r@.delay == delay_samples_for(delay_ms, sample_rate, channels),
            r@.channels == channels,
    {
        let delay_samples = delay_samples_exec(delay_ms, sample_rate, channels);
        DelayBuffer { buffer: VecDeque::new(), delay_samples, channels }
    }

    /// Queues `data` behind what is held.
    pub fn push_slice(&mut self, data: &[u32])
        requires
            old(self)@.queue.len() + data@.len() <= usize::MAX,
        ensures
            final(self)@.queue == old(self)@.queue + data@,
            final(self)@.delay == old(self)@.delay,
            final(self)@.channels == old(self)@.channels,
    {
        let mut i: usize = 0;
        while i < data.len()
            invariant
                i <= data@.len(),
                self.buffer@ == old(self).buffer@ + data@.take(i as int),
                self.delay_samples == old(self).delay_samples,
                self.channels == old(self).channels,
            decreases data@.len() - i,
        {
            self.buffer.push_back(data[i]);
            assert(data@.take(i + 1) =~= data@.take(i as int).push(data@[i as int]));
            i = i + 1;
        }
        assert(data@.take(data@.len() as int) =~= data@);
    }

    /// Reads one frame: past the delay the oldest samples, else silence.
    pub fn pop_or_silent(&mut self) -> (frame: Vec<u32>)
        ensures
            (frame@, final(self)@.queue) == read_frame(
                old(self)@.queue,
                old(self)@.delay,
                old(self)@.channels,
            ),
            final(self)@.delay == old(self)@.delay,
            final(self)@.channels == old(self)@.channels,
    {
        let ghost q = self.buffer@;
        let mut frame: Vec<u32> = Vec::new();
        if self.buffer.len() > self.delay_samples {
            let mut j: usize = 0;
            while j < self.channels
                invariant
                    j <= self.channels,
                    self.channels == old(self).channels,
                    self.delay_samples == old(self).delay_samples,
                    q == old(self).buffer@,
                    q.len() > self.delay_samples,
                    frame@.len() == j,
                    forall|k: int| 0 <= k < j ==> frame@[k] == if k < q.len() {
                        q[k]
                    } else {
                        SILENCE
                    },
                    self.buffer@ == q.skip(if j < q.len() {
                        j as int
                    } else {
                        q.len() as int
                    }),
                decreases self.channels - j,
            {
                let s = match self.buffer.pop_front() {
                    Some(x) => x,
                    None => SILENCE,
                };
                frame.push(s);
                proof {
                    if j < q.len() {
                        assert(q.skip(j as int)[0] == q[j as int]);
                        assert(q.skip(j as int).subrange(1, q.len() - j) =~= q.skip(j + 1));
                    }
                }
                j = j + 1;
            }
            assert(frame@ =~= read_frame(q, self.delay_samples as nat, self.channels as nat).0);
        } else {
            let mut j: usize = 0;
            while j < self.channels
                invariant
                    j <= self.channels,
                    self.channels == old(self).channels,
                    self.delay_samples == old(self).delay_samples,
                    self.buffer@ == old(self).buffer@,
                    frame@ == Seq::new(j as nat, |k: int| SILENCE),
                decreases self.channels - j,
            {
                frame.push(SILENCE);
                assert(frame@ =~= Seq::new((j + 1) as nat, |k: int| SILENCE));
                j = j + 1;
            }
        }
        frame
    }

    /// Reads `count` frames one after the other and gives them joined.
    pub fn pop_frames(&mut self, count: usize) -> (samples: Vec<u32>)
        ensures
            (samples@, final(self)@.queue) == read_frames(
                old(self)@.queue,
                old(self)@.delay,
                old(self)@.channels,
                count as nat,
            ),
            final(self)@.delay == old(self)@.delay,
            final(self)@.channels == old(self)@.channels,
    {
        let mut out: Vec<u32> = Vec::new();
        let mut k: usize = 0;
        while k < count
            invariant
                k <= count,
                self@.delay == old(self)@.delay,
                self@.channels == old(self)@.channels,
                read_frames(old(self)@.queue, old(self)@.delay, old(self)@.channels, count as nat)
                    == (
                    out@ + read_frames(
                        self@.queue,
                        self@.delay,
                        self@.channels,
                        (count - k) as nat,
                    ).0,
                    read_frames(self@.queue, self@.delay, self@.channels, (count - k) as nat).1,
                ),
            decreases count - k,
        {
            let ghost q = self@.queue;
            let frame = self.pop_or_silent();
            let ghost rest = read_frames(self@.queue, self@.delay, self@.channels, (count - k - 1) as nat);
            assert(read_frames(q, self@.delay, self@.channels, (count - k) as nat) == (
                frame@ + rest.0,
                rest.1,
            ));
            let ghost before = out@;
            let mut j: usize = 0;
            while j < frame.len()
                invariant
                    j <= frame@.len(),
                    out@ == before + frame@.take(j as int),
                decreases frame@.len() - j,
            {
                out.push(frame[j]);
                assert(frame@.take(j + 1) =~= frame@.take(j as int).push(frame@[j as int]));
                j = j + 1;
            }
            assert(frame@.take(frame@.len() as int) =~= frame@);
            assert(before + (frame@ + rest.0) =~= out@ + rest.0);
            k = k + 1;
        }
        assert(read_frames(self@.queue, self@.delay, self@.channels, 0) == (
            Seq::<u32>::empty(),
            self@.queue,
        ));
        assert(out@ + Seq::<u32>::empty() =~= out@);
        out
    }

    /// Sets the delay to `delay_ms` milliseconds at `sample_rate`, keeping
    /// what is queued.
    pub fn set_delay(&mut self, delay_ms: u32, sample_rate: u32)
        requires
            delay_fits(delay_ms, sample_rate, old(self)@.channels as usize),
        ensures
            final(self)@.queue == old(self)@.queue,
            final(self)@.delay == delay_samples_for(delay_ms, sample_rate, old(self)@.channels as usize),
            final(self)@.channels == old(self)@.channels,
    {
        self.delay_samples = delay_samples_exec(delay_ms, sample_rate, self.channels);
    }

    /// Drops everything queued.
    pub fn clear(&mut self)
        ensures
            final(self)@.queue == Seq::<u32>::empty(),
            final(self)@.delay == old(self)@.delay,
            final(self)@.channels == old(self)@.channels,
    {
        self.buffer.clear();
    }

    /// The number of samples queued.
    pub fn len(&self) -> (r: usize)
        ensures
            r == self@.queue.len(),
    {
        self.buffer.len()
    }

    /// The delay in samples.
    pub fn delay_samples(&self) -> (r: usize)
        ensures
            r == self@.delay,
    {
        self.delay_samples
    }

    /// The number of channels of a frame.
    pub fn channels(&self) -> (r: usize)
        ensures
            r == self@.channels,
    {
        self.channels
    }
}

/// The buffer delays by exactly its delay: when `delay + m * channels` samples
/// `s` are queued, `m` reads return the first `m * channels` samples in the
/// order they were pushed, the last `delay` samples stay queued, and the next
/// read returns silence.
pub proof fn lemma_delay_is_exact(s: Seq<u32>, delay: nat, channels: nat, m: nat)
    requires
        channels > 0,
        s.len() == delay + m * channels,
    ensures
        read_frames(s, delay, channels, m) == (
            s.take((m * channels) as int),
            s.skip((m * channels) as int),
        ),
        read_frame(s.skip((m * channels) as int), delay, channels) == (
            silent_frame(channels),
            s.skip((m * channels) as int),
        ),
    decreases m,
{
    if m == 0 {
        assert(m * channels == 0) by (nonlinear_arith)
            requires
                m == 0,
        ;
        assert(s.take(0) =~= seq![]);
        assert(s.skip(0) =~= s);
    } else {
        let k = (m - 1) as nat;
        assert(m * channels == channels + k * channels) by (nonlinear_arith)
            requires
                k == m - 1,
        ;
        assert(k * channels >= 0) by (nonlinear_arith)
            requires
                channels > 0,
        ;
        let first = read_frame(s, delay, channels);
        assert(first.0 =~= s.take(channels as int));
        assert(first.1 == s.skip(channels as int));
        let t = s.skip(channels as int);
        lemma_delay_is_exact(t, delay, channels, k);
        assert(t.take((k * channels) as int) =~= s.subrange(
            channels as int,
            (m * channels) as int,
        ));
        assert(s.take(channels as int) + s.subrange(channels as int, (m * channels) as int)
            =~= s.take((m * channels) as int));
        assert(t.skip((k * channels) as int) =~= s.skip((m * channels) as int));
        assert(read_frames(s, delay, channels, m) == (
            first.0 + read_frames(t, delay, channels, k).0,
            read_frames(t, delay, channels, k).1,
        ));
    }
}

/// A read never plays samples before the delay has built up: from a queue
/// that holds no more samples than the delay, it returns a silent frame and
/// takes nothing.  Past the delay it returns the oldest samples in order and
/// takes them.
pub proof fn lemma_silent_within_delay(q: Seq<u32>, delay: nat, channels: nat)
    ensures
        q.len() <= delay ==> read_frame(q, delay, channels) == (silent_frame(channels), q),
        q.len() <= delay ==> forall|j: int|
            0 <= j < channels ==> #[trigger] read_frame(q, delay, channels).0[j] == SILENCE,
        q.len() > delay && q.len() >= channels ==> read_frame(q, delay, channels).0 == q.take(
            channels as int,
        ) && read_frame(q, delay, channels).1 == q.skip(channels as int),
{
    if q.len() > delay && q.len() >= channels {
        assert(read_frame(q, delay, channels).0 =~= q.take(channels as int));
    }
}

} // verus!
