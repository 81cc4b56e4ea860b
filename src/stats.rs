//! Aggregate measures over one channel or one frame of a buffer of integer
//! samples.

use vstd::prelude::*;
use crate::buffer::AudioBuffer;

verus! {

/// An integer sample type whose values fit in 32 bits.
pub trait IntSample: Copy {
    /// The value of the sample.
    spec fn spec_value(self) -> int;

    /// The value of the sample, widened.
    fn to_i64(self) -> (r: i64)
        ensures
            r == self.spec_value(),
            -0x8000_0000 <= r < 0x8000_0000,
    ;
}

impl IntSample for i8 {
    open spec fn spec_value(self) -> int {
        self as int
    }

    fn to_i64(self) -> i64 {
        self as i64
    }
}

impl IntSample for i16 {
    open spec fn spec_value(self) -> int {
        self as int
    }

    fn to_i64(self) -> i64 {
        self as i64
    }
}

impl IntSample for i32 {
    open spec fn spec_value(self) -> int {
        self as int
    }

    fn to_i64(self) -> i64 {
        self as i64
    }
}

impl IntSample for u8 {
    open spec fn spec_value(self) -> int {
        self as int
    }

    fn to_i64(self) -> i64 {
        self as i64
    }
}

impl IntSample for u16 {
    open spec fn spec_value(self) -> int {
        self as int
    }

    fn to_i64(self) -> i64 {
        self as i64
    }
}

/// The samples of `channel`, in frame order.
pub open spec fn channel_run<T: IntSample, B: AudioBuffer<T>>(buf: B, channel: int) -> Seq<int> {
    Seq::new(buf.spec_frames(), |f: int| buf.spec_sample(channel, f).spec_value())
}

/// The samples of `frame`, in channel order.
pub open spec fn frame_run<T: IntSample, B: AudioBuffer<T>>(buf: B, frame: int) -> Seq<int> {
    Seq::new(buf.spec_channels(), |c: int| buf.spec_sample(c, frame).spec_value())
}

/// The largest of zero and the items of `s`.
pub open spec fn max_from_zero(s: Seq<int>) -> int
    decreases s.len(),
{
    if s.len() == 0 {
        0
    } else {
        let m = max_from_zero(s.drop_last());
        if s.last() > m {
            s.last()
        } else {
            m
        }
    }
}

/// The smallest of zero and the items of `s`.
pub open spec fn min_from_zero(s: Seq<int>) -> int
    decreases s.len(),
{
    if s.len() == 0 {
        0
    } else {
        let m = min_from_zero(s.drop_last());
        if s.last() < m {
            s.last()
        } else {
            m
        }
    }
}

/// The sum of the squares of the items of `s`.
pub open spec fn square_sum(s: Seq<int>) -> int
    decreases s.len(),
{
    if s.len() == 0 {
        0
    } else {
        square_sum(s.drop_last()) + s.last() * s.last()
    }
}

/// The range of `s` seeded from zero, and the sum of its squares, computed.
fn run_stats(s: Ghost<Seq<int>>, get: &Vec<i64>) -> (r: (i64, i64, u128))
    requires
        get@.len() == s@.len(),
        get@.len() <= usize::MAX,
        forall|i: int| 0 <= i < s@.len() ==> #[trigger] s@[i] == get@[i] as int,
        forall|i: int| 0 <= i < s@.len() ==> -0x8000_0000 <= #[trigger] get@[i] < 0x8000_0000,
    ensures
        r.0 == min_from_zero(s@),
        r.1 == max_from_zero(s@),
        r.2 == square_sum(s@),
        -0x8000_0000 <= r.0 <= 0,
        0 <= r.1 < 0x8000_0000,
{
    let mut lo: i64 = 0;
    let mut hi: i64 = 0;
    let mut sq: u128 = 0;
    let mut i: usize = 0;
    while i < get.len()
        invariant
            i <= get@.len(),
            get@.len() == s@.len(),
            forall|k: int| 0 <= k < s@.len() ==> #[trigger] s@[k] == get@[k] as int,
            forall|k: int| 0 <= k < s@.len() ==> -0x8000_0000 <= #[trigger] get@[k] < 0x8000_0000,
            lo == min_from_zero(s@.subrange(0, i as int)),
            hi == max_from_zero(s@.subrange(0, i as int)),
            sq == square_sum(s@.subrange(0, i as int)),
            -0x8000_0000 <= lo <= 0,
            0 <= hi < 0x8000_0000,
            sq <= i * 0x4000_0000_0000_0000,
        decreases get@.len() - i,
    {
        let x = get[i];
        assert(s@.subrange(0, i + 1).drop_last() =~= s@.subrange(0, i as int));
        if (x as i64) < lo {
            lo = x as i64;
        }
        if (x as i64) > hi {
            hi = x as i64;
        }
        assert((x as int) * (x as int) <= 0x4000_0000_0000_0000) by (nonlinear_arith)
            requires -0x8000_0000 <= x < 0x8000_0000;
        assert((x as int) * (x as int) >= 0) by (nonlinear_arith);
        sq = sq + (x as i128 * x as i128) as u128;
        i = i + 1;
    }
    assert(s@.subrange(0, i as int) =~= s@);
    (lo, hi, sq)
}

/// Range and energy measures over the channels and frames of any buffer of
/// integer samples.
pub trait AudioBufferStats<T: IntSample>: AudioBuffer<T> + Sized {
    /// `max - min` over the samples of `channel`, where both start from zero:
    /// so it is the true peak-to-peak value only when the channel holds
    /// samples on both sides of zero (or zero itself). `None` when there is
    /// no such channel.
    fn channel_peak_to_peak(&self, channel: usize) -> (r: Option<i64>)
        requires
            self.valid(),
        ensures
            channel < self.spec_channels() ==> (r matches Some(p) && p == max_from_zero(
                channel_run::<T, Self>(*self, channel as int),
            ) - min_from_zero(channel_run::<T, Self>(*self, channel as int))),
            channel >= self.spec_channels() ==> r is None,
    {
        match self.channel_moments(channel) {
            Some((lo, hi, _sq, _n)) => Some(hi - lo),
            None => None,
        }
    }

    /// `max - min` over the samples of `frame`, where both start from zero,
    /// as for channels. `None` when there is no such frame.
    fn frame_peak_to_peak(&self, frame: usize) -> (r: Option<i64>)
        requires
            self.valid(),
        ensures
            frame < self.spec_frames() ==> (r matches Some(p) && p == max_from_zero(
                frame_run::<T, Self>(*self, frame as int),
            ) - min_from_zero(frame_run::<T, Self>(*self, frame as int))),
            frame >= self.spec_frames() ==> r is None,
    {
        match self.frame_moments(frame) {
            Some((lo, hi, _sq, _n)) => Some(hi - lo),
            None => None,
        }
    }

    /// The sum of the squares of the samples of `channel` and their number:
    /// the root-mean-square is the square root of their quotient. `None`
    /// when there is no such channel, or it holds no samples.
    fn channel_square_sum(&self, channel: usize) -> (r: Option<(u128, usize)>)
        requires
            self.valid(),
        ensures
            channel < self.spec_channels() && self.spec_frames() > 0 ==> (r matches Some(p) && p.0
                == square_sum(channel_run::<T, Self>(*self, channel as int)) && p.1 == self.spec_frames()),
            !(channel < self.spec_channels() && self.spec_frames() > 0) ==> r is None,
    {
        match self.channel_moments(channel) {
            Some((_lo, _hi, sq, n)) => if n == 0 {
                None
            } else {
                Some((sq, n))
            },
            None => None,
        }
    }

    /// The sum of the squares of the samples of `frame` and their number, as
    /// for channels.
    fn frame_square_sum(&self, frame: usize) -> (r: Option<(u128, usize)>)
        requires
            self.valid(),
        ensures
            frame < self.spec_frames() && self.spec_channels() > 0 ==> (r matches Some(p) && p.0
                == square_sum(frame_run::<T, Self>(*self, frame as int)) && p.1 == self.spec_channels()),
            !(frame < self.spec_frames() && self.spec_channels() > 0) ==> r is None,
    {
        match self.frame_moments(frame) {
            Some((_lo, _hi, sq, n)) => if n == 0 {
                None
            } else {
                Some((sq, n))
            },
            None => None,
        }
    }

    /// The smallest sample of `channel` and zero, the largest, the sum of
    /// squares and the number of samples.
    fn channel_moments(&self, channel: usize) -> (r: Option<(i64, i64, u128, usize)>)
        requires
            self.valid(),
        ensures
            channel < self.spec_channels() ==> (r matches Some(m) && m.0 == min_from_zero(
                channel_run::<T, Self>(*self, channel as int),
            ) && m.1 == max_from_zero(channel_run::<T, Self>(*self, channel as int)) && m.2 == square_sum(
                channel_run::<T, Self>(*self, channel as int),
            ) && m.3 == self.spec_frames()),
            channel >= self.spec_channels() ==> r is None,
            r matches Some(m) ==> -0x8000_0000 <= m.0 <= 0 && 0 <= m.1 < 0x8000_0000,
    {
        if channel >= self.channels() {
            return None;
        }
        let n = self.frames();
        let mut samples: Vec<i64> = Vec::new();
        let mut f: usize = 0;
        while f < n
            invariant
                f <= n,
                n == self.spec_frames(),
                channel < self.spec_channels(),
                self.valid(),
                samples@.len() == f,
                forall|k: int| 0 <= k < f ==> #[trigger] samples@[k] == self.spec_sample(channel as int, k).spec_value(),
                forall|k: int| 0 <= k < f ==> -0x8000_0000 <= #[trigger] samples@[k] < 0x8000_0000,
            decreases n - f,
        {
            samples.push(self.get_unchecked(channel, f).to_i64());
            f = f + 1;
        }
        let ghost run = channel_run::<T, Self>(*self, channel as int);
        let (lo, hi, sq) = run_stats(Ghost(run), &samples);
        Some((lo, hi, sq, n))
    }

    /// The smallest sample of `frame` and zero, the largest, the sum of
    /// squares and the number of samples.
    fn frame_moments(&self, frame: usize) -> (r: Option<(i64, i64, u128, usize)>)
        requires
            self.valid(),
        ensures
            frame < self.spec_frames() ==> (r matches Some(m) && m.0 == min_from_zero(
                frame_run::<T, Self>(*self, frame as int),
            ) && m.1 == max_from_zero(frame_run::<T, Self>(*self, frame as int)) && m.2 == square_sum(
                frame_run::<T, Self>(*self, frame as int),
            ) && m.3 == self.spec_channels()),
            frame >= self.spec_frames() ==> r is None,
            r matches Some(m) ==> -0x8000_0000 <= m.0 <= 0 && 0 <= m.1 < 0x8000_0000,
    {
        if frame >= self.frames() {
            return None;
        }
        let n = self.channels();
        let mut samples: Vec<i64> = Vec::new();
        let mut c: usize = 0;
        while c < n
            invariant
                c <= n,
                n == self.spec_channels(),
                frame < self.spec_frames(),
                self.valid(),
                samples@.len() == c,
                forall|k: int| 0 <= k < c ==> #[trigger] samples@[k] == self.spec_sample(k, frame as int).spec_value(),
                forall|k: int| 0 <= k < c ==> -0x8000_0000 <= #[trigger] samples@[k] < 0x8000_0000,
            decreases n - c,
        {
            samples.push(self.get_unchecked(c, frame).to_i64());
            c = c + 1;
        }
        let ghost run = frame_run::<T, Self>(*self, frame as int);
        let (lo, hi, sq) = run_stats(Ghost(run), &samples);
        Some((lo, hi, sq, n))
    }
}

impl<T: IntSample, B: AudioBuffer<T>> AudioBufferStats<T> for B {}

} // verus!
