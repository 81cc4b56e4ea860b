//! Wrappers for slices of raw bytes, read and written as normalized samples
//! with conversion on the fly.

use vstd::prelude::*;
use crate::buffer::run_length;
use crate::codec::{Sample, clipped_count};
use crate::direct::{lemma_row_major_in_bounds, lemma_row_major_injective};
use crate::error::{BufferSizeError, too_short, reports_short};
use crate::format::{SampleFormat, format_width};

verus! {

/// The bytes of the sample in slot `slot` of a buffer of `width`-byte samples.
pub open spec fn slot_bytes(data: Seq<u8>, slot: int, width: int) -> Seq<u8> {
    data.subrange(slot * width, slot * width + width)
}

/// The bytes of slot `slot` lie within a buffer that holds `slots` samples
/// of `width` bytes, and the bytes of different slots do not overlap.
pub proof fn lemma_slot_bounds(slot: int, slots: int, width: int)
    requires
        0 <= slot < slots,
        1 <= width,
    ensures
        0 <= slot * width,
        slot * width + width <= slots * width,
        forall|other: int|
            0 <= other && other != slot ==> #[trigger] (other * width) + width <= slot * width || slot
                * width + width <= other * width,
{
    assert(0 <= slot * width) by (nonlinear_arith)
        requires 0 <= slot, 1 <= width;
    assert(slot * width + width <= slots * width) by (nonlinear_arith)
        requires slot < slots, 1 <= width;
    assert forall|other: int|
        0 <= other && other != slot implies #[trigger] (other * width) + width <= slot * width || slot
            * width + width <= other * width by {
        if other < slot {
            assert(other * width + width <= slot * width) by (nonlinear_arith)
                requires other < slot, 1 <= width;
        } else {
            assert(slot * width + width <= other * width) by (nonlinear_arith)
                requires other > slot, 1 <= width;
        }
    }
}

/// Checks that `len` bytes hold `channels * frames` samples of `width` bytes.
fn check_byte_length(len: usize, channels: usize, frames: usize, width: usize) -> (r: Result<
    (),
    BufferSizeError,
>)
    requires
        width >= 1,
    ensures
        r is Ok <==> channels * frames * width <= len,
        r matches Err(e) ==> reports_short(e, len as int, channels * frames * width),
{
    match channels.checked_mul(frames) {
        Some(n) => match n.checked_mul(width) {
            Some(needed) => {
                if len < needed {
                    Err(too_short("Slice is too short", len, needed))
                } else {
                    Ok(())
                }
            },
            None => Err(too_short("Slice is too short", len, usize::MAX)),
        },
        None => {
            proof {
                assert(channels * frames * width >= channels * frames) by (nonlinear_arith)
                    requires width >= 1;
            }
            Err(too_short("Slice is too short", len, usize::MAX))
        },
    }
}

/// Read access to a buffer of raw samples, as normalized samples of type `T`,
/// addressed by channel and frame.
pub trait Converter<T: Sample> {
    /// The number of channels.
    spec fn spec_channels(&self) -> nat;

    /// The number of frames.
    spec fn spec_frames(&self) -> nat;

    /// The raw format of the samples.
    spec fn spec_format(&self) -> SampleFormat;

    /// The raw bytes of the sample at (`channel`, `frame`).
    spec fn spec_raw(&self, channel: int, frame: int) -> Seq<u8>;

    /// All of the backing bytes, those past the extents included.
    spec fn spec_bytes(&self) -> Seq<u8>;

    /// Where the bytes of the sample at (`channel`, `frame`) start.
    spec fn spec_offset(&self, channel: int, frame: int) -> int;

    /// The backing bytes cover every position within the extents.
    spec fn valid(&self) -> bool;

    /// The number of channels.
    fn channels(&self) -> (r: usize)
        ensures
            r == self.spec_channels(),
    ;

    /// The number of frames.
    fn frames(&self) -> (r: usize)
        ensures
            r == self.spec_frames(),
    ;

    /// Decodes the sample at (`channel`, `frame`), which the caller has
    /// already checked to be within the extents.
    fn read_unchecked(&self, channel: usize, frame: usize) -> (r: T)
        requires
            self.valid(),
            channel < self.spec_channels(),
            frame < self.spec_frames(),
        ensures
            T::spec_decodes(self.spec_format(), self.spec_raw(channel as int, frame as int), r),
    ;

    /// Decodes the sample at (`channel`, `frame`), or returns `None` when
    /// either index is outside the extents.
    fn read(&self, channel: usize, frame: usize) -> (r: Option<T>)
        requires
            self.valid(),
        ensures
            channel < self.spec_channels() && frame < self.spec_frames() ==> (r matches Some(v)
                && T::spec_decodes(self.spec_format(), self.spec_raw(channel as int, frame as int), v)),
            !(channel < self.spec_channels() && frame < self.spec_frames()) ==> r is None,
    {
        if channel >= self.channels() || frame >= self.frames() {
            return None;
        }
        Some(self.read_unchecked(channel, frame))
    }

    /// Decodes the samples of `channel`, from frame `start` on, into `slice`,
    /// and returns how many were decoded. The rest of `slice` is left as it was.
    fn write_from_channel_to_slice(&self, channel: usize, start: usize, slice: &mut [T]) -> (n:
        usize)
        requires
            self.valid(),
        ensures
            n == run_length(
                channel as int,
                self.spec_channels() as int,
                start as int,
                self.spec_frames() as int,
                old(slice)@.len() as int,
            ),
            final(slice)@.len() == old(slice)@.len(),
            forall|i: int|
                0 <= i < n ==> T::spec_decodes(
                    self.spec_format(),
                    self.spec_raw(channel as int, start + i),
                    #[trigger] final(slice)@[i],
                ),
            forall|i: int| n <= i < old(slice)@.len() ==> #[trigger] final(slice)@[i] == old(slice)@[i],
    {
        if channel >= self.channels() || start >= self.frames() {
            return 0;
        }
        let count: usize = if self.frames() - start < slice.len() {
            self.frames() - start
        } else {
            slice.len()
        };
        let mut n: usize = 0;
        while n < count
            invariant
                n <= count,
                count <= slice@.len(),
                start + count <= self.spec_frames(),
                start + count <= usize::MAX,
                channel < self.spec_channels(),
                self.valid(),
                slice@.len() == old(slice)@.len(),
                forall|i: int|
                    0 <= i < n ==> T::spec_decodes(
                        self.spec_format(),
                        self.spec_raw(channel as int, start + i),
                        #[trigger] slice@[i],
                    ),
                forall|i: int| n <= i < old(slice)@.len() ==> #[trigger] slice@[i] == old(slice)@[i],
            decreases count - n,
        {
            let v = self.read_unchecked(channel, start + n);
            slice[n] = v;
            n = n + 1;
        }
        count
    }

    /// Decodes the samples of `frame`, from channel `start` on, into `slice`,
    /// and returns how many were decoded. The rest of `slice` is left as it was.
    fn write_from_frame_to_slice(&self, frame: usize, start: usize, slice: &mut [T]) -> (n: usize)
        requires
            self.valid(),
        ensures
            n == run_length(
                frame as int,
                self.spec_frames() as int,
                start as int,
                self.spec_channels() as int,
                old(slice)@.len() as int,
            ),
            final(slice)@.len() == old(slice)@.len(),
            forall|i: int|
                0 <= i < n ==> T::spec_decodes(
                    self.spec_format(),
                    self.spec_raw(start + i, frame as int),
                    #[trigger] final(slice)@[i],
                ),
            forall|i: int| n <= i < old(slice)@.len() ==> #[trigger] final(slice)@[i] == old(slice)@[i],
    {
        if frame >= self.frames() || start >= self.channels() {
            return 0;
        }
        let count: usize = if self.channels() - start < slice.len() {
            self.channels() - start
        } else {
            slice.len()
        };
        let mut n: usize = 0;
        while n < count
            invariant
                n <= count,
                count <= slice@.len(),
                start + count <= self.spec_channels(),
                start + count <= usize::MAX,
                frame < self.spec_frames(),
                self.valid(),
                slice@.len() == old(slice)@.len(),
                forall|i: int|
                    0 <= i < n ==> T::spec_decodes(
                        self.spec_format(),
                        self.spec_raw(start + i, frame as int),
                        #[trigger] slice@[i],
                    ),
                forall|i: int| n <= i < old(slice)@.len() ==> #[trigger] slice@[i] == old(slice)@[i],
            decreases count - n,
        {
            let v = self.read_unchecked(start + n, frame);
            slice[n] = v;
            n = n + 1;
        }
        count
    }
}

/// The number of bytes that the samples within the extents take.
pub open spec fn extent_bytes<T: Sample, C: Converter<T>>(c: C) -> int {
    (c.spec_channels() * c.spec_frames() * format_width(c.spec_format())) as int
}

/// `after` keeps every byte of `before` that lies past the extents.
pub open spec fn excess_kept<T: Sample, C: Converter<T>>(before: C, after: C) -> bool {
    &&& after.spec_bytes().len() == before.spec_bytes().len()
    &&& forall|j: int|
        extent_bytes::<T, C>(before) <= j < before.spec_bytes().len() ==> #[trigger] after.spec_bytes()[j]
            == before.spec_bytes()[j]
}

/// `after` holds the raw bytes that `before` held, but for the sample at
/// (`channel`, `frame`), which holds `raw`; the extents and the format are
/// the same.
pub open spec fn raw_replaced<T: Sample, C: Converter<T>>(
    before: C,
    after: C,
    channel: int,
    frame: int,
    raw: Seq<u8>,
) -> bool {
    &&& after.valid()
    &&& after.spec_channels() == before.spec_channels()
    &&& after.spec_frames() == before.spec_frames()
    &&& after.spec_format() == before.spec_format()
    &&& after.spec_bytes().len() == before.spec_bytes().len()
    &&& 0 <= before.spec_offset(channel, frame)
    &&& before.spec_offset(channel, frame) + format_width(before.spec_format())
        <= extent_bytes::<T, C>(before)
    &&& forall|j: int|
        0 <= j < before.spec_bytes().len() && !(before.spec_offset(channel, frame) <= j
            < before.spec_offset(channel, frame) + format_width(before.spec_format()))
            ==> #[trigger] after.spec_bytes()[j] == before.spec_bytes()[j]
    &&& forall|c: int, f: int|
        0 <= c < before.spec_channels() && 0 <= f < before.spec_frames() ==> #[trigger] after.spec_raw(c, f) == if c == channel && f == frame {
            raw
        } else {
            before.spec_raw(c, f)
        }
}

/// Write access to a buffer of raw samples, as normalized samples of type `T`.
pub trait ConverterMut<T: Sample>: Converter<T> + Sized {
    /// Encodes `value` into the sample at (`channel`, `frame`), which the
    /// caller has already checked to be within the extents, and tells
    /// whether it was clipped.
    fn write_unchecked(&mut self, channel: usize, frame: usize, value: &T) -> (clipped: bool)
        requires
            old(self).valid(),
            channel < old(self).spec_channels(),
            frame < old(self).spec_frames(),
        ensures
            raw_replaced(
                *old(self),
                *final(self),
                channel as int,
                frame as int,
                T::spec_encoded(*value, old(self).spec_format()).0,
            ),
            clipped == T::spec_encoded(*value, old(self).spec_format()).1,
    ;

    /// Encodes `value` into the sample at (`channel`, `frame`) and tells
    /// whether it was clipped, or returns `None`, changing nothing, when
    /// either index is outside the extents.
    fn write(&mut self, channel: usize, frame: usize, value: &T) -> (r: Option<bool>)
        requires
            old(self).valid(),
        ensures
            channel < old(self).spec_channels() && frame < old(self).spec_frames() ==> (r
                == Some(T::spec_encoded(*value, old(self).spec_format()).1) && raw_replaced(
                *old(self),
                *final(self),
                channel as int,
                frame as int,
                T::spec_encoded(*value, old(self).spec_format()).0,
            )),
            !(channel < old(self).spec_channels() && frame < old(self).spec_frames()) ==> r is None
                && *final(self) == *old(self),
    {
        if channel >= self.channels() || frame >= self.frames() {
            return None;
        }
        Some(self.write_unchecked(channel, frame, value))
    }

    /// Encodes `slice` into `channel` from frame `start` on; returns how many
    /// samples were written and how many of them were clipped. All other
    /// samples keep their bytes.
    fn write_from_slice_to_channel(&mut self, channel: usize, start: usize, slice: &[T]) -> (r: (
        usize,
        usize,
    ))
        requires
            old(self).valid(),
        ensures
            r.0 == run_length(
                channel as int,
                old(self).spec_channels() as int,
                start as int,
                old(self).spec_frames() as int,
                slice@.len() as int,
            ),
            r.1 == clipped_count(slice@.subrange(0, r.0 as int), old(self).spec_format()),
            final(self).valid(),
            final(self).spec_channels() == old(self).spec_channels(),
            final(self).spec_frames() == old(self).spec_frames(),
            final(self).spec_format() == old(self).spec_format(),
            excess_kept::<T, Self>(*old(self), *final(self)),
            forall|c: int, f: int|
                0 <= c < old(self).spec_channels() && 0 <= f < old(self).spec_frames() ==> #[trigger] final(self).spec_raw(c, f) == if c == channel && start <= f < start + r.0 {
                    T::spec_encoded(slice@[f - start], old(self).spec_format()).0
                } else {
                    old(self).spec_raw(c, f)
                },
    {
        if channel >= self.channels() || start >= self.frames() {
            return (0, 0);
        }
        let count: usize = if self.frames() - start < slice.len() {
            self.frames() - start
        } else {
            slice.len()
        };
        let mut n: usize = 0;
        let mut clipped: usize = 0;
        while n < count
            invariant
                n <= count,
                clipped <= n,
                count <= slice@.len(),
                start + count <= old(self).spec_frames(),
                start + count <= usize::MAX,
                channel < old(self).spec_channels(),
                self.valid(),
                self.spec_channels() == old(self).spec_channels(),
                self.spec_frames() == old(self).spec_frames(),
                self.spec_format() == old(self).spec_format(),
                excess_kept::<T, Self>(*old(self), *self),
                clipped == clipped_count(slice@.subrange(0, n as int), old(self).spec_format()),
                forall|c: int, f: int|
                    0 <= c < old(self).spec_channels() && 0 <= f < old(self).spec_frames() ==> #[trigger] self.spec_raw(c, f) == if c == channel && start <= f < start + n {
                        T::spec_encoded(slice@[f - start], old(self).spec_format()).0
                    } else {
                        old(self).spec_raw(c, f)
                    },
            decreases count - n,
        {
            let c = self.write_unchecked(channel, start + n, &slice[n]);
            if c {
                clipped = clipped + 1;
            }
            assert(slice@.subrange(0, n + 1).drop_last() =~= slice@.subrange(0, n as int));
            n = n + 1;
        }
        (count, clipped)
    }

    /// Encodes `slice` into `frame` from channel `start` on; returns how many
    /// samples were written and how many of them were clipped. All other
    /// samples keep their bytes.
    fn write_from_slice_to_frame(&mut self, frame: usize, start: usize, slice: &[T]) -> (r: (
        usize,
        usize,
    ))
        requires
            old(self).valid(),
        ensures
            r.0 == run_length(
                frame as int,
                old(self).spec_frames() as int,
                start as int,
                old(self).spec_channels() as int,
                slice@.len() as int,
            ),
            r.1 == clipped_count(slice@.subrange(0, r.0 as int), old(self).spec_format()),
            final(self).valid(),
            final(self).spec_channels() == old(self).spec_channels(),
            final(self).spec_frames() == old(self).spec_frames(),
            final(self).spec_format() == old(self).spec_format(),
            excess_kept::<T, Self>(*old(self), *final(self)),
            forall|c: int, f: int|
                0 <= c < old(self).spec_channels() && 0 <= f < old(self).spec_frames() ==> #[trigger] final(self).spec_raw(c, f) == if f == frame && start <= c < start + r.0 {
                    T::spec_encoded(slice@[c - start], old(self).spec_format()).0
                } else {
                    old(self).spec_raw(c, f)
                },
    {
        if frame >= self.frames() || start >= self.channels() {
            return (0, 0);
        }
        let count: usize = if self.channels() - start < slice.len() {
            self.channels() - start
        } else {
            slice.len()
        };
        let mut n: usize = 0;
        let mut clipped: usize = 0;
        while n < count
            invariant
                n <= count,
                clipped <= n,
                count <= slice@.len(),
                start + count <= old(self).spec_channels(),
                start + count <= usize::MAX,
                frame < old(self).spec_frames(),
                self.valid(),
                self.spec_channels() == old(self).spec_channels(),
                self.spec_frames() == old(self).spec_frames(),
                self.spec_format() == old(self).spec_format(),
                excess_kept::<T, Self>(*old(self), *self),
                clipped == clipped_count(slice@.subrange(0, n as int), old(self).spec_format()),
                forall|c: int, f: int|
                    0 <= c < old(self).spec_channels() && 0 <= f < old(self).spec_frames() ==> #[trigger] self.spec_raw(c, f) == if f == frame && start <= c < start + n {
                        T::spec_encoded(slice@[c - start], old(self).spec_format()).0
                    } else {
                        old(self).spec_raw(c, f)
                    },
            decreases count - n,
        {
            let c = self.write_unchecked(start + n, frame, &slice[n]);
            if c {
                clipped = clipped + 1;
            }
            assert(slice@.subrange(0, n + 1).drop_last() =~= slice@.subrange(0, n as int));
            n = n + 1;
        }
        (count, clipped)
    }
}


/// A slice of raw bytes holding samples of one format in interleaved order, read
/// (and, through a mutable slice, written) as normalized samples.
pub struct InterleavedConverter<U> {
    buf: U,
    frames: usize,
    channels: usize,
    format: SampleFormat,
}

impl<'a> InterleavedConverter<&'a [u8]> {
    /// Wraps `buf`, which must hold at least `channels * frames` samples of
    /// `format`.
    pub fn new(buf: &'a [u8], channels: usize, frames: usize, format: SampleFormat) -> (r: Result<
        Self,
        BufferSizeError,
    >)
        ensures
            r is Ok <==> channels * frames * format_width(format) <= buf@.len(),
            r matches Err(e) ==> reports_short(e, buf@.len() as int, channels * frames * format_width(format)),
            r matches Ok(w) ==> w.data() == buf@ && w.channel_count() == channels
                && w.frame_count() == frames && w.format() == format && w.data().len() <= usize::MAX,
    {
        match check_byte_length(buf.len(), channels, frames, format.bytes_per_sample()) {
            Ok(()) => Ok(InterleavedConverter { buf, frames, channels, format }),
            Err(e) => Err(e),
        }
    }

    /// The wrapped bytes.
    pub closed spec fn data(&self) -> Seq<u8> {
        self.buf@
    }

    /// The declared number of channels.
    pub closed spec fn channel_count(&self) -> nat {
        self.channels as nat
    }

    /// The declared number of frames.
    pub closed spec fn frame_count(&self) -> nat {
        self.frames as nat
    }

    /// The raw format of the samples.
    pub closed spec fn format(&self) -> SampleFormat {
        self.format
    }

    /// The slot of (`channel`, `frame`).
    pub open spec fn slot(&self, channel: int, frame: int) -> int {
        frame * self.channel_count() + channel
    }
}

impl<'a> InterleavedConverter<&'a mut [u8]> {
    /// Wraps `buf` for reading and writing; it must hold at least
    /// `channels * frames` samples of `format`.
    pub fn new_mut(buf: &'a mut [u8], channels: usize, frames: usize, format: SampleFormat) -> (r:
        Result<Self, BufferSizeError>)
        ensures
            r is Ok <==> channels * frames * format_width(format) <= old(buf)@.len(),
            r matches Err(e) ==> reports_short(e, old(buf)@.len() as int, channels * frames * format_width(format)),
            r matches Ok(w) ==> w.data() == old(buf)@ && w.channel_count() == channels
                && w.frame_count() == frames && w.format() == format && w.data().len() <= usize::MAX,
    {
        match check_byte_length(buf.len(), channels, frames, format.bytes_per_sample()) {
            Ok(()) => Ok(InterleavedConverter { buf, frames, channels, format }),
            Err(e) => Err(e),
        }
    }

    /// The wrapped bytes.
    pub closed spec fn data(&self) -> Seq<u8> {
        self.buf@
    }

    /// The declared number of channels.
    pub closed spec fn channel_count(&self) -> nat {
        self.channels as nat
    }

    /// The declared number of frames.
    pub closed spec fn frame_count(&self) -> nat {
        self.frames as nat
    }

    /// The raw format of the samples.
    pub closed spec fn format(&self) -> SampleFormat {
        self.format
    }

    /// The slot of (`channel`, `frame`).
    pub open spec fn slot(&self, channel: int, frame: int) -> int {
        frame * self.channel_count() + channel
    }
}

impl<'a, T: Sample> Converter<T> for InterleavedConverter<&'a [u8]> {
    open spec fn spec_channels(&self) -> nat {
        self.channel_count()
    }

    open spec fn spec_frames(&self) -> nat {
        self.frame_count()
    }

    open spec fn spec_format(&self) -> SampleFormat {
        self.format()
    }

    open spec fn spec_raw(&self, channel: int, frame: int) -> Seq<u8> {
        slot_bytes(self.data(), self.slot(channel, frame), format_width(self.format()) as int)
    }

    open spec fn spec_bytes(&self) -> Seq<u8> {
        self.data()
    }

    open spec fn spec_offset(&self, channel: int, frame: int) -> int {
        self.slot(channel, frame) * format_width(self.format())
    }

    open spec fn valid(&self) -> bool {
        &&& self.channel_count() * self.frame_count() * format_width(self.format()) <= self.data().len()
        &&& self.data().len() <= usize::MAX
    }

    fn channels(&self) -> usize {
        self.channels
    }

    fn frames(&self) -> usize {
        self.frames
    }

    fn read_unchecked(&self, channel: usize, frame: usize) -> T {
        let w = self.format.bytes_per_sample();
        proof {
            vstd::arithmetic::mul::lemma_mul_is_commutative(self.frames as int, self.channels as int);
            lemma_row_major_in_bounds(frame as int, channel as int, self.frames as int, self.channels as int);
            lemma_slot_bounds(self.slot(channel as int, frame as int), self.channels * self.frames, w as int);
            let slot = self.slot(channel as int, frame as int);
            assert(slot == frame * self.channels + channel);
            assert(slot * w + w <= (self.channels * self.frames) * w);
            assert((self.channels * self.frames) * w <= self.buf@.len());
            assert(slot <= slot * w) by (nonlinear_arith)
                requires slot >= 0, w >= 1;
        }
        let at: usize = (frame * self.channels + channel) * w;
        T::decode(self.buf, at, self.format)
    }
}

impl<'a, T: Sample> Converter<T> for InterleavedConverter<&'a mut [u8]> {
    open spec fn spec_channels(&self) -> nat {
        self.channel_count()
    }

    open spec fn spec_frames(&self) -> nat {
        self.frame_count()
    }

    open spec fn spec_format(&self) -> SampleFormat {
        self.format()
    }

    open spec fn spec_raw(&self, channel: int, frame: int) -> Seq<u8> {
        slot_bytes(self.data(), self.slot(channel, frame), format_width(self.format()) as int)
    }

    open spec fn spec_bytes(&self) -> Seq<u8> {
        self.data()
    }

    open spec fn spec_offset(&self, channel: int, frame: int) -> int {
        self.slot(channel, frame) * format_width(self.format())
    }

    open spec fn valid(&self) -> bool {
        &&& self.channel_count() * self.frame_count() * format_width(self.format()) <= self.data().len()
        &&& self.data().len() <= usize::MAX
    }

    fn channels(&self) -> usize {
        self.channels
    }

    fn frames(&self) -> usize {
        self.frames
    }

    fn read_unchecked(&self, channel: usize, frame: usize) -> T {
        let w = self.format.bytes_per_sample();
        proof {
            vstd::arithmetic::mul::lemma_mul_is_commutative(self.frames as int, self.channels as int);
            lemma_row_major_in_bounds(frame as int, channel as int, self.frames as int, self.channels as int);
            lemma_slot_bounds(self.slot(channel as int, frame as int), self.channels * self.frames, w as int);
            let slot = self.slot(channel as int, frame as int);
            assert(slot == frame * self.channels + channel);
            assert(slot * w + w <= (self.channels * self.frames) * w);
            assert((self.channels * self.frames) * w <= self.buf@.len());
            assert(slot <= slot * w) by (nonlinear_arith)
                requires slot >= 0, w >= 1;
        }
        let at: usize = (frame * self.channels + channel) * w;
        T::decode(self.buf, at, self.format)
    }
}

impl<'a, T: Sample> ConverterMut<T> for InterleavedConverter<&'a mut [u8]> {
    fn write_unchecked(&mut self, channel: usize, frame: usize, value: &T) -> bool {
        let w = self.format.bytes_per_sample();
        proof {
            vstd::arithmetic::mul::lemma_mul_is_commutative(self.frames as int, self.channels as int);
            lemma_row_major_in_bounds(frame as int, channel as int, self.frames as int, self.channels as int);
            lemma_slot_bounds(self.slot(channel as int, frame as int), self.channels * self.frames, w as int);
            let slot = self.slot(channel as int, frame as int);
            assert(slot == frame * self.channels + channel);
            assert(slot * w + w <= (self.channels * self.frames) * w);
            assert((self.channels * self.frames) * w <= self.buf@.len());
            assert(slot <= slot * w) by (nonlinear_arith)
                requires slot >= 0, w >= 1;
        }
        let at: usize = (frame * self.channels + channel) * w;
        let (bytes, clipped) = value.encode(self.format);
        let ghost before = self.buf@;
        let mut j: usize = 0;
        while j < w
            invariant
                j <= w,
                w == bytes@.len(),
                at + w <= before.len(),
                before.len() <= usize::MAX,
                self.buf@.len() == before.len(),
                self.frames == old(self).frames,
                self.channels == old(self).channels,
                self.format == old(self).format,
                forall|k: int|
                    0 <= k < before.len() ==> #[trigger] self.buf@[k] == if at <= k < at + j {
                        bytes@[k - at]
                    } else {
                        before[k]
                    },
            decreases w - j,
        {
            self.buf[at + j] = bytes[j];
            j = j + 1;
        }
        proof {
            let n = self.channels * self.frames;
            let slot = self.slot(channel as int, frame as int);
            assert(at as int == slot * w);
            assert forall|c2: int, f2: int|
                0 <= c2 < self.channels && 0 <= f2 < self.frames implies #[trigger] slot_bytes(
                self.buf@,
                self.slot(c2, f2),
                w as int,
            ) == if c2 == channel && f2 == frame {
                bytes@
            } else {
                slot_bytes(before, self.slot(c2, f2), w as int)
            } by {
                let s2 = self.slot(c2, f2);
                lemma_row_major_in_bounds(f2, c2, self.frames as int, self.channels as int);
                lemma_slot_bounds(s2, n as int, w as int);
                lemma_slot_bounds(slot, n as int, w as int);
                if c2 == channel && f2 == frame {
                    assert(slot_bytes(self.buf@, s2, w as int) =~= bytes@);
                } else {
                    if s2 == slot {
                        lemma_row_major_injective(f2, c2, frame as int, channel as int, self.channels as int);
                    }
                    assert(slot_bytes(self.buf@, s2, w as int) =~= slot_bytes(before, s2, w as int));
                }
            }
        }
        clipped
    }
}

/// A slice of raw bytes holding samples of one format in sequential (planar) order, read
/// (and, through a mutable slice, written) as normalized samples.
pub struct SequentialConverter<U> {
    buf: U,
    frames: usize,
    channels: usize,
    format: SampleFormat,
}

impl<'a> SequentialConverter<&'a [u8]> {
    /// Wraps `buf`, which must hold at least `channels * frames` samples of
    /// `format`.
    pub fn new(buf: &'a [u8], channels: usize, frames: usize, format: SampleFormat) -> (r: Result<
        Self,
        BufferSizeError,
    >)
        ensures
            r is Ok <==> channels * frames * format_width(format) <= buf@.len(),
            r matches Err(e) ==> reports_short(e, buf@.len() as int, channels * frames * format_width(format)),
            r matches Ok(w) ==> w.data() == buf@ && w.channel_count() == channels
                && w.frame_count() == frames && w.format() == format && w.data().len() <= usize::MAX,
    {
        match check_byte_length(buf.len(), channels, frames, format.bytes_per_sample()) {
            Ok(()) => Ok(SequentialConverter { buf, frames, channels, format }),
            Err(e) => Err(e),
        }
    }

    /// The wrapped bytes.
    pub closed spec fn data(&self) -> Seq<u8> {
        self.buf@
    }

    /// The declared number of channels.
    pub closed spec fn channel_count(&self) -> nat {
        self.channels as nat
    }

    /// The declared number of frames.
    pub closed spec fn frame_count(&self) -> nat {
        self.frames as nat
    }

    /// The raw format of the samples.
    pub closed spec fn format(&self) -> SampleFormat {
        self.format
    }

    /// The slot of (`channel`, `frame`).
    pub open spec fn slot(&self, channel: int, frame: int) -> int {
        channel * self.frame_count() + frame
    }
}

impl<'a> SequentialConverter<&'a mut [u8]> {
    /// Wraps `buf` for reading and writing; it must hold at least
    /// `channels * frames` samples of `format`.
    pub fn new_mut(buf: &'a mut [u8], channels: usize, frames: usize, format: SampleFormat) -> (r:
        Result<Self, BufferSizeError>)
        ensures
            r is Ok <==> channels * frames * format_width(format) <= old(buf)@.len(),
            r matches Err(e) ==> reports_short(e, old(buf)@.len() as int, channels * frames * format_width(format)),
            r matches Ok(w) ==> w.data() == old(buf)@ && w.channel_count() == channels
                && w.frame_count() == frames && w.format() == format && w.data().len() <= usize::MAX,
    {
        match check_byte_length(buf.len(), channels, frames, format.bytes_per_sample()) {
            Ok(()) => Ok(SequentialConverter { buf, frames, channels, format }),
            Err(e) => Err(e),
        }
    }

    /// The wrapped bytes.
    pub closed spec fn data(&self) -> Seq<u8> {
        self.buf@
    }

    /// The declared number of channels.
    pub closed spec fn channel_count(&self) -> nat {
        self.channels as nat
    }

    /// The declared number of frames.
    pub closed spec fn frame_count(&self) -> nat {
        self.frames as nat
    }

    /// The raw format of the samples.
    pub closed spec fn format(&self) -> SampleFormat {
        self.format
    }

    /// The slot of (`channel`, `frame`).
    pub open spec fn slot(&self, channel: int, frame: int) -> int {
        channel * self.frame_count() + frame
    }
}

impl<'a, T: Sample> Converter<T> for SequentialConverter<&'a [u8]> {
    open spec fn spec_channels(&self) -> nat {
        self.channel_count()
    }

    open spec fn spec_frames(&self) -> nat {
        self.frame_count()
    }

    open spec fn spec_format(&self) -> SampleFormat {
        self.format()
    }

    open spec fn spec_raw(&self, channel: int, frame: int) -> Seq<u8> {
        slot_bytes(self.data(), self.slot(channel, frame), format_width(self.format()) as int)
    }

    open spec fn spec_bytes(&self) -> Seq<u8> {
        self.data()
    }

    open spec fn spec_offset(&self, channel: int, frame: int) -> int {
        self.slot(channel, frame) * format_width(self.format())
    }

    open spec fn valid(&self) -> bool {
        &&& self.channel_count() * self.frame_count() * format_width(self.format()) <= self.data().len()
        &&& self.data().len() <= usize::MAX
    }

    fn channels(&self) -> usize {
        self.channels
    }

    fn frames(&self) -> usize {
        self.frames
    }

    fn read_unchecked(&self, channel: usize, frame: usize) -> T {
        let w = self.format.bytes_per_sample();
        proof {
            lemma_row_major_in_bounds(channel as int, frame as int, self.channels as int, self.frames as int);
            lemma_slot_bounds(self.slot(channel as int, frame as int), self.channels * self.frames, w as int);
            let slot = self.slot(channel as int, frame as int);
            assert(slot == channel * self.frames + frame);
            assert(slot * w + w <= (self.channels * self.frames) * w);
            assert((self.channels * self.frames) * w <= self.buf@.len());
            assert(slot <= slot * w) by (nonlinear_arith)
                requires slot >= 0, w >= 1;
        }
        let at: usize = (channel * self.frames + frame) * w;
        T::decode(self.buf, at, self.format)
    }
}

impl<'a, T: Sample> Converter<T> for SequentialConverter<&'a mut [u8]> {
    open spec fn spec_channels(&self) -> nat {
        self.channel_count()
    }

    open spec fn spec_frames(&self) -> nat {
        self.frame_count()
    }

    open spec fn spec_format(&self) -> SampleFormat {
        self.format()
    }

    open spec fn spec_raw(&self, channel: int, frame: int) -> Seq<u8> {
        slot_bytes(self.data(), self.slot(channel, frame), format_width(self.format()) as int)
    }

    open spec fn spec_bytes(&self) -> Seq<u8> {
        self.data()
    }

    open spec fn spec_offset(&self, channel: int, frame: int) -> int {
        self.slot(channel, frame) * format_width(self.format())
    }

    open spec fn valid(&self) -> bool {
        &&& self.channel_count() * self.frame_count() * format_width(self.format()) <= self.data().len()
        &&& self.data().len() <= usize::MAX
    }

    fn channels(&self) -> usize {
        self.channels
    }

    fn frames(&self) -> usize {
        self.frames
    }

    fn read_unchecked(&self, channel: usize, frame: usize) -> T {
        let w = self.format.bytes_per_sample();
        proof {
            lemma_row_major_in_bounds(channel as int, frame as int, self.channels as int, self.frames as int);
            lemma_slot_bounds(self.slot(channel as int, frame as int), self.channels * self.frames, w as int);
            let slot = self.slot(channel as int, frame as int);
            assert(slot == channel * self.frames + frame);
            assert(slot * w + w <= (self.channels * self.frames) * w);
            assert((self.channels * self.frames) * w <= self.buf@.len());
            assert(slot <= slot * w) by (nonlinear_arith)
                requires slot >= 0, w >= 1;
        }
        let at: usize = (channel * self.frames + frame) * w;
        T::decode(self.buf, at, self.format)
    }
}

impl<'a, T: Sample> ConverterMut<T> for SequentialConverter<&'a mut [u8]> {
    fn write_unchecked(&mut self, channel: usize, frame: usize, value: &T) -> bool {
        let w = self.format.bytes_per_sample();
        proof {
            lemma_row_major_in_bounds(channel as int, frame as int, self.channels as int, self.frames as int);
            lemma_slot_bounds(self.slot(channel as int, frame as int), self.channels * self.frames, w as int);
            let slot = self.slot(channel as int, frame as int);
            assert(slot == channel * self.frames + frame);
            assert(slot * w + w <= (self.channels * self.frames) * w);
            assert((self.channels * self.frames) * w <= self.buf@.len());
            assert(slot <= slot * w) by (nonlinear_arith)
                requires slot >= 0, w >= 1;
        }
        let at: usize = (channel * self.frames + frame) * w;
        let (bytes, clipped) = value.encode(self.format);
        let ghost before = self.buf@;
        let mut j: usize = 0;
        while j < w
            invariant
                j <= w,
                w == bytes@.len(),
                at + w <= before.len(),
                before.len() <= usize::MAX,
                self.buf@.len() == before.len(),
                self.frames == old(self).frames,
                self.channels == old(self).channels,
                self.format == old(self).format,
                forall|k: int|
                    0 <= k < before.len() ==> #[trigger] self.buf@[k] == if at <= k < at + j {
                        bytes@[k - at]
                    } else {
                        before[k]
                    },
            decreases w - j,
        {
            self.buf[at + j] = bytes[j];
            j = j + 1;
        }
        proof {
            let n = self.channels * self.frames;
            let slot = self.slot(channel as int, frame as int);
            assert(at as int == slot * w);
            assert forall|c2: int, f2: int|
                0 <= c2 < self.channels && 0 <= f2 < self.frames implies #[trigger] slot_bytes(
                self.buf@,
                self.slot(c2, f2),
                w as int,
            ) == if c2 == channel && f2 == frame {
                bytes@
            } else {
                slot_bytes(before, self.slot(c2, f2), w as int)
            } by {
                let s2 = self.slot(c2, f2);
                lemma_row_major_in_bounds(c2, f2, self.channels as int, self.frames as int);
                lemma_slot_bounds(s2, n as int, w as int);
                lemma_slot_bounds(slot, n as int, w as int);
                if c2 == channel && f2 == frame {
                    assert(slot_bytes(self.buf@, s2, w as int) =~= bytes@);
                } else {
                    if s2 == slot {
                        lemma_row_major_injective(c2, f2, channel as int, frame as int, self.frames as int);
                    }
                    assert(slot_bytes(self.buf@, s2, w as int) =~= slot_bytes(before, s2, w as int));
                }
            }
        }
        clipped
    }
}

} // verus!
