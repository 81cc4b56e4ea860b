use vstd::prelude::*;
use vstd::arithmetic::mul::lemma_mul_is_commutative;
use crate::buffer::{AudioBuffer, AudioBufferMut};
use crate::error::{BufferSizeError, too_short, entry_too_short, reports_short};

verus! {

/// The slot of (`channel`, `frame`) in a flat buffer in sequential order.
pub open spec fn sequential_index(channel: int, frame: int, frames: int) -> int {
    channel * frames + frame
}

/// The slot of (`channel`, `frame`) in a flat buffer in interleaved order.
pub open spec fn interleaved_index(channel: int, frame: int, channels: int) -> int {
    frame * channels + channel
}

/// A position within `outer` rows of `inner` slots falls inside `outer * inner`.
pub proof fn lemma_row_major_in_bounds(row: int, col: int, outer: int, inner: int)
    requires
        0 <= row < outer,
        0 <= col < inner,
    ensures
        0 <= row * inner + col < outer * inner,
{
    assert(0 <= row * inner + col < outer * inner) by (nonlinear_arith)
        requires
            0 <= row < outer,
            0 <= col < inner,
    ;
}

/// Distinct positions within rows of `inner` slots have distinct slots.
pub proof fn lemma_row_major_injective(r1: int, c1: int, r2: int, c2: int, inner: int)
    requires
        0 <= r1,
        0 <= r2,
        0 <= c1 < inner,
        0 <= c2 < inner,
        r1 * inner + c1 == r2 * inner + c2,
    ensures
        r1 == r2,
        c1 == c2,
{
    assert(r1 == r2) by (nonlinear_arith)
        requires
            0 <= r1,
            0 <= r2,
            0 <= c1 < inner,
            0 <= c2 < inner,
            r1 * inner + c1 == r2 * inner + c2,
    ;
}

/// Writing the slot of one position of a row-major table changes the sample
/// of that position alone, whatever value is written.
proof fn lemma_row_major_update<T>(data: Seq<T>, outer: int, inner: int, row: int, col: int)
    requires
        0 <= row < outer,
        0 <= col < inner,
        outer * inner <= data.len(),
    ensures
        forall|v: T|
            #[trigger] data.update(row * inner + col, v).subrange(outer * inner, data.len() as int)
                == data.subrange(outer * inner, data.len() as int),
        forall|v: T, r: int, c: int|
            0 <= r < outer && 0 <= c < inner ==> #[trigger] data.update(row * inner + col, v)[r
                * inner + c] == if r == row && c == col {
                v
            } else {
                data[r * inner + c]
            },
{
    lemma_row_major_in_bounds(row, col, outer, inner);
    assert forall|v: T|
        #[trigger] data.update(row * inner + col, v).subrange(outer * inner, data.len() as int)
            == data.subrange(outer * inner, data.len() as int) by {
        assert(data.update(row * inner + col, v).subrange(outer * inner, data.len() as int)
            =~= data.subrange(outer * inner, data.len() as int));
    }
    assert forall|v: T, r: int, c: int| 0 <= r < outer && 0 <= c < inner implies #[trigger] data.update(
        row * inner + col,
        v,
    )[r * inner + c] == if r == row && c == col {
        v
    } else {
        data[r * inner + c]
    } by {
        lemma_row_major_in_bounds(r, c, outer, inner);
        lemma_row_major_in_bounds(row, col, outer, inner);
        if r * inner + c == row * inner + col {
            lemma_row_major_injective(r, c, row, col, inner);
        }
    }
}

/// Checks that a flat buffer of `len` slots holds `channels * frames` samples.
fn check_flat_length(len: usize, channels: usize, frames: usize) -> (r: Result<(), BufferSizeError>)
    ensures
        r is Ok <==> channels * frames <= len,
        r matches Err(e) ==> reports_short(e, len as int, channels * frames),
{
    match channels.checked_mul(frames) {
        Some(needed) => {
            if len < needed {
                Err(too_short("Slice is too short", len, needed))
            } else {
                Ok(())
            }
        },
        None => {
            assert(channels * frames > usize::MAX);
            Err(too_short("Slice is too short", len, usize::MAX))
        },
    }
}

/// A flat buffer of samples in sequential (planar) order: all frames of
/// channel 0, then all frames of channel 1, and so on.
pub struct SequentialSlice<U> {
    buf: U,
    frames: usize,
    channels: usize,
}

impl<'a, T: Copy> SequentialSlice<&'a [T]> {
    /// Wraps `buf`, which must hold at least `channels * frames` samples.
    pub fn new(buf: &'a [T], channels: usize, frames: usize) -> (r: Result<Self, BufferSizeError>)
        ensures
            r is Ok <==> channels * frames <= buf@.len(),
            r matches Err(e) ==> reports_short(e, buf@.len() as int, channels * frames),
            r matches Ok(w) ==> w.valid() && w.data() == buf@ && w.spec_channels() == channels
                && w.spec_frames() == frames,
    {
        match check_flat_length(buf.len(), channels, frames) {
            Ok(()) => Ok(SequentialSlice { buf, frames, channels }),
            Err(e) => Err(e),
        }
    }

    /// The wrapped samples.
    pub closed spec fn data(&self) -> Seq<T> {
        self.buf@
    }

    /// The declared number of channels.
    pub closed spec fn channel_count(&self) -> nat {
        self.channels as nat
    }

    /// The declared number of frames.
    pub closed spec fn frame_count(&self) -> nat {
        self.frames as nat
    }
}

impl<'a, T: Copy> SequentialSlice<&'a mut [T]> {
    /// Wraps `buf` for reading and writing; it must hold at least
    /// `channels * frames` samples.
    pub fn new_mut(buf: &'a mut [T], channels: usize, frames: usize) -> (r: Result<
        Self,
        BufferSizeError,
    >)
        ensures
            r is Ok <==> channels * frames <= old(buf)@.len(),
            r matches Err(e) ==> reports_short(e, old(buf)@.len() as int, channels * frames),
            r matches Ok(w) ==> w.valid() && w.data() == old(buf)@ && w.spec_channels() == channels
                && w.spec_frames() == frames,
    {
        match check_flat_length(buf.len(), channels, frames) {
            Ok(()) => Ok(SequentialSlice { buf, frames, channels }),
            Err(e) => Err(e),
        }
    }

    /// The wrapped samples.
    pub closed spec fn data(&self) -> Seq<T> {
        self.buf@
    }

    /// The declared number of channels.
    pub closed spec fn channel_count(&self) -> nat {
        self.channels as nat
    }

    /// The declared number of frames.
    pub closed spec fn frame_count(&self) -> nat {
        self.frames as nat
    }
}

impl<'a, T: Copy> AudioBuffer<T> for SequentialSlice<&'a [T]> {
    open spec fn spec_channels(&self) -> nat {
        self.channel_count()
    }

    open spec fn spec_frames(&self) -> nat {
        self.frame_count()
    }

    open spec fn spec_sample(&self, channel: int, frame: int) -> T {
        self.data()[sequential_index(channel, frame, self.frame_count() as int)]
    }

    open spec fn spec_excess(&self) -> Seq<Seq<T>> {
        seq![self.data().subrange((self.channel_count() * self.frame_count()) as int, self.data().len() as int)]
    }

    open spec fn valid(&self) -> bool {
        &&& self.channel_count() * self.frame_count() <= self.data().len()
        &&& self.data().len() <= usize::MAX
    }

    fn channels(&self) -> usize {
        self.channels
    }

    fn frames(&self) -> usize {
        self.frames
    }

    fn get_unchecked(&self, channel: usize, frame: usize) -> &T {
        proof {
            lemma_row_major_in_bounds(channel as int, frame as int, self.channels as int, self.frames as int);
        }
        &self.buf[channel * self.frames + frame]
    }
}

impl<'a, T: Copy> AudioBuffer<T> for SequentialSlice<&'a mut [T]> {
    open spec fn spec_channels(&self) -> nat {
        self.channel_count()
    }

    open spec fn spec_frames(&self) -> nat {
        self.frame_count()
    }

    open spec fn spec_sample(&self, channel: int, frame: int) -> T {
        self.data()[sequential_index(channel, frame, self.frame_count() as int)]
    }

    open spec fn spec_excess(&self) -> Seq<Seq<T>> {
        seq![self.data().subrange((self.channel_count() * self.frame_count()) as int, self.data().len() as int)]
    }

    open spec fn valid(&self) -> bool {
        &&& self.channel_count() * self.frame_count() <= self.data().len()
        &&& self.data().len() <= usize::MAX
    }

    fn channels(&self) -> usize {
        self.channels
    }

    fn frames(&self) -> usize {
        self.frames
    }

    fn get_unchecked(&self, channel: usize, frame: usize) -> &T {
        proof {
            lemma_row_major_in_bounds(channel as int, frame as int, self.channels as int, self.frames as int);
        }
        &self.buf[channel * self.frames + frame]
    }
}

impl<'a, T: Copy> AudioBufferMut<T> for SequentialSlice<&'a mut [T]> {
    fn get_unchecked_mut(&mut self, channel: usize, frame: usize) -> &mut T {
        proof {
            lemma_row_major_in_bounds(channel as int, frame as int, self.channels as int, self.frames as int);
            lemma_row_major_update(self.buf@, self.channels as int, self.frames as int, channel as int, frame as int);
        }
        &mut self.buf[channel * self.frames + frame]
    }
}

/// A flat buffer of samples in interleaved order: all channels of frame 0,
/// then all channels of frame 1, and so on.
pub struct InterleavedSlice<U> {
    buf: U,
    frames: usize,
    channels: usize,
}

impl<'a, T: Copy> InterleavedSlice<&'a [T]> {
    /// Wraps `buf`, which must hold at least `channels * frames` samples.
    pub fn new(buf: &'a [T], channels: usize, frames: usize) -> (r: Result<Self, BufferSizeError>)
        ensures
            r is Ok <==> channels * frames <= buf@.len(),
            r matches Err(e) ==> reports_short(e, buf@.len() as int, channels * frames),
            r matches Ok(w) ==> w.valid() && w.data() == buf@ && w.spec_channels() == channels
                && w.spec_frames() == frames,
    {
        match check_flat_length(buf.len(), channels, frames) {
            Ok(()) => Ok(InterleavedSlice { buf, frames, channels }),
            Err(e) => Err(e),
        }
    }

    /// The wrapped samples.
    pub closed spec fn data(&self) -> Seq<T> {
        self.buf@
    }

    /// The declared number of channels.
    pub closed spec fn channel_count(&self) -> nat {
        self.channels as nat
    }

    /// The declared number of frames.
    pub closed spec fn frame_count(&self) -> nat {
        self.frames as nat
    }
}

impl<'a, T: Copy> InterleavedSlice<&'a mut [T]> {
    /// Wraps `buf` for reading and writing; it must hold at least
    /// `channels * frames` samples.
    pub fn new_mut(buf: &'a mut [T], channels: usize, frames: usize) -> (r: Result<
        Self,
        BufferSizeError,
    >)
        ensures
            r is Ok <==> channels * frames <= old(buf)@.len(),
            r matches Err(e) ==> reports_short(e, old(buf)@.len() as int, channels * frames),
            r matches Ok(w) ==> w.valid() && w.data() == old(buf)@ && w.spec_channels() == channels
                && w.spec_frames() == frames,
    {
        match check_flat_length(buf.len(), channels, frames) {
            Ok(()) => Ok(InterleavedSlice { buf, frames, channels }),
            Err(e) => Err(e),
        }
    }

    /// The wrapped samples.
    pub closed spec fn data(&self) -> Seq<T> {
        self.buf@
    }

    /// The declared number of channels.
    pub closed spec fn channel_count(&self) -> nat {
        self.channels as nat
    }

    /// The declared number of frames.
    pub closed spec fn frame_count(&self) -> nat {
        self.frames as nat
    }
}

impl<'a, T: Copy> AudioBuffer<T> for InterleavedSlice<&'a [T]> {
    open spec fn spec_channels(&self) -> nat {
        self.channel_count()
    }

    open spec fn spec_frames(&self) -> nat {
        self.frame_count()
    }

    open spec fn spec_sample(&self, channel: int, frame: int) -> T {
        self.data()[interleaved_index(channel, frame, self.channel_count() as int)]
    }

    open spec fn spec_excess(&self) -> Seq<Seq<T>> {
        seq![self.data().subrange((self.channel_count() * self.frame_count()) as int, self.data().len() as int)]
    }

    open spec fn valid(&self) -> bool {
        &&& self.channel_count() * self.frame_count() <= self.data().len()
        &&& self.data().len() <= usize::MAX
    }

    fn channels(&self) -> usize {
        self.channels
    }

    fn frames(&self) -> usize {
        self.frames
    }

    fn get_unchecked(&self, channel: usize, frame: usize) -> &T {
        proof {
            lemma_mul_is_commutative(self.frames as int, self.channels as int);
            lemma_row_major_in_bounds(frame as int, channel as int, self.frames as int, self.channels as int);
        }
        &self.buf[frame * self.channels + channel]
    }
}

impl<'a, T: Copy> AudioBuffer<T> for InterleavedSlice<&'a mut [T]> {
    open spec fn spec_channels(&self) -> nat {
        self.channel_count()
    }

    open spec fn spec_frames(&self) -> nat {
        self.frame_count()
    }

    open spec fn spec_sample(&self, channel: int, frame: int) -> T {
        self.data()[interleaved_index(channel, frame, self.channel_count() as int)]
    }

    open spec fn spec_excess(&self) -> Seq<Seq<T>> {
        seq![self.data().subrange((self.channel_count() * self.frame_count()) as int, self.data().len() as int)]
    }

    open spec fn valid(&self) -> bool {
        &&& self.channel_count() * self.frame_count() <= self.data().len()
        &&& self.data().len() <= usize::MAX
    }

    fn channels(&self) -> usize {
        self.channels
    }

    fn frames(&self) -> usize {
        self.frames
    }

    fn get_unchecked(&self, channel: usize, frame: usize) -> &T {
        proof {
            lemma_mul_is_commutative(self.frames as int, self.channels as int);
            lemma_row_major_in_bounds(frame as int, channel as int, self.frames as int, self.channels as int);
        }
        &self.buf[frame * self.channels + channel]
    }
}

impl<'a, T: Copy> AudioBufferMut<T> for InterleavedSlice<&'a mut [T]> {
    fn get_unchecked_mut(&mut self, channel: usize, frame: usize) -> &mut T {
        proof {
            lemma_mul_is_commutative(self.frames as int, self.channels as int);
            lemma_row_major_in_bounds(frame as int, channel as int, self.frames as int, self.channels as int);
            lemma_row_major_update(self.buf@, self.frames as int, self.channels as int, frame as int, channel as int);
        }
        &mut self.buf[frame * self.channels + channel]
    }
}


/// The views of a slice of vectors.
pub open spec fn rows_view<T>(rows: Seq<Vec<T>>) -> Seq<Seq<T>> {
    rows.map_values(|v: Vec<T>| v@)
}

/// There are at least `outer` rows, and each of the first `outer` holds at
/// least `inner` items; rows past those are not looked at.
pub open spec fn rows_cover_seqs<T>(rows: Seq<Seq<T>>, outer: int, inner: int) -> bool {
    &&& outer <= rows.len()
    &&& forall|i: int| 0 <= i < outer ==> #[trigger] rows[i].len() >= inner
}

/// The parts of the rows past the first `outer` rows and past the first
/// `inner` items of each of those.
pub open spec fn rows_excess<T>(rows: Seq<Seq<T>>, outer: int, inner: int) -> Seq<Seq<T>> {
    Seq::new(
        rows.len(),
        |i: int|
            if i < outer {
                rows[i].subrange(inner, rows[i].len() as int)
            } else {
                rows[i]
            },
    )
}

/// Writing an item within the first `outer` rows and `inner` columns keeps
/// the parts past them.
proof fn lemma_rows_excess_update<T>(rows: Seq<Seq<T>>, outer: int, inner: int, i: int, j: int)
    requires
        0 <= i < outer,
        0 <= j < inner,
        rows_cover_seqs(rows, outer, inner),
    ensures
        forall|v: T|
            #[trigger] rows_excess(rows.update(i, rows[i].update(j, v)), outer, inner) == rows_excess(
                rows,
                outer,
                inner,
            ),
{
    assert forall|v: T|
        #[trigger] rows_excess(rows.update(i, rows[i].update(j, v)), outer, inner) == rows_excess(
            rows,
            outer,
            inner,
        ) by {
        assert(rows[i].update(j, v).subrange(inner, rows[i].len() as int) =~= rows[i].subrange(
            inner,
            rows[i].len() as int,
        ));
        assert(rows_excess(rows.update(i, rows[i].update(j, v)), outer, inner) =~= rows_excess(
            rows,
            outer,
            inner,
        ));
    }
}

/// There are at least `outer` vectors, and each of the first `outer` holds
/// at least `inner` items.
pub open spec fn rows_cover<T>(rows: Seq<Vec<T>>, outer: int, inner: int) -> bool {
    rows_cover_seqs(rows_view(rows), outer, inner)
}

/// `e` reports the first fault of `rows` against `outer` rows of at least
/// `inner` items: too few rows, or else the first short row among them.
pub open spec fn reports_rows<T>(e: BufferSizeError, rows: Seq<Seq<T>>, outer: int, inner: int) -> bool {
    if rows.len() < outer {
        reports_short(e, rows.len() as int, outer)
    } else {
        &&& e.entry matches Some(i) && i < outer && e.actual == rows[i as int].len() && e.actual
            < inner && forall|k: int| 0 <= k < i ==> #[trigger] rows[k].len() >= inner
        &&& e.required == inner
    }
}

/// Replacing one vector changes the view of that row alone.
proof fn lemma_rows_update<T>(rows: Seq<Vec<T>>, i: int)
    requires
        0 <= i < rows.len(),
    ensures
        forall|w: Vec<T>| #[trigger] rows_view(rows.update(i, w)) == rows_view(rows).update(i, w@),
{
    assert forall|w: Vec<T>| #[trigger] rows_view(rows.update(i, w)) == rows_view(rows).update(i, w@) by {
        assert(rows_view(rows.update(i, w)) =~= rows_view(rows).update(i, w@));
    }
}

/// Checks that `buf` holds at least `outer` vectors, and that each of the
/// first `outer` is at least `inner` long.
fn check_rows<T>(buf: &[Vec<T>], outer: usize, inner: usize, few: &str, row: &str) -> (r: Result<(), BufferSizeError>)
    ensures
        r is Ok <==> rows_cover(buf@, outer as int, inner as int),
        r matches Err(e) ==> reports_rows(e, rows_view(buf@), outer as int, inner as int),
{
    if buf.len() < outer {
        return Err(too_short(few, buf.len(), outer));
    }
    let mut i: usize = 0;
    while i < outer
        invariant
            outer <= buf@.len(),
            i <= outer,
            forall|j: int| 0 <= j < i ==> #[trigger] buf@[j]@.len() >= inner,
        decreases outer - i,
    {
        if buf[i].len() < inner {
            assert(rows_view(buf@)[i as int].len() < inner);
            assert forall|k: int| 0 <= k < i implies #[trigger] rows_view(buf@)[k].len() >= inner by {
                assert(buf@[k]@.len() >= inner);
            }
            return Err(entry_too_short(row, i, buf[i].len(), inner));
        }
        i = i + 1;
    }
    Ok(())
}

/// A slice of per-channel vectors, each holding the frames of one channel:
/// `buf[channel][frame]`.
pub struct SequentialSliceOfVecs<U> {
    buf: U,
    frames: usize,
    channels: usize,
}

impl<'a, T: Copy> SequentialSliceOfVecs<&'a [Vec<T>]> {
    /// Wraps `buf`, which must hold at least `channels` vectors, each of
    /// them at least `frames` long.
    pub fn new(buf: &'a [Vec<T>], channels: usize, frames: usize) -> (r: Result<Self, BufferSizeError>)
        ensures
            r is Ok <==> rows_cover(buf@, channels as int, frames as int),
            r matches Err(e) ==> reports_rows(e, rows_view(buf@), channels as int, frames as int),
            r matches Ok(w) ==> w.valid() && w.data() == rows_view(buf@) && w.spec_channels() == channels
                && w.spec_frames() == frames,
    {
        match check_rows(buf, channels, frames, "Too few channels", "Channel") {
            Ok(()) => Ok(SequentialSliceOfVecs { buf, frames, channels }),
            Err(e) => Err(e),
        }
    }

    /// The wrapped vectors, as sequences.
    pub closed spec fn data(&self) -> Seq<Seq<T>> {
        rows_view(self.buf@)
    }

    /// The declared number of channels.
    pub closed spec fn channel_count(&self) -> nat {
        self.channels as nat
    }

    /// The declared number of frames.
    pub closed spec fn frame_count(&self) -> nat {
        self.frames as nat
    }
}

impl<'a, T: Copy> SequentialSliceOfVecs<&'a mut [Vec<T>]> {
    /// Wraps `buf` for reading and writing; it must hold at least `channels`
    /// vectors, each of them at least `frames` long.
    pub fn new_mut(buf: &'a mut [Vec<T>], channels: usize, frames: usize) -> (r: Result<
        Self,
        BufferSizeError,
    >)
        ensures
            r is Ok <==> rows_cover(old(buf)@, channels as int, frames as int),
            r matches Err(e) ==> reports_rows(e, rows_view(old(buf)@), channels as int, frames as int),
            r matches Ok(w) ==> w.valid() && w.data() == rows_view(old(buf)@) && w.spec_channels() == channels
                && w.spec_frames() == frames,
    {
        match check_rows(buf, channels, frames, "Too few channels", "Channel") {
            Ok(()) => Ok(SequentialSliceOfVecs { buf, frames, channels }),
            Err(e) => Err(e),
        }
    }

    /// The wrapped vectors, as sequences.
    pub closed spec fn data(&self) -> Seq<Seq<T>> {
        rows_view(self.buf@)
    }

    /// The declared number of channels.
    pub closed spec fn channel_count(&self) -> nat {
        self.channels as nat
    }

    /// The declared number of frames.
    pub closed spec fn frame_count(&self) -> nat {
        self.frames as nat
    }
}

impl<'a, T: Copy> AudioBuffer<T> for SequentialSliceOfVecs<&'a [Vec<T>]> {
    open spec fn spec_channels(&self) -> nat {
        self.channel_count()
    }

    open spec fn spec_frames(&self) -> nat {
        self.frame_count()
    }

    open spec fn spec_sample(&self, channel: int, frame: int) -> T {
        self.data()[channel][frame]
    }

    open spec fn spec_excess(&self) -> Seq<Seq<T>> {
        rows_excess(self.data(), self.channel_count() as int, self.frame_count() as int)
    }

    open spec fn valid(&self) -> bool {
        rows_cover_seqs(self.data(), self.channel_count() as int, self.frame_count() as int)
    }

    fn channels(&self) -> usize {
        self.channels
    }

    fn frames(&self) -> usize {
        self.frames
    }

    fn get_unchecked(&self, channel: usize, frame: usize) -> &T {
        proof {
            assert(rows_view(self.buf@)[channel as int].len() >= self.frames);
        }
        &self.buf[channel][frame]
    }
}

impl<'a, T: Copy> AudioBuffer<T> for SequentialSliceOfVecs<&'a mut [Vec<T>]> {
    open spec fn spec_channels(&self) -> nat {
        self.channel_count()
    }

    open spec fn spec_frames(&self) -> nat {
        self.frame_count()
    }

    open spec fn spec_sample(&self, channel: int, frame: int) -> T {
        self.data()[channel][frame]
    }

    open spec fn spec_excess(&self) -> Seq<Seq<T>> {
        rows_excess(self.data(), self.channel_count() as int, self.frame_count() as int)
    }

    open spec fn valid(&self) -> bool {
        rows_cover_seqs(self.data(), self.channel_count() as int, self.frame_count() as int)
    }

    fn channels(&self) -> usize {
        self.channels
    }

    fn frames(&self) -> usize {
        self.frames
    }

    fn get_unchecked(&self, channel: usize, frame: usize) -> &T {
        proof {
            assert(rows_view(self.buf@)[channel as int].len() >= self.frames);
        }
        &self.buf[channel][frame]
    }
}

impl<'a, T: Copy> AudioBufferMut<T> for SequentialSliceOfVecs<&'a mut [Vec<T>]> {
    fn get_unchecked_mut(&mut self, channel: usize, frame: usize) -> &mut T {
        proof {
            assert(rows_view(self.buf@)[channel as int].len() >= self.frames);
            lemma_rows_update(self.buf@, channel as int);
            lemma_rows_excess_update(rows_view(self.buf@), self.channels as int, self.frames as int, channel as int, frame as int);
        }
        &mut self.buf[channel][frame]
    }
}

/// A slice of per-frame vectors, each holding the channels of one frame:
/// `buf[frame][channel]`.
pub struct InterleavedSliceOfVecs<U> {
    buf: U,
    frames: usize,
    channels: usize,
}

impl<'a, T: Copy> InterleavedSliceOfVecs<&'a [Vec<T>]> {
    /// Wraps `buf`, which must hold at least `frames` vectors, each of
    /// them at least `channels` long.
    pub fn new(buf: &'a [Vec<T>], channels: usize, frames: usize) -> (r: Result<Self, BufferSizeError>)
        ensures
            r is Ok <==> rows_cover(buf@, frames as int, channels as int),
            r matches Err(e) ==> reports_rows(e, rows_view(buf@), frames as int, channels as int),
            r matches Ok(w) ==> w.valid() && w.data() == rows_view(buf@) && w.spec_channels() == channels
                && w.spec_frames() == frames,
    {
        match check_rows(buf, frames, channels, "Too few frames", "Frame") {
            Ok(()) => Ok(InterleavedSliceOfVecs { buf, frames, channels }),
            Err(e) => Err(e),
        }
    }

    /// The wrapped vectors, as sequences.
    pub closed spec fn data(&self) -> Seq<Seq<T>> {
        rows_view(self.buf@)
    }

    /// The declared number of channels.
    pub closed spec fn channel_count(&self) -> nat {
        self.channels as nat
    }

    /// The declared number of frames.
    pub closed spec fn frame_count(&self) -> nat {
        self.frames as nat
    }
}

impl<'a, T: Copy> InterleavedSliceOfVecs<&'a mut [Vec<T>]> {
    /// Wraps `buf` for reading and writing; it must hold at least `frames`
    /// vectors, each of them at least `channels` long.
    pub fn new_mut(buf: &'a mut [Vec<T>], channels: usize, frames: usize) -> (r: Result<
        Self,
        BufferSizeError,
    >)
        ensures
            r is Ok <==> rows_cover(old(buf)@, frames as int, channels as int),
            r matches Err(e) ==> reports_rows(e, rows_view(old(buf)@), frames as int, channels as int),
            r matches Ok(w) ==> w.valid() && w.data() == rows_view(old(buf)@) && w.spec_channels() == channels
                && w.spec_frames() == frames,
    {
        match check_rows(buf, frames, channels, "Too few frames", "Frame") {
            Ok(()) => Ok(InterleavedSliceOfVecs { buf, frames, channels }),
            Err(e) => Err(e),
        }
    }

    /// The wrapped vectors, as sequences.
    pub closed spec fn data(&self) -> Seq<Seq<T>> {
        rows_view(self.buf@)
    }

    /// The declared number of channels.
    pub closed spec fn channel_count(&self) -> nat {
        self.channels as nat
    }

    /// The declared number of frames.
    pub closed spec fn frame_count(&self) -> nat {
        self.frames as nat
    }
}

impl<'a, T: Copy> AudioBuffer<T> for InterleavedSliceOfVecs<&'a [Vec<T>]> {
    open spec fn spec_channels(&self) -> nat {
        self.channel_count()
    }

    open spec fn spec_frames(&self) -> nat {
        self.frame_count()
    }

    open spec fn spec_sample(&self, channel: int, frame: int) -> T {
        self.data()[frame][channel]
    }

    open spec fn spec_excess(&self) -> Seq<Seq<T>> {
        rows_excess(self.data(), self.frame_count() as int, self.channel_count() as int)
    }

    open spec fn valid(&self) -> bool {
        rows_cover_seqs(self.data(), self.frame_count() as int, self.channel_count() as int)
    }

    fn channels(&self) -> usize {
        self.channels
    }

    fn frames(&self) -> usize {
        self.frames
    }

    fn get_unchecked(&self, channel: usize, frame: usize) -> &T {
        proof {
            assert(rows_view(self.buf@)[frame as int].len() >= self.channels);
        }
        &self.buf[frame][channel]
    }
}

impl<'a, T: Copy> AudioBuffer<T> for InterleavedSliceOfVecs<&'a mut [Vec<T>]> {
    open spec fn spec_channels(&self) -> nat {
        self.channel_count()
    }

    open spec fn spec_frames(&self) -> nat {
        self.frame_count()
    }

    open spec fn spec_sample(&self, channel: int, frame: int) -> T {
        self.data()[frame][channel]
    }

    open spec fn spec_excess(&self) -> Seq<Seq<T>> {
        rows_excess(self.data(), self.frame_count() as int, self.channel_count() as int)
    }

    open spec fn valid(&self) -> bool {
        rows_cover_seqs(self.data(), self.frame_count() as int, self.channel_count() as int)
    }

    fn channels(&self) -> usize {
        self.channels
    }

    fn frames(&self) -> usize {
        self.frames
    }

    fn get_unchecked(&self, channel: usize, frame: usize) -> &T {
        proof {
            assert(rows_view(self.buf@)[frame as int].len() >= self.channels);
        }
        &self.buf[frame][channel]
    }
}

impl<'a, T: Copy> AudioBufferMut<T> for InterleavedSliceOfVecs<&'a mut [Vec<T>]> {
    fn get_unchecked_mut(&mut self, channel: usize, frame: usize) -> &mut T {
        proof {
            assert(rows_view(self.buf@)[frame as int].len() >= self.channels);
            lemma_rows_update(self.buf@, frame as int);
            lemma_rows_excess_update(rows_view(self.buf@), self.frames as int, self.channels as int, frame as int, channel as int);
        }
        &mut self.buf[frame][channel]
    }
}

} // verus!
