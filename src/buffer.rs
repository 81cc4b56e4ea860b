use vstd::prelude::*;

verus! {

/// How many samples a bulk transfer moves: nothing when `index` is not below
/// `count` or `start` is not below `extent`, else the run from `start` to the
/// end of the extent, cut to the length of the caller's buffer.
pub open spec fn run_length(index: int, count: int, start: int, extent: int, len: int) -> int {
    if index >= count || start >= extent {
        0
    } else if extent - start < len {
        extent - start
    } else {
        len
    }
}

/// Read access to the samples of a buffer, addressed by channel and frame,
/// whatever the physical layout behind it.
pub trait AudioBuffer<T: Copy> {
    /// The number of channels.
    spec fn spec_channels(&self) -> nat;

    /// The number of frames.
    spec fn spec_frames(&self) -> nat;

    /// The sample at (`channel`, `frame`), for a position within the extents.
    spec fn spec_sample(&self, channel: int, frame: int) -> T;

    /// The storage past the extents, which no access through the buffer
    /// reads or changes.
    spec fn spec_excess(&self) -> Seq<Seq<T>>;

    /// The backing storage covers every position within the extents.
    spec fn valid(&self) -> bool;

    /// The number of channels.
    fn channels(&self) -> (r: usize)
        ensures
            r == self.spec_channels(),
    ;

    /// The number of frames.
    fn frames(&self) -> (r: usize)
        ensures
            r == self.spec_frames(),
    ;

    /// The sample at (`channel`, `frame`), which the caller has already
    /// checked to be within the extents.
    fn get_unchecked(&self, channel: usize, frame: usize) -> (r: &T)
        requires
            self.valid(),
            channel < self.spec_channels(),
            frame < self.spec_frames(),
        ensures
            *r == self.spec_sample(channel as int, frame as int),
    ;

    /// The sample at (`channel`, `frame`), or `None` when either index is
    /// outside the extents.
    fn get(&self, channel: usize, frame: usize) -> (r: Option<&T>)
        requires
            self.valid(),
        ensures
            channel < self.spec_channels() && frame < self.spec_frames() ==> (r matches Some(v) && *v
                == self.spec_sample(channel as int, frame as int)),
            !(channel < self.spec_channels() && frame < self.spec_frames()) ==> r is None,
    {
        if channel >= self.channels() || frame >= self.frames() {
            return None;
        }
        Some(self.get_unchecked(channel, frame))
    }

    /// Copies the samples of `channel`, from frame `start` on, into `slice`,
    /// and returns how many were copied. The rest of `slice` is left as it was.
    fn write_from_channel_to_slice(&self, channel: usize, start: usize, slice: &mut [T]) -> (n:
        usize)
        requires
            self.valid(),
        ensures
            n == run_length(
                channel as int,
                self.spec_channels() as int,
                start as int,
                self.spec_frames() as int,
                old(slice)@.len() as int,
            ),
            final(slice)@.len() == old(slice)@.len(),
            forall|i: int|
                0 <= i < n ==> #[trigger] final(slice)@[i] == self.spec_sample(
                    channel as int,
                    start + i,
                ),
            forall|i: int| n <= i < old(slice)@.len() ==> #[trigger] final(slice)@[i] == old(slice)@[i],
    {
        if channel >= self.channels() || start >= self.frames() {
            return 0;
        }
        let count: usize = if self.frames() - start < slice.len() {
            self.frames() - start
        } else {
            slice.len()
        };
        let mut n: usize = 0;
        while n < count
            invariant
                n <= count,
                count <= slice@.len(),
                start + count <= self.spec_frames(),
                start + count <= usize::MAX,
                channel < self.spec_channels(),
                self.valid(),
                slice@.len() == old(slice)@.len(),
                forall|i: int| 0 <= i < n ==> #[trigger] slice@[i] == self.spec_sample(
                    channel as int,
                    start + i,
                ),
                forall|i: int| n <= i < old(slice)@.len() ==> #[trigger] slice@[i] == old(slice)@[i],
            decreases count - n,
        {
            let v = *self.get_unchecked(channel, start + n);
            slice[n] = v;
            n = n + 1;
        }
        count
    }

    /// Copies the samples of `frame`, from channel `start` on, into `slice`,
    /// and returns how many were copied. The rest of `slice` is left as it was.
    fn write_from_frame_to_slice(&self, frame: usize, start: usize, slice: &mut [T]) -> (n: usize)
        requires
            self.valid(),
        ensures
            n == run_length(
                frame as int,
                self.spec_frames() as int,
                start as int,
                self.spec_channels() as int,
                old(slice)@.len() as int,
            ),
            final(slice)@.len() == old(slice)@.len(),
            forall|i: int|
                0 <= i < n ==> #[trigger] final(slice)@[i] == self.spec_sample(
                    start + i,
                    frame as int,
                ),
            forall|i: int| n <= i < old(slice)@.len() ==> #[trigger] final(slice)@[i] == old(slice)@[i],
    {
        if frame >= self.frames() || start >= self.channels() {
            return 0;
        }
        let count: usize = if self.channels() - start < slice.len() {
            self.channels() - start
        } else {
            slice.len()
        };
        let mut n: usize = 0;
        while n < count
            invariant
                n <= count,
                count <= slice@.len(),
                start + count <= self.spec_channels(),
                start + count <= usize::MAX,
                frame < self.spec_frames(),
                self.valid(),
                slice@.len() == old(slice)@.len(),
                forall|i: int| 0 <= i < n ==> #[trigger] slice@[i] == self.spec_sample(
                    start + i,
                    frame as int,
                ),
                forall|i: int| n <= i < old(slice)@.len() ==> #[trigger] slice@[i] == old(slice)@[i],
            decreases count - n,
        {
            let v = *self.get_unchecked(start + n, frame);
            slice[n] = v;
            n = n + 1;
        }
        count
    }
}

/// `after` holds what `before` held, but for the sample at (`channel`,
/// `frame`), which is `value`; the extents are the same.
pub open spec fn replaced<T: Copy, B: AudioBuffer<T>>(
    before: B,
    after: B,
    channel: int,
    frame: int,
    value: T,
) -> bool {
    &&& after.valid()
    &&& after.spec_channels() == before.spec_channels()
    &&& after.spec_frames() == before.spec_frames()
    &&& after.spec_excess() == before.spec_excess()
    &&& forall|c: int, f: int|
        0 <= c < before.spec_channels() && 0 <= f < before.spec_frames() ==> #[trigger] after.spec_sample(c, f) == if c == channel && f == frame {
            value
        } else {
            before.spec_sample(c, f)
        }
}

/// Write access to the samples of a buffer, addressed by channel and frame.
pub trait AudioBufferMut<T: Copy>: AudioBuffer<T> + Sized {
    /// A mutable handle on the sample at (`channel`, `frame`), which the
    /// caller has already checked to be within the extents.
    fn get_unchecked_mut(&mut self, channel: usize, frame: usize) -> (r: &mut T)
        requires
            old(self).valid(),
            channel < old(self).spec_channels(),
            frame < old(self).spec_frames(),
        ensures
            *r == old(self).spec_sample(channel as int, frame as int),
            replaced(*old(self), *final(self), channel as int, frame as int, *final(r)),
    ;

    /// A mutable handle on the sample at (`channel`, `frame`), or `None` when
    /// either index is outside the extents.
    fn get_mut(&mut self, channel: usize, frame: usize) -> (r: Option<&mut T>)
        requires
            old(self).valid(),
        ensures
            channel < old(self).spec_channels() && frame < old(self).spec_frames() ==> (r matches Some(v) && *v == old(self).spec_sample(channel as int, frame as int)
                && replaced(*old(self), *final(self), channel as int, frame as int, *final(v))),
            !(channel < old(self).spec_channels() && frame < old(self).spec_frames()) ==> r is None
                && *final(self) == *old(self),
    {
        if channel >= self.channels() || frame >= self.frames() {
            return None;
        }
        Some(self.get_unchecked_mut(channel, frame))
    }

    /// Copies `slice` into `channel` from frame `start` on, and returns how
    /// many samples were copied. All other samples keep their values.
    fn read_into_channel_from_slice(&mut self, channel: usize, start: usize, slice: &[T]) -> (n:
        usize)
        requires
            old(self).valid(),
        ensures
            n == run_length(
                channel as int,
                old(self).spec_channels() as int,
                start as int,
                old(self).spec_frames() as int,
                slice@.len() as int,
            ),
            final(self).valid(),
            final(self).spec_channels() == old(self).spec_channels(),
            final(self).spec_frames() == old(self).spec_frames(),
            final(self).spec_excess() == old(self).spec_excess(),
            forall|c: int, f: int|
                0 <= c < old(self).spec_channels() && 0 <= f < old(self).spec_frames() ==> #[trigger] final(self).spec_sample(c, f) == if c == channel && start <= f < start + n {
                    slice@[f - start]
                } else {
                    old(self).spec_sample(c, f)
                },
    {
        if channel >= self.channels() || start >= self.frames() {
            return 0;
        }
        let count: usize = if self.frames() - start < slice.len() {
            self.frames() - start
        } else {
            slice.len()
        };
        let mut n: usize = 0;
        while n < count
            invariant
                n <= count,
                count <= slice@.len(),
                start + count <= old(self).spec_frames(),
                start + count <= usize::MAX,
                channel < old(self).spec_channels(),
                self.valid(),
                self.spec_channels() == old(self).spec_channels(),
                self.spec_frames() == old(self).spec_frames(),
                self.spec_excess() == old(self).spec_excess(),
                forall|c: int, f: int|
                    0 <= c < old(self).spec_channels() && 0 <= f < old(self).spec_frames() ==> #[trigger] self.spec_sample(c, f) == if c == channel && start <= f < start + n {
                        slice@[f - start]
                    } else {
                        old(self).spec_sample(c, f)
                    },
            decreases count - n,
        {
            let v = slice[n];
            let target = self.get_unchecked_mut(channel, start + n);
            *target = v;
            n = n + 1;
        }
        count
    }

    /// Copies `slice` into `frame` from channel `start` on, and returns how
    /// many samples were copied. All other samples keep their values.
    fn read_into_frame_from_slice(&mut self, frame: usize, start: usize, slice: &[T]) -> (n: usize)
        requires
            old(self).valid(),
        ensures
            n == run_length(
                frame as int,
                old(self).spec_frames() as int,
                start as int,
                old(self).spec_channels() as int,
                slice@.len() as int,
            ),
            final(self).valid(),
            final(self).spec_channels() == old(self).spec_channels(),
            final(self).spec_frames() == old(self).spec_frames(),
            final(self).spec_excess() == old(self).spec_excess(),
            forall|c: int, f: int|
                0 <= c < old(self).spec_channels() && 0 <= f < old(self).spec_frames() ==> #[trigger] final(self).spec_sample(c, f) == if f == frame && start <= c < start + n {
                    slice@[c - start]
                } else {
                    old(self).spec_sample(c, f)
                },
    {
        if frame >= self.frames() || start >= self.channels() {
            return 0;
        }
        let count: usize = if self.channels() - start < slice.len() {
            self.channels() - start
        } else {
            slice.len()
        };
        let mut n: usize = 0;
        while n < count
            invariant
                n <= count,
                count <= slice@.len(),
                start + count <= old(self).spec_channels(),
                start + count <= usize::MAX,
                frame < old(self).spec_frames(),
                self.valid(),
                self.spec_channels() == old(self).spec_channels(),
                self.spec_frames() == old(self).spec_frames(),
                self.spec_excess() == old(self).spec_excess(),
                forall|c: int, f: int|
                    0 <= c < old(self).spec_channels() && 0 <= f < old(self).spec_frames() ==> #[trigger] self.spec_sample(c, f) == if f == frame && start <= c < start + n {
                        slice@[c - start]
                    } else {
                        old(self).spec_sample(c, f)
                    },
            decreases count - n,
        {
            let v = slice[n];
            let target = self.get_unchecked_mut(start + n, frame);
            *target = v;
            n = n + 1;
        }
        count
    }
}

} // verus!
