//! Iteration over the samples of one channel or one frame, and over all
//! channels or all frames, of any buffer.

use vstd::prelude::*;
use crate::buffer::{AudioBuffer, AudioBufferMut, replaced};

verus! {

/// The samples of one channel, in ascending frame order.
pub struct ChannelSamples<'b, B> {
    buf: &'b B,
    index: usize,
    position: usize,
    end: usize,
}

impl<'b, B> ChannelSamples<'b, B> {
    /// The buffer that is walked.
    pub closed spec fn buffer(&self) -> B {
        *self.buf
    }

    /// The channel that is walked.
    pub closed spec fn index(&self) -> nat {
        self.index as nat
    }

    /// The frame of the next sample.
    pub closed spec fn position(&self) -> nat {
        self.position as nat
    }

    /// The number of frames.
    pub closed spec fn end(&self) -> nat {
        self.end as nat
    }

    /// Walks channel `index` of `buffer`, or returns `None` when there is
    /// no such channel.
    pub fn new<T: Copy>(buffer: &'b B, index: usize) -> (r: Option<Self>)
        where
            B: AudioBuffer<T>,
        requires
            buffer.valid(),
        ensures
            index < buffer.spec_channels() ==> (r matches Some(it) && it.buffer() == *buffer
                && it.index() == index && it.position() == 0 && it.end() == buffer.spec_frames()),
            index >= buffer.spec_channels() ==> r is None,
    {
        if index >= buffer.channels() {
            return None;
        }
        let end = buffer.frames();
        Some(ChannelSamples { buf: buffer, index, position: 0, end })
    }

    /// The next sample, or `None` after the last one.
    pub fn next<T: Copy>(&mut self) -> (r: Option<&'b T>)
        where
            B: AudioBuffer<T>,
        requires
            old(self).buffer().valid(),
            old(self).index() < old(self).buffer().spec_channels(),
            old(self).end() == old(self).buffer().spec_frames(),
        ensures
            final(self).buffer() == old(self).buffer(),
            final(self).index() == old(self).index(),
            final(self).end() == old(self).end(),
            old(self).position() < old(self).end() ==> (r matches Some(v) && *v
                == old(self).buffer().spec_sample(old(self).index() as int, old(self).position() as int) && final(self).position()
                == old(self).position() + 1),
            old(self).position() >= old(self).end() ==> r is None && final(self).position()
                == old(self).position(),
    {
        if self.position >= self.end {
            return None;
        }
        let v = self.buf.get_unchecked(self.index, self.position);
        self.position = self.position + 1;
        Some(v)
    }
}

/// The channels of a buffer, each walked as a `ChannelSamples`, in ascending order.
pub struct Channels<'b, B> {
    buf: &'b B,
    position: usize,
    end: usize,
}

impl<'b, B> Channels<'b, B> {
    /// The buffer that is walked.
    pub closed spec fn buffer(&self) -> B {
        *self.buf
    }

    /// The next channel.
    pub closed spec fn position(&self) -> nat {
        self.position as nat
    }

    /// The number of channels.
    pub closed spec fn end(&self) -> nat {
        self.end as nat
    }

    /// Walks the channels of `buffer`.
    pub fn new<T: Copy>(buffer: &'b B) -> (r: Self)
        where
            B: AudioBuffer<T>,
        ensures
            r.buffer() == *buffer,
            r.position() == 0,
            r.end() == buffer.spec_channels(),
    {
        let end = buffer.channels();
        Channels { buf: buffer, position: 0, end }
    }

    /// The next channel, or `None` after the last one.
    pub fn next<T: Copy>(&mut self) -> (r: Option<ChannelSamples<'b, B>>)
        where
            B: AudioBuffer<T>,
        requires
            old(self).buffer().valid(),
            old(self).end() == old(self).buffer().spec_channels(),
        ensures
            final(self).buffer() == old(self).buffer(),
            final(self).end() == old(self).end(),
            old(self).position() < old(self).end() ==> (r matches Some(it) && it.buffer()
                == old(self).buffer() && it.index() == old(self).position() && it.position() == 0
                && it.end() == old(self).buffer().spec_frames() && final(self).position()
                == old(self).position() + 1),
            old(self).position() >= old(self).end() ==> r is None && final(self).position()
                == old(self).position(),
    {
        if self.position >= self.end {
            return None;
        }
        let it = ChannelSamples::new::<T>(self.buf, self.position);
        self.position = self.position + 1;
        it
    }
}

/// The samples of one frame, in ascending channel order.
pub struct FrameSamples<'b, B> {
    buf: &'b B,
    index: usize,
    position: usize,
    end: usize,
}

impl<'b, B> FrameSamples<'b, B> {
    /// The buffer that is walked.
    pub closed spec fn buffer(&self) -> B {
        *self.buf
    }

    /// The frame that is walked.
    pub closed spec fn index(&self) -> nat {
        self.index as nat
    }

    /// The channel of the next sample.
    pub closed spec fn position(&self) -> nat {
        self.position as nat
    }

    /// The number of channels.
    pub closed spec fn end(&self) -> nat {
        self.end as nat
    }

    /// Walks frame `index` of `buffer`, or returns `None` when there is
    /// no such frame.
    pub fn new<T: Copy>(buffer: &'b B, index: usize) -> (r: Option<Self>)
        where
            B: AudioBuffer<T>,
        requires
            buffer.valid(),
        ensures
            index < buffer.spec_frames() ==> (r matches Some(it) && it.buffer() == *buffer
                && it.index() == index && it.position() == 0 && it.end() == buffer.spec_channels()),
            index >= buffer.spec_frames() ==> r is None,
    {
        if index >= buffer.frames() {
            return None;
        }
        let end = buffer.channels();
        Some(FrameSamples { buf: buffer, index, position: 0, end })
    }

    /// The next sample, or `None` after the last one.
    pub fn next<T: Copy>(&mut self) -> (r: Option<&'b T>)
        where
            B: AudioBuffer<T>,
        requires
            old(self).buffer().valid(),
            old(self).index() < old(self).buffer().spec_frames(),
            old(self).end() == old(self).buffer().spec_channels(),
        ensures
            final(self).buffer() == old(self).buffer(),
            final(self).index() == old(self).index(),
            final(self).end() == old(self).end(),
            old(self).position() < old(self).end() ==> (r matches Some(v) && *v
                == old(self).buffer().spec_sample(old(self).position() as int, old(self).index() as int) && final(self).position()
                == old(self).position() + 1),
            old(self).position() >= old(self).end() ==> r is None && final(self).position()
                == old(self).position(),
    {
        if self.position >= self.end {
            return None;
        }
        let v = self.buf.get_unchecked(self.position, self.index);
        self.position = self.position + 1;
        Some(v)
    }
}

/// The frames of a buffer, each walked as a `FrameSamples`, in ascending order.
pub struct Frames<'b, B> {
    buf: &'b B,
    position: usize,
    end: usize,
}

impl<'b, B> Frames<'b, B> {
    /// The buffer that is walked.
    pub closed spec fn buffer(&self) -> B {
        *self.buf
    }

    /// The next frame.
    pub closed spec fn position(&self) -> nat {
        self.position as nat
    }

    /// The number of frames.
    pub closed spec fn end(&self) -> nat {
        self.end as nat
    }

    /// Walks the frames of `buffer`.
    pub fn new<T: Copy>(buffer: &'b B) -> (r: Self)
        where
            B: AudioBuffer<T>,
        ensures
            r.buffer() == *buffer,
            r.position() == 0,
            r.end() == buffer.spec_frames(),
    {
        let end = buffer.frames();
        Frames { buf: buffer, position: 0, end }
    }

    /// The next frame, or `None` after the last one.
    pub fn next<T: Copy>(&mut self) -> (r: Option<FrameSamples<'b, B>>)
        where
            B: AudioBuffer<T>,
        requires
            old(self).buffer().valid(),
            old(self).end() == old(self).buffer().spec_frames(),
        ensures
            final(self).buffer() == old(self).buffer(),
            final(self).end() == old(self).end(),
            old(self).position() < old(self).end() ==> (r matches Some(it) && it.buffer()
                == old(self).buffer() && it.index() == old(self).position() && it.position() == 0
                && it.end() == old(self).buffer().spec_channels() && final(self).position()
                == old(self).position() + 1),
            old(self).position() >= old(self).end() ==> r is None && final(self).position()
                == old(self).position(),
    {
        if self.position >= self.end {
            return None;
        }
        let it = FrameSamples::new::<T>(self.buf, self.position);
        self.position = self.position + 1;
        it
    }
}


/// Mutable handles on the samples of one channel, in ascending
/// frame order; each sample is handed out once.
pub struct ChannelSamplesMut<'b, B> {
    /// The buffer that is walked.
    pub buf: &'b mut B,
    /// The channel that is walked.
    pub index: usize,
    /// The frame of the next sample.
    pub position: usize,
    /// The number of frames.
    pub end: usize,
}

impl<'b, B> ChannelSamplesMut<'b, B> {
    /// The buffer that is walked, as it stands.
    pub closed spec fn buffer(&self) -> B {
        *self.buf
    }

    /// The channel that is walked.
    pub closed spec fn index(&self) -> nat {
        self.index as nat
    }

    /// The frame of the next sample.
    pub closed spec fn position(&self) -> nat {
        self.position as nat
    }

    /// The number of frames.
    pub closed spec fn end(&self) -> nat {
        self.end as nat
    }

    /// Walks channel `index` of `buffer`, or returns `None` when there is
    /// no such channel.
    pub fn new<T: Copy>(buffer: &'b mut B, index: usize) -> (r: Option<Self>)
        where
            B: AudioBufferMut<T>,
        requires
            old(buffer).valid(),
        ensures
            index < old(buffer).spec_channels() ==> (r matches Some(it) && it.buffer()
                == *old(buffer) && *final(it.buf) == *final(buffer) && it.index() == index && it.position() == 0 && it.end()
                == old(buffer).spec_frames()),
            index >= old(buffer).spec_channels() ==> r is None,
    {
        if index >= buffer.channels() {
            return None;
        }
        let end = buffer.frames();
        Some(ChannelSamplesMut { buf: buffer, index, position: 0, end })
    }

    /// A mutable handle on the next sample, or `None` after the last one.
    pub fn next<T: Copy>(&mut self) -> (r: Option<&mut T>)
        where
            B: AudioBufferMut<T>,
        requires
            old(self).buffer().valid(),
            old(self).index() < old(self).buffer().spec_channels(),
            old(self).end() == old(self).buffer().spec_frames(),
        ensures
            final(self).index() == old(self).index(),
            final(self).end() == old(self).end(),
            *final(final(self).buf) == *final(old(self).buf),
            old(self).position() < old(self).end() ==> (r matches Some(v) && *v
                == old(self).buffer().spec_sample(old(self).index() as int, old(self).position() as int) && replaced(
                old(self).buffer(),
                final(self).buffer(),
                old(self).index() as int, old(self).position() as int,
                *final(v),
            ) && final(self).position() == old(self).position() + 1),
            old(self).position() >= old(self).end() ==> r is None && *final(self) == *old(self),
    {
        if self.position >= self.end {
            return None;
        }
        let p = self.position;
        self.position = p + 1;
        Some(self.buf.get_unchecked_mut(self.index, p))
    }
}

/// The channels of a buffer, each walked as a `ChannelSamplesMut`, in ascending order.
pub struct ChannelsMut<'b, B> {
    /// The buffer that is walked.
    pub buf: &'b mut B,
    /// The next channel.
    pub position: usize,
    /// The number of channels.
    pub end: usize,
}

impl<'b, B> ChannelsMut<'b, B> {
    /// The buffer that is walked, as it stands.
    pub closed spec fn buffer(&self) -> B {
        *self.buf
    }

    /// The next channel.
    pub closed spec fn position(&self) -> nat {
        self.position as nat
    }

    /// The number of channels.
    pub closed spec fn end(&self) -> nat {
        self.end as nat
    }

    /// Walks the channels of `buffer`.
    pub fn new<T: Copy>(buffer: &'b mut B) -> (r: Self)
        where
            B: AudioBufferMut<T>,
        ensures
            r.buffer() == *old(buffer),
            *final(r.buf) == *final(buffer),
            r.position() == 0,
            r.end() == old(buffer).spec_channels(),
    {
        let end = buffer.channels();
        ChannelsMut { buf: buffer, position: 0, end }
    }

    /// The next channel, or `None` after the last one; the samples of
    /// each are reached through the returned walker while it lives.
    pub fn next<T: Copy>(&mut self) -> (r: Option<ChannelSamplesMut<'_, B>>)
        where
            B: AudioBufferMut<T>,
        requires
            old(self).buffer().valid(),
            old(self).end() == old(self).buffer().spec_channels(),
        ensures
            final(self).end() == old(self).end(),
            *final(final(self).buf) == *final(old(self).buf),
            old(self).position() < old(self).end() ==> (r matches Some(it) && it.buffer()
                == old(self).buffer() && *final(it.buf) == *final(self).buf && it.index()
                == old(self).position() && it.position() == 0
                && it.end() == old(self).buffer().spec_frames() && final(self).position()
                == old(self).position() + 1),
            old(self).position() >= old(self).end() ==> r is None && *final(self) == *old(self),
    {
        if self.position >= self.end {
            return None;
        }
        let p = self.position;
        self.position = p + 1;
        ChannelSamplesMut::new::<T>(&mut *self.buf, p)
    }
}

/// Mutable handles on the samples of one frame, in ascending
/// channel order; each sample is handed out once.
pub struct FrameSamplesMut<'b, B> {
    /// The buffer that is walked.
    pub buf: &'b mut B,
    /// The frame that is walked.
    pub index: usize,
    /// The channel of the next sample.
    pub position: usize,
    /// The number of channels.
    pub end: usize,
}

impl<'b, B> FrameSamplesMut<'b, B> {
    /// The buffer that is walked, as it stands.
    pub closed spec fn buffer(&self) -> B {
        *self.buf
    }

    /// The frame that is walked.
    pub closed spec fn index(&self) -> nat {
        self.index as nat
    }

    /// The channel of the next sample.
    pub closed spec fn position(&self) -> nat {
        self.position as nat
    }

    /// The number of channels.
    pub closed spec fn end(&self) -> nat {
        self.end as nat
    }

    /// Walks frame `index` of `buffer`, or returns `None` when there is
    /// no such frame.
    pub fn new<T: Copy>(buffer: &'b mut B, index: usize) -> (r: Option<Self>)
        where
            B: AudioBufferMut<T>,
        requires
            old(buffer).valid(),
        ensures
            index < old(buffer).spec_frames() ==> (r matches Some(it) && it.buffer()
                == *old(buffer) && *final(it.buf) == *final(buffer) && it.index() == index && it.position() == 0 && it.end()
                == old(buffer).spec_channels()),
            index >= old(buffer).spec_frames() ==> r is None,
    {
        if index >= buffer.frames() {
            return None;
        }
        let end = buffer.channels();
        Some(FrameSamplesMut { buf: buffer, index, position: 0, end })
    }

    /// A mutable handle on the next sample, or `None` after the last one.
    pub fn next<T: Copy>(&mut self) -> (r: Option<&mut T>)
        where
            B: AudioBufferMut<T>,
        requires
            old(self).buffer().valid(),
            old(self).index() < old(self).buffer().spec_frames(),
            old(self).end() == old(self).buffer().spec_channels(),
        ensures
            final(self).index() == old(self).index(),
            final(self).end() == old(self).end(),
            *final(final(self).buf) == *final(old(self).buf),
            old(self).position() < old(self).end() ==> (r matches Some(v) && *v
                == old(self).buffer().spec_sample(old(self).position() as int, old(self).index() as int) && replaced(
                old(self).buffer(),
                final(self).buffer(),
                old(self).position() as int, old(self).index() as int,
                *final(v),
            ) && final(self).position() == old(self).position() + 1),
            old(self).position() >= old(self).end() ==> r is None && *final(self) == *old(self),
    {
        if self.position >= self.end {
            return None;
        }
        let p = self.position;
        self.position = p + 1;
        Some(self.buf.get_unchecked_mut(p, self.index))
    }
}

/// The frames of a buffer, each walked as a `FrameSamplesMut`, in ascending order.
pub struct FramesMut<'b, B> {
    /// The buffer that is walked.
    pub buf: &'b mut B,
    /// The next frame.
    pub position: usize,
    /// The number of frames.
    pub end: usize,
}

impl<'b, B> FramesMut<'b, B> {
    /// The buffer that is walked, as it stands.
    pub closed spec fn buffer(&self) -> B {
        *self.buf
    }

    /// The next frame.
    pub closed spec fn position(&self) -> nat {
        self.position as nat
    }

    /// The number of frames.
    pub closed spec fn end(&self) -> nat {
        self.end as nat
    }

    /// Walks the frames of `buffer`.
    pub fn new<T: Copy>(buffer: &'b mut B) -> (r: Self)
        where
            B: AudioBufferMut<T>,
        ensures
            r.buffer() == *old(buffer),
            *final(r.buf) == *final(buffer),
            r.position() == 0,
            r.end() == old(buffer).spec_frames(),
    {
        let end = buffer.frames();
        FramesMut { buf: buffer, position: 0, end }
    }

    /// The next frame, or `None` after the last one; the samples of
    /// each are reached through the returned walker while it lives.
    pub fn next<T: Copy>(&mut self) -> (r: Option<FrameSamplesMut<'_, B>>)
        where
            B: AudioBufferMut<T>,
        requires
            old(self).buffer().valid(),
            old(self).end() == old(self).buffer().spec_frames(),
        ensures
            final(self).end() == old(self).end(),
            *final(final(self).buf) == *final(old(self).buf),
            old(self).position() < old(self).end() ==> (r matches Some(it) && it.buffer()
                == old(self).buffer() && *final(it.buf) == *final(self).buf && it.index()
                == old(self).position() && it.position() == 0
                && it.end() == old(self).buffer().spec_channels() && final(self).position()
                == old(self).position() + 1),
            old(self).position() >= old(self).end() ==> r is None && *final(self) == *old(self),
    {
        if self.position >= self.end {
            return None;
        }
        let p = self.position;
        self.position = p + 1;
        FrameSamplesMut::new::<T>(&mut *self.buf, p)
    }
}

} // verus!
