//! Layout-independent access to multi-channel audio buffers, and bit-exact
//! conversion between raw sample encodings and normalized floating point.

pub mod error;
pub mod buffer;
pub mod direct;
pub mod iter;
pub mod float;
pub mod bytes;
pub mod format;
pub mod sample;
pub mod codec;
pub mod converting;
pub mod stats;
pub mod laws;

pub use error::BufferSizeError;
pub use buffer::{AudioBuffer, AudioBufferMut};
pub use direct::{SequentialSlice, InterleavedSlice, SequentialSliceOfVecs, InterleavedSliceOfVecs};
pub use iter::{
    ChannelSamples, FrameSamples, Channels, Frames, ChannelSamplesMut, FrameSamplesMut, ChannelsMut,
    FramesMut,
};
pub use format::SampleFormat;
pub use sample::{F32, F64};
pub use codec::{Sample, SampleWriter, SampleReader};
pub use converting::{Converter, ConverterMut, InterleavedConverter, SequentialConverter};
pub use stats::{AudioBufferStats, IntSample};
