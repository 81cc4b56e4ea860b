use audioboiler::{
    AudioBuffer, AudioBufferMut, AudioBufferStats, Converter, ConverterMut, InterleavedConverter,
    InterleavedSlice, InterleavedSliceOfVecs, Sample, SampleFormat, SequentialConverter,
    SequentialSlice, SequentialSliceOfVecs, F32, F64,
};

const ALL_FORMATS: [SampleFormat; 12] = [
    SampleFormat::S16LE,
    SampleFormat::S16BE,
    SampleFormat::S24LE3,
    SampleFormat::S24BE3,
    SampleFormat::S24LE4,
    SampleFormat::S24BE4,
    SampleFormat::S32LE,
    SampleFormat::S32BE,
    SampleFormat::F32LE,
    SampleFormat::F32BE,
    SampleFormat::F64LE,
    SampleFormat::F64BE,
];

fn f64_of(v: f64) -> F64 {
    F64 { bits: v.to_bits() }
}

fn f32_of(v: f32) -> F32 {
    F32 { bits: v.to_bits() }
}

#[test]
fn round_trip_every_format_f64() {
    let values = [-1.0, -0.75, -0.5, -0.125, 0.0, 0.0625, 0.25, 0.5, 0.875];
    for format in ALL_FORMATS {
        for v in values {
            let (bytes, clipped) = f64_of(v).encode(format);
            assert!(!clipped);
            assert_eq!(bytes.len(), format.bytes_per_sample());
            let back = F64::decode(&bytes, 0, format);
            assert_eq!(f64::from_bits(back.bits), v);
        }
    }
}

#[test]
fn round_trip_every_format_f32() {
    let values = [-1.0f32, -0.75, -0.5, -0.125, 0.0, 0.0625, 0.25, 0.5, 0.875];
    for format in ALL_FORMATS {
        for v in values {
            let (bytes, clipped) = f32_of(v).encode(format);
            assert!(!clipped);
            let back = F32::decode(&bytes, 0, format);
            assert_eq!(f32::from_bits(back.bits), v);
        }
    }
}

#[test]
fn round_trip_grid_maximum() {
    let top16 = 32767.0 / 32768.0;
    let (bytes, clipped) = f64_of(top16).to_s16_le();
    assert!(!clipped);
    assert_eq!(bytes, [255, 127]);
    assert_eq!(f64::from_bits(F64::from_s16_le(bytes).bits), top16);
    let top32 = 2147483647.0 / 2147483648.0;
    let (bytes, clipped) = f64_of(top32).to_s32_be();
    assert!(!clipped);
    assert_eq!(f64::from_bits(F64::from_s32_be(bytes).bits), top32);
}

#[test]
fn clipping_at_one_and_above() {
    for format in ALL_FORMATS {
        for v in [1.0, 1.5, 1000.0, f64::INFINITY] {
            let (_, clipped) = f64_of(v).encode(format);
            assert!(clipped);
            let (_, clipped) = f32_of(v as f32).encode(format);
            assert!(clipped);
        }
    }
}

#[test]
fn clipping_below_minus_one() {
    for format in ALL_FORMATS {
        let (_, clipped) = f64_of(-1.5).encode(format);
        assert!(clipped);
        let (_, clipped) = f64_of(-1.0).encode(format);
        assert!(!clipped);
    }
    assert_eq!(f64_of(-3.0).to_s16_le(), ([0, 128], true));
    assert_eq!(f64_of(-3.0).to_f32_le(), ((-1.0f32).to_le_bytes(), true));
}

#[test]
fn clipping_saturates_integer_range() {
    assert_eq!(f64_of(1.0).to_s16_le(), ([255, 127], true));
    assert_eq!(f32_of(1.0).to_s32_le(), ([255, 255, 255, 127], true));
    assert_eq!(f64_of(1.0).to_s24_4_be(), ([0, 127, 255, 255], true));
}

#[test]
fn not_a_number_encodes_zero_unclipped() {
    assert_eq!(f64_of(f64::NAN).to_s16_be(), ([0, 0], false));
    let (bytes, clipped) = f64_of(f64::NAN).to_f64_le();
    assert!(!clipped);
    assert!(f64::from_le_bytes(bytes).is_nan());
}

#[test]
fn decoding_never_clips_floats() {
    let bytes = 2.5f64.to_le_bytes();
    assert_eq!(f64::from_bits(F64::from_f64_le(bytes).bits), 2.5);
    let bytes = (-7.0f32).to_be_bytes();
    assert_eq!(f64::from_bits(F64::from_f32_be(bytes).bits), -7.0);
}

#[test]
fn narrowing_rounds_to_nearest_even() {
    for v in [0.1, -0.256789, 1.0e-40, 3.0e-45, 0.333333333333, 1.0e39, -2.5e-39] {
        let n = F32::from_f64_le(f64::to_le_bytes(v));
        assert_eq!(n.bits, (v as f32).to_bits());
    }
}

#[test]
fn widening_keeps_value() {
    for v in [0.1f32, -0.256789, 1.0e-40, 1.4e-45, f32::MAX, f32::NEG_INFINITY] {
        let w = F64::from_f32_le(v.to_le_bytes());
        assert_eq!(f64::from_bits(w.bits), v as f64);
    }
}

#[test]
fn s32_to_f32_rounds() {
    let n = F32::from_s32_le(i32::to_le_bytes(0x7fff_ffc1));
    assert_eq!(f32::from_bits(n.bits), (0x7fff_ffc1 as f32) / 2147483648.0);
    let n = F32::from_s32_be(i32::to_be_bytes(-123_456_789));
    assert_eq!(f32::from_bits(n.bits), (-123_456_789i32 as f32) / 2147483648.0);
}

#[test]
fn bytes_per_sample_of_each_format() {
    let widths: Vec<usize> = ALL_FORMATS.iter().map(|f| f.bytes_per_sample()).collect();
    assert_eq!(widths, vec![2, 2, 3, 3, 4, 4, 4, 4, 4, 4, 8, 8]);
}

#[test]
fn layout_equivalence_of_all_shapes() {
    let seq = vec![1, 2, 3, 4, 5, 6];
    let inter = vec![1, 4, 2, 5, 3, 6];
    let chans = vec![vec![1, 2, 3], vec![4, 5, 6]];
    let frames = vec![vec![1, 4], vec![2, 5], vec![3, 6]];
    let a = SequentialSlice::new(&seq, 2, 3).unwrap();
    let b = InterleavedSlice::new(&inter, 2, 3).unwrap();
    let c = SequentialSliceOfVecs::new(&chans, 2, 3).unwrap();
    let d = InterleavedSliceOfVecs::new(&frames, 2, 3).unwrap();
    for ch in 0..2 {
        for fr in 0..3 {
            let v = a.get(ch, fr);
            assert_eq!(v, b.get(ch, fr));
            assert_eq!(v, c.get(ch, fr));
            assert_eq!(v, d.get(ch, fr));
        }
    }
}

#[test]
fn bounds_one_past_the_end() {
    let data = vec![1, 2, 3, 4, 5, 6];
    let a = SequentialSlice::new(&data, 2, 3).unwrap();
    assert_eq!(a.get(2, 0), None);
    assert_eq!(a.get(0, 3), None);
    assert_eq!(a.get(1, 2), Some(&6));
    let raw = vec![0u8; 12];
    let conv = InterleavedConverter::new(&raw, 2, 3, SampleFormat::S16LE).unwrap();
    assert_eq!(Converter::<F32>::read(&conv, 2, 0), None);
    assert_eq!(Converter::<F32>::read(&conv, 0, 3), None);
    let mut raw = vec![0u8; 12];
    let mut conv = SequentialConverter::new_mut(&mut raw, 2, 3, SampleFormat::S16LE).unwrap();
    assert_eq!(conv.write(0, 3, &f32_of(0.5)), None);
    assert_eq!(conv.write(0, 2, &f32_of(2.0)), Some(true));
    assert_eq!(raw, vec![0, 0, 0, 0, 255, 127, 0, 0, 0, 0, 0, 0]);
}

#[test]
fn bulk_transfer_truncation() {
    let data = vec![1, 2, 3, 4, 5, 6];
    let a = InterleavedSlice::new(&data, 2, 3).unwrap();
    let mut out = vec![9; 5];
    assert_eq!(a.write_from_channel_to_slice(1, 1, &mut out), 2);
    assert_eq!(out, vec![4, 6, 9, 9, 9]);
    let mut out = vec![9; 5];
    assert_eq!(a.write_from_channel_to_slice(0, 2, &mut out), 1);
    assert_eq!(out, vec![5, 9, 9, 9, 9]);
    let mut out = vec![9; 5];
    assert_eq!(a.write_from_channel_to_slice(0, 3, &mut out), 0);
    assert_eq!(a.write_from_channel_to_slice(2, 0, &mut out), 0);
    assert_eq!(a.write_from_frame_to_slice(3, 0, &mut out), 0);
    assert_eq!(out, vec![9; 5]);
    let mut data = vec![0; 6];
    let mut m = SequentialSlice::new_mut(&mut data, 2, 3).unwrap();
    assert_eq!(m.read_into_channel_from_slice(1, 1, &[7, 8, 9]), 2);
    assert_eq!(m.read_into_frame_from_slice(0, 2, &[7]), 0);
    assert_eq!(data, vec![0, 0, 0, 0, 7, 8]);
}

#[test]
fn aggregate_sequential_two_by_four() {
    let data = vec![1_i32, -1, 1, -1, 1, -1, 1, -1];
    let buffer = SequentialSlice::new(&data, 2, 4).unwrap();
    let (sum, n) = buffer.channel_square_sum(0).unwrap();
    assert_eq!(((sum as f64) / (n as f64)).sqrt(), 1.0);
    assert_eq!(buffer.channel_peak_to_peak(0).unwrap(), 2);
    assert_eq!(buffer.channel_peak_to_peak(2), None);
    assert_eq!(buffer.frame_peak_to_peak(1).unwrap(), 1);
    assert_eq!(buffer.frame_square_sum(4), None);
}

#[test]
fn peak_to_peak_is_seeded_from_zero() {
    let data = vec![3_i32, 5, 4];
    let buffer = InterleavedSlice::new(&data, 1, 3).unwrap();
    assert_eq!(buffer.channel_peak_to_peak(0), Some(5));
    assert_eq!(buffer.channel_square_sum(0), Some((50, 3)));
}

#[test]
fn end_to_end_s16le_interleaved() {
    let raw: Vec<u8> = vec![0, 0, 0, 128, 0, 64, 0, 192, 0, 32, 0, 224];
    let buffer = InterleavedConverter::new(&raw, 2, 3, SampleFormat::S16LE).unwrap();
    let mut left = vec![F64 { bits: 0 }; 3];
    let mut right = vec![F64 { bits: 0 }; 3];
    assert_eq!(buffer.write_from_channel_to_slice(0, 0, &mut left), 3);
    assert_eq!(buffer.write_from_channel_to_slice(1, 0, &mut right), 3);
    let left: Vec<f64> = left.iter().map(|v| f64::from_bits(v.bits)).collect();
    let right: Vec<f64> = right.iter().map(|v| f64::from_bits(v.bits)).collect();
    assert_eq!(left, vec![0.0, 0.5, 0.25]);
    assert_eq!(right, vec![-1.0, -0.5, -0.25]);
}

#[test]
fn extents_stay_fixed() {
    let mut data = vec![0; 8];
    let mut m = InterleavedSlice::new_mut(&mut data, 2, 4).unwrap();
    for _ in 0..3 {
        assert_eq!(m.channels(), 2);
        assert_eq!(m.frames(), 4);
        *m.get_mut(1, 3).unwrap() += 1;
        m.read_into_frame_from_slice(0, 0, &[5, 6, 7]);
    }
    assert_eq!(m.channels(), 2);
    assert_eq!(m.frames(), 4);
}

#[test]
fn construction_errors() {
    let data = vec![0; 5];
    let e = SequentialSlice::new(&data, 2, 3).err().unwrap();
    assert_eq!(e.description(), "Slice is too short, 5 < 6");
    assert!(InterleavedSlice::new(&data, 1, 5).is_ok());
    assert!(InterleavedSlice::new(&data, usize::MAX, 2).is_err());
    let chans = vec![vec![0; 3], vec![0; 2]];
    let e = SequentialSliceOfVecs::new(&chans, 3, 2).err().unwrap();
    assert_eq!(e.desc, "Too few channels, 2 < 3");
    let e = SequentialSliceOfVecs::new(&chans, 2, 3).err().unwrap();
    assert_eq!(e.desc, "Channel 1 is too short, 2 < 3");
    let e = InterleavedSliceOfVecs::new(&chans, 2, 3).err().unwrap();
    assert_eq!(e.desc, "Too few frames, 2 < 3");
    let e = InterleavedSliceOfVecs::new(&chans, 3, 2).err().unwrap();
    assert_eq!(e.desc, "Frame 1 is too short, 2 < 3");
    let raw = vec![0u8; 11];
    let e = InterleavedConverter::new(&raw, 2, 3, SampleFormat::S16LE).err().unwrap();
    assert_eq!(e.desc, "Slice is too short, 11 < 12");
    assert!(SequentialConverter::new(&raw, 1, 1, SampleFormat::F64BE).is_ok());
}

#[test]
fn vectors_past_the_extents_are_not_checked() {
    let rows = vec![vec![1], vec![]];
    let a = SequentialSliceOfVecs::new(&rows, 1, 1).unwrap();
    assert_eq!(a.get(0, 0), Some(&1));
    let b = InterleavedSliceOfVecs::new(&rows, 1, 1).unwrap();
    assert_eq!(b.get(0, 0), Some(&1));
    let rows = vec![vec![1, 2], vec![3], vec![]];
    assert!(SequentialSliceOfVecs::new(&rows, 2, 1).is_ok());
    assert!(SequentialSliceOfVecs::new(&rows, 2, 2).is_err());
}

#[test]
fn error_sizes() {
    let data = vec![0; 5];
    let e = SequentialSlice::new(&data, 2, 3).err().unwrap();
    assert_eq!((e.actual, e.required, e.entry), (5, 6, None));
    let e = InterleavedSlice::new(&data, usize::MAX, 2).err().unwrap();
    assert_eq!((e.actual, e.required, e.entry), (5, usize::MAX, None));
    let rows = vec![vec![0; 3], vec![0; 1], vec![0; 0]];
    let e = SequentialSliceOfVecs::new(&rows, 3, 2).err().unwrap();
    assert_eq!((e.actual, e.required, e.entry), (1, 2, Some(1)));
    let e = InterleavedSliceOfVecs::new(&rows, 2, 4).err().unwrap();
    assert_eq!((e.actual, e.required, e.entry), (3, 4, None));
    let raw = vec![0u8; 7];
    let e = SequentialConverter::new(&raw, 1, 1, SampleFormat::F64LE).err().unwrap();
    assert_eq!((e.actual, e.required, e.entry), (7, 8, None));
}

#[test]
fn writes_keep_excess_storage() {
    let mut raw = vec![0xaau8; 14];
    let mut conv = InterleavedConverter::new_mut(&mut raw, 2, 3, SampleFormat::S16BE).unwrap();
    for c in 0..2 {
        for f in 0..3 {
            conv.write(c, f, &f64_of(-0.5)).unwrap();
        }
    }
    conv.write_from_slice_to_channel(1, 0, &[f64_of(0.25); 5]);
    assert_eq!(&raw[12..], &[0xaa, 0xaa]);
    let mut data = vec![9; 8];
    let mut m = SequentialSlice::new_mut(&mut data, 2, 3).unwrap();
    m.read_into_channel_from_slice(1, 0, &[1, 2, 3, 4]);
    *m.get_mut(0, 0).unwrap() = 5;
    assert_eq!(data, vec![5, 9, 9, 1, 2, 3, 9, 9]);
}

#[test]
fn statistics_of_narrow_integers() {
    let data = vec![-3_i16, 4, 0, 2];
    let buffer = SequentialSlice::new(&data, 2, 2).unwrap();
    assert_eq!(buffer.channel_peak_to_peak(0), Some(7));
    assert_eq!(buffer.channel_square_sum(0), Some((25, 2)));
    let data = vec![200_u8, 10, 7, 1];
    let buffer = InterleavedSlice::new(&data, 2, 2).unwrap();
    assert_eq!(buffer.channel_peak_to_peak(0), Some(200));
    assert_eq!(buffer.frame_square_sum(1), Some((50, 2)));
}
