use audioboiler::{Converter, ConverterMut, InterleavedConverter, SampleFormat, SequentialConverter, F32};

fn f32s(values: &[f32]) -> Vec<F32> {
    values.iter().map(|v| F32 { bits: v.to_bits() }).collect()
}

fn read_f32<C: Converter<F32>>(buffer: &C, channel: usize, frame: usize) -> f32 {
    f32::from_bits(buffer.read(channel, frame).unwrap().bits)
}

#[test]
fn converting_read_i32() {
    let data: Vec<u8> = vec![
        0, 0, 0, 0, 0, 0, 0, 128, 0, 0, 0, 64, 0, 0, 0, 192, 0, 0, 0, 32, 0, 0, 0, 224,
    ];
    let buffer = InterleavedConverter::new(&data, 2, 3, SampleFormat::S32LE).unwrap();
    assert_eq!(read_f32(&buffer, 0, 0), 0.0);
    assert_eq!(read_f32(&buffer, 1, 0), -1.0);
    assert_eq!(read_f32(&buffer, 0, 1), 0.5);
    assert_eq!(read_f32(&buffer, 1, 1), -0.5);
    assert_eq!(read_f32(&buffer, 0, 2), 0.25);
    assert_eq!(read_f32(&buffer, 1, 2), -0.25);
}

#[test]
fn converting_read_i16() {
    let data: Vec<u8> = vec![0, 0, 0, 128, 0, 64, 0, 192, 0, 32, 0, 224];
    let buffer = InterleavedConverter::new(&data, 2, 3, SampleFormat::S16LE).unwrap();
    assert_eq!(read_f32(&buffer, 0, 0), 0.0);
    assert_eq!(read_f32(&buffer, 1, 0), -1.0);
    assert_eq!(read_f32(&buffer, 0, 1), 0.5);
    assert_eq!(read_f32(&buffer, 1, 1), -0.5);
    assert_eq!(read_f32(&buffer, 0, 2), 0.25);
    assert_eq!(read_f32(&buffer, 1, 2), -0.25);
}

#[test]
fn converting_write_i32() {
    let expected: Vec<u8> = vec![
        0, 0, 0, 0, 0, 0, 0, 128, 0, 0, 0, 64, 0, 0, 0, 192, 0, 0, 0, 32, 0, 0, 0, 224,
    ];
    let mut data = vec![0; 24];
    let mut buffer = InterleavedConverter::new_mut(&mut data, 2, 3, SampleFormat::S32LE).unwrap();
    let v = f32s(&[0.0, -1.0, 0.5, -0.5, 0.25, -0.25]);
    buffer.write(0, 0, &v[0]).unwrap();
    buffer.write(1, 0, &v[1]).unwrap();
    buffer.write(0, 1, &v[2]).unwrap();
    buffer.write(1, 1, &v[3]).unwrap();
    buffer.write(0, 2, &v[4]).unwrap();
    buffer.write(1, 2, &v[5]).unwrap();
    assert_eq!(data, expected);
}

#[test]
fn converting_write_i16() {
    let expected: Vec<u8> = vec![0, 0, 0, 128, 0, 64, 0, 192, 0, 32, 0, 224];
    let mut data = vec![0; 12];
    let mut buffer = InterleavedConverter::new_mut(&mut data, 2, 3, SampleFormat::S16LE).unwrap();
    let v = f32s(&[0.0, -1.0, 0.5, -0.5, 0.25, -0.25]);
    buffer.write(0, 0, &v[0]).unwrap();
    buffer.write(1, 0, &v[1]).unwrap();
    buffer.write(0, 1, &v[2]).unwrap();
    buffer.write(1, 1, &v[3]).unwrap();
    buffer.write(0, 2, &v[4]).unwrap();
    buffer.write(1, 2, &v[5]).unwrap();
    assert_eq!(data, expected);
}

#[test]
fn from_slice_i32() {
    let expected_data: Vec<u8> = vec![
        0, 0, 0, 0, 0, 0, 0, 128, 0, 0, 0, 64, 0, 0, 0, 192, 0, 0, 0, 32, 0, 0, 0, 224,
    ];
    let values_left = f32s(&[0.0, 0.5, 0.25]);
    let values_right = f32s(&[-1.0, -0.5, -0.25]);
    let mut data = vec![0; 24];
    let mut buffer = InterleavedConverter::new_mut(&mut data, 2, 3, SampleFormat::S32LE).unwrap();
    buffer.write_from_slice_to_channel(0, 0, &values_left);
    buffer.write_from_slice_to_channel(1, 0, &values_right);
    assert_eq!(data, expected_data);
}

#[test]
fn to_slice_i32() {
    let data: Vec<u8> = vec![
        0, 0, 0, 0, 0, 0, 0, 128, 0, 0, 0, 64, 0, 0, 0, 192, 0, 0, 0, 32, 0, 0, 0, 224,
    ];
    let expected_left = vec![0.0, 0.5, 0.25];
    let expected_right = vec![-1.0, -0.5, -0.25];
    let mut values_left = f32s(&[0.0; 3]);
    let mut values_right = f32s(&[0.0; 3]);
    let buffer = InterleavedConverter::new(&data, 2, 3, SampleFormat::S32LE).unwrap();
    buffer.write_from_channel_to_slice(0, 0, &mut values_left);
    buffer.write_from_channel_to_slice(1, 0, &mut values_right);
    let left: Vec<f32> = values_left.iter().map(|v| f32::from_bits(v.bits)).collect();
    let right: Vec<f32> = values_right.iter().map(|v| f32::from_bits(v.bits)).collect();
    assert_eq!(left, expected_left);
    assert_eq!(right, expected_right);
}

#[test]
fn wrapper_read_i32() {
    let data: Vec<u8> = vec![
        0, 0, 0, 0, 0, 0, 0, 128, 0, 0, 0, 64, 0, 0, 0, 192, 0, 0, 0, 32, 0, 0, 0, 224,
    ];
    let buffer = InterleavedConverter::new(&data, 2, 3, SampleFormat::S32LE).unwrap();
    assert_eq!(read_f32(&buffer, 0, 0), 0.0);
    assert_eq!(read_f32(&buffer, 1, 0), -1.0);
    assert_eq!(read_f32(&buffer, 0, 1), 0.5);
    assert_eq!(read_f32(&buffer, 1, 1), -0.5);
    assert_eq!(read_f32(&buffer, 0, 2), 0.25);
    assert_eq!(read_f32(&buffer, 1, 2), -0.25);
}

#[test]
fn wrapper_read_i16() {
    let data: Vec<u8> = vec![0, 0, 0, 128, 0, 64, 0, 192, 0, 32, 0, 224];
    let buffer = InterleavedConverter::new(&data, 2, 3, SampleFormat::S16LE).unwrap();
    assert_eq!(read_f32(&buffer, 0, 0), 0.0);
    assert_eq!(read_f32(&buffer, 1, 0), -1.0);
    assert_eq!(read_f32(&buffer, 0, 1), 0.5);
    assert_eq!(read_f32(&buffer, 1, 1), -0.5);
    assert_eq!(read_f32(&buffer, 0, 2), 0.25);
    assert_eq!(read_f32(&buffer, 1, 2), -0.25);
}

#[test]
fn wrapper_write_i32() {
    let expected: Vec<u8> = vec![
        0, 0, 0, 0, 0, 0, 0, 128, 0, 0, 0, 64, 0, 0, 0, 192, 0, 0, 0, 32, 0, 0, 0, 224,
    ];
    let mut data = vec![0; 24];
    let mut buffer = InterleavedConverter::new_mut(&mut data, 2, 3, SampleFormat::S32LE).unwrap();
    let v = f32s(&[0.0, -1.0, 0.5, -0.5, 0.25, -0.25]);
    buffer.write(0, 0, &v[0]).unwrap();
    buffer.write(1, 0, &v[1]).unwrap();
    buffer.write(0, 1, &v[2]).unwrap();
    buffer.write(1, 1, &v[3]).unwrap();
    buffer.write(0, 2, &v[4]).unwrap();
    buffer.write(1, 2, &v[5]).unwrap();
    assert_eq!(data, expected);
}

#[test]
fn wrapper_write_i16() {
    let expected: Vec<u8> = vec![0, 0, 0, 128, 0, 64, 0, 192, 0, 32, 0, 224];
    let mut data = vec![0; 12];
    let mut buffer = InterleavedConverter::new_mut(&mut data, 2, 3, SampleFormat::S16LE).unwrap();
    let v = f32s(&[0.0, -1.0, 0.5, -0.5, 0.25, -0.25]);
    buffer.write(0, 0, &v[0]).unwrap();
    buffer.write(1, 0, &v[1]).unwrap();
    buffer.write(0, 1, &v[2]).unwrap();
    buffer.write(1, 1, &v[3]).unwrap();
    buffer.write(0, 2, &v[4]).unwrap();
    buffer.write(1, 2, &v[5]).unwrap();
    assert_eq!(data, expected);
}

#[test]
fn sequential_frames_round_trip() {
    let mut data = vec![0u8; 3 * 2 * 4];
    let mut buffer = SequentialConverter::new_mut(&mut data, 3, 2, SampleFormat::F32BE).unwrap();
    let frame = f32s(&[0.5, -0.25, 2.0]);
    assert_eq!(buffer.write_from_slice_to_frame(1, 0, &frame), (3, 1));
    assert_eq!(buffer.write_from_slice_to_frame(0, 2, &frame), (1, 0));
    assert_eq!(buffer.write_from_slice_to_frame(2, 0, &frame), (0, 0));
    let mut out = f32s(&[9.0; 4]);
    assert_eq!(Converter::<F32>::write_from_frame_to_slice(&buffer, 1, 0, &mut out), 3);
    let out: Vec<f32> = out.iter().map(|v| f32::from_bits(v.bits)).collect();
    assert_eq!(out, vec![0.5, -0.25, 1.0, 9.0]);
    drop(buffer);
    assert_eq!(&data[4..8], &0.5f32.to_be_bytes());
    assert_eq!(&data[16..20], &0.5f32.to_be_bytes());
}
