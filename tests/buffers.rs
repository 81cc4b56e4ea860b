use audioboiler::{
    AudioBuffer, AudioBufferMut, AudioBufferStats, ChannelSamples, Channels, ChannelsMut, FrameSamples,
    InterleavedSlice, InterleavedSliceOfVecs, SequentialSlice, SequentialSliceOfVecs,
};

fn insert_data<B: AudioBufferMut<i32>>(buffer: &mut B) {
    *buffer.get_mut(0, 0).unwrap() = 1;
    *buffer.get_mut(0, 1).unwrap() = 2;
    *buffer.get_mut(0, 2).unwrap() = 3;
    *buffer.get_mut(1, 0).unwrap() = 4;
    *buffer.get_mut(1, 1).unwrap() = 5;
    *buffer.get_mut(1, 2).unwrap() = 6;
}

fn check_get<B: AudioBufferMut<i32>>(buffer: &mut B) {
    insert_data(buffer);
    assert_eq!(*buffer.get(0, 0).unwrap(), 1);
    assert_eq!(*buffer.get(0, 1).unwrap(), 2);
    assert_eq!(*buffer.get(0, 2).unwrap(), 3);
    assert_eq!(*buffer.get(1, 0).unwrap(), 4);
    assert_eq!(*buffer.get(1, 1).unwrap(), 5);
    assert_eq!(*buffer.get(1, 2).unwrap(), 6);
}

fn check_iter<B: AudioBufferMut<i32>>(buffer: &mut B) {
    insert_data(buffer);
    let mut iter1 = ChannelSamples::new(&*buffer, 0).unwrap();
    assert_eq!(iter1.next(), Some(&1));
    assert_eq!(iter1.next(), Some(&2));
    assert_eq!(iter1.next(), Some(&3));
    assert_eq!(iter1.next(), None);

    let mut iter2 = FrameSamples::new(&*buffer, 1).unwrap();
    assert_eq!(iter2.next(), Some(&2));
    assert_eq!(iter2.next(), Some(&5));
    assert_eq!(iter2.next(), None);
}

fn sum_all<B: AudioBuffer<i32>>(buffer: &B) -> i32 {
    let mut sum = 0;
    let mut channels = Channels::new(buffer);
    while let Some(mut channel) = channels.next() {
        while let Some(sample) = channel.next() {
            sum += *sample;
        }
    }
    sum
}

fn check_iter_mut<B: AudioBufferMut<i32>>(buffer: &mut B) {
    insert_data(buffer);
    assert_eq!(sum_all(&*buffer), 21);
    let mut channels = ChannelsMut::new(&mut *buffer);
    while let Some(mut channel) = channels.next() {
        while let Some(sample) = channel.next() {
            *sample = 2 * *sample;
        }
    }
    assert_eq!(sum_all(&*buffer), 42);
}

fn check_slice_channel<B: AudioBufferMut<i32>>(buffer: &mut B) {
    insert_data(buffer);
    let mut other1 = vec![0; 2];
    let mut other2 = vec![0; 4];
    buffer.write_from_channel_to_slice(0, 1, &mut other1);
    buffer.write_from_channel_to_slice(1, 0, &mut other2);
    assert_eq!(other1[0], 2);
    assert_eq!(other1[1], 3);
    assert_eq!(other2[0], 4);
    assert_eq!(other2[1], 5);
    assert_eq!(other2[2], 6);
    assert_eq!(other2[3], 0);
}

fn check_slice_frame<B: AudioBufferMut<i32>>(buffer: &mut B) {
    insert_data(buffer);
    let mut other1 = vec![0; 1];
    let mut other2 = vec![0; 3];
    buffer.write_from_frame_to_slice(0, 1, &mut other1);
    buffer.write_from_frame_to_slice(1, 0, &mut other2);
    assert_eq!(other1[0], 4);
    assert_eq!(other2[0], 2);
    assert_eq!(other2[1], 5);
    assert_eq!(other2[2], 0);
}

fn check_mut_slice_channel<B: AudioBufferMut<i32>>(buffer: &mut B) {
    insert_data(buffer);
    let other1 = vec![8, 9];
    let other2 = vec![10, 11, 12, 13];
    buffer.read_into_channel_from_slice(0, 1, &other1);
    buffer.read_into_channel_from_slice(1, 0, &other2);
    assert_eq!(*buffer.get(0, 0).unwrap(), 1);
    assert_eq!(*buffer.get(0, 1).unwrap(), 8);
    assert_eq!(*buffer.get(0, 2).unwrap(), 9);
    assert_eq!(*buffer.get(1, 0).unwrap(), 10);
    assert_eq!(*buffer.get(1, 1).unwrap(), 11);
    assert_eq!(*buffer.get(1, 2).unwrap(), 12);
}

fn check_mut_slice_frame<B: AudioBufferMut<i32>>(buffer: &mut B) {
    insert_data(buffer);
    let other1 = vec![8];
    let other2 = vec![10, 11, 12];
    buffer.read_into_frame_from_slice(0, 0, &other1);
    buffer.read_into_frame_from_slice(1, 0, &other2);
    assert_eq!(*buffer.get(0, 0).unwrap(), 8);
    assert_eq!(*buffer.get(1, 0).unwrap(), 4);
    assert_eq!(*buffer.get(0, 1).unwrap(), 10);
    assert_eq!(*buffer.get(1, 1).unwrap(), 11);
    assert_eq!(*buffer.get(0, 2).unwrap(), 3);
    assert_eq!(*buffer.get(1, 2).unwrap(), 6);
}

fn check_all<B: AudioBufferMut<i32>>(buffer: &mut B) {
    check_get(buffer);
    check_iter(buffer);
    check_iter_mut(buffer);
    check_slice_channel(buffer);
    check_slice_frame(buffer);
    check_mut_slice_channel(buffer);
    check_mut_slice_frame(buffer);
}

#[test]
fn vec_of_channels() {
    let mut data = vec![vec![0_i32; 3], vec![0_i32; 3]];
    let mut buffer = SequentialSliceOfVecs::new_mut(&mut data, 2, 3).unwrap();
    check_all(&mut buffer);
}

#[test]
fn vec_of_frames() {
    let mut data = vec![vec![1_i32, 4], vec![2_i32, 5], vec![3, 6]];
    let mut buffer = InterleavedSliceOfVecs::new_mut(&mut data, 2, 3).unwrap();
    check_all(&mut buffer);
}

#[test]
fn interleaved() {
    let mut data = vec![1_i32, 4, 2, 5, 3, 6];
    let mut buffer = InterleavedSlice::new_mut(&mut data, 2, 3).unwrap();
    check_all(&mut buffer);
}

#[test]
fn sequential() {
    let mut data = vec![1_i32, 2, 3, 4, 5, 6];
    let mut buffer = SequentialSlice::new_mut(&mut data, 2, 3).unwrap();
    check_all(&mut buffer);
}

#[test]
fn boxed_buffer() {
    let data = vec![1_i32, 2, 3, 4, 5, 6];
    let boxed: Box<dyn AudioBuffer<i32>> = Box::new(SequentialSlice::new(&data, 2, 3).unwrap());
    assert_eq!(*boxed.get(0, 0).unwrap(), 1);
}

#[test]
fn stats_integer() {
    let data = vec![1_i32, -1, 1, -1, 1, -1, 1, -1];
    let buffer = SequentialSlice::new(&data, 2, 4).unwrap();
    let (sum, n) = buffer.channel_square_sum(0).unwrap();
    assert_eq!(((sum as f64) / (n as f64)).sqrt(), 1.0);
    assert_eq!(buffer.channel_peak_to_peak(0).unwrap(), 2);
}
