use audioboiler::{SampleFormat, SampleReader, SampleWriter, F32, F64};

#[test]
fn check_f64_to_s32le() {
    let val: f64 = 0.256789;
    assert_eq!(F64 { bits: val.to_bits() }.to_s32_le(), ([66, 118, 222, 32], false));
    let val: f64 = -0.256789;
    assert_eq!(F64 { bits: val.to_bits() }.to_s32_le(), ([190, 137, 33, 223], false));
    let val: f64 = 1.1;
    assert_eq!(F64 { bits: val.to_bits() }.to_s32_le(), ([255, 255, 255, 127], true));
    let val: f64 = -1.1;
    assert_eq!(F64 { bits: val.to_bits() }.to_s32_le(), ([0, 0, 0, 128], true));
}

#[test]
fn check_f64_from_s32le() {
    let data = [0, 0, 64, 32];
    assert_eq!(f64::from_bits(F64::from_s32_le(data).bits), 0.251953125);
    let data = [0, 0, 64, 223];
    assert_eq!(f64::from_bits(F64::from_s32_le(data).bits), -0.255859375);
    let data = [0, 0, 0, 128];
    assert_eq!(f64::from_bits(F64::from_s32_le(data).bits), -1.0);
}

#[test]
fn check_f64_to_s32be() {
    let val: f64 = 0.256789;
    assert_eq!(F64 { bits: val.to_bits() }.to_s32_be(), ([32, 222, 118, 66], false));
    let val: f64 = -0.256789;
    assert_eq!(F64 { bits: val.to_bits() }.to_s32_be(), ([223, 33, 137, 190], false));
    let val: f64 = 1.1;
    assert_eq!(F64 { bits: val.to_bits() }.to_s32_be(), ([127, 255, 255, 255], true));
    let val: f64 = -1.1;
    assert_eq!(F64 { bits: val.to_bits() }.to_s32_be(), ([128, 0, 0, 0], true));
}

#[test]
fn check_f64_from_s32be() {
    let data = [32, 64, 0, 0];
    assert_eq!(f64::from_bits(F64::from_s32_be(data).bits), 0.251953125);
    let data = [223, 64, 0, 0];
    assert_eq!(f64::from_bits(F64::from_s32_be(data).bits), -0.255859375);
    let data = [128, 0, 0, 0];
    assert_eq!(f64::from_bits(F64::from_s32_be(data).bits), -1.0);
}

#[test]
fn check_f64_to_s243le() {
    let val: f64 = 0.256789;
    assert_eq!(F64 { bits: val.to_bits() }.to_s24_3_le(), ([118, 222, 32], false));
    let val: f64 = -0.256789;
    assert_eq!(F64 { bits: val.to_bits() }.to_s24_3_le(), ([137, 33, 223], false));
    let val: f64 = 1.1;
    assert_eq!(F64 { bits: val.to_bits() }.to_s24_3_le(), ([255, 255, 127], true));
    let val: f64 = -1.1;
    assert_eq!(F64 { bits: val.to_bits() }.to_s24_3_le(), ([0, 0, 128], true));
}

#[test]
fn check_f64_to_s243be() {
    let val: f64 = 0.256789;
    assert_eq!(F64 { bits: val.to_bits() }.to_s24_3_be(), ([32, 222, 118], false));
    let val: f64 = -0.256789;
    assert_eq!(F64 { bits: val.to_bits() }.to_s24_3_be(), ([223, 33, 137], false));
    let val: f64 = 1.1;
    assert_eq!(F64 { bits: val.to_bits() }.to_s24_3_be(), ([127, 255, 255], true));
    let val: f64 = -1.1;
    assert_eq!(F64 { bits: val.to_bits() }.to_s24_3_be(), ([128, 0, 0], true));
}

#[test]
fn check_f64_from_s243le() {
    let data = [0, 64, 32];
    assert_eq!(f64::from_bits(F64::from_s24_3_le(data).bits), 0.251953125);
    let data = [0, 64, 223];
    assert_eq!(f64::from_bits(F64::from_s24_3_le(data).bits), -0.255859375);
    let data = [0, 0, 128];
    assert_eq!(f64::from_bits(F64::from_s24_3_le(data).bits), -1.0);
}

#[test]
fn check_f64_from_s243be() {
    let data = [32, 64, 0];
    assert_eq!(f64::from_bits(F64::from_s24_3_be(data).bits), 0.251953125);
    let data = [223, 64, 0];
    assert_eq!(f64::from_bits(F64::from_s24_3_be(data).bits), -0.255859375);
    let data = [128, 0, 0];
    assert_eq!(f64::from_bits(F64::from_s24_3_be(data).bits), -1.0);
}

#[test]
fn check_f64_from_s244le() {
    let data = [0, 64, 32, 0];
    assert_eq!(f64::from_bits(F64::from_s24_4_le(data).bits), 0.251953125);
    let data = [0, 64, 223, 0];
    assert_eq!(f64::from_bits(F64::from_s24_4_le(data).bits), -0.255859375);
    let data = [0, 0, 128, 0];
    assert_eq!(f64::from_bits(F64::from_s24_4_le(data).bits), -1.0);
}

#[test]
fn check_f64_from_s244be() {
    let data = [0, 32, 64, 0];
    assert_eq!(f64::from_bits(F64::from_s24_4_be(data).bits), 0.251953125);
    let data = [0, 223, 64, 0];
    assert_eq!(f64::from_bits(F64::from_s24_4_be(data).bits), -0.255859375);
    let data = [0, 128, 0, 0];
    assert_eq!(f64::from_bits(F64::from_s24_4_be(data).bits), -1.0);
}

#[test]
fn check_f64_to_s244le() {
    let val: f64 = 0.256789;
    assert_eq!(F64 { bits: val.to_bits() }.to_s24_4_le(), ([118, 222, 32, 0], false));
    let val: f64 = -0.256789;
    assert_eq!(F64 { bits: val.to_bits() }.to_s24_4_le(), ([137, 33, 223, 0], false));
    let val: f64 = 1.1;
    assert_eq!(F64 { bits: val.to_bits() }.to_s24_4_le(), ([255, 255, 127, 0], true));
    let val: f64 = -1.1;
    assert_eq!(F64 { bits: val.to_bits() }.to_s24_4_le(), ([0, 0, 128, 0], true));
}

#[test]
fn check_f64_to_s244be() {
    let val: f64 = 0.256789;
    assert_eq!(F64 { bits: val.to_bits() }.to_s24_4_be(), ([0, 32, 222, 118], false));
    let val: f64 = -0.256789;
    assert_eq!(F64 { bits: val.to_bits() }.to_s24_4_be(), ([0, 223, 33, 137], false));
    let val: f64 = 1.1;
    assert_eq!(F64 { bits: val.to_bits() }.to_s24_4_be(), ([0, 127, 255, 255], true));
    let val: f64 = -1.1;
    assert_eq!(F64 { bits: val.to_bits() }.to_s24_4_be(), ([0, 128, 0, 0], true));
}

#[test]
fn check_f64_to_s16le() {
    let val: f64 = 0.256789;
    assert_eq!(F64 { bits: val.to_bits() }.to_s16_le(), ([222, 32], false));
    let val: f64 = -0.256789;
    assert_eq!(F64 { bits: val.to_bits() }.to_s16_le(), ([34, 223], false));
}

#[test]
fn check_f64_to_s16be() {
    let val: f64 = 0.256789;
    assert_eq!(F64 { bits: val.to_bits() }.to_s16_be(), ([32, 222], false));
    let val: f64 = -0.256789;
    assert_eq!(F64 { bits: val.to_bits() }.to_s16_be(), ([223, 34], false));
}

#[test]
fn check_f64_to_f32le() {
    let val: f64 = 0.256789;
    let exp = (0.256789 as f32).to_le_bytes();
    assert_eq!(F64 { bits: val.to_bits() }.to_f32_le(), (exp, false));
    let val: f64 = -0.256789;
    let exp = (-0.256789 as f32).to_le_bytes();
    assert_eq!(F64 { bits: val.to_bits() }.to_f32_le(), (exp, false));
    let val: f64 = 1.1;
    let exp = (1.0 as f32).to_le_bytes();
    assert_eq!(F64 { bits: val.to_bits() }.to_f32_le(), (exp, true));
    let val: f64 = -1.1;
    let exp = (-1.0 as f32).to_le_bytes();
    assert_eq!(F64 { bits: val.to_bits() }.to_f32_le(), (exp, true));
}

#[test]
fn check_f64_to_f32be() {
    let val: f64 = 0.256789;
    let exp = (0.256789 as f32).to_be_bytes();
    assert_eq!(F64 { bits: val.to_bits() }.to_f32_be(), (exp, false));
    let val: f64 = -0.256789;
    let exp = (-0.256789 as f32).to_be_bytes();
    assert_eq!(F64 { bits: val.to_bits() }.to_f32_be(), (exp, false));
    let val: f64 = 1.1;
    let exp = (1.0 as f32).to_be_bytes();
    assert_eq!(F64 { bits: val.to_bits() }.to_f32_be(), (exp, true));
    let val: f64 = -1.1;
    let exp = (-1.0 as f32).to_be_bytes();
    assert_eq!(F64 { bits: val.to_bits() }.to_f32_be(), (exp, true));
}

#[test]
fn check_f64_to_f64le() {
    let val: f64 = 0.256789;
    let exp = (0.256789 as f64).to_le_bytes();
    assert_eq!(F64 { bits: val.to_bits() }.to_f64_le(), (exp, false));
    let val: f64 = -0.256789;
    let exp = (-0.256789 as f64).to_le_bytes();
    assert_eq!(F64 { bits: val.to_bits() }.to_f64_le(), (exp, false));
    let val: f64 = 1.1;
    let exp = (1.0 as f64).to_le_bytes();
    assert_eq!(F64 { bits: val.to_bits() }.to_f64_le(), (exp, true));
    let val: f64 = -1.1;
    let exp = (-1.0 as f64).to_le_bytes();
    assert_eq!(F64 { bits: val.to_bits() }.to_f64_le(), (exp, true));
}

#[test]
fn check_f64_to_f64be() {
    let val: f64 = 0.256789;
    let exp = (0.256789 as f64).to_be_bytes();
    assert_eq!(F64 { bits: val.to_bits() }.to_f64_be(), (exp, false));
    let val: f64 = -0.256789;
    let exp = (-0.256789 as f64).to_be_bytes();
    assert_eq!(F64 { bits: val.to_bits() }.to_f64_be(), (exp, false));
    let val: f64 = 1.1;
    let exp = (1.0 as f64).to_be_bytes();
    assert_eq!(F64 { bits: val.to_bits() }.to_f64_be(), (exp, true));
    let val: f64 = -1.1;
    let exp = (-1.0 as f64).to_be_bytes();
    assert_eq!(F64 { bits: val.to_bits() }.to_f64_be(), (exp, true));
}

#[test]
fn check_f32_to_s32le() {
    let val: f32 = 0.256789;
    assert_eq!(F32 { bits: val.to_bits() }.to_s32_le(), ([64, 118, 222, 32], false));
    let val: f32 = -0.256789;
    assert_eq!(F32 { bits: val.to_bits() }.to_s32_le(), ([192, 137, 33, 223], false));
    let val: f32 = 1.1;
    assert_eq!(F32 { bits: val.to_bits() }.to_s32_le(), ([255, 255, 255, 127], true));
    let val: f32 = -1.1;
    assert_eq!(F32 { bits: val.to_bits() }.to_s32_le(), ([0, 0, 0, 128], true));
}

#[test]
fn check_f32_from_s32le() {
    let data = [0, 0, 64, 32];
    assert_eq!(f32::from_bits(F32::from_s32_le(data).bits), 0.251953125);
    let data = [0, 0, 64, 223];
    assert_eq!(f32::from_bits(F32::from_s32_le(data).bits), -0.255859375);
    let data = [0, 0, 0, 128];
    assert_eq!(f32::from_bits(F32::from_s32_le(data).bits), -1.0);
}

#[test]
fn check_f32_to_s32be() {
    let val: f32 = 0.256789;
    assert_eq!(F32 { bits: val.to_bits() }.to_s32_be(), ([32, 222, 118, 64], false));
    let val: f32 = -0.256789;
    assert_eq!(F32 { bits: val.to_bits() }.to_s32_be(), ([223, 33, 137, 192], false));
    let val: f32 = 1.1;
    assert_eq!(F32 { bits: val.to_bits() }.to_s32_be(), ([127, 255, 255, 255], true));
    let val: f32 = -1.1;
    assert_eq!(F32 { bits: val.to_bits() }.to_s32_be(), ([128, 0, 0, 0], true));
}

#[test]
fn check_f32_from_s32be() {
    let data = [32, 64, 0, 0];
    assert_eq!(f32::from_bits(F32::from_s32_be(data).bits), 0.251953125);
    let data = [223, 64, 0, 0];
    assert_eq!(f32::from_bits(F32::from_s32_be(data).bits), -0.255859375);
    let data = [128, 0, 0, 0];
    assert_eq!(f32::from_bits(F32::from_s32_be(data).bits), -1.0);
}

#[test]
fn check_f32_to_s243le() {
    let val: f32 = 0.256789;
    assert_eq!(F32 { bits: val.to_bits() }.to_s24_3_le(), ([118, 222, 32], false));
    let val: f32 = -0.256789;
    assert_eq!(F32 { bits: val.to_bits() }.to_s24_3_le(), ([137, 33, 223], false));
    let val: f32 = 1.1;
    assert_eq!(F32 { bits: val.to_bits() }.to_s24_3_le(), ([255, 255, 127], true));
    let val: f32 = -1.1;
    assert_eq!(F32 { bits: val.to_bits() }.to_s24_3_le(), ([0, 0, 128], true));
}

#[test]
fn check_f32_to_s243be() {
    let val: f32 = 0.256789;
    assert_eq!(F32 { bits: val.to_bits() }.to_s24_3_be(), ([32, 222, 118], false));
    let val: f32 = -0.256789;
    assert_eq!(F32 { bits: val.to_bits() }.to_s24_3_be(), ([223, 33, 137], false));
    let val: f32 = 1.1;
    assert_eq!(F32 { bits: val.to_bits() }.to_s24_3_be(), ([127, 255, 255], true));
    let val: f32 = -1.1;
    assert_eq!(F32 { bits: val.to_bits() }.to_s24_3_be(), ([128, 0, 0], true));
}

#[test]
fn check_f32_from_s243le() {
    let data = [0, 64, 32];
    assert_eq!(f32::from_bits(F32::from_s24_3_le(data).bits), 0.251953125);
    let data = [0, 64, 223];
    assert_eq!(f32::from_bits(F32::from_s24_3_le(data).bits), -0.255859375);
    let data = [0, 0, 128];
    assert_eq!(f32::from_bits(F32::from_s24_3_le(data).bits), -1.0);
}

#[test]
fn check_f32_from_s243be() {
    let data = [32, 64, 0];
    assert_eq!(f32::from_bits(F32::from_s24_3_be(data).bits), 0.251953125);
    let data = [223, 64, 0];
    assert_eq!(f32::from_bits(F32::from_s24_3_be(data).bits), -0.255859375);
    let data = [128, 0, 0];
    assert_eq!(f32::from_bits(F32::from_s24_3_be(data).bits), -1.0);
}

#[test]
fn check_f32_from_s244le() {
    let data = [0, 64, 32, 0];
    assert_eq!(f32::from_bits(F32::from_s24_4_le(data).bits), 0.251953125);
    let data = [0, 64, 223, 0];
    assert_eq!(f32::from_bits(F32::from_s24_4_le(data).bits), -0.255859375);
    let data = [0, 0, 128, 0];
    assert_eq!(f32::from_bits(F32::from_s24_4_le(data).bits), -1.0);
}

#[test]
fn check_f32_from_s244be() {
    let data = [0, 32, 64, 0];
    assert_eq!(f32::from_bits(F32::from_s24_4_be(data).bits), 0.251953125);
    let data = [0, 223, 64, 0];
    assert_eq!(f32::from_bits(F32::from_s24_4_be(data).bits), -0.255859375);
    let data = [0, 128, 0, 0];
    assert_eq!(f32::from_bits(F32::from_s24_4_be(data).bits), -1.0);
}

#[test]
fn check_f32_to_s244le() {
    let val: f32 = 0.256789;
    assert_eq!(F32 { bits: val.to_bits() }.to_s24_4_le(), ([118, 222, 32, 0], false));
    let val: f32 = -0.256789;
    assert_eq!(F32 { bits: val.to_bits() }.to_s24_4_le(), ([137, 33, 223, 0], false));
    let val: f32 = 1.1;
    assert_eq!(F32 { bits: val.to_bits() }.to_s24_4_le(), ([255, 255, 127, 0], true));
    let val: f32 = -1.1;
    assert_eq!(F32 { bits: val.to_bits() }.to_s24_4_le(), ([0, 0, 128, 0], true));
}

#[test]
fn check_f32_to_s244be() {
    let val: f32 = 0.256789;
    assert_eq!(F32 { bits: val.to_bits() }.to_s24_4_be(), ([0, 32, 222, 118], false));
    let val: f32 = -0.256789;
    assert_eq!(F32 { bits: val.to_bits() }.to_s24_4_be(), ([0, 223, 33, 137], false));
    let val: f32 = 1.1;
    assert_eq!(F32 { bits: val.to_bits() }.to_s24_4_be(), ([0, 127, 255, 255], true));
    let val: f32 = -1.1;
    assert_eq!(F32 { bits: val.to_bits() }.to_s24_4_be(), ([0, 128, 0, 0], true));
}

#[test]
fn check_f32_to_s16le() {
    let val: f32 = 0.256789;
    assert_eq!(F32 { bits: val.to_bits() }.to_s16_le(), ([222, 32], false));
    let val: f32 = -0.256789;
    assert_eq!(F32 { bits: val.to_bits() }.to_s16_le(), ([34, 223], false));
}

#[test]
fn check_f32_to_s16be() {
    let val: f32 = 0.256789;
    assert_eq!(F32 { bits: val.to_bits() }.to_s16_be(), ([32, 222], false));
    let val: f32 = -0.256789;
    assert_eq!(F32 { bits: val.to_bits() }.to_s16_be(), ([223, 34], false));
}

#[test]
fn check_f32_to_f32le() {
    let val: f32 = 0.256789;
    let exp = (0.256789 as f32).to_le_bytes();
    assert_eq!(F32 { bits: val.to_bits() }.to_f32_le(), (exp, false));
    let val: f32 = -0.256789;
    let exp = (-0.256789 as f32).to_le_bytes();
    assert_eq!(F32 { bits: val.to_bits() }.to_f32_le(), (exp, false));
    let val: f32 = 1.1;
    let exp = (1.0 as f32).to_le_bytes();
    assert_eq!(F32 { bits: val.to_bits() }.to_f32_le(), (exp, true));
    let val: f32 = -1.1;
    let exp = (-1.0 as f32).to_le_bytes();
    assert_eq!(F32 { bits: val.to_bits() }.to_f32_le(), (exp, true));
}

#[test]
fn check_f32_to_f32be() {
    let val: f32 = 0.256789;
    let exp = (0.256789 as f32).to_be_bytes();
    assert_eq!(F32 { bits: val.to_bits() }.to_f32_be(), (exp, false));
    let val: f32 = -0.256789;
    let exp = (-0.256789 as f32).to_be_bytes();
    assert_eq!(F32 { bits: val.to_bits() }.to_f32_be(), (exp, false));
    let val: f32 = 1.1;
    let exp = (1.0 as f32).to_be_bytes();
    assert_eq!(F32 { bits: val.to_bits() }.to_f32_be(), (exp, true));
    let val: f32 = -1.1;
    let exp = (-1.0 as f32).to_be_bytes();
    assert_eq!(F32 { bits: val.to_bits() }.to_f32_be(), (exp, true));
}

#[test]
fn check_f32_to_f64le() {
    let val: f32 = 0.256789;
    let exp = ((0.256789 as f32) as f64).to_le_bytes();
    assert_eq!(F32 { bits: val.to_bits() }.to_f64_le(), (exp, false));
    let val: f32 = -0.256789;
    let exp = ((-0.256789 as f32) as f64).to_le_bytes();
    assert_eq!(F32 { bits: val.to_bits() }.to_f64_le(), (exp, false));
    let val: f32 = 1.1;
    let exp = (1.0 as f64).to_le_bytes();
    assert_eq!(F32 { bits: val.to_bits() }.to_f64_le(), (exp, true));
    let val: f32 = -1.1;
    let exp = (-1.0 as f64).to_le_bytes();
    assert_eq!(F32 { bits: val.to_bits() }.to_f64_le(), (exp, true));
}

#[test]
fn check_f32_to_f64be() {
    let val: f32 = 0.256789;
    let exp = ((0.256789 as f32) as f64).to_be_bytes();
    assert_eq!(F32 { bits: val.to_bits() }.to_f64_be(), (exp, false));
    let val: f32 = -0.256789;
    let exp = ((-0.256789 as f32) as f64).to_be_bytes();
    assert_eq!(F32 { bits: val.to_bits() }.to_f64_be(), (exp, false));
    let val: f32 = 1.1;
    let exp = (1.0 as f64).to_be_bytes();
    assert_eq!(F32 { bits: val.to_bits() }.to_f64_be(), (exp, true));
    let val: f32 = -1.1;
    let exp = (-1.0 as f64).to_be_bytes();
    assert_eq!(F32 { bits: val.to_bits() }.to_f64_be(), (exp, true));
}

fn f64s(values: &[f64]) -> Vec<F64> {
    values.iter().map(|v| F64 { bits: v.to_bits() }).collect()
}

fn plain(values: &[F64]) -> Vec<f64> {
    values.iter().map(|v| f64::from_bits(v.bits)).collect()
}

#[test]
fn write_read_to_slice_s16le() {
    let values = vec![-0.5, -0.25, -0.125, 0.0, 0.125, 0.25, 0.5];
    let (data, _) = F64::write_samples(&f64s(&values), SampleFormat::S16LE);
    let mut values2 = f64s(&[0.0; 7]);
    F64::read_samples(&data, &mut values2, SampleFormat::S16LE);
    assert_eq!(values, plain(&values2));
}

#[test]
fn write_read_to_slice_s16be() {
    let values = vec![-0.5, -0.25, -0.125, 0.0, 0.125, 0.25, 0.5];
    let (data, _) = F64::write_samples(&f64s(&values), SampleFormat::S16BE);
    let mut values2 = f64s(&[0.0; 7]);
    F64::read_samples(&data, &mut values2, SampleFormat::S16BE);
    assert_eq!(values, plain(&values2));
}

#[test]
fn write_read_all_s32le() {
    let values = vec![-0.5, -0.25, -0.125, 0.0, 0.125, 0.25, 0.5];
    let (data, _) = F64::write_samples(&f64s(&values), SampleFormat::S32LE);
    let mut values2 = Vec::new();
    F64::read_all_samples(&data, &mut values2, SampleFormat::S32LE);
    assert_eq!(values, plain(&values2));
}

#[test]
fn write_read_all_s32be() {
    let values = vec![-0.5, -0.25, -0.125, 0.0, 0.125, 0.25, 0.5];
    let (data, _) = F64::write_samples(&f64s(&values), SampleFormat::S32BE);
    let mut values2 = Vec::new();
    F64::read_all_samples(&data, &mut values2, SampleFormat::S32BE);
    assert_eq!(values, plain(&values2));
}

#[test]
fn read_to_shorter_slice_s16le() {
    let values = vec![-0.5, -0.25, -0.125, 0.0, 0.125, 0.25, 0.5];
    let (data, _) = F64::write_samples(&f64s(&values), SampleFormat::S16LE);
    let mut values2 = f64s(&[0.0; 6]);
    F64::read_samples(&data, &mut values2, SampleFormat::S16LE);
    assert_eq!(values[0..6], plain(&values2));
}

#[test]
fn read_to_longer_slice_s16le() {
    let values = vec![-0.5, -0.25, -0.125, 0.0, 0.125, 0.25, 0.5];
    let (data, _) = F64::write_samples(&f64s(&values), SampleFormat::S16LE);
    let mut values2 = f64s(&[0.75; 9]);
    F64::read_samples(&data, &mut values2, SampleFormat::S16LE);
    let expected = vec![-0.5, -0.25, -0.125, 0.0, 0.125, 0.25, 0.5, 0.75, 0.75];
    assert_eq!(expected, plain(&values2));
}
