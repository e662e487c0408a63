use audiopipe::formats::{i24, parse_f32, parse_i16, F32, I16, I24_3, I24_4, I32};
use audiopipe::{AudioFormat, Norm};

fn norm(x: f32) -> Norm {
    Norm::from_bits(x.to_bits())
}

#[test]
fn i16_bytes_are_big_endian() {
    let mut buf: Vec<u8> = Vec::new();
    I16.to_bytes(&[0x1234, -2, 0, i16::MIN], &mut buf);
    assert_eq!(buf, vec![0x12, 0x34, 0xFF, 0xFE, 0x00, 0x00, 0x80, 0x00]);
}

#[test]
fn i32_bytes_are_big_endian() {
    let mut buf: Vec<u8> = Vec::new();
    I32.to_bytes(&[0x01020304, -1], &mut buf);
    assert_eq!(buf, vec![0x01, 0x02, 0x03, 0x04, 0xFF, 0xFF, 0xFF, 0xFF]);
}

#[test]
fn f32_bytes_are_ieee_big_endian() {
    let mut buf: Vec<u8> = Vec::new();
    F32.to_bytes(&[norm(1.0), norm(-2.0)], &mut buf);
    assert_eq!(buf, vec![0x3F, 0x80, 0x00, 0x00, 0xC0, 0x00, 0x00, 0x00]);
}

#[test]
fn i24_3_bytes_are_the_stored_triples() {
    let mut buf: Vec<u8> = Vec::new();
    let a = i24::pcm_from_i32(0x7FFFFF00);
    let b = i24::pcm_from_i32(-256);
    I24_3.to_bytes(&[a, b], &mut buf);
    assert_eq!(buf, vec![0x7F, 0xFF, 0xFF, 0xFF, 0xFF, 0xFF]);
}

#[test]
fn serialize_length_matches_bytes_per_sample() {
    let mut buf: Vec<u8> = Vec::new();
    I16.to_bytes(&[1, 2, 3], &mut buf);
    assert_eq!(buf.len(), 3 * 2);

    buf.clear();
    I32.to_bytes(&[1, 2, 3, 4, 5], &mut buf);
    assert_eq!(buf.len(), 5 * 4);

    buf.clear();
    F32.to_bytes(&[norm(0.5); 7], &mut buf);
    assert_eq!(buf.len(), 7 * 4);

    buf.clear();
    I24_3.to_bytes(&[i24::pcm_from_i32(5); 3], &mut buf);
    assert_eq!(buf.len(), 3 * 3);

    buf.clear();
    I24_4.to_bytes(&[9, 10], &mut buf);
    assert_eq!(buf.len(), 2 * 4);

    buf.clear();
    I16.to_bytes(&[], &mut buf);
    assert_eq!(buf.len(), 0);
}

#[test]
fn f32_serialization_preserves_exact_bits() {
    // the float format's quantization is the identity: even a NaN's
    // bit pattern reaches the wire unchanged
    let nan = f32::NAN;
    let mut buf: Vec<u8> = Vec::new();
    F32.to_bytes(&[norm(nan)], &mut buf);
    assert_eq!(buf, nan.to_bits().to_be_bytes().to_vec());
}

#[test]
fn serialize_appends_without_clearing() {
    let mut buf: Vec<u8> = vec![0xAA];
    I16.to_bytes(&[0x0102], &mut buf);
    assert_eq!(buf, vec![0xAA, 0x01, 0x02]);
}

#[test]
fn example_scenario_16_bit() {
    // format = 16-bit integer, input floats [0.0, 1.0, -1.0, 0.5]
    let input = [norm(0.0), norm(1.0), norm(-1.0), norm(0.5)];
    let quantized: Vec<i16> = input.iter().map(|s| I16.from_f32(s)).collect();
    assert_eq!(quantized, vec![0, 32767, -32768, 16383]);
    let mut buf: Vec<u8> = Vec::new();
    I16.to_bytes(&quantized, &mut buf);
    assert_eq!(buf, vec![0x00, 0x00, 0x7F, 0xFF, 0x80, 0x00, 0x3F, 0xFF]);
}

#[test]
fn parse_inverts_serialize() {
    let samples: Vec<i16> = vec![0, 1, -1, 32767, -32768, 12345, -12345];
    let mut buf: Vec<u8> = Vec::new();
    I16.to_bytes(&samples, &mut buf);
    assert_eq!(parse_i16(&buf), samples);
    assert_eq!(parse_i16(&[]), Vec::<i16>::new());
}

#[test]
fn f32_round_trip_is_exact() {
    // the float format loses nothing: parse inverts serialize bit for bit
    let samples: Vec<Norm> = [0.0f32, 1.0, -1.0, 0.123456, -0.99997, f32::NAN]
        .iter()
        .map(|x| norm(*x))
        .collect();
    let mut buf: Vec<u8> = Vec::new();
    F32.to_bytes(&samples, &mut buf);
    let back = parse_f32(&buf);
    assert_eq!(back.len(), samples.len());
    for (a, b) in back.iter().zip(samples.iter()) {
        assert_eq!(a.bits(), b.bits());
    }
}

#[test]
fn round_trip_recovers_within_one_step() {
    let step = 1.0f64 / 32767.5;
    for &x in &[
        0.0f32, 1.0, -1.0, 0.5, -0.5, 0.3, -0.3, 0.123456, -0.987654, 0.99997, -0.99997,
        0.000123, -0.000123,
    ] {
        let q = I16.from_f32(&norm(x));
        let mut buf: Vec<u8> = Vec::new();
        I16.to_bytes(&[q], &mut buf);
        let back = parse_i16(&buf)[0];
        assert_eq!(back, q);
        let recovered = (back as f64) / 32767.5;
        assert!((recovered - x as f64).abs() < step, "x = {x}");
    }
}
