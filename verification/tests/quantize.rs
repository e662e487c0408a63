use audiopipe::formats::{i24, F32, I16, I24_3, I24_4, I32};
use audiopipe::{AudioFormat, Norm};

fn norm(x: f32) -> Norm {
    Norm::from_bits(x.to_bits())
}

#[test]
fn i16_full_scale() {
    assert_eq!(I16.from_f32(&norm(1.0)), 32767);
    assert_eq!(I16.from_f32(&norm(-1.0)), -32768);
}

#[test]
fn i32_full_scale() {
    assert_eq!(I32.from_f32(&norm(1.0)), i32::MAX);
    assert_eq!(I32.from_f32(&norm(-1.0)), i32::MIN);
}

#[test]
fn i24_4_full_scale() {
    assert_eq!(I24_4.from_f32(&norm(1.0)), 8388607);
    assert_eq!(I24_4.from_f32(&norm(-1.0)), -8388608);
}

#[test]
fn i24_3_full_scale() {
    let top = I24_3.from_f32(&norm(1.0));
    assert_eq!((top.hi, top.mid, top.lo), (0x7F, 0xFF, 0xFF));
    let bottom = I24_3.from_f32(&norm(-1.0));
    assert_eq!((bottom.hi, bottom.mid, bottom.lo), (0x80, 0x00, 0x00));
}

#[test]
fn f32_quantize_is_identity() {
    let n = norm(0.3125);
    assert_eq!(F32.from_f32(&n), n);
    let neg = norm(-0.75);
    assert_eq!(F32.from_f32(&neg), neg);
}

#[test]
fn i16_midpoints() {
    assert_eq!(I16.from_f32(&norm(0.0)), 0);
    assert_eq!(I16.from_f32(&norm(0.5)), 16383);
    assert_eq!(I16.from_f32(&norm(0.25)), 8191);
    assert_eq!(I16.from_f32(&norm(-0.5)), -16384);
}

#[test]
fn i16_saturates_out_of_range() {
    assert_eq!(I16.from_f32(&norm(2.0)), 32767);
    assert_eq!(I16.from_f32(&norm(-2.0)), -32768);
    assert_eq!(I16.from_f32(&norm(1000.0)), 32767);
    assert_eq!(I16.from_f32(&norm(f32::INFINITY)), 32767);
    assert_eq!(I16.from_f32(&norm(f32::NEG_INFINITY)), -32768);
}

#[test]
fn i16_nan_is_zero() {
    assert_eq!(I16.from_f32(&norm(f32::NAN)), 0);
}

#[test]
fn i16_tiny_magnitudes() {
    // the floor policy sends any negative amplitude below one step to -1
    assert_eq!(I16.from_f32(&norm(-1.0e-10)), -1);
    assert_eq!(I16.from_f32(&norm(1.0e-10)), 0);
    // subnormals
    assert_eq!(I16.from_f32(&norm(f32::MIN_POSITIVE / 2.0)), 0);
    assert_eq!(I16.from_f32(&norm(-f32::MIN_POSITIVE / 2.0)), -1);
    assert_eq!(I16.from_f32(&norm(-0.0)), 0);
}

#[test]
fn i24_packs_top_three_bytes() {
    let t = i24::pcm_from_i32(0x12345678);
    assert_eq!((t.hi, t.mid, t.lo), (0x12, 0x34, 0x56));
    let n = i24::pcm_from_i32(-1);
    assert_eq!((n.hi, n.mid, n.lo), (0xFF, 0xFF, 0xFF));
    let z = i24::pcm_from_i32(0);
    assert_eq!((z.hi, z.mid, z.lo), (0x00, 0x00, 0x00));
}

#[test]
fn both_24_bit_formats_agree() {
    for x in [0.9f32, -0.9, 0.001, -0.001, 1.0, -1.0, 0.0] {
        let t = I24_3.from_f32(&norm(x));
        let w = I24_4.from_f32(&norm(x));
        let m = ((t.hi as i32) << 16) | ((t.mid as i32) << 8) | (t.lo as i32);
        let val = if t.hi >= 0x80 { m - 0x100_0000 } else { m };
        assert_eq!(val, w, "x = {x}");
    }
}

#[test]
fn i24_4_matches_i32_shifted() {
    for x in [0.0f32, 1.0, -1.0, 0.5, -0.5, 0.125, 0.9999, -0.3] {
        let wide = I32.from_f32(&norm(x));
        let narrow = I24_4.from_f32(&norm(x));
        assert_eq!(narrow, wide >> 8);
    }
}
