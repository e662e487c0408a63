//! The supported sample representations.
//!
//! Each format pairs a storage type with the quantization rule of
//! `crate::quant` and a big-endian serialization rule. The 24-bit
//! formats share the 32-bit quantization: one keeps the shifted value
//! in the low bits of a 32-bit word, the other packs the three
//! remaining bytes into a triple at quantization time and appends them
//! verbatim when serializing.

use vstd::prelude::*;

use crate::quant::{
    quant16, quant24, quant32, quantize_i16, quantize_i24, quantize_i32, lemma_quant_bounds,
};
use crate::{AudioFormat, Norm};
use vstd::arithmetic::power2::lemma2_to64;
use vstd::arithmetic::div_mod::{
    lemma_breakdown, lemma_div_denominator, lemma_div_is_ordered, lemma_fundamental_div_mod,
    lemma_fundamental_div_mod_converse_div,
};
use vstd::bits::lemma_u32_shr_is_div;

verus! {

// ---------------------------------------------------------------------
// Big-endian byte strings.
// ---------------------------------------------------------------------

/// The two big-endian bytes of a 16-bit word.
pub open spec fn be2(v: u16) -> Seq<u8> {
    seq![(v >> 8) as u8, v as u8]
}

/// The four big-endian bytes of a 32-bit word.
pub open spec fn be4(v: u32) -> Seq<u8> {
    seq![(v >> 24) as u8, (v >> 16) as u8, (v >> 8) as u8, v as u8]
}

// ---------------------------------------------------------------------
// The 32-bit float format: quantization is the identity, serialization
// writes the IEEE-754 representation.
// ---------------------------------------------------------------------

/// 32-bit float samples.
#[derive(Copy, Clone, Debug)]
pub struct F32;

/// The wire bytes of a float buffer.
pub open spec fn ser_f32(data: Seq<Norm>) -> Seq<u8>
    decreases data.len(),
{
    if data.len() == 0 {
        Seq::empty()
    } else {
        be4(data[0].bits) + ser_f32(data.skip(1))
    }
}

/// Serializing one more float sample appends its four bytes.
proof fn lemma_ser_f32_snoc(data: Seq<Norm>, x: Norm)
    ensures
        ser_f32(data.push(x)) == ser_f32(data) + be4(x.bits),
    decreases data.len(),
{
    if data.len() == 0 {
        assert(data.push(x).skip(1) =~= Seq::<Norm>::empty());
        assert(data.push(x)[0] == x);
        assert(ser_f32(data.push(x)) == be4(x.bits) + ser_f32(data.push(x).skip(1)));
        assert(ser_f32(data.push(x).skip(1)) == Seq::<u8>::empty());
        assert(ser_f32(data) == Seq::<u8>::empty());
        assert(ser_f32(data.push(x)) =~= ser_f32(data) + be4(x.bits));
    } else {
        assert(data.push(x).skip(1) =~= data.skip(1).push(x));
        lemma_ser_f32_snoc(data.skip(1), x);
        assert(ser_f32(data.push(x)) =~= ser_f32(data) + be4(x.bits));
    }
}

impl AudioFormat for F32 {
    type Sample = Norm;

    open spec fn from_f32_spec(s: Norm) -> Norm {
        s
    }

    open spec fn sample_bytes(s: Norm) -> Seq<u8> {
        be4(s.bits)
    }

    open spec fn ser(data: Seq<Norm>) -> Seq<u8> {
        ser_f32(data)
    }

    open spec fn bytes_per_sample() -> nat {
        4
    }

    proof fn lemma_sample_bytes_len(s: Norm) {
    }

    proof fn lemma_ser_unfold(data: Seq<Norm>) {
    }

    fn tag() -> Self {
        F32
    }

    fn from_f32(&self, s: &Norm) -> (r: Norm) {
        *s
    }

    fn to_bytes(&self, data: &[Norm], buf: &mut Vec<u8>) {
        let n: usize = data.len();
        let mut i: usize = 0;
        while i < n
            invariant
                n == data@.len(),
                i <= n,
                buf@ == old(buf)@ + ser_f32(data@.take(i as int)),
            decreases n - i,
        {
            let v: u32 = data[i].bits;
            buf.push((v >> 24) as u8);
            buf.push(#[verifier::truncate] ((v >> 16) as u8));
            buf.push(#[verifier::truncate] ((v >> 8) as u8));
            buf.push(#[verifier::truncate] (v as u8));
            proof {
                assert(data@.take(i + 1) =~= data@.take(i as int).push(data@[i as int]));
                lemma_ser_f32_snoc(data@.take(i as int), data@[i as int]);
                assert(buf@ =~= old(buf)@ + ser_f32(data@.take(i + 1)));
            }
            i += 1;
        }
        proof {
            assert(data@.take(n as int) =~= data@);
        }
    }
}

// ---------------------------------------------------------------------
// The signed 16-bit format.
// ---------------------------------------------------------------------

/// Signed 16-bit integer samples.
#[derive(Copy, Clone, Debug)]
pub struct I16;

/// The wire bytes of a 16-bit buffer.
pub open spec fn ser_i16(data: Seq<i16>) -> Seq<u8>
    decreases data.len(),
{
    if data.len() == 0 {
        Seq::empty()
    } else {
        be2(data[0] as u16) + ser_i16(data.skip(1))
    }
}

/// Serializing one more 16-bit sample appends its two bytes.
proof fn lemma_ser_i16_snoc(data: Seq<i16>, x: i16)
    ensures
        ser_i16(data.push(x)) == ser_i16(data) + be2(x as u16),
    decreases data.len(),
{
    if data.len() == 0 {
        assert(data.push(x).skip(1) =~= Seq::<i16>::empty());
        assert(data.push(x)[0] == x);
        assert(ser_i16(data.push(x)) == be2(x as u16) + ser_i16(data.push(x).skip(1)));
        assert(ser_i16(data.push(x).skip(1)) == Seq::<u8>::empty());
        assert(ser_i16(data) == Seq::<u8>::empty());
        assert(ser_i16(data.push(x)) =~= ser_i16(data) + be2(x as u16));
    } else {
        assert(data.push(x).skip(1) =~= data.skip(1).push(x));
        lemma_ser_i16_snoc(data.skip(1), x);
        assert(ser_i16(data.push(x)) =~= ser_i16(data) + be2(x as u16));
    }
}

impl AudioFormat for I16 {
    type Sample = i16;

    open spec fn from_f32_spec(s: Norm) -> i16 {
        quant16(s.bits) as i16
    }

    open spec fn sample_bytes(s: i16) -> Seq<u8> {
        be2(s as u16)
    }

    open spec fn ser(data: Seq<i16>) -> Seq<u8> {
        ser_i16(data)
    }

    open spec fn bytes_per_sample() -> nat {
        2
    }

    proof fn lemma_sample_bytes_len(s: i16) {
    }

    proof fn lemma_ser_unfold(data: Seq<i16>) {
    }

    fn tag() -> Self {
        I16
    }

    fn from_f32(&self, s: &Norm) -> (r: i16) {
        proof {
            lemma_quant_bounds(s.bits, 0x7FFF);
        }
        quantize_i16(s.bits)
    }

    fn to_bytes(&self, data: &[i16], buf: &mut Vec<u8>) {
        let n: usize = data.len();
        let mut i: usize = 0;
        while i < n
            invariant
                n == data@.len(),
                i <= n,
                buf@ == old(buf)@ + ser_i16(data@.take(i as int)),
            decreases n - i,
        {
            let v: u16 = #[verifier::truncate] (data[i] as u16);
            buf.push((v >> 8) as u8);
            buf.push(#[verifier::truncate] (v as u8));
            proof {
                assert(data@.take(i + 1) =~= data@.take(i as int).push(data@[i as int]));
                lemma_ser_i16_snoc(data@.take(i as int), data@[i as int]);
                assert(buf@ =~= old(buf)@ + ser_i16(data@.take(i + 1)));
            }
            i += 1;
        }
        proof {
            assert(data@.take(n as int) =~= data@);
        }
    }
}

// ---------------------------------------------------------------------
// The signed 32-bit format.
// ---------------------------------------------------------------------

/// Signed 32-bit integer samples.
#[derive(Copy, Clone, Debug)]
pub struct I32;

/// The wire bytes of a 32-bit buffer.
pub open spec fn ser_i32(data: Seq<i32>) -> Seq<u8>
    decreases data.len(),
{
    if data.len() == 0 {
        Seq::empty()
    } else {
        be4(data[0] as u32) + ser_i32(data.skip(1))
    }
}

/// Serializing one more 32-bit sample appends its four bytes.
proof fn lemma_ser_i32_snoc(data: Seq<i32>, x: i32)
    ensures
        ser_i32(data.push(x)) == ser_i32(data) + be4(x as u32),
    decreases data.len(),
{
    if data.len() == 0 {
        assert(data.push(x).skip(1) =~= Seq::<i32>::empty());
        assert(data.push(x)[0] == x);
        assert(ser_i32(data.push(x)) == be4(x as u32) + ser_i32(data.push(x).skip(1)));
        assert(ser_i32(data.push(x).skip(1)) == Seq::<u8>::empty());
        assert(ser_i32(data) == Seq::<u8>::empty());
        assert(ser_i32(data.push(x)) =~= ser_i32(data) + be4(x as u32));
    } else {
        assert(data.push(x).skip(1) =~= data.skip(1).push(x));
        lemma_ser_i32_snoc(data.skip(1), x);
        assert(ser_i32(data.push(x)) =~= ser_i32(data) + be4(x as u32));
    }
}

impl AudioFormat for I32 {
    type Sample = i32;

    open spec fn from_f32_spec(s: Norm) -> i32 {
        quant32(s.bits) as i32
    }

    open spec fn sample_bytes(s: i32) -> Seq<u8> {
        be4(s as u32)
    }

    open spec fn ser(data: Seq<i32>) -> Seq<u8> {
        ser_i32(data)
    }

    open spec fn bytes_per_sample() -> nat {
        4
    }

    proof fn lemma_sample_bytes_len(s: i32) {
    }

    proof fn lemma_ser_unfold(data: Seq<i32>) {
    }

    fn tag() -> Self {
        I32
    }

    fn from_f32(&self, s: &Norm) -> (r: i32) {
        proof {
            lemma_quant_bounds(s.bits, 0x7FFF_FFFF);
        }
        quantize_i32(s.bits)
    }

    fn to_bytes(&self, data: &[i32], buf: &mut Vec<u8>) {
        let n: usize = data.len();
        let mut i: usize = 0;
        while i < n
            invariant
                n == data@.len(),
                i <= n,
                buf@ == old(buf)@ + ser_i32(data@.take(i as int)),
            decreases n - i,
        {
            let v: u32 = #[verifier::truncate] (data[i] as u32);
            buf.push((v >> 24) as u8);
            buf.push(#[verifier::truncate] ((v >> 16) as u8));
            buf.push(#[verifier::truncate] ((v >> 8) as u8));
            buf.push(#[verifier::truncate] (v as u8));
            proof {
                assert(data@.take(i + 1) =~= data@.take(i as int).push(data@[i as int]));
                lemma_ser_i32_snoc(data@.take(i as int), data@[i as int]);
                assert(buf@ =~= old(buf)@ + ser_i32(data@.take(i + 1)));
            }
            i += 1;
        }
        proof {
            assert(data@.take(n as int) =~= data@);
        }
    }
}

// ---------------------------------------------------------------------
// A 24-bit sample packed into three bytes.
// ---------------------------------------------------------------------

/// A signed 24-bit sample as its three big-endian wire bytes.
#[allow(non_camel_case_types)]
#[derive(Copy, Clone, Debug, PartialEq, Eq, Structural)]
pub struct i24 {
    pub hi: u8,
    pub mid: u8,
    pub lo: u8,
}

/// The packed triple for a 32-bit sample: the three most significant
/// bytes, which are the big-endian bytes of `sample >> 8`.
pub open spec fn i24_of(sample: i32) -> i24 {
    i24 {
        hi: ((sample as u32) >> 24) as u8,
        mid: ((sample as u32) >> 16) as u8,
        lo: ((sample as u32) >> 8) as u8,
    }
}

impl i24 {
    /// Drop the least significant byte of `sample` and pack the
    /// remaining three, big-endian.
    pub fn pcm_from_i32(sample: i32) -> (r: i24)
        ensures
            r == i24_of(sample),
    {
        let u: u32 = #[verifier::truncate] (sample as u32);
        i24 {
            hi: (u >> 24) as u8,
            mid: #[verifier::truncate] ((u >> 16) as u8),
            lo: #[verifier::truncate] ((u >> 8) as u8),
        }
    }
}

/// The numeric value a packed triple encodes: a signed 24-bit
/// two's-complement integer, big-endian.
pub open spec fn i24_val(s: i24) -> int {
    let m = (s.hi as int) * 0x1_0000 + (s.mid as int) * 0x100 + (s.lo as int);
    if s.hi >= 0x80 {
        m - 0x100_0000
    } else {
        m
    }
}

/// The packed triple encodes exactly the sample divided by 256 rounding
/// toward negative infinity - the arithmetic shift that drops the low byte.
pub proof fn lemma_i24_value(sample: i32)
    ensures
        i24_val(i24_of(sample)) == sample as int / 256,
{
    let v = sample as int;
    let u = sample as u32;
    // the bit pattern of a negative sample holds its value plus 2^32
    assert(sample < 0 ==> (sample as u32) == (sample as i64 + 0x1_0000_0000) as u32)
        by (bit_vector);
    assert(u as int == if v < 0 {
        v + 0x1_0000_0000
    } else {
        v
    });
    // the three stored bytes, as divisions and remainders of the pattern
    lemma2_to64();
    lemma_u32_shr_is_div(u, 24);
    lemma_u32_shr_is_div(u, 16);
    lemma_u32_shr_is_div(u, 8);
    assert(((u >> 24) as u8) as u32 == (u >> 24)) by (bit_vector);
    assert(((u >> 16) as u8) as u32 == (u >> 16) % 0x100) by (bit_vector);
    assert(((u >> 8) as u8) as u32 == (u >> 8) % 0x100) by (bit_vector);
    let t = (u as int) / 0x100;
    lemma_div_denominator(u as int, 0x100, 0x100);
    lemma_div_denominator(u as int, 0x100, 0x1_0000);
    let s = i24_of(sample);
    assert(s.hi as int == t / 0x1_0000);
    assert(s.mid as int == (t / 0x100) % 0x100);
    assert(s.lo as int == t % 0x100);
    // the three bytes recompose the shifted pattern
    lemma_fundamental_div_mod(t, 0x1_0000);
    lemma_breakdown(t, 0x100, 0x100);
    assert((s.hi as int) * 0x1_0000 + (s.mid as int) * 0x100 + (s.lo as int) == t);
    if v >= 0 {
        // the high byte stays below 0x80: no sign correction
        lemma_div_is_ordered(v, 0x7FFF_FFFF, 0x100_0000);
        lemma_fundamental_div_mod_converse_div(0x7FFF_FFFF, 0x100_0000, 0x7F, 0xFF_FFFF);
        lemma_div_denominator(u as int, 0x100, 0x1_0000);
        assert(s.hi < 0x80);
        assert(i24_val(s) == t);
    } else {
        // the value's quotient, shifted into the pattern's range
        lemma_fundamental_div_mod(v, 0x100);
        let q = v / 0x100;
        let r = v % 0x100;
        lemma_fundamental_div_mod_converse_div(v + 0x1_0000_0000, 0x100, q + 0x100_0000, r);
        assert(t == q + 0x100_0000);
        // the high byte carries the sign: at least 0x80
        lemma_fundamental_div_mod_converse_div(-0x8000_0000, 0x100, -0x80_0000, 0);
        lemma_div_is_ordered(-0x8000_0000, v, 0x100);
        assert(q >= -0x80_0000);
        assert(t >= 0x80_0000);
        lemma_fundamental_div_mod_converse_div(0x80_0000, 0x1_0000, 0x80, 0);
        lemma_div_is_ordered(0x80_0000, t, 0x1_0000);
        assert(s.hi >= 0x80);
        assert(i24_val(s) == t - 0x100_0000);
    }
}

/// The two 24-bit formats quantize alike: the packed triple encodes
/// exactly the sample the four-byte 24-bit format stores.
pub proof fn lemma_i24_formats_agree(s: Norm)
    ensures
        i24_val(<I24_3 as AudioFormat>::from_f32_spec(s)) == <I24_4 as AudioFormat>::from_f32_spec(
            s,
        ) as int,
{
    lemma_quant_bounds(s.bits, 0x7FFF_FFFF);
    lemma_i24_value(quant32(s.bits) as i32);
    lemma_fundamental_div_mod_converse_div(0x7FFF_FFFF, 0x100, 0x7F_FFFF, 0xFF);
    lemma_fundamental_div_mod_converse_div(-0x8000_0000, 0x100, -0x80_0000, 0);
    lemma_div_is_ordered(quant32(s.bits), 0x7FFF_FFFF, 0x100);
    lemma_div_is_ordered(-0x8000_0000, quant32(s.bits), 0x100);
}

/// Signed 24-bit samples packed into three bytes each.
#[derive(Copy, Clone, Debug)]
pub struct I24_3;

/// The wire bytes of a packed 24-bit buffer: the stored triples, verbatim.
pub open spec fn ser_i24(data: Seq<i24>) -> Seq<u8>
    decreases data.len(),
{
    if data.len() == 0 {
        Seq::empty()
    } else {
        seq![data[0].hi, data[0].mid, data[0].lo] + ser_i24(data.skip(1))
    }
}

/// Serializing one more packed sample appends its three bytes.
proof fn lemma_ser_i24_snoc(data: Seq<i24>, x: i24)
    ensures
        ser_i24(data.push(x)) == ser_i24(data) + seq![x.hi, x.mid, x.lo],
    decreases data.len(),
{
    if data.len() == 0 {
        assert(data.push(x).skip(1) =~= Seq::<i24>::empty());
        assert(data.push(x)[0] == x);
        assert(ser_i24(data.push(x)) == seq![x.hi, x.mid, x.lo] + ser_i24(data.push(x).skip(1)));
        assert(ser_i24(data.push(x).skip(1)) == Seq::<u8>::empty());
        assert(ser_i24(data) == Seq::<u8>::empty());
        assert(ser_i24(data.push(x)) =~= ser_i24(data) + seq![x.hi, x.mid, x.lo]);
    } else {
        assert(data.push(x).skip(1) =~= data.skip(1).push(x));
        lemma_ser_i24_snoc(data.skip(1), x);
        assert(ser_i24(data.push(x)) =~= ser_i24(data) + seq![x.hi, x.mid, x.lo]);
    }
}

impl AudioFormat for I24_3 {
    type Sample = i24;

    open spec fn from_f32_spec(s: Norm) -> i24 {
        i24_of(quant32(s.bits) as i32)
    }

    open spec fn sample_bytes(s: i24) -> Seq<u8> {
        seq![s.hi, s.mid, s.lo]
    }

    open spec fn ser(data: Seq<i24>) -> Seq<u8> {
        ser_i24(data)
    }

    open spec fn bytes_per_sample() -> nat {
        3
    }

    proof fn lemma_sample_bytes_len(s: i24) {
    }

    proof fn lemma_ser_unfold(data: Seq<i24>) {
    }

    fn tag() -> Self {
        I24_3
    }

    fn from_f32(&self, s: &Norm) -> (r: i24) {
        proof {
            lemma_quant_bounds(s.bits, 0x7FFF_FFFF);
        }
        i24::pcm_from_i32(quantize_i32(s.bits))
    }

    fn to_bytes(&self, data: &[i24], buf: &mut Vec<u8>) {
        let n: usize = data.len();
        let mut i: usize = 0;
        while i < n
            invariant
                n == data@.len(),
                i <= n,
                buf@ == old(buf)@ + ser_i24(data@.take(i as int)),
            decreases n - i,
        {
            let s: i24 = data[i];
            buf.push(s.hi);
            buf.push(s.mid);
            buf.push(s.lo);
            proof {
                assert(data@.take(i + 1) =~= data@.take(i as int).push(data@[i as int]));
                lemma_ser_i24_snoc(data@.take(i as int), data@[i as int]);
                assert(buf@ =~= old(buf)@ + ser_i24(data@.take(i + 1)));
            }
            i += 1;
        }
        proof {
            assert(data@.take(n as int) =~= data@);
        }
    }
}

// ---------------------------------------------------------------------
// A 24-bit sample stored in the low bits of a four-byte word.
// ---------------------------------------------------------------------

/// Signed 24-bit samples held in the low 24 bits of a 32-bit word.
#[allow(non_camel_case_types)]
#[derive(Copy, Clone, Debug)]
pub struct I24_4;

impl AudioFormat for I24_4 {
    type Sample = i32;

    open spec fn from_f32_spec(s: Norm) -> i32 {
        quant24(s.bits) as i32
    }

    open spec fn sample_bytes(s: i32) -> Seq<u8> {
        be4(s as u32)
    }

    open spec fn ser(data: Seq<i32>) -> Seq<u8> {
        ser_i32(data)
    }

    open spec fn bytes_per_sample() -> nat {
        4
    }

    proof fn lemma_sample_bytes_len(s: i32) {
    }

    proof fn lemma_ser_unfold(data: Seq<i32>) {
    }

    fn tag() -> Self {
        I24_4
    }

    fn from_f32(&self, s: &Norm) -> (r: i32) {
        quantize_i24(s.bits)
    }

    fn to_bytes(&self, data: &[i32], buf: &mut Vec<u8>) {
        let n: usize = data.len();
        let mut i: usize = 0;
        while i < n
            invariant
                n == data@.len(),
                i <= n,
                buf@ == old(buf)@ + ser_i32(data@.take(i as int)),
            decreases n - i,
        {
            let v: u32 = #[verifier::truncate] (data[i] as u32);
            buf.push((v >> 24) as u8);
            buf.push(#[verifier::truncate] ((v >> 16) as u8));
            buf.push(#[verifier::truncate] ((v >> 8) as u8));
            buf.push(#[verifier::truncate] (v as u8));
            proof {
                assert(data@.take(i + 1) =~= data@.take(i as int).push(data@[i as int]));
                lemma_ser_i32_snoc(data@.take(i as int), data@[i as int]);
                assert(buf@ =~= old(buf)@ + ser_i32(data@.take(i + 1)));
            }
            i += 1;
        }
        proof {
            assert(data@.take(n as int) =~= data@);
        }
    }
}

// ---------------------------------------------------------------------
// Re-parsing the 16-bit wire form.
// ---------------------------------------------------------------------

/// The sample encoded by one big-endian byte pair.
pub open spec fn parse16_pair(b0: u8, b1: u8) -> i16 {
    (((b0 as u16) << 8) | (b1 as u16)) as i16
}

/// The samples encoded by a big-endian 16-bit wire byte string,
/// pair by pair.
pub open spec fn parse16_seq(bytes: Seq<u8>) -> Seq<i16>
    decreases bytes.len(),
{
    if bytes.len() < 2 {
        Seq::empty()
    } else {
        seq![parse16_pair(bytes[0], bytes[1])] + parse16_seq(bytes.skip(2))
    }
}

/// One sample survives the serialize-then-parse pair exactly.
proof fn lemma_parse16_pair_inverse(s: i16)
    ensures
        parse16_pair(((s as u16) >> 8) as u8, (s as u16) as u8) == s,
{
    assert(((((((s as u16) >> 8) as u8) as u16) << 8) | (((s as u16) as u8) as u16)) as i16
        == s) by (bit_vector);
}

/// Round trip: re-parsing the serialized big-endian wire bytes of a
/// 16-bit sample buffer recovers exactly that buffer.
pub proof fn lemma_parse16_round_trip(data: Seq<i16>)
    ensures
        parse16_seq(ser_i16(data)) == data,
    decreases data.len(),
{
    if data.len() == 0 {
        assert(parse16_seq(ser_i16(data)) =~= data);
    } else {
        let bs = ser_i16(data);
        assert(bs == be2(data[0] as u16) + ser_i16(data.skip(1)));
        lemma_parse16_pair_inverse(data[0]);
        assert(bs[0] == ((data[0] as u16) >> 8) as u8);
        assert(bs[1] == (data[0] as u16) as u8);
        assert(parse16_pair(bs[0], bs[1]) == data[0]);
        assert(bs.skip(2) =~= ser_i16(data.skip(1)));
        lemma_parse16_round_trip(data.skip(1));
        assert(bs.len() >= 2) by {
            crate::lemma_ser_spec_len::<I16>(data.skip(1));
            assert(ser_i16(data.skip(1)).len() == data.skip(1).len() * 2);
        }
        assert(parse16_seq(bs) =~= data);
    }
}

/// Serializing one more byte pair extends the parsed sample sequence.
proof fn lemma_parse16_snoc(b: Seq<u8>, x0: u8, x1: u8)
    requires
        b.len() % 2 == 0,
    ensures
        parse16_seq(b.push(x0).push(x1)) == parse16_seq(b).push(parse16_pair(x0, x1)),
    decreases b.len(),
{
    if b.len() == 0 {
        let bb = b.push(x0).push(x1);
        assert(bb[0] == x0);
        assert(bb[1] == x1);
        assert(bb.skip(2) =~= Seq::<u8>::empty());
        assert(parse16_seq(bb) == seq![parse16_pair(x0, x1)] + parse16_seq(bb.skip(2)));
        assert(parse16_seq(bb.skip(2)) == Seq::<i16>::empty());
        assert(parse16_seq(b) == Seq::<i16>::empty());
        assert(parse16_seq(bb) =~= parse16_seq(b).push(parse16_pair(x0, x1)));
    } else {
        let bb = b.push(x0).push(x1);
        assert(b.len() >= 2);
        assert(bb[0] == b[0]);
        assert(bb[1] == b[1]);
        assert(bb.skip(2) =~= b.skip(2).push(x0).push(x1));
        lemma_parse16_snoc(b.skip(2), x0, x1);
        assert(parse16_seq(bb) == seq![parse16_pair(bb[0], bb[1])] + parse16_seq(bb.skip(2)));
        assert(parse16_seq(bb.skip(2)) == parse16_seq(b.skip(2)).push(parse16_pair(x0, x1)));
        assert(parse16_seq(b) == seq![parse16_pair(b[0], b[1])] + parse16_seq(b.skip(2)));
        assert(parse16_seq(bb) =~= parse16_seq(b).push(parse16_pair(x0, x1)));
    }
}

/// Re-parse big-endian 16-bit wire bytes into the samples they encode.
pub fn parse_i16(bytes: &[u8]) -> (r: Vec<i16>)
    requires
        bytes@.len() % 2 == 0,
    ensures
        r@ == parse16_seq(bytes@),
{
    let n: usize = bytes.len();
    let mut out: Vec<i16> = Vec::new();
    let mut i: usize = 0;
    while i < n
        invariant
            n == bytes@.len(),
            n % 2 == 0,
            i % 2 == 0,
            i <= n,
            out@ == parse16_seq(bytes@.take(i as int)),
        decreases n - i,
    {
        let b0: u8 = bytes[i];
        let b1: u8 = bytes[i + 1];
        let v: u16 = ((b0 as u16) << 8) | (b1 as u16);
        out.push(#[verifier::truncate] (v as i16));
        proof {
            assert(bytes@.take(i + 2) =~= bytes@.take(i as int).push(bytes@[i as int]).push(
                bytes@[i + 1],
            ));
            lemma_parse16_snoc(bytes@.take(i as int), bytes@[i as int], bytes@[i + 1]);
        }
        i += 2;
    }
    proof {
        assert(bytes@.take(n as int) =~= bytes@);
    }
    out
}

// ---------------------------------------------------------------------
// Re-parsing the float wire form.
// ---------------------------------------------------------------------

/// The amplitude encoded by one big-endian four-byte group.
pub open spec fn parse32_word(b0: u8, b1: u8, b2: u8, b3: u8) -> u32 {
    ((b0 as u32) << 24) | ((b1 as u32) << 16) | ((b2 as u32) << 8) | (b3 as u32)
}

/// The amplitudes encoded by a big-endian float wire byte string,
/// four bytes at a time.
pub open spec fn parse_f32_seq(bytes: Seq<u8>) -> Seq<Norm>
    decreases bytes.len(),
{
    if bytes.len() < 4 {
        Seq::empty()
    } else {
        seq![Norm { bits: parse32_word(bytes[0], bytes[1], bytes[2], bytes[3]) }]
            + parse_f32_seq(bytes.skip(4))
    }
}

/// One amplitude survives the serialize-then-parse pair exactly.
proof fn lemma_parse32_word_inverse(v: u32)
    ensures
        parse32_word((v >> 24) as u8, (v >> 16) as u8, (v >> 8) as u8, v as u8) == v,
{
    assert(((((v >> 24) as u8) as u32) << 24) | ((((v >> 16) as u8) as u32) << 16) | ((((v
        >> 8) as u8) as u32) << 8) | ((v as u8) as u32) == v) by (bit_vector);
}

/// Round trip: re-parsing the serialized big-endian wire bytes of a
/// float sample buffer recovers exactly that buffer - the float
/// format's quantization is the identity, so nothing at all is lost.
pub proof fn lemma_parse_f32_round_trip(data: Seq<Norm>)
    ensures
        parse_f32_seq(ser_f32(data)) == data,
    decreases data.len(),
{
    if data.len() == 0 {
        assert(parse_f32_seq(ser_f32(data)) =~= data);
    } else {
        let bs = ser_f32(data);
        assert(bs == be4(data[0].bits) + ser_f32(data.skip(1)));
        lemma_parse32_word_inverse(data[0].bits);
        assert(bs[0] == (data[0].bits >> 24) as u8);
        assert(bs[1] == (data[0].bits >> 16) as u8);
        assert(bs[2] == (data[0].bits >> 8) as u8);
        assert(bs[3] == data[0].bits as u8);
        assert(parse32_word(bs[0], bs[1], bs[2], bs[3]) == data[0].bits);
        assert(bs.skip(4) =~= ser_f32(data.skip(1)));
        lemma_parse_f32_round_trip(data.skip(1));
        assert(bs.len() >= 4) by {
            crate::lemma_ser_spec_len::<F32>(data.skip(1));
            assert(ser_f32(data.skip(1)).len() == data.skip(1).len() * 4);
        }
        assert(parse_f32_seq(bs) =~= data);
    }
}

/// Parsing one more four-byte group extends the amplitude sequence.
proof fn lemma_parse_f32_snoc(b: Seq<u8>, x0: u8, x1: u8, x2: u8, x3: u8)
    requires
        b.len() % 4 == 0,
    ensures
        parse_f32_seq(b.push(x0).push(x1).push(x2).push(x3)) == parse_f32_seq(b).push(
            Norm { bits: parse32_word(x0, x1, x2, x3) },
        ),
    decreases b.len(),
{
    let bb = b.push(x0).push(x1).push(x2).push(x3);
    if b.len() == 0 {
        assert(bb[0] == x0);
        assert(bb[1] == x1);
        assert(bb[2] == x2);
        assert(bb[3] == x3);
        assert(bb.skip(4) =~= Seq::<u8>::empty());
        assert(parse_f32_seq(bb) == seq![Norm { bits: parse32_word(x0, x1, x2, x3) }]
            + parse_f32_seq(bb.skip(4)));
        assert(parse_f32_seq(bb.skip(4)) == Seq::<Norm>::empty());
        assert(parse_f32_seq(b) == Seq::<Norm>::empty());
        assert(parse_f32_seq(bb) =~= parse_f32_seq(b).push(
            Norm { bits: parse32_word(x0, x1, x2, x3) },
        ));
    } else {
        assert(b.len() >= 4);
        assert(bb[0] == b[0]);
        assert(bb[1] == b[1]);
        assert(bb[2] == b[2]);
        assert(bb[3] == b[3]);
        assert(bb.skip(4) =~= b.skip(4).push(x0).push(x1).push(x2).push(x3));
        lemma_parse_f32_snoc(b.skip(4), x0, x1, x2, x3);
        assert(parse_f32_seq(bb) == seq![parse_f32_seq(bb)[0]] + parse_f32_seq(bb.skip(4)));
        assert(parse_f32_seq(bb.skip(4)) == parse_f32_seq(b.skip(4)).push(
            Norm { bits: parse32_word(x0, x1, x2, x3) },
        ));
        assert(parse_f32_seq(b) == seq![Norm {
            bits: parse32_word(b[0], b[1], b[2], b[3]),
        }] + parse_f32_seq(b.skip(4)));
        assert(parse_f32_seq(bb) =~= parse_f32_seq(b).push(
            Norm { bits: parse32_word(x0, x1, x2, x3) },
        ));
    }
}

/// Re-parse big-endian float wire bytes into the amplitudes they encode.
pub fn parse_f32(bytes: &[u8]) -> (r: Vec<Norm>)
    requires
        bytes@.len() % 4 == 0,
    ensures
        r@ == parse_f32_seq(bytes@),
{
    let n: usize = bytes.len();
    let mut out: Vec<Norm> = Vec::new();
    let mut i: usize = 0;
    while i < n
        invariant
            n == bytes@.len(),
            n % 4 == 0,
            i % 4 == 0,
            i <= n,
            out@ == parse_f32_seq(bytes@.take(i as int)),
        decreases n - i,
    {
        let b0: u8 = bytes[i];
        let b1: u8 = bytes[i + 1];
        let b2: u8 = bytes[i + 2];
        let b3: u8 = bytes[i + 3];
        let v: u32 = ((b0 as u32) << 24) | ((b1 as u32) << 16) | ((b2 as u32) << 8) | (b3
            as u32);
        out.push(Norm { bits: v });
        proof {
            assert(bytes@.take(i + 4) =~= bytes@.take(i as int).push(bytes@[i as int]).push(
                bytes@[i + 1],
            ).push(bytes@[i + 2]).push(bytes@[i + 3]));
            lemma_parse_f32_snoc(
                bytes@.take(i as int),
                bytes@[i as int],
                bytes@[i + 1],
                bytes@[i + 2],
                bytes@[i + 3],
            );
        }
        i += 4;
    }
    proof {
        assert(bytes@.take(n as int) =~= bytes@);
    }
    out
}

} // verus!
