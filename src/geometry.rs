//! Vectors and matrices whose components are IEEE-754 single-precision bit
//! patterns, as stored in the binary formats.

use byteorder::{ByteOrder, LE};
use vstd::prelude::*;

use crate::le::{lemma_u32_at, read_u32, u32_at, u32_le, write_u32};

verus! {

/// Flips the sign of a single-precision value given by its bits.
pub open spec fn neg_bits(v: u32) -> u32 {
    v ^ 0x8000_0000u32
}

/// A three-component vector.
#[derive(Clone, Copy, Debug, PartialEq, Eq, Structural, Default)]
pub struct Vec3 {
    pub x: u32,
    pub y: u32,
    pub z: u32,
}

/// A two-component vector.
#[derive(Clone, Copy, Debug, PartialEq, Eq, Structural, Default)]
pub struct Vec2 {
    pub x: u32,
    pub y: u32,
}

impl Vec3 {
    pub fn new(x: u32, y: u32, z: u32) -> (r: Vec3)
        ensures
            r == (Vec3 { x, y, z }),
    {
        Vec3 { x, y, z }
    }
}

impl Vec2 {
    pub fn new(x: u32, y: u32) -> (r: Vec2)
        ensures
            r == (Vec2 { x, y }),
    {
        Vec2 { x, y }
    }
}

/// The zero vector: every component is `+0.0`.
pub open spec fn zero3() -> Vec3 {
    Vec3 { x: 0, y: 0, z: 0 }
}

pub open spec fn vec3_le(v: Vec3) -> Seq<u8> {
    u32_le(v.x) + u32_le(v.y) + u32_le(v.z)
}

pub open spec fn vec2_le(v: Vec2) -> Seq<u8> {
    u32_le(v.x) + u32_le(v.y)
}

pub open spec fn vec3_at(s: Seq<u8>, pos: int) -> Vec3 {
    Vec3 { x: u32_at(s, pos), y: u32_at(s, pos + 4), z: u32_at(s, pos + 8) }
}

pub open spec fn vec2_at(s: Seq<u8>, pos: int) -> Vec2 {
    Vec2 { x: u32_at(s, pos), y: u32_at(s, pos + 4) }
}

pub fn read_vec3(b: &[u8], pos: usize) -> (r: Vec3)
    requires
        pos + 12 <= b@.len(),
    ensures
        r == vec3_at(b@, pos as int),
{
    let _len = b.len();
    Vec3 { x: read_u32(b, pos), y: read_u32(b, pos + 4), z: read_u32(b, pos + 8) }
}

pub fn read_vec2(b: &[u8], pos: usize) -> (r: Vec2)
    requires
        pos + 8 <= b@.len(),
    ensures
        r == vec2_at(b@, pos as int),
{
    let _len = b.len();
    Vec2 { x: read_u32(b, pos), y: read_u32(b, pos + 4) }
}

pub fn write_vec3(out: &mut Vec<u8>, v: Vec3)
    ensures
        final(out)@ == old(out)@ + vec3_le(v),
{
    write_u32(out, v.x);
    write_u32(out, v.y);
    write_u32(out, v.z);
    assert(out@ =~= old(out)@ + vec3_le(v));
}

pub fn write_vec2(out: &mut Vec<u8>, v: Vec2)
    ensures
        final(out)@ == old(out)@ + vec2_le(v),
{
    write_u32(out, v.x);
    write_u32(out, v.y);
    assert(out@ =~= old(out)@ + vec2_le(v));
}

} // verus!

verus! {

pub proof fn lemma_u32_at_sub(r: Seq<u8>, o: int, v: u32)
    requires
        0 <= o,
        o + 4 <= r.len(),
        r.subrange(o, o + 4) == u32_le(v),
    ensures
        u32_at(r, o) == v,
{
    lemma_u32_at(seq![], v, seq![]);
    assert(seq![] + u32_le(v) + seq![] =~= u32_le(v));
    assert(r[o] == u32_le(v)[0] && r[o + 1] == u32_le(v)[1] && r[o + 2] == u32_le(v)[2] && r[o
        + 3] == u32_le(v)[3]);
}

pub proof fn lemma_vec3_at_sub(r: Seq<u8>, o: int, v: Vec3)
    requires
        0 <= o,
        o + 12 <= r.len(),
        r.subrange(o, o + 12) == vec3_le(v),
    ensures
        vec3_at(r, o) == v,
{
    assert(r.subrange(o, o + 4) =~= r.subrange(o, o + 12).subrange(0, 4));
    assert(r.subrange(o + 4, o + 8) =~= r.subrange(o, o + 12).subrange(4, 8));
    assert(r.subrange(o + 8, o + 12) =~= r.subrange(o, o + 12).subrange(8, 12));
    assert(vec3_le(v).subrange(0, 4) =~= u32_le(v.x));
    assert(vec3_le(v).subrange(4, 8) =~= u32_le(v.y));
    assert(vec3_le(v).subrange(8, 12) =~= u32_le(v.z));
    lemma_u32_at_sub(r, o, v.x);
    lemma_u32_at_sub(r, o + 4, v.y);
    lemma_u32_at_sub(r, o + 8, v.z);
}

pub proof fn lemma_vec2_at_sub(r: Seq<u8>, o: int, v: Vec2)
    requires
        0 <= o,
        o + 8 <= r.len(),
        r.subrange(o, o + 8) == vec2_le(v),
    ensures
        vec2_at(r, o) == v,
{
    assert(r.subrange(o, o + 4) =~= r.subrange(o, o + 8).subrange(0, 4));
    assert(r.subrange(o + 4, o + 8) =~= r.subrange(o, o + 8).subrange(4, 8));
    assert(vec2_le(v).subrange(0, 4) =~= u32_le(v.x));
    assert(vec2_le(v).subrange(4, 8) =~= u32_le(v.y));
    lemma_u32_at_sub(r, o, v.x);
    lemma_u32_at_sub(r, o + 4, v.y);
}

} // verus!

verus! {

pub proof fn lemma_u16_at_sub(r: Seq<u8>, o: int, v: u16)
    requires
        0 <= o,
        o + 2 <= r.len(),
        r.subrange(o, o + 2) == crate::le::u16_le(v),
    ensures
        crate::le::u16_at(r, o) == v,
{
    crate::le::lemma_u16_at(seq![], v, seq![]);
    assert(seq![] + crate::le::u16_le(v) + seq![] =~= crate::le::u16_le(v));
    assert(r[o] == crate::le::u16_le(v)[0] && r[o + 1] == crate::le::u16_le(v)[1]);
}

} // verus!

verus! {

// ---------------------------------------------------------------------------
// Single-precision arithmetic, done by `glam` and by the processor. Which
// value comes out depends on the bits of the arguments alone, except for the
// sign and payload of a NaN, which the hardware chooses. So each result is
// named with any NaN replaced by the quiet NaN `0x7fc0_0000`, and the library
// replaces NaNs the same way before it uses a result.

/// The bits are those of a NaN: all exponent bits set, a nonzero fraction.
pub open spec fn is_nan_bits(v: u32) -> bool {
    v & 0x7f80_0000u32 == 0x7f80_0000u32 && v & 0x007f_ffffu32 != 0
}

/// `v`, with a NaN replaced by the quiet NaN `0x7fc0_0000`.
pub open spec fn canonical_bits(v: u32) -> u32 {
    if is_nan_bits(v) {
        0x7fc0_0000u32
    } else {
        v
    }
}

pub open spec fn canonical_vec3(v: Vec3) -> Vec3 {
    Vec3 { x: canonical_bits(v.x), y: canonical_bits(v.y), z: canonical_bits(v.z) }
}

pub open spec fn canonical_seq(s: Seq<u32>) -> Seq<u32> {
    s.map_values(|v: u32| canonical_bits(v))
}

pub fn canonical(v: u32) -> (r: u32)
    ensures
        r == canonical_bits(v),
{
    if v & 0x7f80_0000u32 == 0x7f80_0000u32 && v & 0x007f_ffffu32 != 0 {
        0x7fc0_0000u32
    } else {
        v
    }
}

pub fn canonical3(v: Vec3) -> (r: Vec3)
    ensures
        r == canonical_vec3(v),
{
    Vec3 { x: canonical(v.x), y: canonical(v.y), z: canonical(v.z) }
}

/// The single-precision sum `a + b`, a NaN as `0x7fc0_0000`.
pub uninterp spec fn float_sum(a: u32, b: u32) -> u32;

/// The single-precision difference `a - b`, a NaN as `0x7fc0_0000`.
pub uninterp spec fn float_difference(a: u32, b: u32) -> u32;

/// The component-wise single-precision sum of two vectors, each NaN as
/// `0x7fc0_0000`.
pub uninterp spec fn vec3_sum(a: Vec3, b: Vec3) -> Vec3;

/// The component-wise single-precision difference of two vectors, each NaN as
/// `0x7fc0_0000`.
pub uninterp spec fn vec3_difference(a: Vec3, b: Vec3) -> Vec3;

/// `v` scaled to unit length, or zero when that cannot be done.
pub uninterp spec fn normalized(v: Vec3) -> Vec3;

/// The rotation quaternion (x, y, z, w) of an affine matrix given by its 16
/// components, column by column, each NaN as `0x7fc0_0000`.
pub uninterp spec fn rotation_of(m: Seq<u32>) -> Seq<u32>;

/// The column-major matrix that rotates by the quaternion (x, y, z, w) and
/// moves nothing, each NaN as `0x7fc0_0000`.
pub uninterp spec fn rotation_matrix_of(q: Seq<u32>) -> Seq<u32>;

/// The time, in seconds, of frame `index` at `rate` frames per second.
pub uninterp spec fn frame_time(index: u32, rate: u32) -> u32;

/// Relies on single-precision `+` of two values that `byteorder` reads from
/// their little-endian bytes.
#[verifier::external_body]
fn raw_add_float(a: u32, b: u32) -> (r: u32)
    ensures
        canonical_bits(r) == float_sum(a, b),
{
    (LE::read_f32(&a.to_le_bytes()) + LE::read_f32(&b.to_le_bytes())).to_bits()
}

/// Relies on single-precision `-` of two values that `byteorder` reads from
/// their little-endian bytes.
#[verifier::external_body]
fn raw_sub_float(a: u32, b: u32) -> (r: u32)
    ensures
        canonical_bits(r) == float_difference(a, b),
{
    (LE::read_f32(&a.to_le_bytes()) - LE::read_f32(&b.to_le_bytes())).to_bits()
}

/// Relies on `glam::Vec3A`'s `+`.
#[verifier::external_body]
fn raw_add_vec3(a: Vec3, b: Vec3) -> (r: Vec3)
    ensures
        canonical_vec3(r) == vec3_sum(a, b),
{
    let f = |v: u32| LE::read_f32(&v.to_le_bytes());
    let s = glam::Vec3A::new(f(a.x), f(a.y), f(a.z)) + glam::Vec3A::new(f(b.x), f(b.y), f(b.z));
    Vec3 { x: s.x.to_bits(), y: s.y.to_bits(), z: s.z.to_bits() }
}

/// Relies on `glam::Vec3A`'s `-`.
#[verifier::external_body]
fn raw_sub_vec3(a: Vec3, b: Vec3) -> (r: Vec3)
    ensures
        canonical_vec3(r) == vec3_difference(a, b),
{
    let f = |v: u32| LE::read_f32(&v.to_le_bytes());
    let s = glam::Vec3A::new(f(a.x), f(a.y), f(a.z)) - glam::Vec3A::new(f(b.x), f(b.y), f(b.z));
    Vec3 { x: s.x.to_bits(), y: s.y.to_bits(), z: s.z.to_bits() }
}

/// Relies on `glam::Vec3A::normalize_or_zero`: a NaN, infinite or zero length
/// gives the zero vector, so no NaN comes out.
#[verifier::external_body]
pub(crate) fn normalize_or_zero(v: Vec3) -> (r: Vec3)
    ensures
        r == normalized(v),
{
    let f = |v: u32| LE::read_f32(&v.to_le_bytes());
    let n = glam::Vec3A::new(f(v.x), f(v.y), f(v.z)).normalize_or_zero();
    Vec3 { x: n.x.to_bits(), y: n.y.to_bits(), z: n.z.to_bits() }
}

/// Relies on `glam::Mat4::to_scale_rotation_translation`: the rotation part,
/// a quaternion of four components.
#[verifier::external_body]
fn raw_matrix_rotation(m: &Vec<u32>) -> (r: Vec<u32>)
    requires
        m@.len() == 16,
    ensures
        canonical_seq(r@) == rotation_of(m@),
        r@.len() == 4,
{
    let cols: Vec<_> = m.iter().map(|v| LE::read_f32(&v.to_le_bytes())).collect();
    let (_, rotation, _) = glam::Mat4::from_cols_slice(&cols).to_scale_rotation_translation();
    rotation.to_array().iter().map(|c| c.to_bits()).collect()
}

/// Relies on `glam::Mat4::from_rotation_translation` with a zero translation:
/// a matrix of 16 components.
#[verifier::external_body]
fn raw_rotation_matrix(q: &Vec<u32>) -> (r: Vec<u32>)
    requires
        q@.len() == 4,
    ensures
        canonical_seq(r@) == rotation_matrix_of(q@),
        r@.len() == 16,
{
    let f = |v: u32| LE::read_f32(&v.to_le_bytes());
    let rotation = glam::Quat::from_xyzw(f(q[0]), f(q[1]), f(q[2]), f(q[3]));
    let m = glam::Mat4::from_rotation_translation(rotation, glam::Vec3::ZERO);
    m.to_cols_array().iter().map(|c| c.to_bits()).collect()
}

/// The matrix of a rotation quaternion.
pub fn rotation_matrix(q: &Vec<u32>) -> (r: Vec<u32>)
    requires
        q@.len() == 4,
    ensures
        r@ == rotation_matrix_of(q@),
        r@.len() == 16,
{
    let m = raw_rotation_matrix(q);
    let mut out: Vec<u32> = Vec::new();
    let mut k: usize = 0;
    while k < 16
        invariant
            m@.len() == 16,
            k <= 16,
            out@ == canonical_seq(m@).take(k as int),
        decreases 16 - k,
    {
        out.push(canonical(m[k]));
        k = k + 1;
        assert(out@ =~= canonical_seq(m@).take(k as int));
    }
    assert(canonical_seq(m@).take(16) =~= canonical_seq(m@));
    out
}

/// Relies on `glam::UVec2::as_vec2` to turn the index and the rate into
/// single-precision values, then on `index * rate.recip()`; with a positive
/// rate no NaN comes out.
#[verifier::external_body]
pub(crate) fn time_of_frame(index: u32, rate: u32) -> (r: u32)
    requires
        rate > 0,
    ensures
        r == frame_time(index, rate),
{
    let v = glam::UVec2::new(index, rate).as_vec2();
    (v.x * v.y.recip()).to_bits()
}

pub fn add_float(a: u32, b: u32) -> (r: u32)
    ensures
        r == float_sum(a, b),
{
    canonical(raw_add_float(a, b))
}

pub fn sub_float(a: u32, b: u32) -> (r: u32)
    ensures
        r == float_difference(a, b),
{
    canonical(raw_sub_float(a, b))
}

pub fn add_vec3(a: Vec3, b: Vec3) -> (r: Vec3)
    ensures
        r == vec3_sum(a, b),
{
    canonical3(raw_add_vec3(a, b))
}

pub fn sub_vec3(a: Vec3, b: Vec3) -> (r: Vec3)
    ensures
        r == vec3_difference(a, b),
{
    canonical3(raw_sub_vec3(a, b))
}

/// The rotation quaternion of an affine matrix.
pub fn matrix_rotation(m: &Vec<u32>) -> (r: Vec<u32>)
    requires
        m@.len() == 16,
    ensures
        r@ == rotation_of(m@),
        r@.len() == 4,
{
    let q = raw_matrix_rotation(m);
    let mut out: Vec<u32> = Vec::new();
    let mut k: usize = 0;
    while k < 4
        invariant
            q@.len() == 4,
            k <= 4,
            out@ == canonical_seq(q@).take(k as int),
        decreases 4 - k,
    {
        out.push(canonical(q[k]));
        k = k + 1;
        assert(out@ =~= canonical_seq(q@).take(k as int));
    }
    assert(canonical_seq(q@).take(4) =~= canonical_seq(q@));
    out
}

/// The vector with each component's sign flipped.
pub open spec fn neg3(v: Vec3) -> Vec3 {
    Vec3 { x: neg_bits(v.x), y: neg_bits(v.y), z: neg_bits(v.z) }
}

pub fn negate(v: Vec3) -> (r: Vec3)
    ensures
        r == neg3(v),
{
    Vec3 { x: v.x ^ 0x8000_0000u32, y: v.y ^ 0x8000_0000u32, z: v.z ^ 0x8000_0000u32 }
}

pub proof fn lemma_neg_bits_involution(v: u32)
    ensures
        neg_bits(neg_bits(v)) == v,
{
    assert((v ^ 0x8000_0000u32) ^ 0x8000_0000u32 == v) by (bit_vector);
}

} // verus!
