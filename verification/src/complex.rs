use vstd::prelude::*;

verus! {

/// A complex sample, carried as the IEEE-754 single-precision bit patterns
/// of its real and imaginary parts.
///
/// The transform never inspects the numeric value of a sample; it only moves
/// samples around and hands pairs of them to the scalar arithmetic below, so
/// the bit patterns are all the library needs to hold.
#[derive(Clone, Copy, PartialEq, Eq, Structural, Debug)]
pub struct Cx {
    pub re: u32,
    pub im: u32,
}

/// The sample `1 + 0i`.
pub open spec fn one_s() -> Cx {
    Cx { re: 0x3F80_0000, im: 0 }
}

/// The sample `1 + 0i`.
pub fn one() -> (r: Cx)
    ensures
        r == one_s(),
{
    Cx { re: 0x3F80_0000, im: 0 }
}

/// The sample `0 - 1i`.
pub open spec fn neg_i_s() -> Cx {
    Cx { re: 0, im: 0xBF80_0000 }
}

/// The sample `0 - 1i`.
pub fn neg_i() -> (r: Cx)
    ensures
        r == neg_i_s(),
{
    Cx { re: 0, im: 0xBF80_0000 }
}

/// Bit patterns of the complex sum of two samples, exactly as componentwise
/// single-precision addition produces them.
pub uninterp spec fn cadd_bits(ar: u32, ai: u32, br: u32, bi: u32) -> (u32, u32);

/// Bit patterns of the complex difference of two samples, exactly as
/// componentwise single-precision subtraction produces them.
pub uninterp spec fn csub_bits(ar: u32, ai: u32, br: u32, bi: u32) -> (u32, u32);

/// Bit patterns of the complex product of two samples, exactly as
/// single-precision `(ar*br - ai*bi) + (ar*bi + ai*br)i` produces them.
pub uninterp spec fn cmul_bits(ar: u32, ai: u32, br: u32, bi: u32) -> (u32, u32);

/// Bit patterns of a sample divided componentwise by the real scalar whose
/// bit pattern is `d`, exactly as single-precision division produces them.
pub uninterp spec fn cdiv_bits(ar: u32, ai: u32, d: u32) -> (u32, u32);

/// The complex sum, written over samples.
pub open spec fn cadd_s(a: Cx, b: Cx) -> Cx {
    Cx { re: cadd_bits(a.re, a.im, b.re, b.im).0, im: cadd_bits(a.re, a.im, b.re, b.im).1 }
}

/// The complex difference, written over samples.
pub open spec fn csub_s(a: Cx, b: Cx) -> Cx {
    Cx { re: csub_bits(a.re, a.im, b.re, b.im).0, im: csub_bits(a.re, a.im, b.re, b.im).1 }
}

/// The complex product, written over samples.
pub open spec fn cmul_s(a: Cx, b: Cx) -> Cx {
    Cx { re: cmul_bits(a.re, a.im, b.re, b.im).0, im: cmul_bits(a.re, a.im, b.re, b.im).1 }
}

/// Componentwise division by a real scalar, written over samples.
pub open spec fn cdiv_s(a: Cx, d: u32) -> Cx {
    Cx { re: cdiv_bits(a.re, a.im, d).0, im: cdiv_bits(a.re, a.im, d).1 }
}

/// Relies on `num_complex`: `Complex<f32> + Complex<f32>` adds the real and
/// imaginary parts componentwise in single precision, a function of the
/// operand bit patterns alone. `bytemuck::cast` only reinterprets the bits of
/// each scalar, one for one.
#[verifier::external_body]
pub(crate) fn cadd(a: Cx, b: Cx) -> (r: Cx)
    ensures
        (r.re, r.im) == cadd_bits(a.re, a.im, b.re, b.im),
{
    let x = num_complex::Complex32::new(bytemuck::cast(a.re), bytemuck::cast(a.im));
    let y = num_complex::Complex32::new(bytemuck::cast(b.re), bytemuck::cast(b.im));
    let s = x + y;
    Cx { re: bytemuck::cast(s.re), im: bytemuck::cast(s.im) }
}

/// Relies on `num_complex`: `Complex<f32> - Complex<f32>` subtracts the real
/// and imaginary parts componentwise in single precision, a function of the
/// operand bit patterns alone. `bytemuck::cast` only reinterprets the bits of
/// each scalar, one for one.
#[verifier::external_body]
pub(crate) fn csub(a: Cx, b: Cx) -> (r: Cx)
    ensures
        (r.re, r.im) == csub_bits(a.re, a.im, b.re, b.im),
{
    let x = num_complex::Complex32::new(bytemuck::cast(a.re), bytemuck::cast(a.im));
    let y = num_complex::Complex32::new(bytemuck::cast(b.re), bytemuck::cast(b.im));
    let s = x - y;
    Cx { re: bytemuck::cast(s.re), im: bytemuck::cast(s.im) }
}

/// Relies on `num_complex`: `Complex<f32> * Complex<f32>` computes
/// `(ar*br - ai*bi) + (ar*bi + ai*br)i` in single precision, a function of
/// the operand bit patterns alone. `bytemuck::cast` only reinterprets the
/// bits of each scalar, one for one.
#[verifier::external_body]
pub(crate) fn cmul(a: Cx, b: Cx) -> (r: Cx)
    ensures
        (r.re, r.im) == cmul_bits(a.re, a.im, b.re, b.im),
{
    let x = num_complex::Complex32::new(bytemuck::cast(a.re), bytemuck::cast(a.im));
    let y = num_complex::Complex32::new(bytemuck::cast(b.re), bytemuck::cast(b.im));
    let p = x * y;
    Cx { re: bytemuck::cast(p.re), im: bytemuck::cast(p.im) }
}

/// Relies on `num_complex`: `Complex::unscale` divides the real and imaginary
/// parts each once by the scalar, in single precision, a function of the
/// operand bit patterns alone. `bytemuck::cast` only reinterprets the bits of
/// each scalar, one for one.
#[verifier::external_body]
pub(crate) fn cdiv(a: Cx, d: u32) -> (r: Cx)
    ensures
        (r.re, r.im) == cdiv_bits(a.re, a.im, d),
{
    let x = num_complex::Complex32::new(bytemuck::cast(a.re), bytemuck::cast(a.im));
    let q = x.unscale(bytemuck::cast(d));
    Cx { re: bytemuck::cast(q.re), im: bytemuck::cast(q.im) }
}

/// Rotation of a sample by -90 degrees, written directly on the bit
/// patterns: `(a + bi) * (0 - 1i) = b - ai`, where negation of an IEEE-754
/// value is exactly a flip of its sign bit.
pub open spec fn rotate_neg_i_s(a: Cx) -> Cx {
    Cx { re: a.im, im: a.re ^ 0x8000_0000 }
}

/// Rotate a sample by -90 degrees by swapping its parts and flipping the sign
/// bit of the new imaginary part. This is the algebraic shortcut for
/// multiplication by `0 - 1i`.
pub fn rotate_neg_i(a: Cx) -> (r: Cx)
    ensures
        r == rotate_neg_i_s(a),
{
    Cx { re: a.im, im: a.re ^ 0x8000_0000 }
}

/// Multiply a sample by `0 - 1i` through the full complex product.
pub fn mul_neg_i(a: Cx) -> (r: Cx)
    ensures
        r == cmul_s(a, neg_i_s()),
{
    cmul(a, neg_i())
}

/// Whether the two formulations of multiplication by `0 - 1i` — the full
/// complex product and the swap-and-negate rotation — agree bit for bit on
/// the given sample. Floating-point units may round or sign zeros of the two
/// algebraically equal expressions differently, so divergence here is to be
/// flagged, not silently tolerated.
pub fn neg_i_formulations_agree(a: Cx) -> (r: bool)
    ensures
        r == (cmul_s(a, neg_i_s()) == rotate_neg_i_s(a)),
{
    let p = mul_neg_i(a);
    let q = rotate_neg_i(a);
    p == q
}

} // verus!
