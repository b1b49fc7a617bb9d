//! The complex value type and its arithmetic.
//!
//! A transform value is a `num::complex::Complex64`: an immutable pair of
//! double-precision real and imaginary components. Floating-point numbers
//! cannot appear in verified code, so the type is kept opaque and every
//! operation on it goes through a small trusted wrapper around one `num`
//! operation. Each wrapper names its result with an uninterpreted
//! specification function; all contracts of the library are stated over
//! those names, so the verified code pins down exactly which sequence of
//! `num` operations produces every entry of every result.

use vstd::prelude::*;

verus! {

/// The complex number type of the `num` crate, declared for Verus;
/// its values are opaque to verified code.
#[verifier::external_type_specification]
#[verifier::external_body]
#[verifier::reject_recursive_types(T)]
pub struct ExComplex<T>(num::complex::Complex<T>);

/// A shorthand for the double-precision complex type.
pub type Cpx = num::complex::Complex64;

/// The complex number with integer real part `re` and imaginary part `im`.
pub uninterp spec fn c_of(re: int, im: int) -> Cpx;

/// The `num` sum of two complex values.
pub uninterp spec fn c_add(a: Cpx, b: Cpx) -> Cpx;

/// The `num` difference of two complex values.
pub uninterp spec fn c_sub(a: Cpx, b: Cpx) -> Cpx;

/// The `num` product of two complex values.
pub uninterp spec fn c_mul(a: Cpx, b: Cpx) -> Cpx;

/// The `num` quotient of two complex values.
pub uninterp spec fn c_div(a: Cpx, b: Cpx) -> Cpx;

/// The complex conjugate of a value.
pub uninterp spec fn c_conj(a: Cpx) -> Cpx;

/// The `num` principal square root of a value.
pub uninterp spec fn c_sqrt(a: Cpx) -> Cpx;

/// The value with each component rounded to the nearest integer.
pub uninterp spec fn c_round(a: Cpx) -> Cpx;

/// Relies on num_complex::c64: builds the complex number `re + im*i`;
/// both components are exact, every i32 being exactly representable.
#[verifier::external_body]
pub(crate) fn complex_of(re: i32, im: i32) -> (r: Cpx)
    ensures
        r == c_of(re as int, im as int),
{
    num::complex::c64(re, im)
}

/// Relies on the num_complex `Add` impl: componentwise addition.
#[verifier::external_body]
pub(crate) fn complex_add(a: Cpx, b: Cpx) -> (r: Cpx)
    ensures
        r == c_add(a, b),
{
    a + b
}

/// Relies on the num_complex `Sub` impl: componentwise subtraction.
#[verifier::external_body]
pub(crate) fn complex_sub(a: Cpx, b: Cpx) -> (r: Cpx)
    ensures
        r == c_sub(a, b),
{
    a - b
}

/// Relies on the num_complex `Mul` impl: the complex product
/// `(a.re*b.re - a.im*b.im) + (a.re*b.im + a.im*b.re)*i`.
#[verifier::external_body]
pub(crate) fn complex_mul(a: Cpx, b: Cpx) -> (r: Cpx)
    ensures
        r == c_mul(a, b),
{
    a * b
}

/// Relies on the num_complex `Div` impl: the complex quotient computed
/// through `b`'s squared norm; a division by zero yields non-finite
/// components but never fails.
#[verifier::external_body]
pub(crate) fn complex_div(a: Cpx, b: Cpx) -> (r: Cpx)
    ensures
        r == c_div(a, b),
{
    a / b
}

/// Relies on num_complex::Complex::conj: negates the imaginary part.
#[verifier::external_body]
pub(crate) fn complex_conj(a: Cpx) -> (r: Cpx)
    ensures
        r == c_conj(a),
{
    a.conj()
}

/// Relies on num_complex::Complex::sqrt: the principal square root, which
/// halves the argument; on a negative real it takes the branch given by the
/// sign of the zero imaginary part.
#[verifier::external_body]
pub(crate) fn complex_sqrt(a: Cpx) -> (r: Cpx)
    ensures
        r == c_sqrt(a),
{
    a.sqrt()
}

/// Relies on f64::round applied to each component, and on
/// num_complex::Complex::new to rebuild the value.
#[verifier::external_body]
pub(crate) fn complex_round(a: Cpx) -> (r: Cpx)
    ensures
        r == c_round(a),
{
    num::complex::Complex::new(a.re.round(), a.im.round())
}

} // verus!
