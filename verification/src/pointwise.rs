//! Pointwise multiplication in the transform domain, the circular
//! convolution built from it, and the rounding helper used to compare
//! floating-point results against integer expectations.

use vstd::prelude::*;

verus! {

use crate::complex::{Cpx, c_of, c_mul, c_conj, c_round};
use crate::complex::{complex_mul, complex_conj, complex_round};
use crate::transform::{pad_left, transform_spec, lemma_pad_left_zero, copy_vec, zero_pad_left, fft,
    ifft};
use crate::pow2::{lemma_next_pow2_ge, lemma_next_pow2_bound};

/// The pointwise product of `a` and `b` after the shorter one is
/// left-padded with zeros to the longer one's length: entry `i` is the
/// conjugate of the first operand's entry times the second operand's
/// entry.
pub open spec fn pointwise_spec(a: Seq<Cpx>, b: Seq<Cpx>) -> Seq<Cpx> {
    let n = if a.len() >= b.len() {
        a.len()
    } else {
        b.len()
    };
    let aa = pad_left(a, (n - a.len()) as nat);
    let bb = pad_left(b, (n - b.len()) as nat);
    Seq::new(n, |i: int| c_mul(c_conj(aa[i]), bb[i]))
}

/// The circular convolution of `a` and `b`: both are transformed forward,
/// multiplied pointwise by the conjugate rule, and transformed back.
pub open spec fn convolve_spec(a: Seq<Cpx>, b: Seq<Cpx>) -> Seq<Cpx> {
    transform_spec(
        pointwise_spec(transform_spec(a, false), transform_spec(b, false)),
        true,
    )
}

/// `s` with each entry's components rounded to the nearest integer.
pub open spec fn rounded(s: Seq<Cpx>) -> Seq<Cpx> {
    Seq::new(s.len(), |i: int| c_round(s[i]))
}

/// With operands of equal length no padding happens: each entry of the
/// result is the conjugate of the first operand's entry times the second
/// operand's entry, directly.
pub proof fn lemma_pointwise_equal_len(a: Seq<Cpx>, b: Seq<Cpx>)
    requires
        a.len() == b.len(),
    ensures
        pointwise_spec(a, b) == Seq::new(a.len(), |i: int| c_mul(c_conj(a[i]), b[i])),
{
    lemma_pad_left_zero(a);
    lemma_pad_left_zero(b);
    assert(pointwise_spec(a, b) =~= Seq::new(a.len(), |i: int| c_mul(c_conj(a[i]), b[i])));
}

/// With a shorter first operand, that operand is left-padded with zeros
/// before the conjugate multiplication: the leading entries of the result
/// pair a zero with the second operand, the rest pair the first operand's
/// entries, shifted, with the second operand's.
pub proof fn lemma_pointwise_pads_first(a: Seq<Cpx>, b: Seq<Cpx>)
    requires
        a.len() < b.len(),
    ensures
        pointwise_spec(a, b).len() == b.len(),
        forall|i: int|
            0 <= i < b.len() - a.len() ==> pointwise_spec(a, b)[i] == c_mul(
                c_conj(c_of(0, 0)),
                b[i],
            ),
        forall|i: int|
            b.len() - a.len() <= i < b.len() ==> pointwise_spec(a, b)[i] == c_mul(
                c_conj(a[i - (b.len() - a.len())]),
                b[i],
            ),
{
    lemma_pad_left_zero(b);
}

/// With a shorter second operand, that operand is left-padded with zeros:
/// the leading entries of the result pair the first operand's entries with
/// a zero, the rest pair them with the second operand's entries, shifted.
pub proof fn lemma_pointwise_pads_second(a: Seq<Cpx>, b: Seq<Cpx>)
    requires
        b.len() < a.len(),
    ensures
        pointwise_spec(a, b).len() == a.len(),
        forall|i: int|
            0 <= i < a.len() - b.len() ==> pointwise_spec(a, b)[i] == c_mul(
                c_conj(a[i]),
                c_of(0, 0),
            ),
        forall|i: int|
            a.len() - b.len() <= i < a.len() ==> pointwise_spec(a, b)[i] == c_mul(
                c_conj(a[i]),
                b[i - (a.len() - b.len())],
            ),
{
    lemma_pad_left_zero(a);
}

/// The pointwise product of the two lists, after left-padding the shorter
/// one with zeros to the longer one's length: entry `i` of the result is
/// `conj(list1[i]) * list2[i]` over the padded lists.
pub fn multiply_pointwise(list1: &Vec<Cpx>, list2: &Vec<Cpx>) -> (r: Vec<Cpx>)
    ensures
        r@ == pointwise_spec(list1@, list2@),
{
    let a = if list1.len() < list2.len() {
        zero_pad_left(list1, list2.len() - list1.len())
    } else {
        proof {
            lemma_pad_left_zero(list1@);
        }
        copy_vec(list1)
    };
    let b = if list2.len() < list1.len() {
        zero_pad_left(list2, list1.len() - list2.len())
    } else {
        proof {
            lemma_pad_left_zero(list2@);
        }
        copy_vec(list2)
    };
    let n = a.len();
    let mut r: Vec<Cpx> = Vec::new();
    let mut i: usize = 0;
    while i < n
        invariant
            i <= n,
            n == a@.len(),
            n == b@.len(),
            r@.len() == i,
            forall|j: int| 0 <= j < i ==> r@[j] == c_mul(c_conj(a@[j]), b@[j]),
        decreases n - i,
    {
        let cj = complex_conj(a[i]);
        r.push(complex_mul(cj, b[i]));
        i = i + 1;
    }
    assert(r@ =~= pointwise_spec(list1@, list2@));
    r
}

/// The circular convolution of the two lists: forward-transform both,
/// multiply pointwise by the conjugate rule, and inverse-transform the
/// product.
pub fn convolve(list1: &Vec<Cpx>, list2: &Vec<Cpx>) -> (r: Vec<Cpx>)
    requires
        1 <= list1@.len(),
        list1@.len() <= usize::MAX / 4 + 1,
        1 <= list2@.len(),
        list2@.len() <= usize::MAX / 4 + 1,
    ensures
        r@ == convolve_spec(list1@, list2@),
{
    proof {
        lemma_next_pow2_ge(list1@.len());
        lemma_next_pow2_ge(list2@.len());
        if list1@.len() >= 2 {
            lemma_next_pow2_bound(list1@.len());
        }
        if list2@.len() >= 2 {
            lemma_next_pow2_bound(list2@.len());
        }
    }
    let fft_list1 = fft(list1);
    let fft_list2 = fft(list2);
    let conv_output = multiply_pointwise(&fft_list1, &fft_list2);
    ifft(&conv_output)
}

/// A new list with each entry's real and imaginary components rounded to
/// the nearest integer.
pub fn approximate_complex(p: &Vec<Cpx>) -> (r: Vec<Cpx>)
    ensures
        r@ == rounded(p@),
{
    let mut r: Vec<Cpx> = Vec::new();
    let mut i: usize = 0;
    while i < p.len()
        invariant
            i <= p@.len(),
            r@.len() == i,
            forall|j: int| 0 <= j < i ==> r@[j] == c_round(p@[j]),
        decreases p@.len() - i,
    {
        r.push(complex_round(p[i]));
        i = i + 1;
    }
    assert(r@ =~= rounded(p@));
    r
}

} // verus!
