//! The recursive Cooley-Tukey transform: left-padding to a power of two,
//! the even/odd split, the butterfly recombination, and the forward and
//! inverse transforms.

use vstd::prelude::*;

verus! {

use vstd::arithmetic::power2::is_pow2;
use crate::complex::{Cpx, c_of, c_add, c_sub, c_mul, c_div, c_conj, c_sqrt};
use crate::complex::{complex_of, complex_add, complex_sub, complex_mul, complex_div, complex_conj,
    complex_sqrt};
use crate::pow2::{next_pow2, lemma_next_pow2_is_pow2, lemma_next_pow2_ge, lemma_next_pow2_bound,
    lemma_next_pow2_fixed, lemma_pow2_half};

/// `n` zero entries.
pub open spec fn zeros(n: nat) -> Seq<Cpx> {
    Seq::new(n, |i: int| c_of(0, 0))
}

/// `s` extended on the low-index end by `k` zero entries.
pub open spec fn pad_left(s: Seq<Cpx>, k: nat) -> Seq<Cpx> {
    zeros(k) + s
}

/// The entries of `s` at even indices; `s` is meant to have even length.
pub open spec fn even_elems(s: Seq<Cpx>) -> Seq<Cpx> {
    Seq::new(s.len() / 2, |i: int| s[2 * i])
}

/// The entries of `s` at odd indices; `s` is meant to have even length.
pub open spec fn odd_elems(s: Seq<Cpx>) -> Seq<Cpx> {
    Seq::new(s.len() / 2, |i: int| s[2 * i + 1])
}

/// The forward primitive root of unity for merged length `n`, that is
/// `exp(-2*pi*i/n)`, as the `num` operations produce it: exactly `1`, `-1`
/// and `-i` for `n` up to 4, and for larger powers of two the principal
/// square root of the root for `n / 2`, which halves the (negative) angle.
pub open spec fn root_fwd(n: nat) -> Cpx
    decreases n,
{
    if n <= 1 {
        c_of(1, 0)
    } else if n == 2 {
        c_of(-1, 0)
    } else if n <= 4 {
        c_of(0, -1)
    } else {
        c_sqrt(root_fwd(n / 2))
    }
}

/// The primitive root of unity for merged length `n` in the given
/// direction: the conjugate of the forward root for the inverse direction.
pub open spec fn root_of(n: nat, inverse: bool) -> Cpx {
    if inverse {
        c_conj(root_fwd(n))
    } else {
        root_fwd(n)
    }
}

/// The `k`-th power of `w`, built up by repeated multiplication from `1`.
pub open spec fn c_pow(w: Cpx, k: nat) -> Cpx
    decreases k,
{
    if k == 0 {
        c_of(1, 0)
    } else {
        c_mul(c_pow(w, (k - 1) as nat), w)
    }
}

/// The low output of one butterfly: `e + w*o`, halved for the inverse
/// direction.
pub open spec fn bfly_lo(e: Cpx, o: Cpx, w: Cpx, inverse: bool) -> Cpx {
    if inverse {
        c_div(c_add(e, c_mul(w, o)), c_of(2, 0))
    } else {
        c_add(e, c_mul(w, o))
    }
}

/// The high output of one butterfly: `e - w*o`, halved for the inverse
/// direction.
pub open spec fn bfly_hi(e: Cpx, o: Cpx, w: Cpx, inverse: bool) -> Cpx {
    if inverse {
        c_div(c_sub(e, c_mul(w, o)), c_of(2, 0))
    } else {
        c_sub(e, c_mul(w, o))
    }
}

/// The butterfly combination of two transformed half-sequences into one
/// sequence of length `n`: entry `k` and entry `k + n/2` are the two
/// outputs of the butterfly of `ev[k]` and `od[k]` with twiddle factor
/// `root_of(n, inverse)^k`.
pub open spec fn combine(ev: Seq<Cpx>, od: Seq<Cpx>, n: nat, inverse: bool) -> Seq<Cpx> {
    Seq::new(n / 2, |k: int| bfly_lo(ev[k], od[k], c_pow(root_of(n, inverse), k as nat), inverse))
        + Seq::new(
        n / 2,
        |k: int| bfly_hi(ev[k], od[k], c_pow(root_of(n, inverse), k as nat), inverse),
    )
}

/// The recursive core on a sequence whose length is a power of two:
/// a sequence of length at most one is its own transform; otherwise the
/// even- and odd-indexed subsequences are transformed and recombined.
pub open spec fn fft_rec(s: Seq<Cpx>, inverse: bool) -> Seq<Cpx>
    decreases s.len(),
{
    if s.len() <= 1 {
        s
    } else {
        combine(
            fft_rec(even_elems(s), inverse),
            fft_rec(odd_elems(s), inverse),
            s.len(),
            inverse,
        )
    }
}

/// The whole transform: left-pad with zeros to the next power of two,
/// then run the recursive core.
pub open spec fn transform_spec(s: Seq<Cpx>, inverse: bool) -> Seq<Cpx> {
    fft_rec(pad_left(s, (next_pow2(s.len()) - s.len()) as nat), inverse)
}

/// Padding by zero entries leaves a sequence unchanged.
pub proof fn lemma_pad_left_zero(s: Seq<Cpx>)
    ensures
        pad_left(s, 0) == s,
{
    assert(pad_left(s, 0) =~= s);
}

/// The recursive core preserves the length of its input.
pub proof fn lemma_fft_rec_len(s: Seq<Cpx>, inverse: bool)
    requires
        is_pow2(s.len() as int),
    ensures
        fft_rec(s, inverse).len() == s.len(),
    decreases s.len(),
{
    if s.len() <= 1 {
    } else {
        lemma_pow2_half(s.len());
        lemma_fft_rec_len(even_elems(s), inverse);
        lemma_fft_rec_len(odd_elems(s), inverse);
    }
}

/// A new vector with the same entries as `p`.
pub(crate) fn copy_vec(p: &Vec<Cpx>) -> (r: Vec<Cpx>)
    ensures
        r@ == p@,
{
    let mut r: Vec<Cpx> = Vec::new();
    let mut i: usize = 0;
    while i < p.len()
        invariant
            i <= p@.len(),
            r@ == p@.subrange(0, i as int),
        decreases p@.len() - i,
    {
        r.push(p[i]);
        assert(r@ =~= p@.subrange(0, i + 1));
        i = i + 1;
    }
    assert(r@ =~= p@);
    r
}

/// A new vector of `num_zeros` zero entries followed by the entries of
/// `list_to_pad`, in their original order.
pub fn zero_pad_left(list_to_pad: &Vec<Cpx>, num_zeros: usize) -> (r: Vec<Cpx>)
    ensures
        r@ == pad_left(list_to_pad@, num_zeros as nat),
{
    let mut r: Vec<Cpx> = Vec::new();
    let mut i: usize = 0;
    while i < num_zeros
        invariant
            i <= num_zeros,
            r@ == zeros(i as nat),
        decreases num_zeros - i,
    {
        r.push(complex_of(0, 0));
        assert(r@ =~= zeros((i + 1) as nat));
        i = i + 1;
    }
    let mut j: usize = 0;
    while j < list_to_pad.len()
        invariant
            j <= list_to_pad@.len(),
            r@ == zeros(num_zeros as nat) + list_to_pad@.subrange(0, j as int),
        decreases list_to_pad@.len() - j,
    {
        r.push(list_to_pad[j]);
        assert(r@ =~= zeros(num_zeros as nat) + list_to_pad@.subrange(0, j + 1));
        j = j + 1;
    }
    assert(r@ =~= pad_left(list_to_pad@, num_zeros as nat));
    r
}

/// The entries of `p` at even indices.
fn split_even(p: &Vec<Cpx>) -> (r: Vec<Cpx>)
    requires
        p@.len() % 2 == 0,
    ensures
        r@ == even_elems(p@),
{
    let half = p.len() / 2;
    let mut r: Vec<Cpx> = Vec::new();
    let mut k: usize = 0;
    while k < half
        invariant
            k <= half,
            half == p@.len() / 2,
            p@.len() % 2 == 0,
            p@.len() <= usize::MAX,
            r@.len() == k,
            forall|i: int| 0 <= i < k ==> r@[i] == p@[2 * i],
        decreases half - k,
    {
        r.push(p[2 * k]);
        k = k + 1;
    }
    assert(r@ =~= even_elems(p@));
    r
}

/// The entries of `p` at odd indices.
fn split_odd(p: &Vec<Cpx>) -> (r: Vec<Cpx>)
    requires
        p@.len() % 2 == 0,
    ensures
        r@ == odd_elems(p@),
{
    let half = p.len() / 2;
    let mut r: Vec<Cpx> = Vec::new();
    let mut k: usize = 0;
    while k < half
        invariant
            k <= half,
            half == p@.len() / 2,
            p@.len() % 2 == 0,
            p@.len() <= usize::MAX,
            r@.len() == k,
            forall|i: int| 0 <= i < k ==> r@[i] == p@[2 * i + 1],
        decreases half - k,
    {
        r.push(p[2 * k + 1]);
        k = k + 1;
    }
    assert(r@ =~= odd_elems(p@));
    r
}

/// The forward primitive root of unity for merged length `n`.
fn root_fwd_exec(n: usize) -> (r: Cpx)
    ensures
        r == root_fwd(n as nat),
    decreases n,
{
    if n <= 1 {
        complex_of(1, 0)
    } else if n == 2 {
        complex_of(-1, 0)
    } else if n <= 4 {
        complex_of(0, -1)
    } else {
        let half_root = root_fwd_exec(n / 2);
        complex_sqrt(half_root)
    }
}

/// The primitive root of unity for merged length `n` in the given
/// direction.
fn root_exec(n: usize, inverse: bool) -> (r: Cpx)
    ensures
        r == root_of(n as nat, inverse),
{
    let fwd = root_fwd_exec(n);
    if inverse {
        complex_conj(fwd)
    } else {
        fwd
    }
}

/// The butterfly step: merges the transformed even-indexed half `y_e` and
/// odd-indexed half `y_o` into one sequence of length `n`, in the given
/// direction.
fn butterfly(n: usize, y_e: &Vec<Cpx>, y_o: &Vec<Cpx>, inverse: bool) -> (r: Vec<Cpx>)
    requires
        n >= 2,
        n % 2 == 0,
        y_e@.len() == n / 2,
        y_o@.len() == n / 2,
    ensures
        r@ == combine(y_e@, y_o@, n as nat, inverse),
{
    let ghost w = root_of(n as nat, inverse);
    let root = root_exec(n, inverse);
    let two = complex_of(2, 0);
    let half = n / 2;
    let mut tw: Cpx = complex_of(1, 0);
    let mut lo: Vec<Cpx> = Vec::new();
    let mut hi: Vec<Cpx> = Vec::new();
    let mut k: usize = 0;
    while k < half
        invariant
            k <= half,
            y_e@.len() == half,
            y_o@.len() == half,
            root == w,
            two == c_of(2, 0),
            tw == c_pow(w, k as nat),
            lo@.len() == k,
            hi@.len() == k,
            forall|i: int| 0 <= i < k ==> lo@[i] == bfly_lo(y_e@[i], y_o@[i], c_pow(w, i as nat), inverse),
            forall|i: int| 0 <= i < k ==> hi@[i] == bfly_hi(y_e@[i], y_o@[i], c_pow(w, i as nat), inverse),
        decreases half - k,
    {
        let t = complex_mul(tw, y_o[k]);
        let mut a = complex_add(y_e[k], t);
        let mut b = complex_sub(y_e[k], t);
        if inverse {
            a = complex_div(a, two);
            b = complex_div(b, two);
        }
        lo.push(a);
        hi.push(b);
        tw = complex_mul(tw, root);
        assert(tw == c_pow(w, (k + 1) as nat));
        k = k + 1;
    }
    let mut r = lo;
    r.append(&mut hi);
    assert(r@ =~= combine(y_e@, y_o@, n as nat, inverse));
    r
}

/// One direction of the whole transform: pad to the next power of two,
/// split, recurse on each half and recombine with the butterfly step.
fn transform_rec(p: &Vec<Cpx>, inverse: bool) -> (r: Vec<Cpx>)
    requires
        1 <= p@.len(),
        p@.len() <= usize::MAX / 2 + 1,
    ensures
        r@ == transform_spec(p@, inverse),
        r@.len() == next_pow2(p@.len()),
    decreases p@.len(),
{
    let n = p.len();
    proof {
        lemma_next_pow2_ge(n as nat);
        lemma_next_pow2_is_pow2(n as nat);
        if n >= 2 {
            lemma_next_pow2_bound(n as nat);
        }
    }
    if n == 1 {
        proof {
            lemma_pad_left_zero(p@);
        }
        return copy_vec(p);
    }
    let padded = if crate::pow2::is_int_power_of_two(n) {
        proof {
            lemma_next_pow2_fixed(n as nat);
            lemma_pad_left_zero(p@);
        }
        copy_vec(p)
    } else {
        zero_pad_left(p, crate::pow2::next_power_of_two(n) - n)
    };
    let m = padded.len();
    proof {
        lemma_pow2_half(m as nat);
    }
    let evens = split_even(&padded);
    let odds = split_odd(&padded);
    proof {
        lemma_next_pow2_fixed((m / 2) as nat);
        lemma_pad_left_zero(evens@);
        lemma_pad_left_zero(odds@);
    }
    let y_e = transform_rec(&evens, inverse);
    let y_o = transform_rec(&odds, inverse);
    butterfly(m, &y_e, &y_o, inverse)
}

/// The forward Cooley-Tukey transform of `p`: `p` is left-padded with
/// zeros to the next power of two and recursively transformed; the result
/// has length `next_pow2(p.len())`, which may exceed `p.len()`.
pub fn fft(p: &Vec<Cpx>) -> (r: Vec<Cpx>)
    requires
        1 <= p@.len(),
        p@.len() <= usize::MAX / 2 + 1,
    ensures
        r@ == transform_spec(p@, false),
        r@.len() == next_pow2(p@.len()),
{
    transform_rec(p, false)
}

/// The inverse Cooley-Tukey transform of `p`: the same recursion as `fft`,
/// with the conjugate root of unity and with each butterfly output halved,
/// so that on power-of-two lengths it inverts `fft` up to floating-point
/// rounding.
pub fn ifft(p: &Vec<Cpx>) -> (r: Vec<Cpx>)
    requires
        1 <= p@.len(),
        p@.len() <= usize::MAX / 2 + 1,
    ensures
        r@ == transform_spec(p@, true),
        r@.len() == next_pow2(p@.len()),
{
    transform_rec(p, true)
}

/// The transform of a sequence whose length is a power of two keeps that
/// length, in both directions; in particular a forward transform followed
/// by an inverse transform returns a sequence of the original length.
pub proof fn lemma_round_trip_len(s: Seq<Cpx>)
    requires
        is_pow2(s.len() as int),
    ensures
        transform_spec(s, false).len() == s.len(),
        transform_spec(transform_spec(s, false), true).len() == s.len(),
{
    lemma_next_pow2_fixed(s.len());
    lemma_pad_left_zero(s);
    lemma_fft_rec_len(s, false);
    lemma_next_pow2_fixed(transform_spec(s, false).len());
    lemma_pad_left_zero(transform_spec(s, false));
    lemma_fft_rec_len(transform_spec(s, false), true);
}

/// On a single-element sequence the round trip is exact, with no
/// floating-point rounding involved: a single sample is its own spectrum
/// in both directions.
pub proof fn lemma_round_trip_single(s: Seq<Cpx>)
    requires
        s.len() == 1,
    ensures
        transform_spec(transform_spec(s, false), true) == s,
{
    lemma_pad_left_zero(s);
    assert(next_pow2(1) == 1);
}

} // verus!
