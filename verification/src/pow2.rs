//! Power-of-two utilities: classifying a length as a power of two and
//! rounding a length up to the next power of two.

use vstd::prelude::*;

verus! {

use vstd::arithmetic::power2::is_pow2;

/// The smallest power of two that is at least `n` (and 1 for `n == 0`).
pub open spec fn next_pow2(n: nat) -> nat
    decreases n,
{
    if n <= 1 {
        1
    } else {
        2 * next_pow2((n + 1) / 2)
    }
}

/// Doubling a power of two gives a power of two.
proof fn lemma_pow2_double(a: nat)
    requires
        is_pow2(a as int),
    ensures
        is_pow2(2 * a as int),
{
    reveal(is_pow2);
}

/// A power of two of at least 2 is even, and its half is a power of two.
pub proof fn lemma_pow2_half(n: nat)
    requires
        is_pow2(n as int),
        n >= 2,
    ensures
        n % 2 == 0,
        is_pow2((n / 2) as int),
{
    reveal(is_pow2);
}

/// A power of two is positive.
pub proof fn lemma_pow2_pos(n: nat)
    requires
        is_pow2(n as int),
    ensures
        n >= 1,
{
    reveal(is_pow2);
}

/// Between two distinct powers of two there is at least a factor of two.
proof fn lemma_pow2_double_le(a: nat, b: nat)
    requires
        is_pow2(a as int),
        is_pow2(b as int),
        a < b,
    ensures
        2 * a <= b,
    decreases b,
{
    reveal(is_pow2);
    if a == 1 {
    } else {
        lemma_pow2_double_le(a / 2, b / 2);
    }
}

/// `next_pow2` yields a power of two.
pub proof fn lemma_next_pow2_is_pow2(n: nat)
    ensures
        is_pow2(next_pow2(n) as int),
    decreases n,
{
    reveal(is_pow2);
    if n <= 1 {
    } else {
        lemma_next_pow2_is_pow2((n + 1) / 2);
        lemma_pow2_pos(next_pow2((n + 1) / 2));
    }
}

/// `next_pow2(n)` is at least `n`.
pub proof fn lemma_next_pow2_ge(n: nat)
    ensures
        next_pow2(n) >= n,
        next_pow2(n) >= 1,
    decreases n,
{
    if n <= 1 {
    } else {
        lemma_next_pow2_ge((n + 1) / 2);
    }
}

/// `next_pow2(n)` is the smallest power of two that is at least `n`.
pub proof fn lemma_next_pow2_minimal(n: nat, m: nat)
    requires
        is_pow2(m as int),
        m >= n,
    ensures
        next_pow2(n) <= m,
    decreases n,
{
    if n <= 1 {
        lemma_pow2_pos(m);
    } else {
        lemma_pow2_half(m);
        lemma_next_pow2_minimal((n + 1) / 2, m / 2);
    }
}

/// For `n >= 2` the next power of two is below `2 * n`.
pub proof fn lemma_next_pow2_bound(n: nat)
    requires
        n >= 2,
    ensures
        next_pow2(n) <= 2 * n - 2,
    decreases n,
{
    if n == 2 {
        assert(next_pow2(2) == 2 * next_pow2(1));
    } else {
        lemma_next_pow2_bound((n + 1) / 2);
    }
}

/// A power of two is already its own next power of two.
pub proof fn lemma_next_pow2_fixed(n: nat)
    requires
        is_pow2(n as int),
    ensures
        next_pow2(n) == n,
{
    lemma_next_pow2_ge(n);
    lemma_next_pow2_minimal(n, n);
}

/// The bit test `n & (n - 1) == 0` characterizes the positive powers of two.
proof fn lemma_pow2_bit_test(n: usize)
    requires
        n >= 1,
    ensures
        (n & (n - 1) as usize == 0) <==> is_pow2(n as int),
    decreases n,
{
    reveal(is_pow2);
    if n == 1 {
        assert(1usize & 0usize == 0) by (bit_vector);
    } else if n % 2 == 1 {
        assert(n & (n - 1) as usize != 0) by (bit_vector)
            requires
                n % 2 == 1 && n >= 3,
        ;
    } else {
        lemma_pow2_bit_test(n / 2);
        assert((n & (n - 1) as usize == 0) <==> ((n / 2) & (n / 2 - 1) as usize == 0))
            by (bit_vector)
            requires
                n % 2 == 0 && n >= 2,
        ;
    }
}

/// Whether `num` is an integer power of two; `0` is not one.
pub fn is_int_power_of_two(num: usize) -> (r: bool)
    ensures
        r == is_pow2(num as int),
{
    proof {
        reveal(is_pow2);
        if num >= 1 {
            lemma_pow2_bit_test(num);
        }
    }
    num > 0 && (num & (num - 1)) == 0
}

/// The smallest power of two that is at least `num`.
pub fn next_power_of_two(num: usize) -> (r: usize)
    requires
        1 <= num,
        num <= usize::MAX / 2 + 1,
    ensures
        r == next_pow2(num as nat),
{
    proof {
        lemma_next_pow2_is_pow2(num as nat);
        lemma_next_pow2_ge(num as nat);
        if num >= 2 {
            lemma_next_pow2_bound(num as nat);
        }
    }
    let mut r: usize = 1;
    proof {
        reveal(is_pow2);
    }
    while r < num
        invariant
            1 <= r,
            is_pow2(r as int),
            r <= next_pow2(num as nat),
            num <= usize::MAX / 2 + 1,
            next_pow2(num as nat) >= num,
            num >= 2 ==> next_pow2(num as nat) <= 2 * num - 2,
            is_pow2(next_pow2(num as nat) as int),
        decreases 2 * num - r,
    {
        proof {
            lemma_pow2_double_le(r as nat, next_pow2(num as nat));
            lemma_pow2_double(r as nat);
        }
        r = r * 2;
    }
    proof {
        lemma_next_pow2_minimal(num as nat, r as nat);
    }
    r
}

} // verus!
