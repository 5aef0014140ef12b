use vstd::prelude::*;
use vstd::arithmetic::div_mod::{
    lemma_fundamental_div_mod,
    lemma_fundamental_div_mod_converse,
    lemma_mod_division_less_than_divisor,
};
use vstd::arithmetic::mul::lemma_mul_is_commutative;

verus! {

/// The first id of the group of `d` consecutive ids that holds `x` (for `x >= 0`).
pub open spec fn group_of(x: int, d: int) -> int {
    (x / d) * d
}

/// The group that Rust's truncating division gives an id of either sign:
/// `(x / d) * d` with the quotient rounded toward zero.
pub open spec fn truncated_group_of(x: int, d: int) -> int {
    if x >= 0 {
        group_of(x, d)
    } else {
        -group_of(-x, d)
    }
}

/// `group_of` rounds `x` down to a multiple of `d`.
pub proof fn lemma_group(x: int, d: int)
    requires
        0 <= x,
        1 <= d,
    ensures
        0 <= group_of(x, d) <= x < group_of(x, d) + d,
        group_of(x, d) % d == 0,
        x / d >= 0,
        group_of(x, d) == (x / d) * d,
{
    lemma_fundamental_div_mod(x, d);
    lemma_mod_division_less_than_divisor(x, d);
    lemma_mul_is_commutative(d, x / d);
    let q = x / d;
    assert(q >= 0) by (nonlinear_arith)
        requires
            x == d * q + x % d,
            0 <= x % d < d,
            0 <= x,
            1 <= d,
    ;
    assert(q * d >= 0) by (nonlinear_arith)
        requires
            q >= 0,
            d >= 1,
    ;
    lemma_fundamental_div_mod_converse(q * d, d, q, 0);
}

/// A multiple of `d` that lies at most `d - 1` below `x` is the group of `x`.
pub proof fn lemma_group_unique(h: int, x: int, d: int)
    requires
        1 <= d,
        0 <= h,
        h % d == 0,
        h <= x < h + d,
    ensures
        h == group_of(x, d),
{
    lemma_fundamental_div_mod(h, d);
    lemma_mul_is_commutative(d, h / d);
    let p = h / d;
    assert(x == p * d + (x - h));
    lemma_fundamental_div_mod_converse(x, d, p, x - h);
}

/// A multiple of `d` is its own group, and dividing it by `d` gives back the factor.
pub proof fn lemma_group_of_multiple(k: int, d: int)
    requires
        0 <= k,
        1 <= d,
    ensures
        (k * d) / d == k,
        (k * d) % d == 0,
        group_of(k * d, d) == k * d,
        k * d >= 0,
{
    lemma_fundamental_div_mod_converse(k * d, d, k, 0);
    assert(k * d >= 0) by (nonlinear_arith)
        requires
            k >= 0,
            d >= 1,
    ;
}

/// The quotient of one past a multiple of `d`: the same factor, or the next one when `d` is 1.
pub proof fn lemma_group_successor(k: int, d: int)
    requires
        0 <= k,
        1 <= d,
    ensures
        (k * d + 1) / d == if d == 1 { k + 1 } else { k },
{
    if d == 1 {
        lemma_fundamental_div_mod_converse(k * d + 1, d, k + 1, 0);
    } else {
        lemma_fundamental_div_mod_converse(k * d + 1, d, k, 1);
    }
}

} // verus!
