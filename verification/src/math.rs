//! Facts about division and products that the index arithmetic rests on.
use vstd::prelude::*;
use vstd::arithmetic::div_mod::{lemma_fundamental_div_mod, lemma_fundamental_div_mod_converse};

verus! {

/// Quotient and remainder of `d * q + r` by `d`.
pub(crate) proof fn lemma_split(x: int, d: int, q: int, r: int)
    requires
        0 <= r < d,
        x == d * q + r,
    ensures
        x / d == q,
        x % d == r,
{
    assert(d * q == q * d) by (nonlinear_arith);
    lemma_fundamental_div_mod_converse(x, d, q, r);
}

/// A number is its quotient times the divisor plus its remainder.
pub(crate) proof fn lemma_join(x: int, d: int)
    requires
        d > 0,
    ensures
        x == d * (x / d) + x % d,
        x == (x / d) * d + x % d,
        0 <= x % d < d,
{
    lemma_fundamental_div_mod(x, d);
    assert(d * (x / d) == (x / d) * d) by (nonlinear_arith);
    assert(0 <= x % d < d) by (nonlinear_arith)
        requires
            d > 0,
    ;
}

} // verus!
