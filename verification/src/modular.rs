//! Facts about residues of integers.

use vstd::arithmetic::div_mod::{
    lemma_add_mod_noop, lemma_add_mod_noop_right, lemma_mul_mod_noop_left,
    lemma_mul_mod_noop_right,
};
use vstd::prelude::*;

verus! {

pub proof fn lemma_mod_add_associates(a: int, b: int, c: int, m: int)
    requires
        m > 0,
    ensures
        ((a + b) % m + c) % m == (a + (b + c) % m) % m,
{
    lemma_add_mod_noop_right(a, b + c, m);
    lemma_add_mod_noop_right(c, a + b, m);
}

pub proof fn lemma_mod_mul_associates(a: int, b: int, c: int, m: int)
    requires
        m > 0,
    ensures
        ((a * b) % m * c) % m == (a * ((b * c) % m)) % m,
{
    lemma_mul_mod_noop_left(a * b, c, m);
    lemma_mul_mod_noop_right(a, b * c, m);
    assert((a * b) * c == a * (b * c)) by (nonlinear_arith);
}

pub proof fn lemma_mod_mul_distributes(a: int, b: int, c: int, m: int)
    requires
        m > 0,
    ensures
        (a * ((b + c) % m)) % m == ((a * b) % m + (a * c) % m) % m,
{
    lemma_mul_mod_noop_right(a, b + c, m);
    lemma_add_mod_noop(a * b, a * c, m);
    assert(a * (b + c) == a * b + a * c) by (nonlinear_arith);
}

/// Residues may be taken before a weighted sum of products.
pub proof fn lemma_mod_weighted_sum(x: int, u: int, k: int, y: int, v: int, m: int)
    requires
        m > 0,
    ensures
        ((x % m) * u + k * ((y % m) * v)) % m == (x * u + k * (y * v)) % m,
{
    lemma_mul_mod_noop_left(x, u, m);
    lemma_mul_mod_noop_left(y, v, m);
    lemma_mul_mod_noop_right(k, (y % m) * v, m);
    lemma_mul_mod_noop_right(k, y * v, m);
    lemma_add_mod_noop((x % m) * u, k * ((y % m) * v), m);
    lemma_add_mod_noop(x * u, k * (y * v), m);
}

} // verus!
