//! The algebra that the compiler works over.
//!
//! A field element is known to the logic only through the operations below.
//! Each operation has a specification function, and the ring laws are stated
//! over those functions. `valid` marks the canonical representatives: the
//! results of all operations are canonical, and so is every element that
//! exists at run time.

use vstd::arithmetic::power2::pow2;
use vstd::prelude::*;

verus! {

/// A commutative ring with a run-time representation of its elements.
pub trait Field: Copy + Sized {
    /// The element is a canonical representative.
    spec fn valid(self) -> bool;

    /// The additive identity.
    spec fn zero_spec() -> Self;

    /// The multiplicative identity.
    spec fn one_spec() -> Self;

    /// The inverse of two.
    spec fn half_spec() -> Self;

    /// Addition.
    spec fn add_spec(self, other: Self) -> Self;

    /// Subtraction.
    spec fn sub_spec(self, other: Self) -> Self;

    /// Multiplication.
    spec fn mul_spec(self, other: Self) -> Self;

    /// The image of a natural number.
    spec fn nat_spec(n: nat) -> Self;

    /// How many natural numbers, from zero on, have distinct images.
    spec fn characteristic() -> nat;

    /// The results of the operations are canonical.
    proof fn valid_results(self, other: Self, n: nat)
        ensures
            Self::zero_spec().valid(),
            Self::one_spec().valid(),
            Self::half_spec().valid(),
            self.add_spec(other).valid(),
            self.sub_spec(other).valid(),
            self.mul_spec(other).valid(),
            Self::nat_spec(n).valid(),
    ;

    proof fn add_commutes(self, other: Self)
        ensures
            self.add_spec(other) == other.add_spec(self),
    ;

    proof fn add_associates(self, b: Self, c: Self)
        ensures
            self.add_spec(b).add_spec(c) == self.add_spec(b.add_spec(c)),
    ;

    proof fn add_zero(self)
        requires
            self.valid(),
        ensures
            self.add_spec(Self::zero_spec()) == self,
    ;

    proof fn sub_cancels(self, other: Self)
        requires
            self.valid(),
        ensures
            self.sub_spec(other).add_spec(other) == self,
            self.add_spec(other).sub_spec(other) == self,
    ;

    proof fn mul_commutes(self, other: Self)
        ensures
            self.mul_spec(other) == other.mul_spec(self),
    ;

    proof fn mul_associates(self, b: Self, c: Self)
        ensures
            self.mul_spec(b).mul_spec(c) == self.mul_spec(b.mul_spec(c)),
    ;

    proof fn mul_one(self)
        requires
            self.valid(),
        ensures
            self.mul_spec(Self::one_spec()) == self,
    ;

    proof fn mul_distributes(self, b: Self, c: Self)
        ensures
            self.mul_spec(b.add_spec(c)) == self.mul_spec(b).add_spec(self.mul_spec(c)),
    ;

    proof fn half_doubles()
        ensures
            Self::half_spec().add_spec(Self::half_spec()) == Self::one_spec(),
    ;

    proof fn nat_is_injective(a: nat, b: nat)
        requires
            a < Self::characteristic(),
            b < Self::characteristic(),
            Self::nat_spec(a) == Self::nat_spec(b),
        ensures
            a == b,
    ;

    /// The element itself: at run time every element is canonical.
    fn canonical(self) -> (r: Self)
        ensures
            r == self,
            r.valid(),
    ;

    /// Additive identity.
    fn zero() -> (r: Self)
        ensures
            r == Self::zero_spec(),
    ;

    /// Multiplicative identity.
    fn one() -> (r: Self)
        ensures
            r == Self::one_spec(),
    ;

    /// Sum of two elements.
    fn plus(self, other: Self) -> (r: Self)
        ensures
            r == self.add_spec(other),
    ;

    /// Product of two elements.
    fn times(self, other: Self) -> (r: Self)
        ensures
            r == self.mul_spec(other),
    ;

    /// Image of an integer.
    fn from_u64(n: u64) -> (r: Self)
        ensures
            r == Self::nat_spec(n as nat),
    ;

    /// Equality of elements.
    fn same(self, other: Self) -> (r: bool)
        ensures
            r == (self == other),
    ;
}

/// `x` to the power `n`.
pub open spec fn power<F: Field>(x: F, n: nat) -> F
    decreases n,
{
    if n == 0 {
        F::one_spec()
    } else {
        power(x, (n - 1) as nat).mul_spec(x)
    }
}

/// The value at `x` of the polynomial with the given coefficients, lowest
/// degree first.
pub open spec fn poly_eval<F: Field>(coeffs: Seq<F>, x: F) -> F
    decreases coeffs.len(),
{
    if coeffs.len() == 0 {
        F::zero_spec()
    } else {
        poly_eval(coeffs.drop_last(), x).add_spec(
            coeffs.last().mul_spec(power(x, (coeffs.len() - 1) as nat)),
        )
    }
}

/// The values of a polynomial at `w^0, w^1, ..., w^(n - 1)`.
pub open spec fn evaluations<F: Field>(coeffs: Seq<F>, w: F, n: nat) -> Seq<F> {
    Seq::new(n, |i: int| poly_eval(coeffs, power(w, i as nat)))
}

/// All elements are canonical.
pub open spec fn all_valid<F: Field>(s: Seq<F>) -> bool {
    forall|i: int| 0 <= i < s.len() ==> (#[trigger] s[i]).valid()
}

/// `s` followed by zeros up to length `n`.
pub open spec fn zero_padded<F: Field>(s: Seq<F>, n: nat) -> Seq<F> {
    Seq::new(n, |i: int| if i < s.len() { s[i] } else { F::zero_spec() })
}

/// A table of `2^n` elements of at most this many bytes each has to be
/// addressable.
pub const MAX_ELEMENT_BYTES: usize = 64;

/// A table of `2^n` elements can be held in memory.
pub open spec fn addressable(n: nat) -> bool {
    pow2(n) * MAX_ELEMENT_BYTES <= isize::MAX
}

/// A field with multiplicative subgroups of order `2^k`.
pub trait TwoAdicField: Field {
    /// The largest `k` for which the field has a subgroup of order `2^k`.
    spec fn two_adicity() -> nat;

    /// The chosen generator of the subgroup of order `2^bits`.
    spec fn root(bits: nat) -> Self;

    proof fn root_is_valid(bits: nat)
        requires
            bits <= Self::two_adicity(),
        ensures
            Self::root(bits).valid(),
    ;

    /// Squaring a generator gives the generator of the next smaller subgroup.
    proof fn root_squares(bits: nat)
        requires
            bits < Self::two_adicity(),
        ensures
            Self::root(bits + 1).mul_spec(Self::root(bits + 1)) == Self::root(bits),
    ;

    /// The generators of the two smallest subgroups are one and minus one.
    proof fn small_roots()
        ensures
            Self::two_adicity() >= 1,
            Self::root(0) == Self::one_spec(),
            Self::root(1).add_spec(Self::one_spec()) == Self::zero_spec(),
    ;

    /// Values of the polynomial with coefficients `coeffs` on the subgroup of
    /// order `2^log_len`.
    fn dft(coeffs: &Vec<Self>, log_len: usize) -> (r: Vec<Self>)
        requires
            log_len <= Self::two_adicity(),
            coeffs@.len() == pow2(log_len as nat),
        ensures
            r@ == evaluations(coeffs@, Self::root(log_len as nat), pow2(log_len as nat)),
    ;

    /// Coefficients of the polynomial with the given values on the subgroup of
    /// order `2^log_len`.
    fn idft(values: &Vec<Self>, log_len: usize) -> (r: Vec<Self>)
        requires
            log_len <= Self::two_adicity(),
            values@.len() == pow2(log_len as nat),
        ensures
            r@.len() == values@.len(),
            all_valid(r@),
            evaluations(r@, Self::root(log_len as nat), pow2(log_len as nat)) == values@,
    ;
}

/// A ring that extends `F`.
pub trait ExtensionField<F: TwoAdicField>: Field {
    /// The image of a base element.
    spec fn embed(x: F) -> Self;

    /// The embedding is a ring homomorphism.
    proof fn embed_is_homomorphism(a: F, b: F)
        ensures
            Self::embed(a.add_spec(b)) == Self::embed(a).add_spec(Self::embed(b)),
            Self::embed(a.mul_spec(b)) == Self::embed(a).mul_spec(Self::embed(b)),
            Self::embed(F::zero_spec()) == Self::zero_spec(),
            Self::embed(F::one_spec()) == Self::one_spec(),
            a.valid() ==> Self::embed(a).valid(),
    ;

    proof fn embed_is_injective(a: F, b: F)
        requires
            Self::embed(a) == Self::embed(b),
        ensures
            a == b,
    ;

    /// Image of a base element.
    fn from_base(x: F) -> (r: Self)
        ensures
            r == Self::embed(x),
    ;

    /// Values of the polynomial with coefficients `coeffs` on the subgroup of
    /// order `2^log_len` of the base field.
    fn dft_algebra(coeffs: &Vec<Self>, log_len: usize) -> (r: Vec<Self>)
        requires
            log_len <= F::two_adicity(),
            coeffs@.len() == pow2(log_len as nat),
        ensures
            r@ == evaluations(coeffs@, Self::embed(F::root(log_len as nat)), pow2(log_len as nat)),
    ;

    /// Coefficients of the polynomial with the given values on the subgroup of
    /// order `2^log_len` of the base field.
    fn idft_algebra(values: &Vec<Self>, log_len: usize) -> (r: Vec<Self>)
        requires
            log_len <= F::two_adicity(),
            values@.len() == pow2(log_len as nat),
        ensures
            r@.len() == values@.len(),
            all_valid(r@),
            evaluations(r@, Self::embed(F::root(log_len as nat)), pow2(log_len as nat)) == values@,
    ;

    /// The point `(y^(2^(n - 1)), ..., y^4, y^2, y)`.
    fn expand_from_univariate(y: Self, num_variables: usize) -> (r: Vec<Self>)
        requires
            num_variables * MAX_ELEMENT_BYTES <= isize::MAX,
        ensures
            r@ == crate::multilinear::expanded_point(y, num_variables as nat),
    ;

    /// The table of `eq(point, b)` over the vertices `b` of the hypercube.
    fn eq_weights(point: &Vec<Self>) -> (r: Vec<Self>)
        requires
            addressable(point@.len()),
        ensures
            r@ == crate::multilinear::eq_table(point@),
    ;
}

} // verus!
