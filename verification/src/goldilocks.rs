//! The prime field of order `2^64 - 2^32 + 1` and its quadratic extension.
//!
//! Elements are held as canonical integers. The arithmetic itself is that of
//! `p3_goldilocks` and `p3_field`; transforms are those of `p3_dft` and
//! multilinear tables those of `p3_multilinear_util`.

use crate::field::{
    addressable, all_valid, evaluations, ExtensionField, Field, TwoAdicField, MAX_ELEMENT_BYTES,
};
use crate::modular::{lemma_mod_add_associates, lemma_mod_mul_associates, lemma_mod_mul_distributes};
use crate::multilinear::{eq_table, expanded_point};
use p3_dft::TwoAdicSubgroupDft;
use p3_field::extension::BinomialExtensionField;
use p3_field::{BasedVectorSpace, PrimeCharacteristicRing, PrimeField64};
use vstd::arithmetic::power2::pow2;
use vstd::prelude::*;

verus! {

/// Order of the base field.
pub const ORDER: u64 = 0xFFFF_FFFF_0000_0001;

/// Generator of the subgroup of order `2^32`.
pub const TWO_ADIC_GENERATOR: u64 = 0x1856_29dc_da58_878c;

/// Two-adicity of the multiplicative group.
pub const TWO_ADICITY: usize = 32;

/// The extension is the base field with a square root of this element.
pub const EXTENSION_NON_RESIDUE: u64 = 7;

/// Sum in `p3_goldilocks`: addition modulo the field order.
#[verifier::external_body]
fn base_sum(a: u64, b: u64) -> (r: u64)
    ensures
        r == (a + b) % (ORDER as int),
{
    (p3_goldilocks::Goldilocks::new(a) + p3_goldilocks::Goldilocks::new(b)).as_canonical_u64()
}

/// Product in `p3_goldilocks`: multiplication modulo the field order.
#[verifier::external_body]
fn base_product(a: u64, b: u64) -> (r: u64)
    ensures
        r == (a * b) % (ORDER as int),
{
    (p3_goldilocks::Goldilocks::new(a) * p3_goldilocks::Goldilocks::new(b)).as_canonical_u64()
}

/// `from_u64` of `p3_field::PrimeCharacteristicRing` for the base field:
/// reduction modulo the field order.
#[verifier::external_body]
fn base_from_u64(n: u64) -> (r: u64)
    ensures
        r == n % ORDER,
{
    p3_goldilocks::Goldilocks::from_u64(n).as_canonical_u64()
}

/// An element of the base field.
#[derive(Clone, Copy, Debug, PartialEq, Eq, Structural)]
pub struct Goldilocks {
    value: u64,
}

impl Goldilocks {
    #[verifier::type_invariant]
    spec fn canonical_value(self) -> bool {
        self.value < ORDER
    }

    /// The canonical integer of the element.
    pub closed spec fn int_value(self) -> int {
        self.value as int
    }

    /// The element with the given canonical integer.
    pub closed spec fn of_int(n: int) -> Self {
        Goldilocks { value: (n % (ORDER as int)) as u64 }
    }

    /// An element of the base field.
    pub fn new(n: u64) -> (r: Self)
        ensures
            r == Self::of_int(n as int),
            r.int_value() == n % ORDER,
    {
        let value: u64 = base_from_u64(n);
        Goldilocks { value }
    }

    /// The canonical integer of the element.
    pub fn as_canonical_u64(self) -> (r: u64)
        ensures
            r == self.int_value(),
            r < ORDER,
    {
        proof {
            use_type_invariant(&self);
        }
        self.value
    }
}

/// The canonical integer of the generator of the subgroup of order `2^bits`.
pub open spec fn root_value(bits: nat) -> int
    decreases 32 - bits,
{
    if bits >= 32 {
        TWO_ADIC_GENERATOR as int
    } else {
        square_mod(root_value(bits + 1))
    }
}

/// The square modulo the field order.
pub open spec fn square_mod(x: int) -> int {
    (x * x) % (ORDER as int)
}

proof fn lemma_root_bounds(bits: nat)
    ensures
        0 <= root_value(bits) < ORDER,
{
    if bits < 32 {
        vstd::arithmetic::div_mod::lemma_mod_bound(
            root_value(bits + 1) * root_value(bits + 1),
            ORDER as int,
        );
    }
}

/// The generators of the subgroups of orders one and two.
proof fn lemma_root_chain()
    ensures
        root_value(0) == 1,
        root_value(1) == ORDER - 1,
{
    assert(root_value(32) == 0x185629dcda58878c);
    assert(square_mod(0x185629dcda58878c) == 0x400a7f755588e659);
    assert(root_value(31) == 0x400a7f755588e659);
    assert(square_mod(0x400a7f755588e659) == 0x7e9bd009b86a0845);
    assert(root_value(30) == 0x7e9bd009b86a0845);
    assert(square_mod(0x7e9bd009b86a0845) == 0xdfa8c93ba46d2666);
    assert(root_value(29) == 0xdfa8c93ba46d2666);
    assert(square_mod(0xdfa8c93ba46d2666) == 0x59049500004a4485);
    assert(root_value(28) == 0x59049500004a4485);
    assert(square_mod(0x59049500004a4485) == 0x10d78dd8915a171d);
    assert(root_value(27) == 0x10d78dd8915a171d);
    assert(square_mod(0x10d78dd8915a171d) == 0xed41d05b78d6e286);
    assert(root_value(26) == 0xed41d05b78d6e286);
    assert(square_mod(0xed41d05b78d6e286) == 0x4bbaf5976ecfefd8);
    assert(root_value(25) == 0x4bbaf5976ecfefd8);
    assert(square_mod(0x4bbaf5976ecfefd8) == 0x86cdcc31c307e171);
    assert(root_value(24) == 0x86cdcc31c307e171);
    assert(square_mod(0x86cdcc31c307e171) == 0xea9d5a1336fbc98b);
    assert(root_value(23) == 0xea9d5a1336fbc98b);
    assert(square_mod(0xea9d5a1336fbc98b) == 0x4b2a18ade67246b5);
    assert(root_value(22) == 0x4b2a18ade67246b5);
    assert(square_mod(0x4b2a18ade67246b5) == 0xf502aef532322654);
    assert(root_value(21) == 0xf502aef532322654);
    assert(square_mod(0xf502aef532322654) == 0x30ba2ecd5e93e76d);
    assert(root_value(20) == 0x30ba2ecd5e93e76d);
    assert(square_mod(0x30ba2ecd5e93e76d) == 0xfbd41c6b8caa3302);
    assert(root_value(19) == 0xfbd41c6b8caa3302);
    assert(square_mod(0xfbd41c6b8caa3302) == 0x81281a7b05f9beac);
    assert(root_value(18) == 0x81281a7b05f9beac);
    assert(square_mod(0x81281a7b05f9beac) == 0xabd0a6e8aa3d8a0e);
    assert(root_value(17) == 0xabd0a6e8aa3d8a0e);
    assert(square_mod(0xabd0a6e8aa3d8a0e) == 0x54df9630bf79450e);
    assert(root_value(16) == 0x54df9630bf79450e);
    assert(square_mod(0x54df9630bf79450e) == 0xf6b2cffe2306baac);
    assert(root_value(15) == 0xf6b2cffe2306baac);
    assert(square_mod(0xf6b2cffe2306baac) == 0xe0ee099310bba1e2);
    assert(root_value(14) == 0xe0ee099310bba1e2);
    assert(square_mod(0xe0ee099310bba1e2) == 0x1544ef2335d17997);
    assert(root_value(13) == 0x1544ef2335d17997);
    assert(square_mod(0x1544ef2335d17997) == 0xf2c35199959dfcb6);
    assert(root_value(12) == 0xf2c35199959dfcb6);
    assert(square_mod(0xf2c35199959dfcb6) == 0x0653b4801da1c8cf);
    assert(root_value(11) == 0x0653b4801da1c8cf);
    assert(square_mod(0x0653b4801da1c8cf) == 0x9d8f2ad78bfed972);
    assert(root_value(10) == 0x9d8f2ad78bfed972);
    assert(square_mod(0x9d8f2ad78bfed972) == 0x1905d02a5c411f4e);
    assert(root_value(9) == 0x1905d02a5c411f4e);
    assert(square_mod(0x1905d02a5c411f4e) == 0xbf79143ce60ca966);
    assert(root_value(8) == 0xbf79143ce60ca966);
    assert(square_mod(0xbf79143ce60ca966) == 0xf80007ff08000001);
    assert(root_value(7) == 0xf80007ff08000001);
    assert(square_mod(0xf80007ff08000001) == 0x0000008000000000);
    assert(root_value(6) == 0x0000008000000000);
    assert(square_mod(0x0000008000000000) == 0x00003fffffffc000);
    assert(root_value(5) == 0x00003fffffffc000);
    assert(square_mod(0x00003fffffffc000) == 0xefffffff00000001);
    assert(root_value(4) == 0xefffffff00000001);
    assert(square_mod(0xefffffff00000001) == 0xfffffffeff000001);
    assert(root_value(3) == 0xfffffffeff000001);
    assert(square_mod(0xfffffffeff000001) == 0x0001000000000000);
    assert(root_value(2) == 0x0001000000000000);
    assert(square_mod(0x0001000000000000) == 0xffffffff00000000);
    assert(root_value(1) == 0xffffffff00000000);
    assert(square_mod(0xffffffff00000000) == 1);
    assert(root_value(0) == 1);
}

impl Field for Goldilocks {
    closed spec fn valid(self) -> bool {
        self.value < ORDER
    }

    closed spec fn zero_spec() -> Self {
        Self::of_int(0)
    }

    closed spec fn one_spec() -> Self {
        Self::of_int(1)
    }

    closed spec fn half_spec() -> Self {
        Self::of_int(0x7FFF_FFFF_8000_0001)
    }

    closed spec fn add_spec(self, other: Self) -> Self {
        Self::of_int(self.value + other.value)
    }

    closed spec fn sub_spec(self, other: Self) -> Self {
        Self::of_int(self.value - other.value)
    }

    closed spec fn mul_spec(self, other: Self) -> Self {
        Self::of_int(self.value * other.value)
    }

    closed spec fn nat_spec(n: nat) -> Self {
        Self::of_int(n as int)
    }

    open spec fn characteristic() -> nat {
        ORDER as nat
    }

    proof fn valid_results(self, other: Self, n: nat) {
    }

    proof fn add_commutes(self, other: Self) {
    }

    proof fn add_associates(self, b: Self, c: Self) {
        lemma_mod_add_associates(self.value as int, b.value as int, c.value as int, ORDER as int);
    }

    proof fn add_zero(self) {
    }

    proof fn sub_cancels(self, other: Self) {
        let p = ORDER as int;
        vstd::arithmetic::div_mod::lemma_add_mod_noop_right(
            other.value as int,
            self.value - other.value,
            p,
        );
        vstd::arithmetic::div_mod::lemma_sub_mod_noop(
            self.value + other.value,
            other.value as int,
            p,
        );
        vstd::arithmetic::div_mod::lemma_sub_mod_noop(
            (self.value + other.value) % p,
            other.value as int,
            p,
        );
    }

    proof fn mul_commutes(self, other: Self) {
        assert(self.value * other.value == other.value * self.value) by (nonlinear_arith);
    }

    proof fn mul_associates(self, b: Self, c: Self) {
        lemma_mod_mul_associates(self.value as int, b.value as int, c.value as int, ORDER as int);
    }

    proof fn mul_one(self) {
        assert(self.value * 1 == self.value);
    }

    proof fn mul_distributes(self, b: Self, c: Self) {
        lemma_mod_mul_distributes(self.value as int, b.value as int, c.value as int, ORDER as int);
    }

    proof fn half_doubles() {
    }

    proof fn nat_is_injective(a: nat, b: nat) {
    }

    fn canonical(self) -> (r: Self) {
        proof {
            use_type_invariant(&self);
        }
        self
    }

    fn zero() -> (r: Self) {
        Goldilocks { value: 0 }
    }

    fn one() -> (r: Self) {
        Goldilocks { value: 1 }
    }

    fn plus(self, other: Self) -> (r: Self) {
        let value: u64 = base_sum(self.value, other.value);
        Goldilocks { value }
    }

    fn times(self, other: Self) -> (r: Self) {
        let value: u64 = base_product(self.value, other.value);
        Goldilocks { value }
    }

    fn from_u64(n: u64) -> (r: Self) {
        Self::new(n)
    }

    fn same(self, other: Self) -> (r: bool) {
        self == other
    }
}

/// The operations of the base field are those of the integers modulo the order.
pub proof fn base_operations(a: Goldilocks, b: Goldilocks, n: nat)
    ensures
        Goldilocks::zero_spec().int_value() == 0,
        Goldilocks::one_spec().int_value() == 1,
        a.add_spec(b).int_value() == (a.int_value() + b.int_value()) % (ORDER as int),
        a.sub_spec(b).int_value() == (a.int_value() - b.int_value()) % (ORDER as int),
        a.mul_spec(b).int_value() == (a.int_value() * b.int_value()) % (ORDER as int),
        Goldilocks::nat_spec(n).int_value() == n as int % (ORDER as int),
        a.valid() <==> 0 <= a.int_value() < ORDER,
        a == b <==> a.int_value() == b.int_value(),
{
}

/// The generator of the largest subgroup of two-power order.
pub proof fn root_of_largest_subgroup()
    ensures
        Goldilocks::root(32).int_value() == 0x1856_29dc_da58_878c,
{
    assert(root_value(32) == TWO_ADIC_GENERATOR);
}

impl TwoAdicField for Goldilocks {
    open spec fn two_adicity() -> nat {
        TWO_ADICITY as nat
    }

    closed spec fn root(bits: nat) -> Self {
        Self::of_int(root_value(bits))
    }

    proof fn root_is_valid(bits: nat) {
    }

    proof fn root_squares(bits: nat) {
        lemma_root_bounds(bits);
        lemma_root_bounds(bits + 1);
    }

    proof fn small_roots() {
        lemma_root_chain();
    }

    fn dft(coeffs: &Vec<Self>, log_len: usize) -> (r: Vec<Self>) {
        base_dft(coeffs, log_len)
    }

    fn idft(values: &Vec<Self>, log_len: usize) -> (r: Vec<Self>) {
        base_idft(values, log_len)
    }
}

/// `dft` of `p3_dft::TwoAdicSubgroupDft`, computed by `p3_dft::Radix2Dit`: the
/// values of a polynomial on the subgroup of the given order, in the order of
/// the powers of its generator.
#[verifier::external_body]
fn base_dft(coeffs: &Vec<Goldilocks>, log_len: usize) -> (r: Vec<Goldilocks>)
    requires
        log_len <= TWO_ADICITY,
        coeffs@.len() == pow2(log_len as nat),
    ensures
        r@ == evaluations(coeffs@, Goldilocks::root(log_len as nat), pow2(log_len as nat)),
{
    let input = coeffs.iter().map(|c| p3_goldilocks::Goldilocks::new(c.value)).collect();
    let output = p3_dft::Radix2Dit::default().dft(input);
    output.iter().map(|c| Goldilocks { value: c.as_canonical_u64() }).collect()
}

/// `idft` of `p3_dft::TwoAdicSubgroupDft`, computed by `p3_dft::Radix2Dit`: the
/// coefficients of the polynomial with the given values on the subgroup.
#[verifier::external_body]
fn base_idft(values: &Vec<Goldilocks>, log_len: usize) -> (r: Vec<Goldilocks>)
    requires
        log_len <= TWO_ADICITY,
        values@.len() == pow2(log_len as nat),
    ensures
        r@.len() == values@.len(),
        all_valid(r@),
        evaluations(r@, Goldilocks::root(log_len as nat), pow2(log_len as nat)) == values@,
{
    let input = values.iter().map(|c| p3_goldilocks::Goldilocks::new(c.value)).collect();
    let output = p3_dft::Radix2Dit::default().idft(input);
    output.iter().map(|c| Goldilocks { value: c.as_canonical_u64() }).collect()
}

/// Product in the quadratic extension of `p3_field`: polynomials of degree one
/// multiplied modulo `X^2 - 7`.
#[verifier::external_body]
fn extension_product(a0: u64, a1: u64, b0: u64, b1: u64) -> (r: (u64, u64))
    ensures
        r.0 == (a0 * b0 + EXTENSION_NON_RESIDUE * (a1 * b1)) % (ORDER as int),
        r.1 == (a0 * b1 + a1 * b0) % (ORDER as int),
{
    let a = BinomialExtensionField::new(
        [p3_goldilocks::Goldilocks::new(a0), p3_goldilocks::Goldilocks::new(a1)],
    );
    let b = BinomialExtensionField::new(
        [p3_goldilocks::Goldilocks::new(b0), p3_goldilocks::Goldilocks::new(b1)],
    );
    let product: BinomialExtensionField<p3_goldilocks::Goldilocks, 2> = a * b;
    let c: &[p3_goldilocks::Goldilocks] = product.as_basis_coefficients_slice();
    (c[0].as_canonical_u64(), c[1].as_canonical_u64())
}

/// An element of the quadratic extension: `c0 + c1 * X` with `X^2 = 7`.
#[derive(Clone, Copy, Debug, PartialEq, Eq, Structural)]
pub struct GoldilocksExt2 {
    c0: Goldilocks,
    c1: Goldilocks,
}

impl GoldilocksExt2 {
    /// The coefficients of the element.
    pub closed spec fn coefficients(self) -> (Goldilocks, Goldilocks) {
        (self.c0, self.c1)
    }

    closed spec fn of_ints(c0: int, c1: int) -> Self {
        GoldilocksExt2 { c0: Goldilocks::of_int(c0), c1: Goldilocks::of_int(c1) }
    }

    /// `c0 + c1 * X`.
    pub fn new(c0: Goldilocks, c1: Goldilocks) -> (r: Self)
        ensures
            r.coefficients() == (c0, c1),
    {
        GoldilocksExt2 { c0, c1 }
    }

    /// The coefficients of the element.
    pub fn into_coefficients(self) -> (r: (Goldilocks, Goldilocks))
        ensures
            r == self.coefficients(),
    {
        (self.c0, self.c1)
    }
}

/// Coefficients of a product of three factors, grouped in either way.
proof fn lemma_triple_product(
    a0: int,
    a1: int,
    b0: int,
    b1: int,
    c0: int,
    c1: int,
    w: int,
)
    ensures
        (a0 * b0 + w * (a1 * b1)) * c0 + w * ((a0 * b1 + a1 * b0) * c1) == (b0 * c0 + w * (b1 * c1))
            * a0 + w * ((b0 * c1 + b1 * c0) * a1),
        (a0 * b0 + w * (a1 * b1)) * c1 + 1 * ((a0 * b1 + a1 * b0) * c0) == (b0 * c1 + b1 * c0) * a0
            + 1 * ((b0 * c0 + w * (b1 * c1)) * a1),
{
    lemma_expand(a0 * b0, a1 * b1, c0, w, a0 * b1, a1 * b0, c1);
    lemma_expand(b0 * c0, b1 * c1, a0, w, b0 * c1, b1 * c0, a1);
    lemma_expand(a0 * b0, a1 * b1, c1, w, a0 * b1, a1 * b0, c0);
    lemma_expand(b0 * c0, b1 * c1, a1, w, b0 * c1, b1 * c0, a0);
    lemma_rotate(a0, b0, c0);
    lemma_rotate(a1, b1, c0);
    lemma_rotate(a0, b1, c1);
    lemma_rotate(a1, b0, c1);
    lemma_rotate(a0, b0, c1);
    lemma_rotate(a1, b1, c1);
    lemma_rotate(a0, b1, c0);
    lemma_rotate(a1, b0, c0);
}

proof fn lemma_rotate(x: int, y: int, z: int)
    ensures
        (x * y) * z == (y * z) * x,
{
    assert((x * y) * z == (y * z) * x) by (nonlinear_arith);
}

proof fn lemma_expand(p: int, q: int, x: int, w: int, r: int, s: int, y: int)
    ensures
        (p + w * q) * x == p * x + w * (q * x),
        w * ((r + s) * y) == w * (r * y) + w * (s * y),
        (r + s) * y == r * y + s * y,
{
    assert((p + w * q) * x == p * x + w * (q * x)) by (nonlinear_arith);
    assert((r + s) * y == r * y + s * y) by (nonlinear_arith);
    assert(w * (r * y + s * y) == w * (r * y) + w * (s * y)) by (nonlinear_arith);
}

impl Field for GoldilocksExt2 {
    closed spec fn valid(self) -> bool {
        self.c0.valid() && self.c1.valid()
    }

    closed spec fn zero_spec() -> Self {
        Self::of_ints(0, 0)
    }

    closed spec fn one_spec() -> Self {
        Self::of_ints(1, 0)
    }

    closed spec fn half_spec() -> Self {
        Self::of_ints(0x7FFF_FFFF_8000_0001, 0)
    }

    closed spec fn add_spec(self, other: Self) -> Self {
        Self::of_ints(self.c0.value + other.c0.value, self.c1.value + other.c1.value)
    }

    closed spec fn sub_spec(self, other: Self) -> Self {
        Self::of_ints(self.c0.value - other.c0.value, self.c1.value - other.c1.value)
    }

    closed spec fn mul_spec(self, other: Self) -> Self {
        Self::of_ints(
            self.c0.value * other.c0.value + EXTENSION_NON_RESIDUE * (self.c1.value
                * other.c1.value),
            self.c0.value * other.c1.value + self.c1.value * other.c0.value,
        )
    }

    closed spec fn nat_spec(n: nat) -> Self {
        Self::of_ints(n as int, 0)
    }

    open spec fn characteristic() -> nat {
        ORDER as nat
    }

    proof fn valid_results(self, other: Self, n: nat) {
    }

    proof fn add_commutes(self, other: Self) {
    }

    proof fn add_associates(self, b: Self, c: Self) {
        self.c0.add_associates(b.c0, c.c0);
        self.c1.add_associates(b.c1, c.c1);
    }

    proof fn add_zero(self) {
    }

    proof fn sub_cancels(self, other: Self) {
        self.c0.sub_cancels(other.c0);
        self.c1.sub_cancels(other.c1);
    }

    proof fn mul_commutes(self, other: Self) {
        let (a0, a1, b0, b1) = (
            self.c0.value as int,
            self.c1.value as int,
            other.c0.value as int,
            other.c1.value as int,
        );
        assert(a0 * b0 == b0 * a0) by (nonlinear_arith);
        assert(a1 * b1 == b1 * a1) by (nonlinear_arith);
        assert(a0 * b1 == b1 * a0) by (nonlinear_arith);
        assert(a1 * b0 == b0 * a1) by (nonlinear_arith);
    }

    proof fn mul_associates(self, b: Self, c: Self) {
        let p = ORDER as int;
        let w = EXTENSION_NON_RESIDUE as int;
        let (a0, a1) = (self.c0.value as int, self.c1.value as int);
        let (b0, b1) = (b.c0.value as int, b.c1.value as int);
        let (c0, c1) = (c.c0.value as int, c.c1.value as int);
        let (x, y) = (a0 * b0 + w * (a1 * b1), a0 * b1 + a1 * b0);
        let (u, v) = (b0 * c0 + w * (b1 * c1), b0 * c1 + b1 * c0);
        crate::modular::lemma_mod_weighted_sum(x, c0, w, y, c1, p);
        crate::modular::lemma_mod_weighted_sum(x, c1, 1, y, c0, p);
        crate::modular::lemma_mod_weighted_sum(u, a0, w, v, a1, p);
        crate::modular::lemma_mod_weighted_sum(v, a0, 1, u, a1, p);
        lemma_triple_product(a0, a1, b0, b1, c0, c1, w);
        assert(a0 * (u % p) == (u % p) * a0) by (nonlinear_arith);
        assert(a1 * (v % p) == (v % p) * a1) by (nonlinear_arith);
        assert(a0 * (v % p) == (v % p) * a0) by (nonlinear_arith);
        assert(a1 * (u % p) == (u % p) * a1) by (nonlinear_arith);
    }

    proof fn mul_one(self) {
        assert(self.c0.value * 1 == self.c0.value);
        assert(self.c1.value * 1 == self.c1.value);
        assert(self.c0.value * 0 == 0);
        assert(self.c1.value * 0 == 0);
    }

    proof fn mul_distributes(self, b: Self, c: Self) {
        let p = ORDER as int;
        let w = EXTENSION_NON_RESIDUE as int;
        let (a0, a1) = (self.c0.value as int, self.c1.value as int);
        let (b0, b1) = (b.c0.value as int, b.c1.value as int);
        let (c0, c1) = (c.c0.value as int, c.c1.value as int);
        crate::modular::lemma_mod_weighted_sum(b0 + c0, a0, w, b1 + c1, a1, p);
        crate::modular::lemma_mod_weighted_sum(b1 + c1, a0, 1, b0 + c0, a1, p);
        vstd::arithmetic::div_mod::lemma_add_mod_noop(
            a0 * b0 + w * (a1 * b1),
            a0 * c0 + w * (a1 * c1),
            p,
        );
        vstd::arithmetic::div_mod::lemma_add_mod_noop(
            a0 * b1 + a1 * b0,
            a0 * c1 + a1 * c0,
            p,
        );
        assert((b0 + c0) * a0 + w * ((b1 + c1) * a1) == (a0 * b0 + w * (a1 * b1)) + (a0 * c0 + w * (
        a1 * c1))) by (nonlinear_arith);
        assert((b1 + c1) * a0 + 1 * ((b0 + c0) * a1) == (a0 * b1 + a1 * b0) + (a0 * c1 + a1 * c0))
            by (nonlinear_arith);
        let (s0, s1) = ((b0 + c0) % p, (b1 + c1) % p);
        assert(a0 * s0 == s0 * a0) by (nonlinear_arith);
        assert(a1 * s1 == s1 * a1) by (nonlinear_arith);
        assert(a0 * s1 == s1 * a0) by (nonlinear_arith);
        assert(a1 * s0 == s0 * a1) by (nonlinear_arith);
    }

    proof fn half_doubles() {
    }

    proof fn nat_is_injective(a: nat, b: nat) {
    }

    fn canonical(self) -> (r: Self) {
        let c0 = self.c0.canonical();
        let c1 = self.c1.canonical();
        GoldilocksExt2 { c0, c1 }
    }

    fn zero() -> (r: Self) {
        GoldilocksExt2 { c0: Goldilocks::zero(), c1: Goldilocks::zero() }
    }

    fn one() -> (r: Self) {
        GoldilocksExt2 { c0: Goldilocks::one(), c1: Goldilocks::zero() }
    }

    fn plus(self, other: Self) -> (r: Self) {
        GoldilocksExt2 { c0: self.c0.plus(other.c0), c1: self.c1.plus(other.c1) }
    }

    fn times(self, other: Self) -> (r: Self) {
        let (r0, r1) = extension_product(
            self.c0.value,
            self.c1.value,
            other.c0.value,
            other.c1.value,
        );
        GoldilocksExt2 { c0: Goldilocks { value: r0 }, c1: Goldilocks { value: r1 } }
    }

    fn from_u64(n: u64) -> (r: Self) {
        GoldilocksExt2 { c0: Goldilocks::new(n), c1: Goldilocks::zero() }
    }

    fn same(self, other: Self) -> (r: bool) {
        self == other
    }
}

/// The operations of the extension are those of polynomials of degree one
/// modulo `X^2 - 7`.
pub proof fn extension_operations(a: GoldilocksExt2, b: GoldilocksExt2, n: nat, x: Goldilocks)
    ensures
        ({
            let (a0, a1) = a.coefficients();
            let (b0, b1) = b.coefficients();
            let w = Goldilocks::nat_spec(EXTENSION_NON_RESIDUE as nat);
            let (zero, one) = (Goldilocks::zero_spec(), Goldilocks::one_spec());
            &&& GoldilocksExt2::zero_spec().coefficients() == (zero, zero)
            &&& GoldilocksExt2::one_spec().coefficients() == (one, zero)
            &&& a.add_spec(b).coefficients() == (a0.add_spec(b0), a1.add_spec(b1))
            &&& a.sub_spec(b).coefficients() == (a0.sub_spec(b0), a1.sub_spec(b1))
            &&& a.mul_spec(b).coefficients() == (
                a0.mul_spec(b0).add_spec(w.mul_spec(a1.mul_spec(b1))),
                a0.mul_spec(b1).add_spec(a1.mul_spec(b0)),
            )
            &&& GoldilocksExt2::nat_spec(n).coefficients() == (Goldilocks::nat_spec(n), zero)
            &&& GoldilocksExt2::embed(x).coefficients() == (x, zero)
            &&& a.valid() <==> a0.valid() && a1.valid()
            &&& a == b <==> a.coefficients() == b.coefficients()
        }),
{
    let p = ORDER as int;
    let w = EXTENSION_NON_RESIDUE as int;
    let (a0, a1) = (a.c0.value as int, a.c1.value as int);
    let (b0, b1) = (b.c0.value as int, b.c1.value as int);
    vstd::arithmetic::div_mod::lemma_mul_mod_noop_right(w, a1 * b1, p);
    vstd::arithmetic::div_mod::lemma_add_mod_noop(a0 * b0, w * (a1 * b1), p);
    vstd::arithmetic::div_mod::lemma_add_mod_noop(a0 * b1, a1 * b0, p);
}

impl ExtensionField<Goldilocks> for GoldilocksExt2 {
    closed spec fn embed(x: Goldilocks) -> Self {
        GoldilocksExt2 { c0: x, c1: Goldilocks::of_int(0) }
    }

    proof fn embed_is_homomorphism(a: Goldilocks, b: Goldilocks) {
        assert(a.value * 0 == 0);
        assert(b.value * 0 == 0);
    }

    proof fn embed_is_injective(a: Goldilocks, b: Goldilocks) {
    }

    fn from_base(x: Goldilocks) -> (r: Self) {
        GoldilocksExt2 { c0: x, c1: Goldilocks::zero() }
    }

    fn dft_algebra(coeffs: &Vec<Self>, log_len: usize) -> (r: Vec<Self>) {
        extension_dft(coeffs, log_len)
    }

    fn idft_algebra(values: &Vec<Self>, log_len: usize) -> (r: Vec<Self>) {
        extension_idft(values, log_len)
    }

    fn expand_from_univariate(y: Self, num_variables: usize) -> (r: Vec<Self>) {
        extension_powers(y, num_variables)
    }

    fn eq_weights(point: &Vec<Self>) -> (r: Vec<Self>) {
        extension_eq_table(point)
    }
}

/// `dft_algebra` of `p3_dft::TwoAdicSubgroupDft`, computed by
/// `p3_dft::Radix2Dit`: the values of a polynomial over the extension on the
/// base-field subgroup of the given order, in the order of the powers of its
/// generator.
#[verifier::external_body]
fn extension_dft(coeffs: &Vec<GoldilocksExt2>, log_len: usize) -> (r: Vec<GoldilocksExt2>)
    requires
        log_len <= TWO_ADICITY,
        coeffs@.len() == pow2(log_len as nat),
    ensures
        r@ == evaluations(
            coeffs@,
            GoldilocksExt2::embed(Goldilocks::root(log_len as nat)),
            pow2(log_len as nat),
        ),
{
    let input: Vec<BinomialExtensionField<p3_goldilocks::Goldilocks, 2>> = coeffs.iter().map(
        |x| [x.c0.value, x.c1.value].map(p3_goldilocks::Goldilocks::new),
    ).map(BinomialExtensionField::new).collect();
    let output = p3_dft::Radix2Dit::<p3_goldilocks::Goldilocks>::default().dft_algebra(input);
    output.iter().map(|x| x.as_basis_coefficients_slice()).map(
        |c: &[p3_goldilocks::Goldilocks]| GoldilocksExt2 {
            c0: Goldilocks { value: c[0].as_canonical_u64() },
            c1: Goldilocks { value: c[1].as_canonical_u64() },
        },
    ).collect()
}

/// `idft_algebra` of `p3_dft::TwoAdicSubgroupDft`, computed by
/// `p3_dft::Radix2Dit`: the coefficients of the polynomial over the extension
/// with the given values on the base-field subgroup.
#[verifier::external_body]
fn extension_idft(values: &Vec<GoldilocksExt2>, log_len: usize) -> (r: Vec<GoldilocksExt2>)
    requires
        log_len <= TWO_ADICITY,
        values@.len() == pow2(log_len as nat),
    ensures
        r@.len() == values@.len(),
        all_valid(r@),
        evaluations(
            r@,
            GoldilocksExt2::embed(Goldilocks::root(log_len as nat)),
            pow2(log_len as nat),
        ) == values@,
{
    let input: Vec<BinomialExtensionField<p3_goldilocks::Goldilocks, 2>> = values.iter().map(
        |x| [x.c0.value, x.c1.value].map(p3_goldilocks::Goldilocks::new),
    ).map(BinomialExtensionField::new).collect();
    let output = p3_dft::Radix2Dit::<p3_goldilocks::Goldilocks>::default().idft_algebra(input);
    output.iter().map(|x| x.as_basis_coefficients_slice()).map(
        |c: &[p3_goldilocks::Goldilocks]| GoldilocksExt2 {
            c0: Goldilocks { value: c[0].as_canonical_u64() },
            c1: Goldilocks { value: c[1].as_canonical_u64() },
        },
    ).collect()
}

/// `expand_from_univariate` of `p3_multilinear_util::point::Point`: the
/// repeated squares of an element, the largest power first.
#[verifier::external_body]
fn extension_powers(y: GoldilocksExt2, num_variables: usize) -> (r: Vec<GoldilocksExt2>)
    requires
        num_variables * MAX_ELEMENT_BYTES <= isize::MAX,
    ensures
        r@ == expanded_point(y, num_variables as nat),
{
    let y: BinomialExtensionField<p3_goldilocks::Goldilocks, 2> = BinomialExtensionField::new(
        [p3_goldilocks::Goldilocks::new(y.c0.value), p3_goldilocks::Goldilocks::new(y.c1.value)],
    );
    let output = p3_multilinear_util::point::Point::expand_from_univariate(y, num_variables);
    output.iter().map(|x| x.as_basis_coefficients_slice()).map(
        |c: &[p3_goldilocks::Goldilocks]| GoldilocksExt2 {
            c0: Goldilocks { value: c[0].as_canonical_u64() },
            c1: Goldilocks { value: c[1].as_canonical_u64() },
        },
    ).collect()
}

/// `new_from_point` of `p3_multilinear_util::poly::Poly` with scale one: the
/// values of `eq(point, b)` on the hypercube.
#[verifier::external_body]
fn extension_eq_table(point: &Vec<GoldilocksExt2>) -> (r: Vec<GoldilocksExt2>)
    requires
        addressable(point@.len()),
    ensures
        r@ == eq_table(point@),
{
    let input: Vec<BinomialExtensionField<p3_goldilocks::Goldilocks, 2>> = point.iter().map(
        |x| [x.c0.value, x.c1.value].map(p3_goldilocks::Goldilocks::new),
    ).map(BinomialExtensionField::new).collect();
    let one = PrimeCharacteristicRing::ONE;
    let output = p3_multilinear_util::poly::Poly::new_from_point(&input, one);
    output.iter().map(|x| x.as_basis_coefficients_slice()).map(
        |c: &[p3_goldilocks::Goldilocks]| GoldilocksExt2 {
            c0: Goldilocks { value: c[0].as_canonical_u64() },
            c1: Goldilocks { value: c[1].as_canonical_u64() },
        },
    ).collect()
}

} // verus!
