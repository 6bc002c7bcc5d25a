//! The Reed-Solomon code shared by the accumulation scheme and the opening
//! proof.
//!
//! A message of length `2^k` is a polynomial of degree below `2^k`, and its
//! codeword is the table of the values of that polynomial on the subgroup of
//! order `2^(k + r)`, in the order of the powers of the generator. In the
//! coefficient layout the message holds the coefficients of the polynomial; in
//! the systematic layout it holds the values on the subgroup of order `2^k`.

use crate::algebra::{
    generator_chain, interpolant, interpolates, lemma_interpolant, lemma_padding_keeps_values,
    lemma_poly_eval_valid, lemma_subgroup_values,
};
use crate::field::{
    addressable, all_valid, evaluations, poly_eval, power, zero_padded, ExtensionField, Field,
    TwoAdicField, MAX_ELEMENT_BYTES,
};
use crate::multilinear::{lifted, lifted_evaluation, mle, strided};
use core::marker::PhantomData;
use vstd::arithmetic::power2::{
    lemma_pow2_adds, lemma_pow2_pos, lemma_pow2_strictly_increases, lemma_pow2_unfold, pow2,
};
use vstd::prelude::*;

verus! {

/// The generators of the subgroups of a field.
pub open spec fn base_generators<F: TwoAdicField>() -> spec_fn(nat) -> F {
    |b: nat| F::root(b)
}

/// The generators of the subgroups of a base field, as elements of the
/// extension.
pub open spec fn extension_generators<F: TwoAdicField, EF: ExtensionField<F>>() -> spec_fn(
    nat,
) -> EF {
    |b: nat| EF::embed(F::root(b))
}

pub proof fn lemma_base_chain<F: TwoAdicField>()
    ensures
        generator_chain(base_generators::<F>(), F::two_adicity()),
{
    let g = base_generators::<F>();
    F::small_roots();
    assert forall|b: nat| b <= F::two_adicity() implies (#[trigger] g(b)).valid() by {
        F::root_is_valid(b);
    }
    assert forall|b: nat| b < F::two_adicity() implies #[trigger] g(b + 1).mul_spec(g(b + 1)) == g(
        b,
    ) by {
        F::root_squares(b);
    }
}

pub proof fn lemma_extension_chain<F: TwoAdicField, EF: ExtensionField<F>>()
    ensures
        generator_chain(extension_generators::<F, EF>(), F::two_adicity()),
{
    let g = extension_generators::<F, EF>();
    F::small_roots();
    EF::embed_is_homomorphism(F::root(1), F::one_spec());
    assert forall|b: nat| b <= F::two_adicity() implies (#[trigger] g(b)).valid() by {
        F::root_is_valid(b);
        EF::embed_is_homomorphism(F::root(b), F::root(b));
    }
    assert forall|b: nat| b < F::two_adicity() implies #[trigger] g(b + 1).mul_spec(g(b + 1)) == g(
        b,
    ) by {
        F::root_squares(b);
        EF::embed_is_homomorphism(F::root(b + 1), F::root(b + 1));
    }
}

/// The dimensions and the layout of a code.
#[derive(Clone, Copy, Debug, PartialEq, Eq, Structural)]
pub struct CodeShape {
    /// Binary logarithm of the message length.
    pub log_msg_len: usize,
    /// Binary logarithm of the inverse rate.
    pub log_inv_rate: usize,
    /// Messages hold values rather than coefficients.
    pub systematic: bool,
}

impl CodeShape {
    /// Message length.
    pub open spec fn msg_len(self) -> nat {
        pow2(self.log_msg_len as nat)
    }

    /// Binary logarithm of the codeword length.
    pub open spec fn log_codeword_len(self) -> nat {
        (self.log_msg_len + self.log_inv_rate) as nat
    }

    /// Codeword length.
    pub open spec fn codeword_len(self) -> nat {
        pow2(self.log_codeword_len())
    }

    /// The coefficients of the polynomial that a message stands for, where
    /// `g` generates the subgroups.
    pub open spec fn polynomial<F: Field>(self, g: spec_fn(nat) -> F, message: Seq<F>) -> Seq<F> {
        if self.systematic {
            interpolant(message, g(self.log_msg_len as nat))
        } else {
            message
        }
    }

    /// The codeword of a message, where `g` generates the subgroups.
    pub open spec fn encoding<F: Field>(self, g: spec_fn(nat) -> F, message: Seq<F>) -> Seq<F> {
        evaluations(
            self.polynomial(g, message),
            g(self.log_codeword_len()),
            self.codeword_len(),
        )
    }

    /// The message that is read off a table of the length of a codeword, where
    /// `g` generates the subgroups.
    pub open spec fn decoding<F: Field>(self, g: spec_fn(nat) -> F, codeword: Seq<F>) -> Seq<F> {
        if self.systematic {
            strided(codeword, pow2(self.log_inv_rate as nat), self.msg_len())
        } else {
            interpolant(codeword, g(self.log_codeword_len())).take(self.msg_len() as int)
        }
    }

    /// The table is the codeword of some message.
    pub open spec fn is_codeword<F: Field>(self, g: spec_fn(nat) -> F, table: Seq<F>) -> bool {
        exists|m: Seq<F>|
            m.len() == self.msg_len() && all_valid(m) && #[trigger] self.encoding(g, m) == table
    }

    /// The field has the subgroups that the code needs, and codewords fit in
    /// memory.
    pub open spec fn supported<F: TwoAdicField>(self) -> bool {
        &&& self.log_codeword_len() <= F::two_adicity()
        &&& addressable(self.log_codeword_len())
    }
}

/// Reading the message off a codeword gives the encoded message back.
pub proof fn decoding_inverts_encoding<F: Field>(
    shape: CodeShape,
    g: spec_fn(nat) -> F,
    top: nat,
    message: Seq<F>,
)
    requires
        generator_chain(g, top),
        shape.log_codeword_len() <= top,
        message.len() == shape.msg_len(),
        all_valid(message),
    ensures
        shape.decoding(g, shape.encoding(g, message)) == message,
{
    let (k, r, n) = (
        shape.log_msg_len as nat,
        shape.log_inv_rate as nat,
        shape.log_codeword_len(),
    );
    let codeword = shape.encoding(g, message);
    if shape.systematic {
        lemma_interpolant(g, top, k, message, message);
        let c = interpolant(message, g(k));
        lemma_subgroup_values(g, top, k, r, c);
        assert forall|i: int| 0 <= i < pow2(k) implies #[trigger] shape.decoding(g, codeword)[i]
            == message[i] by {
            assert(evaluations(c, g(k), pow2(k))[i] == codeword[i * pow2(r)]);
        }
        assert(shape.decoding(g, codeword) =~= message);
    } else {
        lemma_pow2_adds(k, r);
        lemma_pow2_pos(r);
        lemma_pow2_at_least(k, r);
        let padded = zero_padded(message, pow2(n));
        let zero = F::zero_spec();
        zero.valid_results(zero, 0);
        assert(all_valid(padded));
        assert forall|i: int| 0 <= i < pow2(n) implies #[trigger] evaluations(
            padded,
            g(n),
            pow2(n),
        )[i] == codeword[i] by {
            lemma_padding_keeps_values(message, pow2(n), power(g(n), i as nat));
        }
        assert(evaluations(padded, g(n), pow2(n)) =~= codeword);
        assert(interpolates(padded, codeword, g(n)));
        lemma_interpolant(g, top, n, codeword, padded);
        assert(padded.take(shape.msg_len() as int) =~= message);
    }
}

/// Different messages have different codewords.
pub proof fn encoding_is_injective<F: Field>(
    shape: CodeShape,
    g: spec_fn(nat) -> F,
    top: nat,
    a: Seq<F>,
    b: Seq<F>,
)
    requires
        generator_chain(g, top),
        shape.log_codeword_len() <= top,
        a.len() == shape.msg_len(),
        b.len() == shape.msg_len(),
        all_valid(a),
        all_valid(b),
        shape.encoding(g, a) == shape.encoding(g, b),
    ensures
        a == b,
{
    decoding_inverts_encoding(shape, g, top, a);
    decoding_inverts_encoding(shape, g, top, b);
}

/// A table is a codeword exactly when encoding the message read off it gives
/// the table back.
pub proof fn codewords_are_fixed_by_reencoding<F: Field>(
    shape: CodeShape,
    g: spec_fn(nat) -> F,
    top: nat,
    table: Seq<F>,
)
    requires
        generator_chain(g, top),
        shape.log_codeword_len() <= top,
        table.len() == shape.codeword_len(),
    ensures
        shape.is_codeword(g, table) <==> shape.encoding(g, shape.decoding(g, table)) == table,
{
    if shape.is_codeword(g, table) {
        let m = choose|m: Seq<F>|
            m.len() == shape.msg_len() && all_valid(m) && #[trigger] shape.encoding(g, m) == table;
        decoding_inverts_encoding(shape, g, top, m);
    }
    if shape.encoding(g, shape.decoding(g, table)) == table {
        lemma_encoding_valid(shape, g, shape.decoding(g, table));
        lemma_decoding_shape(shape, g, top, table);
        assert(shape.is_codeword(g, table));
    }
}

/// What is read off a table has the length of a message and canonical
/// elements.
pub proof fn lemma_decoding_shape<F: Field>(
    shape: CodeShape,
    g: spec_fn(nat) -> F,
    top: nat,
    table: Seq<F>,
)
    requires
        generator_chain(g, top),
        shape.log_codeword_len() <= top,
        table.len() == shape.codeword_len(),
        all_valid(table),
    ensures
        shape.decoding(g, table).len() == shape.msg_len(),
        all_valid(shape.decoding(g, table)),
{
    let (k, r, n) = (
        shape.log_msg_len as nat,
        shape.log_inv_rate as nat,
        shape.log_codeword_len(),
    );
    lemma_pow2_adds(k, r);
    lemma_pow2_pos(r);
    lemma_pow2_at_least(k, r);
    if shape.systematic {
        let d = shape.decoding(g, table);
        assert forall|i: int| 0 <= i < d.len() implies (#[trigger] d[i]).valid() by {
            let (step, len) = (pow2(r) as int, pow2(k) as int);
            assert(0 <= i * step < len * step) by (nonlinear_arith)
                requires
                    0 <= i < len,
                    step > 0,
            ;
        }
    } else {
        lemma_interpolant(g, top, n, table, table);
    }
}

pub proof fn lemma_encoding_valid<F: Field>(
    shape: CodeShape,
    g: spec_fn(nat) -> F,
    message: Seq<F>,
)
    ensures
        all_valid(shape.encoding(g, message)),
{
    let codeword = shape.encoding(g, message);
    assert forall|i: int| 0 <= i < codeword.len() implies (#[trigger] codeword[i]).valid() by {
        lemma_poly_eval_valid(
            shape.polynomial(g, message),
            power(g(shape.log_codeword_len()), i as nat),
        );
    }
}

/// In the systematic layout the message stands at the multiples of the inverse
/// rate, and the value of its multilinear extension at `y` is the value of that
/// of the codeword at `(y, 0, ..., 0)`.
pub proof fn systematic_evaluation<F: Field>(
    shape: CodeShape,
    g: spec_fn(nat) -> F,
    top: nat,
    message: Seq<F>,
    y: Seq<F>,
)
    requires
        generator_chain(g, top),
        shape.log_codeword_len() <= top,
        shape.systematic,
        message.len() == shape.msg_len(),
        all_valid(message),
        y.len() == shape.log_msg_len,
    ensures
        strided(shape.encoding(g, message), pow2(shape.log_inv_rate as nat), shape.msg_len())
            == message,
        mle(shape.encoding(g, message), lifted(y, shape.log_inv_rate as nat)) == mle(message, y),
{
    decoding_inverts_encoding(shape, g, top, message);
    let codeword = shape.encoding(g, message);
    lemma_encoding_valid(shape, g, message);
    lifted_evaluation(codeword, y, shape.log_inv_rate as nat);
}

pub proof fn lemma_pow2_at_least(k: nat, r: nat)
    ensures
        pow2(k) <= pow2(k + r),
{
    if r > 0 {
        lemma_pow2_strictly_increases(k, k + r);
    }
}

/// Every element of a table, embedded in the extension.
pub open spec fn embedded<F: TwoAdicField, EF: ExtensionField<F>>(s: Seq<F>) -> Seq<EF> {
    Seq::new(s.len(), |i: int| EF::embed(s[i]))
}

proof fn lemma_embedded_power<F: TwoAdicField, EF: ExtensionField<F>>(x: F, n: nat)
    ensures
        EF::embed(power(x, n)) == power(EF::embed(x), n),
    decreases n,
{
    EF::embed_is_homomorphism(x, x);
    if n > 0 {
        lemma_embedded_power::<F, EF>(x, (n - 1) as nat);
        EF::embed_is_homomorphism(power(x, (n - 1) as nat), x);
    }
}

proof fn lemma_embedded_value<F: TwoAdicField, EF: ExtensionField<F>>(c: Seq<F>, x: F)
    ensures
        EF::embed(poly_eval(c, x)) == poly_eval(embedded::<F, EF>(c), EF::embed(x)),
    decreases c.len(),
{
    EF::embed_is_homomorphism(x, x);
    if c.len() > 0 {
        lemma_embedded_value::<F, EF>(c.drop_last(), x);
        assert(embedded::<F, EF>(c).drop_last() =~= embedded::<F, EF>(c.drop_last()));
        let p = power(x, (c.len() - 1) as nat);
        lemma_embedded_power::<F, EF>(x, (c.len() - 1) as nat);
        EF::embed_is_homomorphism(c.last(), p);
        EF::embed_is_homomorphism(poly_eval(c.drop_last(), x), c.last().mul_spec(p));
    }
}

proof fn lemma_embedded_evaluations<F: TwoAdicField, EF: ExtensionField<F>>(
    c: Seq<F>,
    w: F,
    n: nat,
)
    ensures
        embedded::<F, EF>(evaluations(c, w, n)) == evaluations(
            embedded::<F, EF>(c),
            EF::embed(w),
            n,
        ),
{
    assert forall|i: int| 0 <= i < n implies #[trigger] embedded::<F, EF>(evaluations(c, w, n))[i]
        == evaluations(embedded::<F, EF>(c), EF::embed(w), n)[i] by {
        lemma_embedded_power::<F, EF>(w, i as nat);
        lemma_embedded_value::<F, EF>(c, power(w, i as nat));
    }
    assert(embedded::<F, EF>(evaluations(c, w, n)) =~= evaluations(
        embedded::<F, EF>(c),
        EF::embed(w),
        n,
    ));
}

/// There is one code: encoding a base-field message and then embedding the
/// codeword in the extension is the same as embedding the message and encoding
/// it over the extension.
pub proof fn encoding_commutes_with_embedding<F: TwoAdicField, EF: ExtensionField<F>>(
    shape: CodeShape,
    message: Seq<F>,
)
    requires
        shape.log_codeword_len() <= F::two_adicity(),
        message.len() == shape.msg_len(),
        all_valid(message),
    ensures
        embedded::<F, EF>(shape.encoding(base_generators::<F>(), message)) == shape.encoding(
            extension_generators::<F, EF>(),
            embedded::<F, EF>(message),
        ),
{
    let (g, h) = (base_generators::<F>(), extension_generators::<F, EF>());
    let k = shape.log_msg_len as nat;
    lemma_base_chain::<F>();
    lemma_extension_chain::<F, EF>();
    let c = shape.polynomial(g, message);
    if shape.systematic {
        lemma_interpolant(g, F::two_adicity(), k, message, message);
        lemma_embedded_evaluations::<F, EF>(c, g(k), pow2(k));
        let ec = embedded::<F, EF>(c);
        assert forall|i: int| 0 <= i < ec.len() implies (#[trigger] ec[i]).valid() by {
            EF::embed_is_homomorphism(c[i], c[i]);
        }
        assert(interpolates(ec, embedded::<F, EF>(message), h(k)));
        lemma_interpolant(h, F::two_adicity(), k, embedded::<F, EF>(message), ec);
    }
    lemma_embedded_evaluations::<F, EF>(c, g(shape.log_codeword_len()), shape.codeword_len());
}

/// `2^n`, for a table length.
pub(crate) fn power_of_two(n: usize) -> (r: usize)
    requires
        addressable(n as nat),
    ensures
        r == pow2(n as nat),
{
    let mut r: usize = 1;
    let mut i: usize = 0;
    proof {
        vstd::arithmetic::power2::lemma2_to64();
    }
    while i < n
        invariant
            i <= n,
            r == pow2(i as nat),
            addressable(n as nat),
        decreases n - i,
    {
        proof {
            lemma_pow2_unfold((i + 1) as nat);
            lemma_pow2_at_least((i + 1) as nat, (n - i - 1) as nat);
        }
        r = r + r;
        i = i + 1;
    }
    r
}

/// A Reed-Solomon code over the subgroups of `F`.
#[derive(Debug)]
pub struct ReedSolomonCode<F: TwoAdicField> {
    shape: CodeShape,
    field: PhantomData<F>,
}

impl<F: TwoAdicField> ReedSolomonCode<F> {
    /// The dimensions and the layout of the code.
    pub closed spec fn shape(self) -> CodeShape {
        self.shape
    }

    #[verifier::type_invariant]
    spec fn well_formed(self) -> bool {
        self.shape.supported::<F>()
    }

    /// A code with messages of length `2^log_msg_len` and codewords of length
    /// `2^(log_msg_len + log_inv_rate)`.
    pub fn new(log_msg_len: usize, log_inv_rate: usize, systematic: bool) -> (r: Self)
        requires
            (CodeShape { log_msg_len, log_inv_rate, systematic }).supported::<F>(),
        ensures
            r.shape() == (CodeShape { log_msg_len, log_inv_rate, systematic }),
    {
        ReedSolomonCode {
            shape: CodeShape { log_msg_len, log_inv_rate, systematic },
            field: PhantomData,
        }
    }

    /// Binary logarithm of the message length.
    pub fn log_msg_len(&self) -> (r: usize)
        ensures
            r == self.shape().log_msg_len,
    {
        self.shape.log_msg_len
    }

    /// Binary logarithm of the inverse rate.
    pub fn log_inv_rate(&self) -> (r: usize)
        ensures
            r == self.shape().log_inv_rate,
    {
        self.shape.log_inv_rate
    }

    /// Messages hold values rather than coefficients.
    pub fn is_systematic(&self) -> (r: bool)
        ensures
            r == self.shape().systematic,
    {
        self.shape.systematic
    }

    /// Binary logarithm of the codeword length.
    pub fn log_codeword_len(&self) -> (r: usize)
        ensures
            r == self.shape().log_codeword_len(),
            self.shape().supported::<F>(),
    {
        proof {
            use_type_invariant(self);
            lemma_log_bound(self.shape.log_codeword_len());
        }
        self.shape.log_msg_len + self.shape.log_inv_rate
    }

    /// Message length.
    pub fn msg_len(&self) -> (r: usize)
        ensures
            r == self.shape().msg_len(),
            self.shape().supported::<F>(),
    {
        proof {
            use_type_invariant(self);
            lemma_pow2_at_least(self.shape.log_msg_len as nat, self.shape.log_inv_rate as nat);
        }
        power_of_two(self.shape.log_msg_len)
    }

    /// Codeword length.
    pub fn codeword_len(&self) -> (r: usize)
        ensures
            r == self.shape().codeword_len(),
            self.shape().supported::<F>(),
    {
        let n: usize = self.log_codeword_len();
        power_of_two(n)
    }

    /// The codeword of a base-field message.
    pub fn encode(&self, message: &Vec<F>) -> (r: Vec<F>)
        requires
            message@.len() == self.shape().msg_len(),
        ensures
            r@ == self.shape().encoding(base_generators::<F>(), message@),
    {
        let n: usize = self.log_codeword_len();
        let len: usize = self.codeword_len();
        let ghost g = base_generators::<F>();
        let k: usize = self.shape.log_msg_len;
        proof {
            lemma_base_chain::<F>();
            lemma_pow2_at_least(k as nat, self.shape.log_inv_rate as nat);
        }
        let mut coeffs: Vec<F> = Vec::new();
        if self.shape.systematic {
            coeffs = F::idft(message, k);
            proof {
                assert(interpolates(coeffs@, message@, g(k as nat)));
                lemma_interpolant(g, F::two_adicity(), k as nat, message@, coeffs@);
            }
        } else {
            append_all(&mut coeffs, message);
            assert(coeffs@ =~= message@);
        }
        let ghost c = coeffs@;
        pad_with_zeros(&mut coeffs, len);
        let r = F::dft(&coeffs, n);
        proof {
            assert forall|i: int| 0 <= i < len implies #[trigger] r@[i] == evaluations(
                c,
                g(n as nat),
                len as nat,
            )[i] by {
                lemma_padding_keeps_values(c, len as nat, power(g(n as nat), i as nat));
            }
            assert(r@ =~= evaluations(c, g(n as nat), len as nat));
        }
        r
    }

    /// The codeword of a message over the extension.
    pub fn encode_algebra<EF: ExtensionField<F>>(&self, message: &Vec<EF>) -> (r: Vec<EF>)
        requires
            message@.len() == self.shape().msg_len(),
        ensures
            r@ == self.shape().encoding(extension_generators::<F, EF>(), message@),
    {
        let n: usize = self.log_codeword_len();
        let len: usize = self.codeword_len();
        let ghost g = extension_generators::<F, EF>();
        let k: usize = self.shape.log_msg_len;
        proof {
            lemma_extension_chain::<F, EF>();
            lemma_pow2_at_least(k as nat, self.shape.log_inv_rate as nat);
        }
        let mut coeffs: Vec<EF> = Vec::new();
        if self.shape.systematic {
            coeffs = EF::idft_algebra(message, k);
            proof {
                assert(interpolates(coeffs@, message@, g(k as nat)));
                lemma_interpolant(g, F::two_adicity(), k as nat, message@, coeffs@);
            }
        } else {
            append_all(&mut coeffs, message);
            assert(coeffs@ =~= message@);
        }
        let ghost c = coeffs@;
        pad_with_zeros(&mut coeffs, len);
        let r = EF::dft_algebra(&coeffs, n);
        proof {
            assert forall|i: int| 0 <= i < len implies #[trigger] r@[i] == evaluations(
                c,
                g(n as nat),
                len as nat,
            )[i] by {
                lemma_padding_keeps_values(c, len as nat, power(g(n as nat), i as nat));
            }
            assert(r@ =~= evaluations(c, g(n as nat), len as nat));
        }
        r
    }

    /// The message read off a table of the length of a codeword.
    pub fn message_from_codeword<EF: ExtensionField<F>>(&self, codeword: &Vec<EF>) -> (r: Vec<EF>)
        requires
            codeword@.len() == self.shape().codeword_len(),
        ensures
            r@ == self.shape().decoding(extension_generators::<F, EF>(), codeword@),
            r@.len() == self.shape().msg_len(),
    {
        let n: usize = self.log_codeword_len();
        let len: usize = self.codeword_len();
        let msg_len: usize = self.msg_len();
        let ghost g = extension_generators::<F, EF>();
        let ghost (k, rate) = (self.shape.log_msg_len as nat, self.shape.log_inv_rate as nat);
        proof {
            lemma_extension_chain::<F, EF>();
            lemma_pow2_at_least(k, rate);
            lemma_pow2_pos(rate);
            lemma_pow2_adds(k, rate);
        }
        let mut message: Vec<EF> = Vec::new();
        if self.shape.systematic {
            proof {
                lemma_pow2_at_least(rate, k);
            }
            let step: usize = power_of_two(self.shape.log_inv_rate);
            let mut i: usize = 0;
            let mut at: usize = 0;
            while i < msg_len
                invariant
                    i <= msg_len,
                    at == i * step,
                    step == pow2(rate),
                    msg_len == pow2(k),
                    step > 0,
                    codeword@.len() == len,
                    len == msg_len * step,
                    message@ == strided(codeword@, step as nat, i as nat),
                decreases msg_len - i,
            {
                proof {
                    assert(i * step + step <= msg_len * step) by (nonlinear_arith)
                        requires
                            i < msg_len,
                            step > 0,
                    ;
                    assert((i + 1) * step == i * step + step) by (nonlinear_arith);
                }
                message.push(codeword[at]);
                at = at + step;
                i = i + 1;
                assert(message@ =~= strided(codeword@, step as nat, i as nat));
            }
        } else {
            let coeffs = EF::idft_algebra(codeword, n);
            proof {
                assert(interpolates(coeffs@, codeword@, g(n as nat)));
                lemma_interpolant(g, F::two_adicity(), n as nat, codeword@, coeffs@);
            }
            message = coeffs;
            message.truncate(msg_len);
            assert(message@ =~= coeffs@.take(msg_len as int));
        }
        message
    }

    /// The codeword point `(y, 0, ..., 0)` that stands for the message point
    /// `y` in the systematic layout.
    pub fn systematic_message_point<EF: ExtensionField<F>>(&self, message_point: &Vec<EF>) -> (r:
        Vec<EF>)
        requires
            self.shape().systematic,
            message_point@.len() == self.shape().log_msg_len,
        ensures
            r@ == lifted(message_point@, self.shape().log_inv_rate as nat),
    {
        let n: usize = self.log_codeword_len();
        let mut point: Vec<EF> = Vec::new();
        append_all(&mut point, message_point);
        pad_with_zeros(&mut point, n);
        assert(point@ =~= lifted(message_point@, self.shape().log_inv_rate as nat));
        point
    }
}

proof fn lemma_log_bound(n: nat)
    requires
        addressable(n),
    ensures
        n * MAX_ELEMENT_BYTES <= isize::MAX,
{
    lemma_pow2_exceeds(n);
    assert(n * 64 <= pow2(n) * 64);
}

pub proof fn lemma_pow2_exceeds(n: nat)
    ensures
        n < pow2(n),
    decreases n,
{
    vstd::arithmetic::power2::lemma2_to64();
    if n > 0 {
        lemma_pow2_exceeds((n - 1) as nat);
        lemma_pow2_unfold(n);
    }
}

/// Appends the elements of `tail`.
pub(crate) fn append_all<T: Copy>(v: &mut Vec<T>, tail: &Vec<T>)
    ensures
        final(v)@ == old(v)@ + tail@,
{
    let mut i: usize = 0;
    while i < tail.len()
        invariant
            i <= tail@.len(),
            v@ == old(v)@ + tail@.take(i as int),
        decreases tail@.len() - i,
    {
        v.push(tail[i]);
        i = i + 1;
        assert(v@ =~= old(v)@ + tail@.take(i as int));
    }
    assert(tail@.take(tail@.len() as int) =~= tail@);
}

/// Appends zeros up to length `n`.
fn pad_with_zeros<T: Field>(v: &mut Vec<T>, n: usize)
    requires
        old(v)@.len() <= n,
    ensures
        final(v)@ == zero_padded(old(v)@, n as nat),
{
    while v.len() < n
        invariant
            old(v)@.len() <= v@.len() <= n,
            v@ == zero_padded(old(v)@, v@.len()),
        decreases n - v@.len(),
    {
        let ghost before = v@;
        v.push(T::zero());
        assert(v@ =~= zero_padded(old(v)@, v@.len()));
    }
    assert(v@.len() == n);
}

} // verus!
