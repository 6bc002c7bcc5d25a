//! What encoding and decoding give.

use crate::algebra::{generator_chain, interpolant, lemma_interpolant};
use crate::code::{
    base_generators, decoding_inverts_encoding, extension_generators, lemma_base_chain,
    lemma_extension_chain, CodeShape, ReedSolomonCode,
};
use crate::field::{all_valid, evaluations, poly_eval, power, ExtensionField, Field, TwoAdicField};
use vstd::arithmetic::power2::pow2;
use vstd::prelude::*;

verus! {

/// Powers are repeated products.
pub proof fn powers_are_repeated_products<T: Field>(x: T, n: nat)
    ensures
        power(x, 0) == T::one_spec(),
        power(x, n + 1) == power(x, n).mul_spec(x),
{
}

/// The value of a polynomial is the sum of its terms.
pub proof fn polynomials_are_sums_of_terms<T: Field>(coeffs: Seq<T>, last: T, x: T)
    ensures
        poly_eval(Seq::<T>::empty(), x) == T::zero_spec(),
        poly_eval(coeffs.push(last), x) == poly_eval(coeffs, x).add_spec(
            last.mul_spec(power(x, coeffs.len())),
        ),
{
    assert(coeffs.push(last).drop_last() =~= coeffs);
}

/// The table holds the values of the polynomial at the powers of `w`, in order.
pub open spec fn is_table_of<T: Field>(coeffs: Seq<T>, w: T, table: Seq<T>) -> bool {
    forall|i: int|
        0 <= i < table.len() ==> #[trigger] table[i] == poly_eval(coeffs, power(w, i as nat))
}

/// The table is the codeword of the message: both belong to one polynomial with
/// as many coefficients as the message is long. The codeword holds its values on
/// the large subgroup, which `w_code` generates. In the systematic layout the
/// message holds its values on the small subgroup, which `w_message` generates,
/// and otherwise its coefficients.
pub open spec fn is_codeword_of<T: Field>(
    shape: CodeShape,
    w_message: T,
    w_code: T,
    message: Seq<T>,
    table: Seq<T>,
) -> bool {
    &&& message.len() == pow2(shape.log_msg_len as nat)
    &&& table.len() == pow2((shape.log_msg_len + shape.log_inv_rate) as nat)
    &&& exists|coeffs: Seq<T>|
        coeffs.len() == message.len() && #[trigger] is_table_of(coeffs, w_code, table) && (
        if shape.systematic {
            is_table_of(coeffs, w_message, message)
        } else {
            coeffs == message
        })
}

/// The encoding of a message is its codeword.
pub proof fn encodings_are_codewords<T: Field>(
    shape: CodeShape,
    g: spec_fn(nat) -> T,
    top: nat,
    message: Seq<T>,
)
    requires
        generator_chain(g, top),
        shape.log_msg_len + shape.log_inv_rate <= top,
        message.len() == pow2(shape.log_msg_len as nat),
        all_valid(message),
    ensures
        is_codeword_of(
            shape,
            g(shape.log_msg_len as nat),
            g((shape.log_msg_len + shape.log_inv_rate) as nat),
            message,
            shape.encoding(g, message),
        ),
{
    let c = shape.polynomial(g, message);
    let table = shape.encoding(g, message);
    if shape.systematic {
        lemma_interpolant(g, top, shape.log_msg_len as nat, message, message);
        let k = shape.log_msg_len as nat;
        assert forall|i: int| 0 <= i < message.len() implies #[trigger] message[i] == poly_eval(
            c,
            power(g(k), i as nat),
        ) by {
            assert(evaluations(c, g(k), pow2(k))[i] == message[i]);
        }
        assert(is_table_of(c, g(k), message));
    }
    assert(is_table_of(c, g((shape.log_msg_len + shape.log_inv_rate) as nat), table));
}

/// A code has the dimensions and the layout that it was made with.
pub proof fn codes_have_their_dimensions<F: TwoAdicField>(
    log_msg_len: usize,
    log_inv_rate: usize,
    systematic: bool,
    code: ReedSolomonCode<F>,
    a: usize,
    b: usize,
    c: bool,
    d: usize,
    msg_len: usize,
    codeword_len: usize,
)
    requires
        call_ensures(ReedSolomonCode::<F>::new, (log_msg_len, log_inv_rate, systematic), code),
        call_ensures(ReedSolomonCode::<F>::log_msg_len, (&code,), a),
        call_ensures(ReedSolomonCode::<F>::log_inv_rate, (&code,), b),
        call_ensures(ReedSolomonCode::<F>::is_systematic, (&code,), c),
        call_ensures(ReedSolomonCode::<F>::log_codeword_len, (&code,), d),
        call_ensures(ReedSolomonCode::<F>::msg_len, (&code,), msg_len),
        call_ensures(ReedSolomonCode::<F>::codeword_len, (&code,), codeword_len),
    ensures
        a == log_msg_len,
        b == log_inv_rate,
        c == systematic,
        d == log_msg_len + log_inv_rate,
        msg_len == pow2(log_msg_len as nat),
        codeword_len == pow2((log_msg_len + log_inv_rate) as nat),
        code.shape() == (CodeShape { log_msg_len, log_inv_rate, systematic }),
{
}

/// Encoding a base-field message gives its codeword.
pub proof fn encoding_gives_the_codeword<F: TwoAdicField>(
    code: ReedSolomonCode<F>,
    message: Vec<F>,
    r: Vec<F>,
)
    requires
        call_ensures(ReedSolomonCode::<F>::encode, (&code, &message), r),
        code.shape().log_msg_len + code.shape().log_inv_rate <= F::two_adicity(),
        message@.len() == pow2(code.shape().log_msg_len as nat),
        all_valid(message@),
    ensures
        is_codeword_of(
            code.shape(),
            F::root(code.shape().log_msg_len as nat),
            F::root((code.shape().log_msg_len + code.shape().log_inv_rate) as nat),
            message@,
            r@,
        ),
{
    lemma_base_chain::<F>();
    encodings_are_codewords(
        code.shape(),
        base_generators::<F>(),
        F::two_adicity(),
        message@,
    );
}

/// Encoding a message over the extension gives its codeword, on the subgroups of
/// the base field.
pub proof fn encoding_over_the_extension_gives_the_codeword<
    F: TwoAdicField,
    EF: ExtensionField<F>,
>(code: ReedSolomonCode<F>, message: Vec<EF>, r: Vec<EF>)
    requires
        call_ensures(ReedSolomonCode::<F>::encode_algebra::<EF>, (&code, &message), r),
        code.shape().log_msg_len + code.shape().log_inv_rate <= F::two_adicity(),
        message@.len() == pow2(code.shape().log_msg_len as nat),
        all_valid(message@),
    ensures
        is_codeword_of(
            code.shape(),
            EF::embed(F::root(code.shape().log_msg_len as nat)),
            EF::embed(F::root((code.shape().log_msg_len + code.shape().log_inv_rate) as nat)),
            message@,
            r@,
        ),
{
    lemma_extension_chain::<F, EF>();
    encodings_are_codewords(
        code.shape(),
        extension_generators::<F, EF>(),
        F::two_adicity(),
        message@,
    );
}

/// Decoding undoes encoding.
pub proof fn decoding_undoes_encoding<F: TwoAdicField, EF: ExtensionField<F>>(
    code: ReedSolomonCode<F>,
    message: Vec<EF>,
    codeword: Vec<EF>,
    decoded: Vec<EF>,
)
    requires
        call_ensures(ReedSolomonCode::<F>::encode_algebra::<EF>, (&code, &message), codeword),
        call_ensures(
            ReedSolomonCode::<F>::message_from_codeword::<EF>,
            (&code, &codeword),
            decoded,
        ),
        code.shape().log_msg_len + code.shape().log_inv_rate <= F::two_adicity(),
        message@.len() == pow2(code.shape().log_msg_len as nat),
        all_valid(message@),
    ensures
        decoded@ == message@,
{
    lemma_extension_chain::<F, EF>();
    decoding_inverts_encoding(
        code.shape(),
        extension_generators::<F, EF>(),
        F::two_adicity(),
        message@,
    );
}

/// What is read off any table of the length of a codeword, codeword or not: in
/// the systematic layout the values at the multiples of the inverse rate, and
/// otherwise the first coefficients of the polynomial that takes the values of
/// the table.
pub proof fn decoding_reads_any_table<F: TwoAdicField, EF: ExtensionField<F>>(
    code: ReedSolomonCode<F>,
    table: Vec<EF>,
    decoded: Vec<EF>,
)
    requires
        call_ensures(
            ReedSolomonCode::<F>::message_from_codeword::<EF>,
            (&code, &table),
            decoded,
        ),
        code.shape().log_msg_len + code.shape().log_inv_rate <= F::two_adicity(),
        table@.len() == pow2((code.shape().log_msg_len + code.shape().log_inv_rate) as nat),
        all_valid(table@),
    ensures
        ({
            let shape = code.shape();
            let n = (shape.log_msg_len + shape.log_inv_rate) as nat;
            &&& decoded@.len() == pow2(shape.log_msg_len as nat)
            &&& shape.systematic ==> forall|i: int|
                0 <= i < decoded@.len() ==> #[trigger] decoded@[i] == table@[i * pow2(
                    shape.log_inv_rate as nat,
                )]
            &&& !shape.systematic ==> exists|coeffs: Seq<EF>|
                coeffs.len() == pow2(n) && #[trigger] is_table_of(
                    coeffs,
                    EF::embed(F::root(n)),
                    table@,
                ) && decoded@ == coeffs.take(decoded@.len() as int)
        }),
{
    let shape = code.shape();
    let n = (shape.log_msg_len + shape.log_inv_rate) as nat;
    let g = extension_generators::<F, EF>();
    lemma_extension_chain::<F, EF>();
    if !shape.systematic {
        lemma_interpolant(g, F::two_adicity(), n, table@, table@);
        let c = interpolant(table@, g(n));
        assert forall|i: int| 0 <= i < table@.len() implies #[trigger] table@[i] == poly_eval(
            c,
            power(g(n), i as nat),
        ) by {
            assert(evaluations(c, g(n), pow2(n))[i] == table@[i]);
        }
        assert(is_table_of(c, EF::embed(F::root(n)), table@));
    }
}

/// A message point is lifted by zeros behind it.
pub proof fn message_points_are_lifted_by_zeros<F: TwoAdicField, EF: ExtensionField<F>>(
    code: ReedSolomonCode<F>,
    point: Vec<EF>,
    r: Vec<EF>,
)
    requires
        call_ensures(
            ReedSolomonCode::<F>::systematic_message_point::<EF>,
            (&code, &point),
            r,
        ),
        point@.len() == code.shape().log_msg_len,
    ensures
        r@.len() == code.shape().log_msg_len + code.shape().log_inv_rate,
        r@.take(point@.len() as int) == point@,
        forall|i: int| point@.len() <= i < r@.len() ==> #[trigger] r@[i] == EF::zero_spec(),
{
    assert(r@.take(point@.len() as int) =~= point@);
}

} // verus!
