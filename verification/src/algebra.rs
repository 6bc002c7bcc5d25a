//! Consequences of the ring laws: powers, polynomials and their values on
//! subgroups of two-power order.

use crate::field::{all_valid, evaluations, poly_eval, power, zero_padded, Field};
use vstd::arithmetic::power2::{lemma_pow2_pos, lemma_pow2_unfold, pow2};
use vstd::prelude::*;

verus! {

pub proof fn lemma_zero_add<F: Field>(x: F)
    requires
        x.valid(),
    ensures
        F::zero_spec().add_spec(x) == x,
{
    x.add_zero();
    x.add_commutes(F::zero_spec());
}

pub proof fn lemma_one_mul<F: Field>(x: F)
    requires
        x.valid(),
    ensures
        F::one_spec().mul_spec(x) == x,
{
    x.mul_one();
    x.mul_commutes(F::one_spec());
}

/// A summand can be cancelled.
pub proof fn lemma_add_cancel<F: Field>(a: F, b: F, c: F)
    requires
        a.valid(),
        b.valid(),
        a.add_spec(c) == b.add_spec(c),
    ensures
        a == b,
{
    a.sub_cancels(c);
    b.sub_cancels(c);
}

pub proof fn lemma_sub_zero<F: Field>(x: F)
    requires
        x.valid(),
    ensures
        x.sub_spec(F::zero_spec()) == x,
{
    x.add_zero();
    x.sub_cancels(F::zero_spec());
}

pub proof fn lemma_mul_zero<F: Field>(x: F)
    ensures
        x.mul_spec(F::zero_spec()) == F::zero_spec(),
        F::zero_spec().mul_spec(x) == F::zero_spec(),
{
    let zero = F::zero_spec();
    x.valid_results(zero, 0);
    zero.add_zero();
    x.mul_distributes(zero, zero);
    let a = x.mul_spec(zero);
    lemma_zero_add(a);
    lemma_add_cancel(a, zero, a);
    x.mul_commutes(zero);
}

pub proof fn lemma_mul_distributes_left<F: Field>(a: F, b: F, c: F)
    ensures
        a.add_spec(b).mul_spec(c) == a.mul_spec(c).add_spec(b.mul_spec(c)),
{
    a.add_spec(b).mul_commutes(c);
    c.mul_distributes(a, b);
    a.mul_commutes(c);
    b.mul_commutes(c);
}

/// Two sums of two summands, regrouped.
pub proof fn lemma_add_regroup<F: Field>(a: F, b: F, c: F, d: F)
    ensures
        a.add_spec(b).add_spec(c.add_spec(d)) == a.add_spec(c).add_spec(b.add_spec(d)),
{
    a.add_associates(b, c.add_spec(d));
    b.add_associates(c, d);
    b.add_commutes(c);
    c.add_associates(b, d);
    a.add_associates(c, b.add_spec(d));
}

pub proof fn lemma_mul_swap<F: Field>(a: F, b: F, c: F)
    ensures
        a.mul_spec(b.mul_spec(c)) == b.mul_spec(a.mul_spec(c)),
{
    a.mul_associates(b, c);
    a.mul_commutes(b);
    b.mul_associates(a, c);
}

pub proof fn lemma_power_valid<F: Field>(x: F, n: nat)
    ensures
        power(x, n).valid(),
{
    x.valid_results(x, 0);
    if n > 0 {
        power(x, (n - 1) as nat).valid_results(x, 0);
    }
}

pub proof fn lemma_power_one<F: Field>(x: F)
    requires
        x.valid(),
    ensures
        power(x, 1) == x,
{
    reveal_with_fuel(power, 2);
    lemma_one_mul(x);
}

pub proof fn lemma_power_add<F: Field>(x: F, m: nat, n: nat)
    ensures
        power(x, m + n) == power(x, m).mul_spec(power(x, n)),
    decreases n,
{
    if n == 0 {
        lemma_power_valid(x, m);
        power(x, m).mul_one();
    } else {
        lemma_power_add(x, m, (n - 1) as nat);
        power(x, m).mul_associates(power(x, (n - 1) as nat), x);
        assert((m + n - 1) as nat == m + (n - 1) as nat);
    }
}

pub proof fn lemma_power_mul<F: Field>(x: F, m: nat, n: nat)
    ensures
        power(x, m * n) == power(power(x, m), n),
    decreases n,
{
    if n == 0 {
        assert(m * n == 0) by (nonlinear_arith)
            requires
                n == 0,
        ;
    } else {
        lemma_power_mul(x, m, (n - 1) as nat);
        assert(m * n == m * (n - 1) + m) by (nonlinear_arith);
        lemma_power_add(x, (m * (n - 1)) as nat, m);
    }
}

pub proof fn lemma_poly_eval_valid<F: Field>(c: Seq<F>, x: F)
    ensures
        poly_eval(c, x).valid(),
{
    x.valid_results(x, 0);
    if c.len() > 0 {
        poly_eval(c.drop_last(), x).valid_results(
            c.last().mul_spec(power(x, (c.len() - 1) as nat)),
            0,
        );
    }
}

/// Zero coefficients of higher degree do not change a polynomial.
pub proof fn lemma_padding_keeps_values<F: Field>(c: Seq<F>, n: nat, x: F)
    requires
        n >= c.len(),
    ensures
        poly_eval(zero_padded(c, n), x) == poly_eval(c, x),
    decreases n,
{
    let p = zero_padded(c, n);
    if n == c.len() {
        assert(p =~= c);
    } else {
        lemma_padding_keeps_values(c, (n - 1) as nat, x);
        assert(p.drop_last() =~= zero_padded(c, (n - 1) as nat));
        lemma_mul_zero(power(x, (n - 1) as nat));
        lemma_poly_eval_valid(c, x);
        poly_eval(c, x).add_zero();
    }
}

/// The coefficients of even degree.
pub open spec fn even_part<F>(c: Seq<F>) -> Seq<F> {
    Seq::new(((c.len() + 1) / 2) as nat, |i: int| c[2 * i])
}

/// The coefficients of odd degree.
pub open spec fn odd_part<F>(c: Seq<F>) -> Seq<F> {
    Seq::new((c.len() / 2) as nat, |i: int| c[2 * i + 1])
}

/// `p(x) = e(x^2) + x * o(x^2)`.
proof fn lemma_even_odd_split<F: Field>(c: Seq<F>, x: F)
    requires
        x.valid(),
    ensures
        poly_eval(c, x) == poly_eval(even_part(c), x.mul_spec(x)).add_spec(
            x.mul_spec(poly_eval(odd_part(c), x.mul_spec(x))),
        ),
    decreases c.len(),
{
    let y = x.mul_spec(x);
    let zero = F::zero_spec();
    if c.len() == 0 {
        zero.valid_results(zero, 0);
        lemma_mul_zero(x);
        zero.add_zero();
    } else {
        let d = c.drop_last();
        let n = (c.len() - 1) as nat;
        let top = c.last().mul_spec(power(x, n));
        let e = poly_eval(even_part(d), y);
        let o = poly_eval(odd_part(d), y);
        lemma_even_odd_split(d, x);
        lemma_power_mul(x, 2, n / 2);
        assert(power(x, 2) == y) by {
            reveal_with_fuel(power, 3);
            lemma_one_mul(x);
        }
        if n % 2 == 0 {
            assert(even_part(c).drop_last() =~= even_part(d));
            assert(odd_part(c) =~= odd_part(d));
            assert(n == 2 * (n / 2));
            assert(even_part(c).last() == c.last());
            e.add_associates(x.mul_spec(o), top);
            x.mul_spec(o).add_commutes(top);
            e.add_associates(top, x.mul_spec(o));
        } else {
            assert(even_part(c) =~= even_part(d));
            assert(odd_part(c).drop_last() =~= odd_part(d));
            assert(n == 2 * (n / 2) + 1);
            assert(odd_part(c).last() == c.last());
            let t = c.last().mul_spec(power(y, n / 2));
            assert(power(x, n) == power(y, n / 2).mul_spec(x));
            c.last().mul_associates(power(y, n / 2), x);
            t.mul_commutes(x);
            assert(top == x.mul_spec(t));
            x.mul_distributes(o, t);
            e.add_associates(x.mul_spec(o), x.mul_spec(t));
        }
    }
}

/// `g(b)` generates a subgroup of order `2^b` for each `b` up to `top`: each
/// generator is the square of the next, and the first two are one and minus
/// one.
pub open spec fn generator_chain<F: Field>(g: spec_fn(nat) -> F, top: nat) -> bool {
    &&& top >= 1
    &&& g(0) == F::one_spec()
    &&& g(1).add_spec(F::one_spec()) == F::zero_spec()
    &&& forall|b: nat| b <= top ==> (#[trigger] g(b)).valid()
    &&& forall|b: nat| b < top ==> #[trigger] g(b + 1).mul_spec(g(b + 1)) == g(b)
}

/// The `2^j`-th power of a generator is the generator `j` steps down.
pub proof fn lemma_generator_power<F: Field>(g: spec_fn(nat) -> F, top: nat, b: nat, j: nat)
    requires
        generator_chain(g, top),
        j <= b <= top,
    ensures
        power(g(b), pow2(j)) == g((b - j) as nat),
    decreases j,
{
    if j == 0 {
        vstd::arithmetic::power2::lemma2_to64();
        lemma_power_one(g(b));
    } else {
        lemma_generator_power(g, top, b, (j - 1) as nat);
        lemma_pow2_unfold(j);
        let k = (b - j) as nat;
        assert(g((b - (j - 1)) as nat) == g(k + 1));
        let h = pow2((j - 1) as nat);
        assert(pow2(j) == h + h);
        lemma_power_add(g(b), h, h);
        assert(g(k + 1).mul_spec(g(k + 1)) == g(k));
    }
}

/// A generator is invertible: `g^i * g^(2^b - i) = 1`.
proof fn lemma_generator_inverse<F: Field>(g: spec_fn(nat) -> F, top: nat, b: nat, i: nat)
    requires
        generator_chain(g, top),
        b <= top,
        i <= pow2(b),
    ensures
        power(g(b), (pow2(b) - i) as nat).mul_spec(power(g(b), i)) == F::one_spec(),
{
    lemma_generator_power(g, top, b, b);
    lemma_power_add(g(b), (pow2(b) - i) as nat, i);
}

/// Halfway round the subgroup the sign changes.
proof fn lemma_generator_antipode<F: Field>(g: spec_fn(nat) -> F, top: nat, b: nat, i: nat)
    requires
        generator_chain(g, top),
        1 <= b <= top,
    ensures
        power(g(b), i).add_spec(power(g(b), i + pow2((b - 1) as nat))) == F::zero_spec(),
{
    let h = pow2((b - 1) as nat);
    let x = power(g(b), i);
    lemma_generator_power(g, top, b, (b - 1) as nat);
    lemma_power_add(g(b), i, h);
    lemma_power_valid(g(b), i);
    x.mul_one();
    x.mul_distributes(F::one_spec(), g(1));
    g(1).add_commutes(F::one_spec());
    lemma_mul_zero(x);
}

/// From `e + x * o` and `e - x * o` both `e` and `o` can be recovered.
proof fn lemma_halves_determine<F: Field>(
    e1: F,
    o1: F,
    e2: F,
    o2: F,
    x: F,
    minus_x: F,
    inverse_x: F,
)
    requires
        e1.valid(),
        o1.valid(),
        e2.valid(),
        o2.valid(),
        x.add_spec(minus_x) == F::zero_spec(),
        inverse_x.mul_spec(x) == F::one_spec(),
        e1.add_spec(x.mul_spec(o1)) == e2.add_spec(x.mul_spec(o2)),
        e1.add_spec(minus_x.mul_spec(o1)) == e2.add_spec(minus_x.mul_spec(o2)),
    ensures
        e1 == e2,
        o1 == o2,
{
    lemma_recover_double(e1, o1, x, minus_x);
    lemma_recover_double(e2, o2, x, minus_x);
    lemma_double_half(e1);
    lemma_double_half(e2);
    assert(e1 == e2);
    x.valid_results(o1, 0);
    x.valid_results(o2, 0);
    let u = x.mul_spec(o1);
    let v = x.mul_spec(o2);
    e1.add_commutes(u);
    e1.add_commutes(v);
    lemma_add_cancel(u, v, e1);
    inverse_x.mul_associates(x, o1);
    inverse_x.mul_associates(x, o2);
    lemma_one_mul(o1);
    lemma_one_mul(o2);
}

proof fn lemma_recover_double<F: Field>(e: F, o: F, x: F, minus_x: F)
    requires
        e.valid(),
        x.add_spec(minus_x) == F::zero_spec(),
    ensures
        e.add_spec(x.mul_spec(o)).add_spec(e.add_spec(minus_x.mul_spec(o))) == e.add_spec(e),
{
    lemma_add_regroup(e, x.mul_spec(o), e, minus_x.mul_spec(o));
    lemma_mul_distributes_left(x, minus_x, o);
    lemma_mul_zero(o);
    e.valid_results(e, 0);
    e.add_spec(e).add_zero();
}

proof fn lemma_double_half<F: Field>(e: F)
    requires
        e.valid(),
    ensures
        F::half_spec().mul_spec(e.add_spec(e)) == e,
{
    let half = F::half_spec();
    half.mul_distributes(e, e);
    lemma_mul_distributes_left(half, half, e);
    F::half_doubles();
    lemma_one_mul(e);
}

/// A polynomial with fewer than `2^b` coefficients is determined by its values
/// on the subgroup of order `2^b`.
pub proof fn lemma_values_determine_coefficients<F: Field>(
    g: spec_fn(nat) -> F,
    top: nat,
    b: nat,
    p: Seq<F>,
    q: Seq<F>,
)
    requires
        generator_chain(g, top),
        b <= top,
        p.len() == pow2(b),
        q.len() == pow2(b),
        all_valid(p),
        all_valid(q),
        evaluations(p, g(b), pow2(b)) == evaluations(q, g(b), pow2(b)),
    ensures
        p == q,
    decreases b,
{
    let w = g(b);
    let n = pow2(b);
    vstd::arithmetic::power2::lemma2_to64();
    if b == 0 {
        reveal_with_fuel(poly_eval, 2);
        lemma_poly_eval_constant(p, power(w, 0));
        lemma_poly_eval_constant(q, power(w, 0));
        assert(evaluations(p, w, n)[0] == evaluations(q, w, n)[0]);
        assert(p =~= q);
    } else {
        let a = (b - 1) as nat;
        let h = pow2(a);
        lemma_pow2_unfold(b);
        assert(n == 2 * h);
        let (pe, po, qe, qo) = (even_part(p), odd_part(p), even_part(q), odd_part(q));
        assert(all_valid(pe));
        assert(all_valid(po));
        assert(all_valid(qe));
        assert(all_valid(qo));
        assert(g(a + 1) == w);
        assert(w.mul_spec(w) == g(a));
        let (vpe, vqe) = (evaluations(pe, g(a), h), evaluations(qe, g(a), h));
        let (vpo, vqo) = (evaluations(po, g(a), h), evaluations(qo, g(a), h));
        assert forall|i: int| 0 <= i < h implies #[trigger] vpe[i] == vqe[i] && vpo[i]
            == vqo[i] by {
            let x = power(w, i as nat);
            let m = power(w, i as nat + h);
            let y = power(g(a), i as nat);
            lemma_power_valid(w, i as nat);
            lemma_power_valid(w, i as nat + h);
            lemma_square_of_power(w, i as nat);
            lemma_square_of_power(w, i as nat + h);
            lemma_generator_power(g, top, a, a);
            lemma_power_add(g(a), i as nat, h);
            lemma_power_valid(g(a), i as nat);
            y.mul_one();
            assert(x.mul_spec(x) == y);
            assert(m.mul_spec(m) == y);
            lemma_even_odd_split(p, x);
            lemma_even_odd_split(q, x);
            lemma_even_odd_split(p, m);
            lemma_even_odd_split(q, m);
            assert(evaluations(p, w, n)[i] == evaluations(q, w, n)[i]);
            assert(evaluations(p, w, n)[i + h] == evaluations(q, w, n)[i + h]);
            lemma_generator_antipode(g, top, b, i as nat);
            lemma_generator_inverse(g, top, b, i as nat);
            lemma_poly_eval_valid(pe, y);
            lemma_poly_eval_valid(po, y);
            lemma_poly_eval_valid(qe, y);
            lemma_poly_eval_valid(qo, y);
            lemma_halves_determine(
                poly_eval(pe, y),
                poly_eval(po, y),
                poly_eval(qe, y),
                poly_eval(qo, y),
                x,
                m,
                power(w, (n - i) as nat),
            );
        }
        assert(vpe =~= vqe);
        assert forall|i: int| 0 <= i < h implies #[trigger] vpo[i] == vqo[i] by {
            assert(vpe[i] == vqe[i]);
        }
        assert(vpo =~= vqo);
        lemma_values_determine_coefficients(g, top, a, pe, qe);
        lemma_values_determine_coefficients(g, top, a, po, qo);
        assert forall|i: int| 0 <= i < n implies p[i] == q[i] by {
            if i % 2 == 0 {
                assert(pe[i / 2] == p[i]);
                assert(qe[i / 2] == q[i]);
            } else {
                assert(po[i / 2] == p[i]);
                assert(qo[i / 2] == q[i]);
            }
        }
        assert(p =~= q);
    }
}

proof fn lemma_poly_eval_constant<F: Field>(c: Seq<F>, x: F)
    requires
        c.len() == 1,
        all_valid(c),
    ensures
        poly_eval(c, x) == c[0],
{
    reveal_with_fuel(poly_eval, 2);
    c[0].mul_one();
    lemma_zero_add(c[0]);
}

proof fn lemma_square_of_power<F: Field>(x: F, n: nat)
    requires
        x.valid(),
    ensures
        power(x, n).mul_spec(power(x, n)) == power(x.mul_spec(x), n),
{
    lemma_power_add(x, n, n);
    lemma_power_mul(x, 2, n);
    assert(power(x, 2) == x.mul_spec(x)) by {
        reveal_with_fuel(power, 3);
        lemma_one_mul(x);
    }
}

/// `c` are the coefficients of a polynomial with the given values at the
/// powers of `w`.
pub open spec fn interpolates<F: Field>(c: Seq<F>, values: Seq<F>, w: F) -> bool {
    &&& c.len() == values.len()
    &&& all_valid(c)
    &&& evaluations(c, w, values.len()) == values
}

/// The coefficients of the polynomial with the given values at the powers of
/// `w`.
pub open spec fn interpolant<F: Field>(values: Seq<F>, w: F) -> Seq<F> {
    choose|c: Seq<F>| #[trigger] interpolates(c, values, w)
}

/// On a subgroup of two-power order every table of values has an interpolant.
pub proof fn lemma_interpolant_exists<F: Field>(
    g: spec_fn(nat) -> F,
    top: nat,
    b: nat,
    values: Seq<F>,
) -> (c: Seq<F>)
    requires
        generator_chain(g, top),
        b <= top,
        values.len() == pow2(b),
        all_valid(values),
    ensures
        interpolates(c, values, g(b)),
    decreases b,
{
    let w = g(b);
    let n = pow2(b);
    vstd::arithmetic::power2::lemma2_to64();
    if b == 0 {
        lemma_poly_eval_constant(values, power(w, 0));
        assert(evaluations(values, w, n) =~= values);
        values
    } else {
        let a = (b - 1) as nat;
        let h = pow2(a);
        let half = F::half_spec();
        lemma_pow2_unfold(b);
        assert(n == 2 * h);
        assert(g(a + 1) == w);
        assert(w.mul_spec(w) == g(a));
        let ve = Seq::new(h, |i: int| half.mul_spec(values[i].add_spec(values[i + h])));
        let vo = Seq::new(
            h,
            |i: int|
                power(w, (n - i) as nat).mul_spec(
                    half.mul_spec(values[i].sub_spec(values[i + h])),
                ),
        );
        assert forall|i: int| 0 <= i < h implies (#[trigger] ve[i]).valid() by {
            half.valid_results(values[i].add_spec(values[i + h]), 0);
        }
        assert forall|i: int| 0 <= i < h implies (#[trigger] vo[i]).valid() by {
            power(w, (n - i) as nat).valid_results(
                half.mul_spec(values[i].sub_spec(values[i + h])),
                0,
            );
        }
        let ce = lemma_interpolant_exists(g, top, a, ve);
        let co = lemma_interpolant_exists(g, top, a, vo);
        let c = Seq::new(n, |i: int| if i % 2 == 0 { ce[i / 2] } else { co[i / 2] });
        assert(even_part(c) =~= ce);
        assert(odd_part(c) =~= co);
        assert(all_valid(c));
        let out = evaluations(c, w, n);
        assert forall|i: int| 0 <= i < h implies #[trigger] out[i] == values[i] && out[i + h]
            == values[i + h] by {
            let x = power(w, i as nat);
            let m = power(w, i as nat + h);
            let y = power(g(a), i as nat);
            lemma_power_valid(w, i as nat);
            lemma_power_valid(w, i as nat + h);
            lemma_square_of_power(w, i as nat);
            lemma_square_of_power(w, i as nat + h);
            lemma_generator_power(g, top, a, a);
            lemma_power_add(g(a), i as nat, h);
            lemma_power_valid(g(a), i as nat);
            y.mul_one();
            lemma_even_odd_split(c, x);
            lemma_even_odd_split(c, m);
            assert(evaluations(ce, g(a), h)[i] == ve[i]);
            assert(evaluations(co, g(a), h)[i] == vo[i]);
            lemma_generator_antipode(g, top, b, i as nat);
            lemma_generator_inverse(g, top, b, i as nat);
            lemma_halves_combine(values[i], values[i + h], x, m, power(w, (n - i) as nat));
        }
        assert forall|i: int| 0 <= i < n implies #[trigger] out[i] == values[i] by {
            if i >= h {
                assert(out[i - h] == values[i - h]);
            }
        }
        assert(out =~= values);
        c
    }
}

/// The even and odd parts of two values give the values back.
proof fn lemma_halves_combine<F: Field>(u: F, v: F, x: F, minus_x: F, inverse_x: F)
    requires
        u.valid(),
        v.valid(),
        x.add_spec(minus_x) == F::zero_spec(),
        inverse_x.mul_spec(x) == F::one_spec(),
    ensures
        ({
            let e = F::half_spec().mul_spec(u.add_spec(v));
            let o = inverse_x.mul_spec(F::half_spec().mul_spec(u.sub_spec(v)));
            &&& e.add_spec(x.mul_spec(o)) == u
            &&& e.add_spec(minus_x.mul_spec(o)) == v
        }),
{
    let half = F::half_spec();
    let (s, d) = (u.add_spec(v), u.sub_spec(v));
    let e = half.mul_spec(s);
    let t = half.mul_spec(d);
    let o = inverse_x.mul_spec(t);
    let r = minus_x.mul_spec(o);
    u.valid_results(v, 0);
    half.valid_results(s, 0);
    half.valid_results(d, 0);
    assert(x.mul_spec(o) == t) by {
        inverse_x.mul_commutes(x);
        x.mul_associates(inverse_x, t);
        lemma_one_mul(t);
    }
    assert(v.add_spec(d) == u) by {
        u.sub_cancels(v);
        d.add_commutes(v);
    }
    assert(e.add_spec(t) == u) by {
        half.mul_distributes(s, d);
        u.add_associates(v, d);
        lemma_double_half(u);
    }
    assert(t.add_spec(r) == F::zero_spec()) by {
        lemma_mul_distributes_left(x, minus_x, o);
        lemma_mul_zero(o);
    }
    assert(t.add_spec(t) == d) by {
        lemma_mul_distributes_left(half, half, d);
        F::half_doubles();
        lemma_one_mul(d);
    }
    assert(e == v.add_spec(t)) by {
        v.add_associates(t, t);
        v.valid_results(t, 0);
        lemma_add_cancel(e, v.add_spec(t), t);
    }
    v.add_associates(t, r);
    v.add_zero();
}

/// The interpolant interpolates, and nothing else does.
pub proof fn lemma_interpolant<F: Field>(
    g: spec_fn(nat) -> F,
    top: nat,
    b: nat,
    values: Seq<F>,
    c: Seq<F>,
)
    requires
        generator_chain(g, top),
        b <= top,
        values.len() == pow2(b),
        all_valid(values) || interpolates(c, values, g(b)),
    ensures
        interpolates(interpolant(values, g(b)), values, g(b)),
        interpolates(c, values, g(b)) <==> c == interpolant(values, g(b)),
{
    if !interpolates(c, values, g(b)) {
        let witness = lemma_interpolant_exists(g, top, b, values);
        assert(interpolates(witness, values, g(b)));
    }
    if interpolates(c, values, g(b)) {
        lemma_values_determine_coefficients(g, top, b, c, interpolant(values, g(b)));
    }
}

/// On a smaller subgroup a polynomial takes every `2^r`-th of its values on
/// the larger one.
pub proof fn lemma_subgroup_values<F: Field>(
    g: spec_fn(nat) -> F,
    top: nat,
    k: nat,
    r: nat,
    c: Seq<F>,
)
    requires
        generator_chain(g, top),
        k + r <= top,
    ensures
        forall|i: int|
            0 <= i < pow2(k) ==> #[trigger] evaluations(c, g(k), pow2(k))[i] == evaluations(
                c,
                g(k + r),
                pow2(k + r),
            )[i * pow2(r)],
{
    lemma_pow2_pos(r);
    vstd::arithmetic::power2::lemma_pow2_adds(k, r);
    assert forall|i: int| 0 <= i < pow2(k) implies #[trigger] evaluations(c, g(k), pow2(k))[i]
        == evaluations(c, g(k + r), pow2(k + r))[i * pow2(r)] by {
        lemma_generator_power(g, top, k + r, r);
        lemma_power_mul(g(k + r), pow2(r), i as nat);
        let (step, len) = (pow2(r) as int, pow2(k) as int);
        assert(0 <= i * step < len * step) by (nonlinear_arith)
            requires
                0 <= i < len,
                step > 0,
        ;
        assert(i * step == step * i) by (nonlinear_arith);
    }
}

} // verus!
