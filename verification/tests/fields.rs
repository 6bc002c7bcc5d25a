use p3_dft::TwoAdicSubgroupDft;
use p3_field::{PrimeCharacteristicRing, PrimeField64, TwoAdicField as P3TwoAdicField};
use warp_whir::field::{ExtensionField, Field, TwoAdicField};
use warp_whir::goldilocks::{Goldilocks, GoldilocksExt2, ORDER};

fn g(n: u64) -> Goldilocks {
    Goldilocks::new(n)
}

fn x(a: u64, b: u64) -> GoldilocksExt2 {
    GoldilocksExt2::new(g(a), g(b))
}

fn base(n: u64) -> GoldilocksExt2 {
    x(n, 0)
}

#[test]
fn integers_are_reduced() {
    assert_eq!(g(ORDER).as_canonical_u64(), 0);
    assert_eq!(g(u64::MAX).as_canonical_u64(), 0xFFFF_FFFE);
    assert_eq!(Goldilocks::from_u64(ORDER + 5), g(5));
    assert_eq!(Goldilocks::zero(), g(0));
    assert_eq!(Goldilocks::one(), g(1));
}

#[test]
fn base_sums_and_products_wrap() {
    assert_eq!(g(ORDER - 1).plus(g(1)), g(0));
    assert_eq!(g(ORDER - 1).plus(g(ORDER - 1)), g(ORDER - 2));
    assert_eq!(g(ORDER - 1).times(g(ORDER - 1)), g(1));
    assert_eq!(g(1 << 32).times(g(1 << 32)), g(0xFFFF_FFFF));
    assert_eq!(g(6).times(g(7)), g(42));
}

#[test]
fn equality_is_by_value() {
    assert!(g(3).same(g(ORDER + 3)));
    assert!(!g(3).same(g(4)));
    assert!(x(1, 2).same(x(1, 2)));
    assert!(!x(1, 2).same(x(2, 1)));
    assert_eq!(g(9).canonical(), g(9));
    assert_eq!(x(9, 8).canonical(), x(9, 8));
}

#[test]
fn the_extension_has_a_root_of_seven() {
    assert_eq!(x(0, 1).times(x(0, 1)), base(7));
    assert_eq!(x(2, 3).times(x(5, 11)), x(10 + 7 * 33, 22 + 15));
    assert_eq!(x(2, 3).plus(x(ORDER - 2, 4)), x(0, 7));
    assert_eq!(GoldilocksExt2::from_base(g(12)), base(12));
    assert_eq!(GoldilocksExt2::from_u64(ORDER + 12), base(12));
    assert_eq!(x(3, 4).into_coefficients(), (g(3), g(4)));
    assert_eq!(GoldilocksExt2::zero(), x(0, 0));
    assert_eq!(GoldilocksExt2::one(), x(1, 0));
}

#[test]
fn transforms_of_length_one_are_the_identity() {
    assert_eq!(Goldilocks::dft(&vec![g(5)], 0), vec![g(5)]);
    assert_eq!(Goldilocks::idft(&vec![g(5)], 0), vec![g(5)]);
    assert_eq!(
        <GoldilocksExt2 as ExtensionField<Goldilocks>>::dft_algebra(&vec![x(5, 6)], 0),
        vec![x(5, 6)]
    );
}

#[test]
fn base_transform_evaluates_on_the_subgroup() {
    // The generator of order four is 2^48, and its square is minus one.
    let w = 1u64 << 48;
    let values = Goldilocks::dft(&vec![g(1), g(2), g(3), g(4)], 2);
    assert_eq!(values[0], g(10));
    assert_eq!(values[2], g(ORDER - 2));
    let at_w = g(1).plus(g(2).times(g(w))).plus(g(ORDER - 3)).plus(g(ORDER - 4).times(g(w)));
    assert_eq!(values[1], at_w);
    let minus_w = g(ORDER - w);
    let at_minus_w =
        g(1).plus(g(2).times(minus_w)).plus(g(ORDER - 3)).plus(g(ORDER - 4).times(minus_w));
    assert_eq!(values[3], at_minus_w);
}

#[test]
fn inverse_transform_interpolates() {
    let coeffs: Vec<Goldilocks> = (0..16u64).map(|i| g(i * i + 3)).collect();
    let values = Goldilocks::dft(&coeffs, 4);
    assert_ne!(values, coeffs);
    assert_eq!(Goldilocks::idft(&values, 4), coeffs);
    assert_ne!(Goldilocks::idft(&coeffs, 4), coeffs);
}

#[test]
fn transforms_agree_with_the_backend() {
    let coeffs: Vec<u64> = (0..8u64).map(|i| 7 * i + 1).collect();
    let expected = p3_dft::Radix2Dit::default()
        .dft(coeffs.iter().map(|c| p3_goldilocks::Goldilocks::from_u64(*c)).collect());
    let values = Goldilocks::dft(&coeffs.iter().map(|c| g(*c)).collect(), 3);
    let expected: Vec<u64> = expected.iter().map(|v| v.as_canonical_u64()).collect();
    let values: Vec<u64> = values.iter().map(|v| v.as_canonical_u64()).collect();
    assert_eq!(values, expected);
}

#[test]
fn generators_are_those_of_the_backend() {
    for bits in 0..=4usize {
        let len = 1usize << bits;
        let mut coeffs = vec![g(0); len];
        if len > 1 {
            coeffs[1] = g(1);
            let values = Goldilocks::dft(&coeffs, bits);
            let root = p3_goldilocks::Goldilocks::two_adic_generator(bits);
            assert_eq!(values[1].as_canonical_u64(), root.as_canonical_u64());
        }
    }
}

#[test]
fn extension_transforms_work_on_both_coefficients() {
    let coeffs: Vec<GoldilocksExt2> = (0..8u64).map(|i| x(i + 1, 100 - i)).collect();
    let values = <GoldilocksExt2 as ExtensionField<Goldilocks>>::dft_algebra(&coeffs, 3);
    let low = Goldilocks::dft(&(0..8u64).map(|i| g(i + 1)).collect(), 3);
    let high = Goldilocks::dft(&(0..8u64).map(|i| g(100 - i)).collect(), 3);
    for i in 0..8 {
        assert_eq!(values[i].into_coefficients(), (low[i], high[i]));
    }
    assert_eq!(<GoldilocksExt2 as ExtensionField<Goldilocks>>::idft_algebra(&values, 3), coeffs);
}

#[test]
fn univariate_points_are_repeated_squares() {
    let point = <GoldilocksExt2 as ExtensionField<Goldilocks>>::expand_from_univariate(base(3), 4);
    assert_eq!(point, vec![base(6561), base(81), base(9), base(3)]);
    let empty = <GoldilocksExt2 as ExtensionField<Goldilocks>>::expand_from_univariate(base(3), 0);
    assert!(empty.is_empty());
}

#[test]
fn eq_tables_are_big_endian() {
    let table = <GoldilocksExt2 as ExtensionField<Goldilocks>>::eq_weights(&vec![base(2), base(5)]);
    // (1 - 2)(1 - 5), (1 - 2) 5, 2 (1 - 5), 2 * 5
    assert_eq!(table, vec![base(4), base(ORDER - 5), base(ORDER - 8), base(10)]);
    let constant = <GoldilocksExt2 as ExtensionField<Goldilocks>>::eq_weights(&Vec::new());
    assert_eq!(constant, vec![base(1)]);
}
