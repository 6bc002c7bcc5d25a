use warp_whir::code::ReedSolomonCode;
use warp_whir::field::{ExtensionField, Field, TwoAdicField};
use warp_whir::goldilocks::{Goldilocks, GoldilocksExt2};

fn g(n: u64) -> Goldilocks {
    Goldilocks::new(n)
}

fn x(a: u64, b: u64) -> GoldilocksExt2 {
    GoldilocksExt2::new(g(a), g(b))
}

fn embed(v: &[Goldilocks]) -> Vec<GoldilocksExt2> {
    v.iter().map(|c| GoldilocksExt2::from_base(*c)).collect()
}

#[test]
fn lengths_follow_from_the_logarithms() {
    let code: ReedSolomonCode<Goldilocks> = ReedSolomonCode::new(3, 2, true);
    assert_eq!(code.log_msg_len(), 3);
    assert_eq!(code.log_inv_rate(), 2);
    assert_eq!(code.log_codeword_len(), 5);
    assert_eq!(code.msg_len(), 8);
    assert_eq!(code.codeword_len(), 32);
    assert!(code.is_systematic());
}

#[test]
fn coefficient_layout_evaluates_the_message() {
    let code: ReedSolomonCode<Goldilocks> = ReedSolomonCode::new(1, 1, false);
    let w = 1u64 << 48;
    let codeword = code.encode(&vec![g(10), g(3)]);
    assert_eq!(codeword[0], g(13));
    assert_eq!(codeword[1], g(10).plus(g(3).times(g(w))));
    assert_eq!(codeword[2], g(7));
    assert!(!code.is_systematic());
}

#[test]
fn systematic_layout_holds_the_message() {
    let code: ReedSolomonCode<Goldilocks> = ReedSolomonCode::new(2, 1, true);
    let message = vec![g(11), g(22), g(33), g(44)];
    let codeword = code.encode(&message);
    assert_eq!(codeword.len(), 8);
    for i in 0..4 {
        assert_eq!(codeword[2 * i], message[i]);
    }
    assert_ne!(codeword[1], g(0));
}

#[test]
fn decoding_inverts_encoding_in_both_layouts() {
    for systematic in [false, true] {
        let code: ReedSolomonCode<Goldilocks> = ReedSolomonCode::new(3, 2, systematic);
        let message: Vec<GoldilocksExt2> = (0..8u64).map(|i| x(i * 5 + 1, i * i)).collect();
        let codeword = code.encode_algebra(&message);
        assert_eq!(codeword.len(), 32);
        assert_eq!(code.message_from_codeword(&codeword), message);
    }
}

#[test]
fn reencoding_detects_tables_that_are_no_codewords() {
    for systematic in [false, true] {
        let code: ReedSolomonCode<Goldilocks> = ReedSolomonCode::new(2, 1, systematic);
        let message: Vec<GoldilocksExt2> = (0..4u64).map(|i| x(i, 1)).collect();
        let mut table = code.encode_algebra(&message);
        assert_eq!(code.encode_algebra(&code.message_from_codeword(&table)), table);
        table[3] = table[3].plus(GoldilocksExt2::one());
        assert_ne!(code.encode_algebra(&code.message_from_codeword(&table)), table);
    }
}

#[test]
fn encoding_commutes_with_embedding() {
    for systematic in [false, true] {
        let code: ReedSolomonCode<Goldilocks> = ReedSolomonCode::new(2, 2, systematic);
        let message = vec![g(4), g(3), g(2), g(9)];
        let extended: Vec<GoldilocksExt2> = embed(&message);
        assert_eq!(embed(&code.encode(&message)), code.encode_algebra(&extended));
    }
}

#[test]
fn message_points_are_lifted_by_zeros() {
    let code: ReedSolomonCode<Goldilocks> = ReedSolomonCode::new(2, 3, true);
    let point = code.systematic_message_point(&vec![x(5, 1), x(6, 2)]);
    assert_eq!(point, vec![x(5, 1), x(6, 2), x(0, 0), x(0, 0), x(0, 0)]);
}

#[test]
fn a_rate_one_code_is_its_own_transform() {
    let code: ReedSolomonCode<Goldilocks> = ReedSolomonCode::new(2, 0, false);
    let message = vec![g(1), g(2), g(3), g(4)];
    assert_eq!(code.encode(&message), Goldilocks::dft(&message, 2));
    let systematic: ReedSolomonCode<Goldilocks> = ReedSolomonCode::new(2, 0, true);
    assert_eq!(systematic.encode(&message), message);
}

#[test]
fn codeword_queries_are_message_queries() {
    for systematic in [false, true] {
        let code: ReedSolomonCode<Goldilocks> = ReedSolomonCode::new(2, 1, systematic);
        let weights: Vec<GoldilocksExt2> = (0..8u64).map(|i| x(3 * i + 1, i)).collect();
        let message: Vec<GoldilocksExt2> = (0..4u64).map(|i| x(7 - i, 2 * i)).collect();
        let query = |weights: &[GoldilocksExt2], table: &[GoldilocksExt2]| {
            let mut sum = GoldilocksExt2::zero();
            for i in 0..table.len() {
                sum = sum.plus(weights[i].times(table[i]));
            }
            sum
        };
        let adjoint: Vec<GoldilocksExt2> = (0..4)
            .map(|j| {
                let mut unit = vec![x(0, 0); 4];
                unit[j] = x(1, 0);
                query(&weights, &code.encode_algebra(&unit))
            })
            .collect();
        assert_eq!(query(&weights, &code.encode_algebra(&message)), query(&adjoint, &message));
    }
}

#[test]
fn encoding_is_linear_and_injective() {
    for systematic in [false, true] {
        let code: ReedSolomonCode<Goldilocks> = ReedSolomonCode::new(2, 1, systematic);
        let (a, b) = (vec![g(1), g(5), g(2), g(8)], vec![g(3), g(3), g(9), g(4)]);
        let sum: Vec<Goldilocks> = (0..4).map(|i| a[i].plus(b[i])).collect();
        let triple: Vec<Goldilocks> = a.iter().map(|v| v.times(g(3))).collect();
        let (ca, cb) = (code.encode(&a), code.encode(&b));
        let expected: Vec<Goldilocks> = (0..8).map(|i| ca[i].plus(cb[i])).collect();
        assert_eq!(code.encode(&sum), expected);
        let expected: Vec<Goldilocks> = ca.iter().map(|v| v.times(g(3))).collect();
        assert_eq!(code.encode(&triple), expected);
        assert_ne!(ca, cb);
    }
}
