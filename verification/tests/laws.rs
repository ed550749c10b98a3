//! Properties that relate several functions, on chosen values.
use spartan2::polys::eq::EqPolynomial;
use spartan2::polys::multilinear::MultilinearPolynomial;
use spartan2::provider::goldi::{F, GOLDILOCKS_MODULUS};
use spartan2::provider::keccak::Keccak256Transcript;
use spartan2::provider::pcs::hash_mle_backend::{
    BackendFfKeccak, MleBackend, DOMAIN_LEAF, DOMAIN_NODE, TAG_LEAF, TAG_NODE,
};
use spartan2::provider::pcs::merkle_mle_pc::{draw_index, HashMleEvaluationArgument, HashMlePCS};
use spartan2::provider::GoldilocksMerkleMleEngine as E;
use spartan2::r1cs::sparse::SparseMatrix;
use spartan2::traits::PCSEngineTrait;

fn f(x: u64) -> F {
    F::from(x)
}

fn fs(xs: &[u64]) -> Vec<F> {
    xs.iter().map(|x| f(*x)).collect()
}

fn argument(poly: &[F], point: &[F]) -> (F, HashMleEvaluationArgument<E>) {
    let (ck, _vk) = HashMlePCS::<E>::setup(b"laws", poly.len());
    let blind = HashMlePCS::<E>::blind(&ck, poly.len());
    let comm = HashMlePCS::<E>::commit(&ck, poly, &blind, false).unwrap();
    let mut t = Keccak256Transcript::<E>::new(b"laws");
    HashMlePCS::<E>::prove(&ck, &mut t, &comm, poly, &blind, point).ok().unwrap()
}

#[test]
fn field_laws() {
    let samples = [0, 1, 2, 7, 0xFFFF_FFFF, 1 << 33, GOLDILOCKS_MODULUS - 1];
    for &x in &samples {
        for &y in &samples {
            for &z in &samples {
                let (a, b, c) = (f(x), f(y), f(z));
                assert_eq!(a + b, b + a);
                assert_eq!((a + b) + c, a + (b + c));
                assert_eq!(a * b, b * a);
                assert_eq!((a * b) * c, a * (b * c));
                assert_eq!(a * (b + c), a * b + a * c);
                assert_eq!(a + (-a), F::zero());
            }
        }
    }
}

#[test]
fn the_modulus_has_no_small_divisor() {
    for d in 2..100_000u64 {
        assert_ne!(GOLDILOCKS_MODULUS % d, 0);
    }
}

#[test]
fn rounds_are_a_chain_that_ends_in_the_value() {
    let poly = fs(&[3, 1, 4, 1, 5, 9, 2, 6]);
    let point = fs(&[10, 20, 30]);
    let (eval, arg) = argument(&poly, &point);
    assert_eq!(arg.rounds[0].a, poly[0]);
    assert_eq!(arg.rounds[1].a, arg.rounds[0].next);
    assert_eq!(arg.rounds[2].a, arg.rounds[1].next);
    assert_eq!(arg.rounds[2].next, eval);
    // the last root is the leaf digest of the value
    let leaf = BackendFfKeccak::<E>::leaf_hash(&eval);
    assert_eq!(arg.layer_roots[3].0, leaf.0);
}

#[test]
fn samples_hold_committed_values() {
    let poly: Vec<F> = (0..16).map(|i| f(i * i + 1)).collect();
    let point = fs(&[2, 3, 5, 7]);
    let (_eval, arg) = argument(&poly, &point);
    for s in &arg.samples[0] {
        assert!(s.idx < 8);
        assert_eq!(s.a, poly[s.idx as usize]);
        assert_eq!(s.b, poly[s.idx as usize + 8]);
        assert_eq!(s.next, s.a + point[0] * (s.b - s.a));
    }
}

#[test]
fn domains_are_separate() {
    assert_ne!(TAG_LEAF, TAG_NODE);
    assert_eq!(&TAG_LEAF, b"mle/leaf");
    assert_eq!(&TAG_NODE, b"mle/node");
    assert_ne!(DOMAIN_LEAF, DOMAIN_NODE);
}

#[test]
fn draws_favour_no_position() {
    let mut t = Keccak256Transcript::<E>::new(b"draws");
    let mut count = [0; 3];
    for _ in 0..3000 {
        count[draw_index::<E>(&mut t, b"i", 3).unwrap()] += 1;
    }
    assert!(count.iter().all(|n| *n > 850), "{:?}", count);
}

#[test]
fn constant_tables_extend_to_the_constant() {
    let poly = MultilinearPolynomial::new(fs(&[9; 8]));
    assert_eq!(poly.evaluate(&fs(&[123, 456, 789])), f(9));
}

#[test]
fn two_tables_are_joined_by_the_first_variable() {
    let w = fs(&[1, 2, 3, 4]);
    let x = fs(&[5, 6, 7, 8]);
    let mut both = w.clone();
    both.extend_from_slice(&x);
    let rest = fs(&[11, 13]);
    let ew = MultilinearPolynomial::new(w).evaluate(&rest);
    let ex = MultilinearPolynomial::new(x).evaluate(&rest);
    let y0 = f(17);
    let expected = (F::one() - y0) * ew + y0 * ex;
    assert_eq!(MultilinearPolynomial::new(both).evaluate(&fs(&[17, 11, 13])), expected);
}

#[test]
fn matrices_between_two_vectors() {
    let m = SparseMatrix::new(&vec![(0, 1, f(2)), (1, 0, f(3)), (1, 3, f(4))], 2, 4).ok().unwrap();
    let x = EqPolynomial::<F>::evals_from_points(&fs(&[5]));
    let y = EqPolynomial::<F>::evals_from_points(&fs(&[6, 7]));
    let columns = m.times_vec(&x, 4);
    let products: Vec<F> = columns.iter().zip(&y).map(|(a, b)| *a * *b).collect();
    assert_eq!(m.evaluate_with_tables(&x, &y), F::sum(&products));
    // the columns, as a table, extend to the same value
    assert_eq!(
        MultilinearPolynomial::new(columns).evaluate(&fs(&[6, 7])),
        m.evaluate_with_tables(&x, &y)
    );
}
