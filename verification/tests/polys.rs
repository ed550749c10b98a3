//! Polynomials, sum-checks and sparse matrices.
use spartan2::errors::SpartanError;
use spartan2::parallel::join;
use spartan2::polys::eq::EqPolynomial;
use spartan2::polys::multilinear::{fold_table, MultilinearPolynomial, SparsePolynomial};
use spartan2::polys::univariate::{CompressedUniPoly, UniPoly};
use spartan2::provider::goldi::F;
use spartan2::provider::keccak::Keccak256Transcript;
use spartan2::provider::GoldilocksMerkleMleEngine as E;
use spartan2::r1cs::shape::SplitR1CSShape;
use spartan2::r1cs::sparse::SparseMatrix;
use spartan2::sumcheck::SumcheckProof;

fn f(x: u64) -> F {
    F::from(x)
}

fn fs(xs: &[u64]) -> Vec<F> {
    xs.iter().map(|x| f(*x)).collect()
}

#[test]
fn extensions_take_the_values_of_the_table() {
    let table = fs(&[11, 12, 13, 14, 15, 16, 17, 18]);
    let poly = MultilinearPolynomial::new(table.clone());
    assert_eq!(poly.len(), 8);
    for b in 0..8u64 {
        let bits = fs(&[b >> 2 & 1, b >> 1 & 1, b & 1]);
        assert_eq!(poly.evaluate(&bits), table[b as usize]);
        assert_eq!(poly.get(b as usize), table[b as usize]);
    }
}

#[test]
fn extensions_between_bit_strings() {
    // 3 (1 - x)(1 - y) + 5 (1 - x) y + 7 x (1 - y) + 11 x y at x = 2, y = 3
    let mut poly = MultilinearPolynomial::new(fs(&[3, 5, 7, 11]));
    let expected = f(11 * 6) + f(3 * 2) - f(5 * 3) - f(7 * 4);
    assert_eq!(poly.evaluate(&fs(&[2, 3])), expected);
    // binding the first variable to 2
    poly.bind_poly_var_top(&f(2));
    assert_eq!(poly.into_values(), fs(&[11, 17]));
    assert_eq!(fold_table(&fs(&[11, 17]), &f(3)), vec![expected]);
    assert_eq!(expected, f(29));
}

#[test]
fn equality_polynomial() {
    let point = fs(&[2, 5]);
    let table = EqPolynomial::<F>::evals_from_points(&point);
    // (1 - 2)(1 - 5), (1 - 2) 5, 2 (1 - 5), 2 * 5
    assert_eq!(table, vec![f(4), -f(5), -f(8), f(10)]);
    let eq = EqPolynomial::new(point);
    assert_eq!(eq.evals(), table);
    // (2 * 3 + (1 - 2)(1 - 3)) (5 * 4 + (1 - 5)(1 - 4))
    assert_eq!(eq.evaluate(&fs(&[3, 4])), f(8 * 32));
    assert_eq!(F::sum(&table), F::one());
    // the table extends to the polynomial
    assert_eq!(MultilinearPolynomial::new(table).evaluate(&fs(&[3, 4])), f(8 * 32));
    assert_eq!(EqPolynomial::<F>::evals_from_points(&[]), vec![F::one()]);
}

#[test]
fn sparse_polynomials_are_padded() {
    let sparse = SparsePolynomial::new(3, fs(&[4, 9, 2]));
    let dense = MultilinearPolynomial::new(fs(&[4, 9, 2, 0, 0, 0, 0, 0]));
    let point = fs(&[7, 8, 9]);
    assert_eq!(sparse.evaluate(&point), dense.evaluate(&point));
}

#[test]
fn univariate_interpolation() {
    // 3 + 2 x + 5 x^2
    let quad = UniPoly::from_evals(&fs(&[3, 10, 27]));
    assert_eq!(quad.degree(), 2);
    assert_eq!(quad.evaluate(&f(10)), f(523));
    // 1 + 4 x^2 + 2 x^3
    let cubic = UniPoly::from_evals(&fs(&[1, 7, 33, 91]));
    assert_eq!(cubic.degree(), 3);
    assert_eq!(cubic.evaluate(&f(10)), f(2401));
    let back = cubic.compress().decompress(&f(1 + 7));
    assert_eq!(back.evaluate(&f(10)), f(2401));
    assert_eq!(back.evaluate(&f(0)) + back.evaluate(&f(1)), f(8));
    assert_eq!(cubic.compress().len(), 3);
    let mut bytes = 1u64.to_le_bytes().to_vec();
    bytes.extend_from_slice(&4u64.to_le_bytes());
    bytes.extend_from_slice(&2u64.to_le_bytes());
    assert_eq!(cubic.compress().to_bytes(), bytes);
}

#[test]
fn sumcheck_of_a_product() {
    let a = fs(&[1, 2, 3, 4, 5, 6, 7, 8]);
    let b = fs(&[3, 1, 4, 1, 5, 9, 2, 6]);
    let claim = f(1 * 3 + 2 + 3 * 4 + 4 + 25 + 54 + 14 + 48);
    let mut tp = Keccak256Transcript::<E>::new(b"sc");
    let (proof, r, finals) = SumcheckProof::prove_quad(
        &claim,
        3,
        MultilinearPolynomial::new(a.clone()),
        MultilinearPolynomial::new(b.clone()),
        &mut tp,
    )
    .ok()
    .unwrap();
    let mut tv = Keccak256Transcript::<E>::new(b"sc");
    let (last, point) = proof.verify(claim, 3, 2, &mut tv).ok().unwrap();
    assert_eq!(point, r);
    assert_eq!(last, finals[0] * finals[1]);
    assert_eq!(finals[0], MultilinearPolynomial::new(a).evaluate(&point));
    assert_eq!(finals[1], MultilinearPolynomial::new(b).evaluate(&point));

    // another claim leads elsewhere
    let mut tv = Keccak256Transcript::<E>::new(b"sc");
    let (other, _) = proof.verify(claim + F::one(), 3, 2, &mut tv).ok().unwrap();
    assert_ne!(other, finals[0] * finals[1]);

    // wrong numbers of rounds and wrong degrees
    let mut tv = Keccak256Transcript::<E>::new(b"sc");
    assert_eq!(
        proof.verify(claim, 2, 2, &mut tv).err().unwrap(),
        SpartanError::InvalidSumcheckProof
    );
    assert_eq!(
        proof.verify(claim, 3, 3, &mut tv).err().unwrap(),
        SpartanError::InvalidSumcheckProof
    );
}

#[test]
fn sumcheck_with_an_additive_term() {
    let t = fs(&[2, 7, 1, 8]);
    let a = fs(&[1, 2, 3, 4]);
    let b = fs(&[5, 6, 7, 8]);
    let c = fs(&[5, 12, 21, 31]);
    // only the last position does not cancel: 8 * (32 - 31)
    let claim = f(8);
    let mut tp = Keccak256Transcript::<E>::new(b"sc");
    let (proof, r, finals) = SumcheckProof::prove_cubic_with_additive_term(
        &claim,
        2,
        MultilinearPolynomial::new(t),
        MultilinearPolynomial::new(a),
        MultilinearPolynomial::new(b),
        MultilinearPolynomial::new(c),
        &mut tp,
    )
    .ok()
    .unwrap();
    let mut tv = Keccak256Transcript::<E>::new(b"sc");
    let (last, point) = proof.verify(claim, 2, 3, &mut tv).ok().unwrap();
    assert_eq!(point, r);
    assert_eq!(last, finals[0] * (finals[1] * finals[2] - finals[3]));
    assert_eq!(tp.squeeze(b"end").unwrap(), tv.squeeze(b"end").unwrap());
}

#[test]
fn an_empty_round_polynomial_is_refused() {
    let proof = SumcheckProof::<E>::new(vec![CompressedUniPoly::new(vec![])]);
    let mut t = Keccak256Transcript::<E>::new(b"sc");
    assert_eq!(
        proof.verify(f(1), 1, 2, &mut t).err().unwrap(),
        SpartanError::InvalidSumcheckProof
    );
}

#[test]
fn sparse_matrices() {
    // [2 0 3]
    // [0 5 0]
    let triplets = vec![(0, 0, f(2)), (1, 1, f(5)), (0, 2, f(3))];
    let m = SparseMatrix::new(&triplets, 2, 3).ok().unwrap();
    assert_eq!((m.num_rows(), m.num_cols()), (2, 3));
    assert_eq!((m.row_len(0), m.row_len(1)), (2, 1));
    assert_eq!(m.get(0, 1), (2, f(3)));
    assert_eq!(m.multiply_vec(&fs(&[10, 20, 30])), fs(&[110, 100]));
    assert_eq!(m.times_vec(&fs(&[4, 6]), 5), fs(&[8, 30, 12, 0, 0]));
    assert_eq!(m.evaluate_with_tables(&fs(&[4, 6]), &fs(&[10, 20, 30])), f(4 * 110 + 6 * 100));
    assert_eq!(m.clone().multiply_vec(&fs(&[1, 1, 1])), fs(&[5, 5]));
    assert_eq!(
        SparseMatrix::new(&triplets, 1, 3).err().unwrap(),
        SpartanError::InvalidIndex
    );
    assert_eq!(
        SparseMatrix::new(&triplets, 2, 2).err().unwrap(),
        SpartanError::InvalidIndex
    );
}

#[test]
fn shapes_are_padded() {
    // columns: one shared, one precommitted and two other variables, the constant, a public value
    let a = vec![
        (0, 0, f(2)),
        (0, 1, f(3)),
        (1, 2, f(5)),
        (1, 3, f(7)),
        (2, 4, f(11)),
        (2, 5, f(13)),
    ];
    let shape = SplitR1CSShape::<E>::new(2, 3, 1, 1, 2, 1, 0, &a, &a, &a).ok().unwrap();
    assert_eq!(shape.sizes(), [3, 1, 1, 2, 4, 2, 2, 4, 1, 0]);
    // the padded columns of the variables are 0, 2, 4 and 5, those of the inputs 8 and 9
    let z = fs(&[1, 0, 2, 0, 3, 4, 0, 0, 1, 6]);
    let (az, bz, cz) = shape.multiply_vec(&z).ok().unwrap();
    assert_eq!(az, fs(&[2 + 6, 15 + 28, 11 + 78, 0]));
    assert_eq!(az, bz);
    assert_eq!(az, cz);
    assert_eq!(
        shape.multiply_vec(&z[1..]).err().unwrap(),
        SpartanError::InvalidWitnessLength
    );

    // inputs make room for themselves
    let none: Vec<(usize, usize, F)> = vec![];
    let shape = SplitR1CSShape::<E>::new(2, 1, 0, 0, 1, 4, 1, &none, &none, &none).ok().unwrap();
    assert_eq!(shape.sizes(), [1, 0, 0, 1, 1, 0, 0, 8, 4, 1]);
}

#[test]
fn shapes_that_do_not_fit() {
    let none: Vec<(usize, usize, F)> = vec![];
    let out = vec![(0, 3, f(1))];
    assert_eq!(
        SplitR1CSShape::<E>::new(2, 1, 0, 0, 1, 1, 0, &out, &none, &none).err().unwrap(),
        SpartanError::InvalidIndex
    );
    assert_eq!(
        SplitR1CSShape::<E>::new(2, 1, 0, 0, 1, 1, 0, &none, &none, &out).err().unwrap(),
        SpartanError::InvalidIndex
    );
    assert_eq!(
        SplitR1CSShape::<E>::new(2, 1, 0, 0, usize::MAX, 1, 0, &none, &none, &none).err().unwrap(),
        SpartanError::InvalidInputLength {
            reason: "SplitR1CSShape: sizes are too large".to_string()
        }
    );
}

#[test]
fn both_closures_run() {
    for enabled in [false, true] {
        let (a, b) = join(enabled, || 1 + 1, || "two".to_string());
        assert_eq!(a, 2);
        assert_eq!(b, "two");
    }
}
