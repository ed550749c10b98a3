//! Digests of verifier keys.
use crate::provider::keccak::{self, keccak256};
use crate::r1cs::shape::{ShapeModel, Sizes, SplitR1CSShape};
use crate::r1cs::sparse::{MatrixModel, SparseMatrix};
use crate::traits::{self, Engine, ScalarField};
use vstd::prelude::*;

verus! {

/// A 32-byte digest.
pub type SpartanDigest = [u8; 32];

/// The eight bytes of a number.
pub open spec fn number_bytes(n: nat) -> Seq<u8> {
    vstd::bytes::spec_u64_to_le_bytes(n as u64)
}

/// The bytes of an entry of a matrix: its column and its value.
pub open spec fn entry_bytes<S: ScalarField>(e: (int, int)) -> Seq<u8> {
    number_bytes(e.0 as nat) + S::repr_of(e.1)
}

/// The bytes of a row: the number of its entries and the entries.
pub open spec fn row_bytes<S: ScalarField>(row: Seq<(int, int)>) -> Seq<u8> {
    number_bytes(row.len()) + row.map_values(|e: (int, int)| entry_bytes::<S>(e)).flatten_alt()
}

/// The bytes of a matrix: the numbers of rows and columns, and the rows.
pub open spec fn matrix_bytes<S: ScalarField>(m: MatrixModel) -> Seq<u8> {
    number_bytes(m.rows.len()) + number_bytes(m.cols) + m.rows.map_values(
        |row: Seq<(int, int)>| row_bytes::<S>(row),
    ).flatten_alt()
}

/// The bytes of the sizes of a shape.
pub open spec fn sizes_bytes(unpadded: Sizes, sizes: Sizes) -> Seq<u8> {
    number_bytes(unpadded.num_cons) + number_bytes(unpadded.num_shared) + number_bytes(
        unpadded.num_precommitted,
    ) + number_bytes(unpadded.num_rest) + number_bytes(sizes.num_cons) + number_bytes(
        sizes.num_shared,
    ) + number_bytes(sizes.num_precommitted) + number_bytes(sizes.num_rest) + number_bytes(
        sizes.num_public,
    ) + number_bytes(sizes.num_challenges)
}

/// The bytes of a shape: its sizes and its matrices.
pub open spec fn shape_bytes<S: ScalarField>(s: ShapeModel) -> Seq<u8> {
    sizes_bytes(s.unpadded, s.sizes) + matrix_bytes::<S>(s.a) + matrix_bytes::<S>(s.b)
        + matrix_bytes::<S>(s.c)
}

/// The digest of a key and a shape.
pub open spec fn digest_of<S: ScalarField>(key: Seq<u8>, s: ShapeModel) -> Seq<u8> {
    keccak::keccak256_of(key + shape_bytes::<S>(s))
}

/// Appends the eight bytes of a number.
fn push_number(out: &mut Vec<u8>, n: usize)
    ensures
        final(out)@ == old(out)@ + number_bytes(n as nat),
{
    let bytes = vstd::bytes::u64_to_le_bytes(n as u64);
    out.extend_from_slice(bytes.as_slice());
    assert(out@ =~= old(out)@ + number_bytes(n as nat));
}

/// Appends the bytes of a matrix.
fn push_matrix<S: ScalarField>(out: &mut Vec<u8>, m: &SparseMatrix<S>)
    ensures
        final(out)@ == old(out)@ + matrix_bytes::<S>(m@),
{
    let ghost start = out@;
    let ghost all = m@.rows.map_values(|row: Seq<(int, int)>| row_bytes::<S>(row));
    let ghost head = start + number_bytes(m@.rows.len()) + number_bytes(m@.cols);
    push_number(out, m.num_rows());
    push_number(out, m.num_cols());
    assert(all.take(0).flatten_alt() =~= Seq::<u8>::empty());
    assert(out@ =~= head + all.take(0).flatten_alt());
    let n: usize = m.num_rows();
    for i in 0..n
        invariant
            n == m@.rows.len(),
            all == m@.rows.map_values(|row: Seq<(int, int)>| row_bytes::<S>(row)),
            out@ == head + all.take(i as int).flatten_alt(),
    {
        let ghost before = out@;
        let ghost row = m@.rows[i as int];
        let ghost cells = row.map_values(|e: (int, int)| entry_bytes::<S>(e));
        let len: usize = m.row_len(i);
        push_number(out, len);
        assert(cells.take(0).flatten_alt() =~= Seq::<u8>::empty());
        assert(out@ =~= before + number_bytes(row.len()) + cells.take(0).flatten_alt());
        for k in 0..len
            invariant
                i < m@.rows.len(),
                row == m@.rows[i as int],
                len == row.len(),
                cells == row.map_values(|e: (int, int)| entry_bytes::<S>(e)),
                out@ == before + number_bytes(row.len()) + cells.take(k as int).flatten_alt(),
        {
            let ghost so_far = out@;
            let (col, val) = m.get(i, k);
            push_number(out, col);
            let bytes = val.to_bytes();
            out.extend_from_slice(bytes.as_slice());
            assert(out@ =~= so_far + entry_bytes::<S>(row[k as int]));
            assert(cells.take(k + 1).drop_last() =~= cells.take(k as int));
            assert(out@ =~= before + number_bytes(row.len()) + cells.take(k + 1).flatten_alt());
        }
        assert(cells.take(len as int) =~= cells);
        assert(out@ =~= before + row_bytes::<S>(row));
        assert(all.take(i + 1).drop_last() =~= all.take(i as int));
        assert(out@ =~= head + all.take(i + 1).flatten_alt());
    }
    assert(all.take(n as int) =~= all);
    assert(out@ =~= start + matrix_bytes::<S>(m@));
}

/// The digest of a key and a shape.
pub(crate) fn compute_digest<E: Engine>(key: &Vec<u8>, S: &SplitR1CSShape<E>) -> (d: SpartanDigest)
    ensures
        d@ == digest_of::<E::Scalar>(key@, S@),
{
    S.note_valid();
    let mut out: Vec<u8> = Vec::new();
    out.extend_from_slice(key.as_slice());
    let sizes = S.sizes();
    let ghost all = sizes@.map_values(|x: usize| x as nat);
    assert(all[0] == sizes@[0] && all[1] == sizes@[1] && all[2] == sizes@[2] && all[3] == sizes@[3]
        && all[4] == sizes@[4] && all[5] == sizes@[5] && all[6] == sizes@[6] && all[7] == sizes@[7]
        && all[8] == sizes@[8] && all[9] == sizes@[9]);
    push_number(&mut out, sizes[0]);
    push_number(&mut out, sizes[1]);
    push_number(&mut out, sizes[2]);
    push_number(&mut out, sizes[3]);
    push_number(&mut out, sizes[4]);
    push_number(&mut out, sizes[5]);
    push_number(&mut out, sizes[6]);
    push_number(&mut out, sizes[7]);
    push_number(&mut out, sizes[8]);
    push_number(&mut out, sizes[9]);
    assert(out@ =~= key@ + sizes_bytes(S@.unpadded, S@.sizes));
    push_matrix(&mut out, &S.A);
    push_matrix(&mut out, &S.B);
    push_matrix(&mut out, &S.C);
    assert(out@ =~= key@ + shape_bytes::<E::Scalar>(S@));
    keccak256(out.as_slice())
}

/// A number that eight bytes hold.
pub open spec fn is_word(n: int) -> bool {
    0 <= n <= u64::MAX
}

/// A row whose columns and length are words and whose values are field elements.
pub open spec fn row_encodable<S: ScalarField>(row: Seq<(int, int)>) -> bool {
    &&& is_word(row.len() as int)
    &&& forall|k: int|
        0 <= k < row.len() ==> is_word((#[trigger] row[k]).0) && 0 <= row[k].1 < S::modulus()
}

/// A matrix whose sizes are words and whose rows can be encoded.
pub open spec fn matrix_encodable<S: ScalarField>(m: MatrixModel) -> bool {
    &&& is_word(m.rows.len() as int)
    &&& is_word(m.cols as int)
    &&& forall|i: int| 0 <= i < m.rows.len() ==> row_encodable::<S>(#[trigger] m.rows[i])
}

/// Sizes that are words.
pub open spec fn sizes_encodable(s: Sizes) -> bool {
    &&& is_word(s.num_cons as int)
    &&& is_word(s.num_shared as int)
    &&& is_word(s.num_precommitted as int)
    &&& is_word(s.num_rest as int)
    &&& is_word(s.num_public as int)
    &&& is_word(s.num_challenges as int)
}

/// A shape whose sizes are words and whose matrices can be encoded, with the same inputs before
/// padding as behind it.
pub open spec fn shape_encodable<S: ScalarField>(s: ShapeModel) -> bool {
    &&& sizes_encodable(s.unpadded)
    &&& sizes_encodable(s.sizes)
    &&& s.unpadded.num_public == s.sizes.num_public
    &&& s.unpadded.num_challenges == s.sizes.num_challenges
    &&& matrix_encodable::<S>(s.a)
    &&& matrix_encodable::<S>(s.b)
    &&& matrix_encodable::<S>(s.c)
}

/// Byte strings that start with parts of one length are equal exactly if the parts and what follows
/// them are.
pub proof fn lemma_split(a: Seq<u8>, b: Seq<u8>, x: Seq<u8>, y: Seq<u8>)
    requires
        a.len() == b.len(),
        a + x == b + y,
    ensures
        a == b,
        x == y,
{
    let n = a.len() as int;
    assert((a + x).take(n) =~= a);
    assert((b + y).take(n) =~= b);
    assert((a + x).skip(n) =~= x);
    assert((b + y).skip(n) =~= y);
}

/// A number is read back from the start of a byte string.
proof fn lemma_number(a: nat, b: nat, x: Seq<u8>, y: Seq<u8>)
    requires
        is_word(a as int),
        is_word(b as int),
        number_bytes(a) + x == number_bytes(b) + y,
    ensures
        a == b,
        x == y,
{
    vstd::bytes::lemma_auto_spec_u64_to_from_le_bytes();
    lemma_split(number_bytes(a), number_bytes(b), x, y);
    assert(vstd::bytes::spec_u64_from_le_bytes(number_bytes(a)) == a as u64);
    assert(vstd::bytes::spec_u64_from_le_bytes(number_bytes(b)) == b as u64);
}

/// An entry is read back from the start of a byte string.
proof fn lemma_entry<S: ScalarField>(a: (int, int), b: (int, int), x: Seq<u8>, y: Seq<u8>)
    requires
        is_word(a.0),
        is_word(b.0),
        0 <= a.1 < S::modulus(),
        0 <= b.1 < S::modulus(),
        entry_bytes::<S>(a) + x == entry_bytes::<S>(b) + y,
    ensures
        a == b,
        x == y,
{
    let (va, vb) = (S::repr_of(a.1), S::repr_of(b.1));
    S::law_encoding_is_injective(a.1, b.1);
    assert(entry_bytes::<S>(a) + x =~= number_bytes(a.0 as nat) + (va + x));
    assert(entry_bytes::<S>(b) + y =~= number_bytes(b.0 as nat) + (vb + y));
    lemma_number(a.0 as nat, b.0 as nat, va + x, vb + y);
    lemma_split(va, vb, x, y);
}

/// Entries are read back from the start of a byte string.
proof fn lemma_entries<S: ScalarField>(
    a: Seq<(int, int)>,
    b: Seq<(int, int)>,
    x: Seq<u8>,
    y: Seq<u8>,
)
    requires
        a.len() == b.len(),
        forall|k: int|
            0 <= k < a.len() ==> is_word((#[trigger] a[k]).0) && 0 <= a[k].1 < S::modulus(),
        forall|k: int|
            0 <= k < b.len() ==> is_word((#[trigger] b[k]).0) && 0 <= b[k].1 < S::modulus(),
        a.map_values(|e: (int, int)| entry_bytes::<S>(e)).flatten_alt() + x == b.map_values(
            |e: (int, int)| entry_bytes::<S>(e),
        ).flatten_alt() + y,
    ensures
        a == b,
        x == y,
    decreases a.len(),
{
    let ca = a.map_values(|e: (int, int)| entry_bytes::<S>(e));
    let cb = b.map_values(|e: (int, int)| entry_bytes::<S>(e));
    if a.len() == 0 {
        assert(ca.flatten_alt() + x =~= x);
        assert(cb.flatten_alt() + y =~= y);
        assert(a =~= b);
    } else {
        let (fa, fb) = (a.drop_last(), b.drop_last());
        assert(ca.drop_last() =~= fa.map_values(|e: (int, int)| entry_bytes::<S>(e)));
        assert(cb.drop_last() =~= fb.map_values(|e: (int, int)| entry_bytes::<S>(e)));
        let (la, lb) = (entry_bytes::<S>(a.last()), entry_bytes::<S>(b.last()));
        assert(ca.flatten_alt() + x =~= ca.drop_last().flatten_alt() + (la + x));
        assert(cb.flatten_alt() + y =~= cb.drop_last().flatten_alt() + (lb + y));
        lemma_entries::<S>(fa, fb, la + x, lb + y);
        lemma_entry::<S>(a.last(), b.last(), x, y);
        assert(a =~= fa.push(a.last()));
        assert(b =~= fb.push(b.last()));
    }
}

/// A row is read back from the start of a byte string.
proof fn lemma_row<S: ScalarField>(
    a: Seq<(int, int)>,
    b: Seq<(int, int)>,
    x: Seq<u8>,
    y: Seq<u8>,
)
    requires
        row_encodable::<S>(a),
        row_encodable::<S>(b),
        row_bytes::<S>(a) + x == row_bytes::<S>(b) + y,
    ensures
        a == b,
        x == y,
{
    let fa = a.map_values(|e: (int, int)| entry_bytes::<S>(e)).flatten_alt();
    let fb = b.map_values(|e: (int, int)| entry_bytes::<S>(e)).flatten_alt();
    assert(row_bytes::<S>(a) + x =~= number_bytes(a.len()) + (fa + x));
    assert(row_bytes::<S>(b) + y =~= number_bytes(b.len()) + (fb + y));
    lemma_number(a.len(), b.len(), fa + x, fb + y);
    lemma_entries::<S>(a, b, x, y);
}

/// Rows are read back from the start of a byte string.
proof fn lemma_rows<S: ScalarField>(
    a: Seq<Seq<(int, int)>>,
    b: Seq<Seq<(int, int)>>,
    x: Seq<u8>,
    y: Seq<u8>,
)
    requires
        a.len() == b.len(),
        forall|i: int| 0 <= i < a.len() ==> row_encodable::<S>(#[trigger] a[i]),
        forall|i: int| 0 <= i < b.len() ==> row_encodable::<S>(#[trigger] b[i]),
        a.map_values(|row: Seq<(int, int)>| row_bytes::<S>(row)).flatten_alt() + x == b.map_values(
            |row: Seq<(int, int)>| row_bytes::<S>(row),
        ).flatten_alt() + y,
    ensures
        a == b,
        x == y,
    decreases a.len(),
{
    let ca = a.map_values(|row: Seq<(int, int)>| row_bytes::<S>(row));
    let cb = b.map_values(|row: Seq<(int, int)>| row_bytes::<S>(row));
    if a.len() == 0 {
        assert(ca.flatten_alt() + x =~= x);
        assert(cb.flatten_alt() + y =~= y);
        assert(a =~= b);
    } else {
        let (fa, fb) = (a.drop_last(), b.drop_last());
        assert(ca.drop_last() =~= fa.map_values(|row: Seq<(int, int)>| row_bytes::<S>(row)));
        assert(cb.drop_last() =~= fb.map_values(|row: Seq<(int, int)>| row_bytes::<S>(row)));
        let (la, lb) = (row_bytes::<S>(a.last()), row_bytes::<S>(b.last()));
        assert(ca.flatten_alt() + x =~= ca.drop_last().flatten_alt() + (la + x));
        assert(cb.flatten_alt() + y =~= cb.drop_last().flatten_alt() + (lb + y));
        lemma_rows::<S>(fa, fb, la + x, lb + y);
        lemma_row::<S>(a.last(), b.last(), x, y);
        assert(a =~= fa.push(a.last()));
        assert(b =~= fb.push(b.last()));
    }
}

/// A matrix is read back from the start of a byte string.
proof fn lemma_matrix<S: ScalarField>(a: MatrixModel, b: MatrixModel, x: Seq<u8>, y: Seq<u8>)
    requires
        matrix_encodable::<S>(a),
        matrix_encodable::<S>(b),
        matrix_bytes::<S>(a) + x == matrix_bytes::<S>(b) + y,
    ensures
        a == b,
        x == y,
{
    let fa = a.rows.map_values(|row: Seq<(int, int)>| row_bytes::<S>(row)).flatten_alt();
    let fb = b.rows.map_values(|row: Seq<(int, int)>| row_bytes::<S>(row)).flatten_alt();
    let (na, nb) = (number_bytes(a.cols), number_bytes(b.cols));
    assert(matrix_bytes::<S>(a) + x =~= number_bytes(a.rows.len()) + (na + (fa + x)));
    assert(matrix_bytes::<S>(b) + y =~= number_bytes(b.rows.len()) + (nb + (fb + y)));
    lemma_number(a.rows.len(), b.rows.len(), na + (fa + x), nb + (fb + y));
    lemma_number(a.cols, b.cols, fa + x, fb + y);
    lemma_rows::<S>(a.rows, b.rows, x, y);
}

/// Sizes are read back from the start of a byte string.
proof fn lemma_sizes(
    u: Sizes,
    s: Sizes,
    v: Sizes,
    t: Sizes,
    x: Seq<u8>,
    y: Seq<u8>,
)
    requires
        sizes_encodable(u),
        sizes_encodable(s),
        sizes_encodable(v),
        sizes_encodable(t),
        sizes_bytes(u, s) + x == sizes_bytes(v, t) + y,
    ensures
        u.num_cons == v.num_cons,
        u.num_shared == v.num_shared,
        u.num_precommitted == v.num_precommitted,
        u.num_rest == v.num_rest,
        s == t,
        x == y,
{
    vstd::bytes::lemma_auto_spec_u64_to_from_le_bytes();
    let x10 = number_bytes(s.num_challenges) + x;
    let y10 = number_bytes(t.num_challenges) + y;
    let x9 = number_bytes(s.num_public) + x10;
    let y9 = number_bytes(t.num_public) + y10;
    let x8 = number_bytes(s.num_rest) + x9;
    let y8 = number_bytes(t.num_rest) + y9;
    let x7 = number_bytes(s.num_precommitted) + x8;
    let y7 = number_bytes(t.num_precommitted) + y8;
    let x6 = number_bytes(s.num_shared) + x7;
    let y6 = number_bytes(t.num_shared) + y7;
    let x5 = number_bytes(s.num_cons) + x6;
    let y5 = number_bytes(t.num_cons) + y6;
    let x4 = number_bytes(u.num_rest) + x5;
    let y4 = number_bytes(v.num_rest) + y5;
    let x3 = number_bytes(u.num_precommitted) + x4;
    let y3 = number_bytes(v.num_precommitted) + y4;
    let x2 = number_bytes(u.num_shared) + x3;
    let y2 = number_bytes(v.num_shared) + y3;
    assert(sizes_bytes(u, s) + x =~= number_bytes(u.num_cons) + x2);
    assert(sizes_bytes(v, t) + y =~= number_bytes(v.num_cons) + y2);
    lemma_number(u.num_cons, v.num_cons, x2, y2);
    lemma_number(u.num_shared, v.num_shared, x3, y3);
    lemma_number(u.num_precommitted, v.num_precommitted, x4, y4);
    lemma_number(u.num_rest, v.num_rest, x5, y5);
    lemma_number(s.num_cons, t.num_cons, x6, y6);
    lemma_number(s.num_shared, t.num_shared, x7, y7);
    lemma_number(s.num_precommitted, t.num_precommitted, x8, y8);
    lemma_number(s.num_rest, t.num_rest, x9, y9);
    lemma_number(s.num_public, t.num_public, x10, y10);
    lemma_number(s.num_challenges, t.num_challenges, x, y);
}

/// The bytes of a shape determine the shape: its sizes before and behind padding, and every entry
/// of its matrices.
pub proof fn law_shape_bytes_bind<S: ScalarField>(s: ShapeModel, t: ShapeModel)
    requires
        shape_encodable::<S>(s),
        shape_encodable::<S>(t),
        shape_bytes::<S>(s) == shape_bytes::<S>(t),
    ensures
        s == t,
{
    let (ma, mb, mc) = (matrix_bytes::<S>(s.a), matrix_bytes::<S>(s.b), matrix_bytes::<S>(s.c));
    let (na, nb, nc) = (matrix_bytes::<S>(t.a), matrix_bytes::<S>(t.b), matrix_bytes::<S>(t.c));
    let none = Seq::<u8>::empty();
    assert(shape_bytes::<S>(s) =~= sizes_bytes(s.unpadded, s.sizes) + (ma + (mb + (mc + none))));
    assert(shape_bytes::<S>(t) =~= sizes_bytes(t.unpadded, t.sizes) + (na + (nb + (nc + none))));
    lemma_sizes(
        s.unpadded,
        s.sizes,
        t.unpadded,
        t.sizes,
        ma + (mb + (mc + none)),
        na + (nb + (nc + none)),
    );
    lemma_matrix::<S>(s.a, t.a, mb + (mc + none), nb + (nc + none));
    lemma_matrix::<S>(s.b, t.b, mc + none, nc + none);
    lemma_matrix::<S>(s.c, t.c, none, none);
}

/// A digest binds the key and the shape: with keys of one length, equal digests come from equal
/// keys and equal shapes, unless Keccak-256 fails.
pub proof fn law_digest_binds<S: ScalarField>(
    key: Seq<u8>,
    s: ShapeModel,
    other: Seq<u8>,
    t: ShapeModel,
)
    requires
        key.len() == other.len(),
        shape_encodable::<S>(s),
        shape_encodable::<S>(t),
        digest_of::<S>(key, s) == digest_of::<S>(other, t),
    ensures
        (key == other && s == t) || keccak::keccak256_fails(),
{
    let x = key + shape_bytes::<S>(s);
    let y = other + shape_bytes::<S>(t);
    assert(keccak::keccak256_of(x) == keccak::keccak256_of(y));
    if x == y {
        lemma_split(key, other, shape_bytes::<S>(s), shape_bytes::<S>(t));
        law_shape_bytes_bind::<S>(s, t);
    }
}

/// Encodings of vectors of one length are equal only for equal vectors.
pub proof fn law_vector_bytes_bind<S: ScalarField>(a: Seq<int>, b: Seq<int>)
    requires
        a.len() == b.len(),
        forall|k: int| 0 <= k < a.len() ==> 0 <= #[trigger] a[k] < S::modulus(),
        forall|k: int| 0 <= k < b.len() ==> 0 <= #[trigger] b[k] < S::modulus(),
        traits::scalar_reprs::<S>(a) == traits::scalar_reprs::<S>(b),
    ensures
        a == b,
{
    let none = Seq::<u8>::empty();
    assert(traits::scalar_reprs::<S>(a) + none =~= traits::scalar_reprs::<S>(b) + none);
    lemma_vector::<S>(a, b, none, none);
}

/// A vector is read back from the start of a byte string.
pub proof fn lemma_vector<S: ScalarField>(a: Seq<int>, b: Seq<int>, x: Seq<u8>, y: Seq<u8>)
    requires
        a.len() == b.len(),
        forall|k: int| 0 <= k < a.len() ==> 0 <= #[trigger] a[k] < S::modulus(),
        forall|k: int| 0 <= k < b.len() ==> 0 <= #[trigger] b[k] < S::modulus(),
        traits::scalar_reprs::<S>(a) + x == traits::scalar_reprs::<S>(b) + y,
    ensures
        a == b,
        x == y,
    decreases a.len(),
{
    let ca = a.map_values(|v: int| S::repr_of(v));
    let cb = b.map_values(|v: int| S::repr_of(v));
    if a.len() == 0 {
        assert(ca.flatten_alt() + x =~= x);
        assert(cb.flatten_alt() + y =~= y);
        assert(a =~= b);
    } else {
        let (fa, fb) = (a.drop_last(), b.drop_last());
        assert(ca.drop_last() =~= fa.map_values(|v: int| S::repr_of(v)));
        assert(cb.drop_last() =~= fb.map_values(|v: int| S::repr_of(v)));
        let (la, lb) = (S::repr_of(a.last()), S::repr_of(b.last()));
        assert(ca.flatten_alt() + x =~= ca.drop_last().flatten_alt() + (la + x));
        assert(cb.flatten_alt() + y =~= cb.drop_last().flatten_alt() + (lb + y));
        lemma_vector::<S>(fa, fb, la + x, lb + y);
        S::law_encoding_is_injective(a.last(), b.last());
        lemma_split(la, lb, x, y);
        assert(a =~= fa.push(a.last()));
        assert(b =~= fb.push(b.last()));
    }
}

} // verus!
