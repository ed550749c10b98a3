//! Sparse matrices.
use crate::errors::{self, ErrorModel, SpartanError};
use crate::modular;
use crate::polys::arith::{add2, mul2};
use crate::polys::multilinear::copy_table;
use crate::polys::sums;
use crate::traits::{self, ScalarField};
#[allow(unused_imports)]
use vstd::arithmetic::div_mod::*;
#[allow(unused_imports)]
use vstd::arithmetic::mul::*;
use vstd::prelude::*;

verus! {

/// What a sparse matrix holds.
pub struct MatrixModel {
    /// For every row, columns with the integers that stand there.
    pub rows: Seq<Seq<(int, int)>>,
    /// The number of columns.
    pub cols: nat,
}

/// What the first `n` entries of a row put into column `j`.
pub open spec fn row_entry(row: Seq<(int, int)>, j: int, n: nat) -> int {
    sums::sum(
        |k: int|
            if row[k].0 == j {
                row[k].1
            } else {
                0
            },
        n,
    )
}

/// The entry in row `i` and column `j`.
pub open spec fn entry(m: MatrixModel, i: int, j: int) -> int {
    row_entry(m.rows[i], j, m.rows[i].len())
}

/// Row `i` of the product of the matrix and the vector `z`.
pub open spec fn row_times(m: MatrixModel, z: Seq<int>, i: int) -> int {
    sums::sum(|j: int| entry(m, i, j) * z[j], m.cols)
}

/// Column `j` of the product of the vector `x` and the matrix.
pub open spec fn times_column(m: MatrixModel, x: Seq<int>, j: int) -> int {
    sums::sum(|i: int| x[i] * entry(m, i, j), m.rows.len())
}

/// The product of the vector `x`, the matrix and the vector `y`.
pub open spec fn bilinear(m: MatrixModel, x: Seq<int>, y: Seq<int>) -> int {
    sums::sum(|i: int| x[i] * row_times(m, y, i), m.rows.len())
}

/// Every entry stands in a column of the matrix.
pub open spec fn in_bounds(m: MatrixModel) -> bool {
    forall|i: int, k: int|
        0 <= i < m.rows.len() && 0 <= k < m.rows[i].len() ==> 0 <= (#[trigger] m.rows[i][k]).0
            < m.cols
}

/// The sum of the first `n` entries of a row, each one times the component of `z` in its column.
pub open spec fn sparse_sum(row: Seq<(int, int)>, z: Seq<int>, n: nat) -> int {
    sums::sum(|k: int| row[k].1 * z[row[k].0], n)
}

/// Summing over entries is the same as summing over columns.
pub proof fn lemma_sparse_sum(row: Seq<(int, int)>, z: Seq<int>, cols: nat, n: nat)
    requires
        n <= row.len(),
        forall|k: int| 0 <= k < n ==> 0 <= (#[trigger] row[k]).0 < cols,
    ensures
        sparse_sum(row, z, n) == sums::sum(|j: int| row_entry(row, j, n) * z[j], cols),
    decreases n,
{
    let now = |j: int| row_entry(row, j, n) * z[j];
    if n == 0 {
        sums::lemma_sum_zero(now, cols);
    } else {
        let m = (n - 1) as nat;
        lemma_sparse_sum(row, z, cols, m);
        let c = row[n - 1].0;
        let v = row[n - 1].1;
        let before = |j: int| row_entry(row, j, m) * z[j];
        let single = |j: int|
            if j == c {
                v * z[j]
            } else {
                0
            };
        assert forall|j: int| 0 <= j < cols implies #[trigger] now(j) == before(j) + single(j) by {
            let d = if c == j {
                v
            } else {
                0
            };
            assert(row_entry(row, j, n) == row_entry(row, j, m) + d);
            lemma_mul_is_distributive_add_other_way(z[j], row_entry(row, j, m), d);
        }
        sums::lemma_sum_add(before, single, now, cols);
        sums::lemma_sum_single(single, c, cols);
    }
}

/// The order of a double sum does not matter.
pub proof fn lemma_sum_swap(f: spec_fn(int, int) -> int, r: nat, c: nat)
    ensures
        sums::sum(|i: int| sums::sum(|j: int| f(i, j), c), r) == sums::sum(
            |j: int| sums::sum(|i: int| f(i, j), r),
            c,
        ),
    decreases r,
{
    let by_rows = |i: int| sums::sum(|j: int| f(i, j), c);
    let by_cols = |j: int| sums::sum(|i: int| f(i, j), r);
    if r == 0 {
        sums::lemma_sum_zero(by_cols, c);
    } else {
        let m = (r - 1) as nat;
        lemma_sum_swap(f, m, c);
        let fewer = |j: int| sums::sum(|i: int| f(i, j), m);
        let last = |j: int| f(r - 1, j);
        assert forall|j: int| 0 <= j < c implies #[trigger] by_cols(j) == fewer(j) + last(j) by {
            let g = |i: int| f(i, j);
            assert(sums::sum(g, r) == sums::sum(g, m) + g(r - 1));
        }
        sums::lemma_sum_add(fewer, last, by_cols, c);
        assert(by_rows(r - 1) == sums::sum(last, c)) by {
            sums::lemma_sum_eq(|j: int| f(r - 1, j), last, c);
        }
    }
}

/// Multiplying a matrix by vectors on both sides can start on either side.
pub proof fn law_bilinear_by_columns(m: MatrixModel, x: Seq<int>, y: Seq<int>)
    ensures
        bilinear(m, x, y) == sums::sum(|j: int| times_column(m, x, j) * y[j], m.cols),
{
    let r = m.rows.len();
    let c = m.cols;
    let f = |i: int, j: int| x[i] * entry(m, i, j) * y[j];
    lemma_sum_swap(f, r, c);
    let rows = |i: int| x[i] * row_times(m, y, i);
    let by_rows = |i: int| sums::sum(|j: int| f(i, j), c);
    assert forall|i: int| 0 <= i < r implies #[trigger] rows(i) == by_rows(i) by {
        let g = |j: int| entry(m, i, j) * y[j];
        let h = |j: int| f(i, j);
        assert forall|j: int| 0 <= j < c implies #[trigger] h(j) == x[i] * g(j) by {
            lemma_mul_is_associative(x[i], entry(m, i, j), y[j]);
        }
        sums::lemma_sum_scale(x[i], g, h, c);
    }
    sums::lemma_sum_eq(rows, by_rows, r);
    let cols = |j: int| times_column(m, x, j) * y[j];
    let by_cols = |j: int| sums::sum(|i: int| f(i, j), r);
    assert forall|j: int| 0 <= j < c implies #[trigger] cols(j) == by_cols(j) by {
        let g = |i: int| x[i] * entry(m, i, j);
        let h = |i: int| f(i, j);
        assert forall|i: int| 0 <= i < r implies #[trigger] h(i) == y[j] * g(i) by {
            lemma_mul_is_commutative(x[i] * entry(m, i, j), y[j]);
        }
        sums::lemma_sum_scale(y[j], g, h, r);
        lemma_mul_is_commutative(y[j], times_column(m, x, j));
    }
    sums::lemma_sum_eq(cols, by_cols, c);
}

/// Entries in other columns put nothing into column `j`.
proof fn lemma_row_entry_zero(row: Seq<(int, int)>, j: int, n: nat)
    requires
        forall|k: int| 0 <= k < n ==> (#[trigger] row[k]).0 != j,
    ensures
        row_entry(row, j, n) == 0,
    decreases n,
{
    if n > 0 {
        lemma_row_entry_zero(row, j, (n - 1) as nat);
        assert(row[n - 1].0 != j);
        assert(row_entry(row, j, n) == row_entry(row, j, (n - 1) as nat) + 0);
    }
}

/// A column behind the last one is empty.
pub proof fn lemma_outside(m: MatrixModel, x: Seq<int>, j: int)
    requires
        in_bounds(m),
        j >= m.cols,
    ensures
        times_column(m, x, j) == 0,
{
    let f = |i: int| x[i] * entry(m, i, j);
    assert forall|i: int| 0 <= i < m.rows.len() implies #[trigger] f(i) == 0 by {
        let row = m.rows[i];
        assert forall|k: int| 0 <= k < row.len() implies (#[trigger] row[k]).0 != j by {
            assert(m.rows[i][k].0 < m.cols);
        }
        lemma_row_entry_zero(row, j, row.len());
        lemma_mul_basics(x[i]);
    }
    sums::lemma_sum_zero(f, m.rows.len());
}

/// The integers in a row.
pub open spec fn row_vals<S: ScalarField>(row: Seq<(usize, S)>) -> Seq<(int, int)> {
    row.map_values(|e: (usize, S)| (e.0 as int, e.1.val()))
}

/// The integers in all rows.
pub open spec fn rows_vals<S: ScalarField>(rows: Seq<Vec<(usize, S)>>) -> Seq<Seq<(int, int)>> {
    rows.map_values(|r: Vec<(usize, S)>| row_vals(r@))
}

/// What row `i` gets from the first `n` triplets of row, column and value.
pub open spec fn row_of(ts: Seq<(int, int, int)>, i: int, n: nat) -> Seq<(int, int)>
    decreases n,
{
    if n == 0 {
        Seq::empty()
    } else if ts[n - 1].0 == i {
        row_of(ts, i, (n - 1) as nat).push((ts[n - 1].1, ts[n - 1].2))
    } else {
        row_of(ts, i, (n - 1) as nat)
    }
}

/// The matrix with the given triplets of row, column and value.
pub open spec fn matrix_of(ts: Seq<(int, int, int)>, rows: nat, cols: nat) -> MatrixModel {
    MatrixModel { rows: Seq::new(rows, |i: int| row_of(ts, i, ts.len())), cols }
}

/// All triplets lie in the matrix.
pub open spec fn triplets_fit(ts: Seq<(int, int, int)>, rows: nat, cols: nat) -> bool {
    forall|k: int|
        0 <= k < ts.len() ==> 0 <= (#[trigger] ts[k]).0 < rows && 0 <= ts[k].1 < cols
}

/// The integers in triplets.
pub open spec fn triplet_vals<S: ScalarField>(ts: Seq<(usize, usize, S)>) -> Seq<(int, int, int)> {
    ts.map_values(|t: (usize, usize, S)| (t.0 as int, t.1 as int, t.2.val()))
}

/// A sparse matrix.
pub struct SparseMatrix<S: ScalarField> {
    rows: Vec<Vec<(usize, S)>>,
    cols: usize,
}

impl<S: ScalarField> View for SparseMatrix<S> {
    type V = MatrixModel;

    closed spec fn view(&self) -> MatrixModel {
        MatrixModel { rows: rows_vals(self.rows@), cols: self.cols as nat }
    }
}

impl<S: ScalarField> Clone for SparseMatrix<S> {
    fn clone(&self) -> (r: Self)
        ensures
            r@ == self@,
    {
        proof {
            use_type_invariant(self);
        }
        let mut rows: Vec<Vec<(usize, S)>> = Vec::new();
        let n: usize = self.rows.len();
        for i in 0..n
            invariant
                n == self.rows@.len(),
                rows@.len() == i,
                forall|l: int| 0 <= l < i ==> (#[trigger] rows@[l])@ == self.rows@[l]@,
        {
            rows.push(copy_table(self.rows[i].as_slice()));
        }
        assert(rows_vals(rows@) =~= rows_vals(self.rows@));
        SparseMatrix { rows, cols: self.cols }
    }
}

impl<S: ScalarField> SparseMatrix<S> {
    /// Every entry stands in a column of the matrix.
    #[verifier::type_invariant]
    spec fn fits(self) -> bool {
        in_bounds(self@)
    }

    /// The matrix with the given triplets of row, column and value.
    pub fn new(triplets: &Vec<(usize, usize, S)>, num_rows: usize, num_cols: usize) -> (r: Result<
        Self,
        SpartanError,
    >)
        ensures
            match r {
                Ok(m) => {
                    &&& triplets_fit(triplet_vals(triplets@), num_rows as nat, num_cols as nat)
                    &&& m@ == matrix_of(
                        triplet_vals(triplets@),
                        num_rows as nat,
                        num_cols as nat,
                    )
                    &&& in_bounds(m@)
                },
                Err(e) => {
                    &&& !triplets_fit(triplet_vals(triplets@), num_rows as nat, num_cols as nat)
                    &&& e@ == ErrorModel::InvalidIndex
                },
            },
    {
        let ghost ts = triplet_vals(triplets@);
        let mut rows: Vec<Vec<(usize, S)>> = Vec::new();
        for i in 0..num_rows
            invariant
                rows@.len() == i,
                forall|l: int| 0 <= l < i ==> (#[trigger] rows@[l])@ == Seq::<(usize, S)>::empty(),
        {
            rows.push(Vec::new());
        }
        assert forall|l: int| 0 <= l < num_rows implies row_vals((#[trigger] rows@[l])@) == row_of(
            ts,
            l,
            0,
        ) by {
            assert(row_vals(rows@[l]@) =~= row_of(ts, l, 0));
        }
        for k in 0..triplets.len()
            invariant
                ts == triplet_vals(triplets@),
                rows@.len() == num_rows,
                forall|l: int|
                    0 <= l < num_rows ==> row_vals((#[trigger] rows@[l])@) == row_of(
                        ts,
                        l,
                        k as nat,
                    ),
                forall|l: int, j: int|
                    0 <= l < num_rows && 0 <= j < rows@[l]@.len() ==> (#[trigger] rows@[l]@[j]).0
                        < num_cols,
                forall|l: int|
                    0 <= l < k ==> 0 <= (#[trigger] ts[l]).0 < num_rows && 0 <= ts[l].1 < num_cols,
        {
            let (row, col, val) = triplets[k];
            assert(ts[k as int] == (row as int, col as int, val.val()));
            if row >= num_rows || col >= num_cols {
                return Err(SpartanError::InvalidIndex);
            }
            let ghost before = rows@;
            rows[row].push((col, val));
            assert forall|l: int| 0 <= l < num_rows implies row_vals((#[trigger] rows@[l])@)
                == row_of(ts, l, (k + 1) as nat) by {
                assert(row_vals(before[l]@) == row_of(ts, l, k as nat));
                if l == row {
                    assert(row_vals(rows@[l]@) =~= row_vals(before[l]@).push(
                        (col as int, val.val()),
                    ));
                }
            }
            assert forall|l: int, j: int|
                0 <= l < num_rows && 0 <= j < rows@[l]@.len() implies (#[trigger] rows@[l]@[j]).0
                < num_cols by {
                if l == row && j == before[l]@.len() {
                } else {
                    assert(rows@[l]@[j] == before[l]@[j]);
                }
            }
        }
        let ghost m = matrix_of(ts, num_rows as nat, num_cols as nat);
        assert(rows_vals(rows@) =~= m.rows);
        assert forall|i: int, k: int|
            0 <= i < m.rows.len() && 0 <= k < m.rows[i].len() implies 0 <= (
        #[trigger] m.rows[i][k]).0 < m.cols by {
            assert(m.rows[i] == row_vals(rows@[i]@));
            assert(m.rows[i][k].0 == rows@[i]@[k].0);
        }
        Ok(SparseMatrix { rows, cols: num_cols })
    }

    /// The number of rows.
    pub fn num_rows(&self) -> (n: usize)
        ensures
            n == self@.rows.len(),
    {
        self.rows.len()
    }

    /// The number of columns.
    pub fn num_cols(&self) -> (n: usize)
        ensures
            n == self@.cols,
    {
        self.cols
    }

    /// The number of entries in row `i`.
    pub fn row_len(&self, i: usize) -> (n: usize)
        requires
            i < self@.rows.len(),
        ensures
            n == self@.rows[i as int].len(),
    {
        assert(self@.rows[i as int] == row_vals(self.rows@[i as int]@));
        self.rows[i].len()
    }

    /// Entry `k` of row `i`: its column and its value.
    pub fn get(&self, i: usize, k: usize) -> (e: (usize, S))
        requires
            i < self@.rows.len(),
            k < self@.rows[i as int].len(),
        ensures
            (e.0 as int, e.1.val()) == self@.rows[i as int][k as int],
    {
        assert(self@.rows[i as int] == row_vals(self.rows@[i as int]@));
        self.rows[i][k]
    }

    /// Row `i` of the product of the matrix and the vector `z`.
    fn multiply_row(&self, z: &[S], i: usize) -> (v: S)
        requires
            i < self@.rows.len(),
            z@.len() >= self@.cols,
        ensures
            v.val() == row_times(self@, traits::vals(z@), i as int) % S::modulus(),
    {
        proof {
            use_type_invariant(self);
        }
        let ghost p = S::modulus();
        let ghost zs = traits::vals(z@);
        let ghost row = self@.rows[i as int];
        let mut acc = S::zero();
        proof {
            S::lemma_modulus();
            lemma_small_mod(0, p as nat);
        }
        let n: usize = self.rows[i].len();
        for k in 0..n
            invariant
                p == S::modulus(),
                p > 1,
                zs == traits::vals(z@),
                i < self.rows@.len(),
                n == self.rows@[i as int]@.len(),
                row == row_vals(self.rows@[i as int]@),
                in_bounds(self@),
                self@.rows == rows_vals(self.rows@),
                z@.len() >= self@.cols,
                acc.val() == sparse_sum(row, zs, k as nat) % p,
        {
            let (col, val) = self.rows[i][k];
            assert(row[k as int] == (col as int, val.val()));
            assert(self@.rows[i as int][k as int].0 < self@.cols);
            let term = mul2(val, z[col], Ghost(val.val()), Ghost(zs[col as int]));
            proof {
                modular::lemma_cong_mod(p, sparse_sum(row, zs, k as nat));
            }
            acc = add2(
                acc,
                term,
                Ghost(sparse_sum(row, zs, k as nat)),
                Ghost(val.val() * zs[col as int]),
            );
        }
        proof {
            assert forall|k: int| 0 <= k < n implies 0 <= (#[trigger] row[k]).0 < self@.cols by {
                assert(self@.rows[i as int][k].0 < self@.cols);
            }
            lemma_sparse_sum(row, zs, self@.cols, n as nat);
            let f = |j: int| row_entry(row, j, n as nat) * zs[j];
            let g = |j: int| entry(self@, i as int, j) * zs[j];
            sums::lemma_sum_eq(f, g, self@.cols);
        }
        acc
    }

    /// The product of the matrix and the vector `z`.
    pub fn multiply_vec(&self, z: &[S]) -> (v: Vec<S>)
        requires
            z@.len() >= self@.cols,
        ensures
            v@.len() == self@.rows.len(),
            forall|i: int|
                0 <= i < v@.len() ==> (#[trigger] v@[i]).val() == row_times(
                    self@,
                    traits::vals(z@),
                    i,
                ) % S::modulus(),
    {
        let mut v: Vec<S> = Vec::new();
        let n: usize = self.num_rows();
        for i in 0..n
            invariant
                n == self@.rows.len(),
                z@.len() >= self@.cols,
                v@.len() == i,
                forall|l: int|
                    0 <= l < i ==> (#[trigger] v@[l]).val() == row_times(
                        self@,
                        traits::vals(z@),
                        l,
                    ) % S::modulus(),
        {
            v.push(self.multiply_row(z, i));
        }
        v
    }

    /// The product of the vectors `x` and `y` with the matrix between them.
    pub fn evaluate_with_tables(&self, x: &[S], y: &[S]) -> (v: S)
        requires
            x@.len() >= self@.rows.len(),
            y@.len() >= self@.cols,
        ensures
            v.val() == bilinear(self@, traits::vals(x@), traits::vals(y@)) % S::modulus(),
    {
        let ghost p = S::modulus();
        let ghost xs = traits::vals(x@);
        let ghost ys = traits::vals(y@);
        let ghost f = |i: int| xs[i] * row_times(self@, ys, i);
        let mut acc = S::zero();
        proof {
            S::lemma_modulus();
            lemma_small_mod(0, p as nat);
        }
        let n: usize = self.num_rows();
        for i in 0..n
            invariant
                p == S::modulus(),
                p > 1,
                xs == traits::vals(x@),
                ys == traits::vals(y@),
                f == (|i: int| xs[i] * row_times(self@, ys, i)),
                n == self@.rows.len(),
                x@.len() >= n,
                y@.len() >= self@.cols,
                acc.val() == sums::sum(f, i as nat) % p,
        {
            let row = self.multiply_row(y, i);
            let ghost r = row_times(self@, ys, i as int);
            proof {
                modular::lemma_cong_mod(p, r);
                modular::lemma_cong_mod(p, sums::sum(f, i as nat));
            }
            let term = mul2(x[i], row, Ghost(xs[i as int]), Ghost(r));
            acc = add2(acc, term, Ghost(sums::sum(f, i as nat)), Ghost(xs[i as int] * r));
        }
        acc
    }

    /// Adds `x` times row `i` to `table`.
    fn add_row(&self, table: &mut Vec<S>, x: &S, i: usize, Ghost(base): Ghost<Seq<int>>)
        requires
            i < self@.rows.len(),
            old(table)@.len() >= self@.cols,
            base.len() == old(table)@.len(),
            forall|j: int|
                0 <= j < base.len() ==> (#[trigger] old(table)@[j]).val() == base[j]
                    % S::modulus(),
        ensures
            final(table)@.len() == old(table)@.len(),
            forall|j: int|
                0 <= j < base.len() ==> (#[trigger] final(table)@[j]).val() == (base[j] + x.val()
                    * entry(self@, i as int, j)) % S::modulus(),
    {
        proof {
            use_type_invariant(self);
        }
        let ghost p = S::modulus();
        let ghost row = self@.rows[i as int];
        let ghost len = table@.len();
        let n: usize = self.rows[i].len();
        proof {
            S::lemma_modulus();
        }
        assert forall|j: int| 0 <= j < len implies (#[trigger] table@[j]).val() == (base[j]
            + x.val() * row_entry(row, j, 0)) % p by {
            assert(row_entry(row, j, 0) == 0);
            assert(x.val() * 0 == 0);
        }
        for k in 0..n
            invariant
                p == S::modulus(),
                p > 1,
                i < self.rows@.len(),
                n == self.rows@[i as int]@.len(),
                row == row_vals(self.rows@[i as int]@),
                in_bounds(self@),
                self@.rows == rows_vals(self.rows@),
                len == table@.len(),
                len >= self@.cols,
                len == base.len(),
                forall|j: int|
                    0 <= j < len ==> (#[trigger] table@[j]).val() == (base[j] + x.val()
                        * row_entry(row, j, k as nat)) % p,
        {
            let (col, val) = self.rows[i][k];
            assert(row[k as int] == (col as int, val.val()));
            assert(self@.rows[i as int][k as int].0 < self@.cols);
            let ghost before = table@;
            let ghost part = base[col as int] + x.val() * row_entry(row, col as int, k as nat);
            let term = mul2(*x, val, Ghost(x.val()), Ghost(val.val()));
            proof {
                modular::lemma_cong_mod(p, part);
            }
            let cell = add2(table[col], term, Ghost(part), Ghost(x.val() * val.val()));
            table.set(col, cell);
            assert forall|j: int| 0 <= j < len implies (#[trigger] table@[j]).val() == (base[j]
                + x.val() * row_entry(row, j, (k + 1) as nat)) % p by {
                let d = if row[k as int].0 == j {
                    row[k as int].1
                } else {
                    0
                };
                assert(row_entry(row, j, (k + 1) as nat) == row_entry(row, j, k as nat) + d);
                lemma_mul_is_distributive_add(x.val(), row_entry(row, j, k as nat), d);
                assert(x.val() * 0 == 0);
                assert(before[j].val() == (base[j] + x.val() * row_entry(row, j, k as nat)) % p);
            }
        }
    }

    /// The product of the vector `x` and the matrix, filled up with zeros to `width` entries.
    pub fn times_vec(&self, x: &[S], width: usize) -> (table: Vec<S>)
        requires
            x@.len() >= self@.rows.len(),
            width >= self@.cols,
        ensures
            table@.len() == width,
            forall|j: int|
                0 <= j < width ==> (#[trigger] table@[j]).val() == times_column(
                    self@,
                    traits::vals(x@),
                    j,
                ) % S::modulus(),
    {
        let ghost p = S::modulus();
        let ghost xs = traits::vals(x@);
        let mut table: Vec<S> = Vec::new();
        proof {
            S::lemma_modulus();
            lemma_small_mod(0, p as nat);
        }
        for j in 0..width
            invariant
                table@.len() == j,
                forall|l: int| 0 <= l < j ==> (#[trigger] table@[l]).val() == 0,
        {
            table.push(S::zero());
        }
        let n: usize = self.num_rows();
        for i in 0..n
            invariant
                p == S::modulus(),
                xs == traits::vals(x@),
                n == self@.rows.len(),
                x@.len() >= n,
                width >= self@.cols,
                table@.len() == width,
                forall|j: int|
                    0 <= j < width ==> (#[trigger] table@[j]).val() == sums::sum(
                        |l: int| xs[l] * entry(self@, l, j),
                        i as nat,
                    ) % p,
        {
            let ghost base = Seq::new(
                width as nat,
                |j: int| sums::sum(|l: int| xs[l] * entry(self@, l, j), i as nat),
            );
            self.add_row(&mut table, &x[i], i, Ghost(base));
            assert forall|j: int| 0 <= j < width implies (#[trigger] table@[j]).val() == sums::sum(
                |l: int| xs[l] * entry(self@, l, j),
                (i + 1) as nat,
            ) % p by {
                let f = |l: int| xs[l] * entry(self@, l, j);
                assert(sums::sum(f, (i + 1) as nat) == sums::sum(f, i as nat) + f(i as int));
                assert(base[j] == sums::sum(f, i as nat));
            }
        }
        assert forall|j: int| 0 <= j < width implies (#[trigger] table@[j]).val() == times_column(
            self@,
            xs,
            j,
        ) % p by {
            let f = |l: int| xs[l] * entry(self@, l, j);
            assert(times_column(self@, xs, j) == sums::sum(f, n as nat));
        }
        table
    }
}

/// What a triplet adds to row `i`: its value times the component of `z` in its column, if it
/// belongs to the row.
pub open spec fn triplet_term(t: (int, int, int), z: Seq<int>, i: int) -> int {
    if t.0 == i {
        t.2 * z[t.1]
    } else {
        0
    }
}

/// The sum of the values of the triplets of row `i`, each one times the component of `z` in its
/// column.
pub open spec fn triplets_times(ts: Seq<(int, int, int)>, z: Seq<int>, i: int) -> int {
    sums::sum(|k: int| triplet_term(ts[k], z, i), ts.len())
}

/// The entries that triplets put into a row, times a vector.
proof fn lemma_row_of_times(ts: Seq<(int, int, int)>, z: Seq<int>, i: int, n: nat)
    requires
        n <= ts.len(),
    ensures
        sparse_sum(row_of(ts, i, n), z, row_of(ts, i, n).len()) == sums::sum(
            |k: int| triplet_term(ts[k], z, i),
            n,
        ),
    decreases n,
{
    if n > 0 {
        lemma_row_of_times(ts, z, i, (n - 1) as nat);
        let before = row_of(ts, i, (n - 1) as nat);
        let now = row_of(ts, i, n);
        if ts[n - 1].0 == i {
            let f = |k: int| before[k].1 * z[before[k].0];
            let g = |k: int| now[k].1 * z[now[k].0];
            sums::lemma_sum_eq(f, g, before.len());
            assert(now[before.len() as int] == (ts[n - 1].1, ts[n - 1].2));
        }
    }
}

/// The entries that triplets put into a row stand in columns of the matrix.
proof fn lemma_row_of_columns(ts: Seq<(int, int, int)>, rows: nat, cols: nat, i: int, n: nat)
    requires
        n <= ts.len(),
        triplets_fit(ts, rows, cols),
    ensures
        forall|k: int|
            0 <= k < row_of(ts, i, n).len() ==> 0 <= (#[trigger] row_of(ts, i, n)[k]).0 < cols,
    decreases n,
{
    if n > 0 {
        lemma_row_of_columns(ts, rows, cols, i, (n - 1) as nat);
        let before = row_of(ts, i, (n - 1) as nat);
        let now = row_of(ts, i, n);
        assert(0 <= ts[n - 1].1 < cols);
        assert forall|k: int| 0 <= k < now.len() implies 0 <= (#[trigger] now[k]).0 < cols by {
            if k < before.len() {
                assert(now[k] == before[k]);
            }
        }
    }
}

/// A matrix made of triplets times a vector: row `i` is the sum of the values of the triplets of
/// that row, each one times the component in its column. Triplets in the same place add up.
pub proof fn law_rows_sum_triplets(
    ts: Seq<(int, int, int)>,
    rows: nat,
    cols: nat,
    z: Seq<int>,
    i: int,
)
    requires
        triplets_fit(ts, rows, cols),
        0 <= i < rows,
    ensures
        matrix_of(ts, rows, cols).rows.len() == rows,
        matrix_of(ts, rows, cols).cols == cols,
        row_times(matrix_of(ts, rows, cols), z, i) == triplets_times(ts, z, i),
{
    let m = matrix_of(ts, rows, cols);
    let row = m.rows[i];
    let n = ts.len();
    assert(row == row_of(ts, i, n));
    lemma_row_of_columns(ts, rows, cols, i, n);
    lemma_row_of_times(ts, z, i, n);
    lemma_sparse_sum(row, z, cols, row.len());
    let f = |j: int| row_entry(row, j, row.len()) * z[j];
    let g = |j: int| entry(m, i, j) * z[j];
    sums::lemma_sum_eq(f, g, cols);
    let h = |k: int| triplet_term(ts[k], z, i);
    assert(sparse_sum(row, z, row.len()) == sums::sum(h, n)) by {
        lemma_row_of_times(ts, z, i, n);
    }
    assert(triplets_times(ts, z, i) == sums::sum(h, n));
    assert(row_times(m, z, i) == sums::sum(g, cols));
}

/// A matrix made of triplets between two vectors: the sum of the values of all triplets, each one
/// times the component of `x` in its row and that of `y` in its column.
pub proof fn law_bilinear_sums_triplets(
    ts: Seq<(int, int, int)>,
    rows: nat,
    cols: nat,
    x: Seq<int>,
    y: Seq<int>,
)
    requires
        triplets_fit(ts, rows, cols),
    ensures
        bilinear(matrix_of(ts, rows, cols), x, y) == sums::sum(
            |k: int| x[ts[k].0] * (ts[k].2 * y[ts[k].1]),
            ts.len(),
        ),
{
    let m = matrix_of(ts, rows, cols);
    let n = ts.len();
    let f = |i: int, k: int|
        if ts[k].0 == i {
            x[i] * (ts[k].2 * y[ts[k].1])
        } else {
            0
        };
    lemma_sum_swap(f, rows, n);
    let rows_f = |i: int| x[i] * row_times(m, y, i);
    let by_rows = |i: int| sums::sum(|k: int| f(i, k), n);
    assert forall|i: int| 0 <= i < rows implies #[trigger] rows_f(i) == by_rows(i) by {
        law_rows_sum_triplets(ts, rows, cols, y, i);
        let g = |k: int| triplet_term(ts[k], y, i);
        let h = |k: int| f(i, k);
        assert forall|k: int| 0 <= k < n implies #[trigger] h(k) == x[i] * g(k) by {
            lemma_mul_basics(x[i]);
        }
        sums::lemma_sum_scale(x[i], g, h, n);
    }
    sums::lemma_sum_eq(rows_f, by_rows, rows);
    let cells = |k: int| x[ts[k].0] * (ts[k].2 * y[ts[k].1]);
    let by_cells = |k: int| sums::sum(|i: int| f(i, k), rows);
    assert forall|k: int| 0 <= k < n implies #[trigger] cells(k) == by_cells(k) by {
        let h = |i: int| f(i, k);
        assert(0 <= ts[k].0 < rows);
        sums::lemma_sum_single(h, ts[k].0, rows);
    }
    sums::lemma_sum_eq(cells, by_cells, n);
}

/// A matrix made of triplets that fit has its entries in its columns.
pub proof fn lemma_matrix_in_bounds(ts: Seq<(int, int, int)>, rows: nat, cols: nat)
    requires
        triplets_fit(ts, rows, cols),
    ensures
        in_bounds(matrix_of(ts, rows, cols)),
{
    let m = matrix_of(ts, rows, cols);
    assert forall|i: int, k: int|
        0 <= i < m.rows.len() && 0 <= k < m.rows[i].len() implies 0 <= (
    #[trigger] m.rows[i][k]).0 < m.cols by {
        lemma_row_of_columns(ts, rows, cols, i, ts.len());
        assert(m.rows[i] == row_of(ts, i, ts.len()));
    }
}

/// Triplets fit one by one: none is refused for another one, and one is refused exactly if its row
/// or its column lies outside of the matrix.
pub proof fn law_triplets_fit(
    ts: Seq<(int, int, int)>,
    t: (int, int, int),
    rows: nat,
    cols: nat,
)
    ensures
        triplets_fit(Seq::empty(), rows, cols),
        triplets_fit(ts.push(t), rows, cols) <==> triplets_fit(ts, rows, cols) && 0 <= t.0 < rows
            && 0 <= t.1 < cols,
{
    let more = ts.push(t);
    if triplets_fit(more, rows, cols) {
        assert forall|k: int| 0 <= k < ts.len() implies 0 <= (#[trigger] ts[k]).0 < rows && 0
            <= ts[k].1 < cols by {
            assert(more[k] == ts[k]);
        }
        assert(more[ts.len() as int] == t);
    }
    if triplets_fit(ts, rows, cols) && 0 <= t.0 < rows && 0 <= t.1 < cols {
        assert forall|k: int| 0 <= k < more.len() implies 0 <= (#[trigger] more[k]).0 < rows && 0
            <= more[k].1 < cols by {
            if k < ts.len() {
                assert(more[k] == ts[k]);
            }
        }
    }
}

/// A vector times a matrix made of triplets: column `j` is the sum of the values of the triplets of
/// that column, each one times the component in its row.
pub proof fn law_columns_sum_triplets(
    ts: Seq<(int, int, int)>,
    rows: nat,
    cols: nat,
    x: Seq<int>,
    j: int,
)
    requires
        triplets_fit(ts, rows, cols),
        0 <= j < cols,
    ensures
        times_column(matrix_of(ts, rows, cols), x, j) == sums::sum(
            |k: int| triplet_term((ts[k].1, ts[k].0, ts[k].2), x, j),
            ts.len(),
        ),
{
    let m = matrix_of(ts, rows, cols);
    let n = ts.len();
    let unit = Seq::new(
        cols,
        |c: int|
            if c == j {
                1int
            } else {
                0int
            },
    );
    law_bilinear_by_columns(m, x, unit);
    let f = |c: int| times_column(m, x, c) * unit[c];
    assert forall|c: int| 0 <= c < cols && c != j implies #[trigger] f(c) == 0 by {
        lemma_mul_basics(times_column(m, x, c));
    }
    sums::lemma_sum_single(f, j, cols);
    lemma_mul_basics(times_column(m, x, j));
    assert(bilinear(m, x, unit) == times_column(m, x, j));
    law_bilinear_sums_triplets(ts, rows, cols, x, unit);
    let g = |k: int| x[ts[k].0] * (ts[k].2 * unit[ts[k].1]);
    let h = |k: int| triplet_term((ts[k].1, ts[k].0, ts[k].2), x, j);
    assert forall|k: int| 0 <= k < n implies #[trigger] g(k) == h(k) by {
        assert(0 <= ts[k].1 < cols);
        let (a, b) = (x[ts[k].0], ts[k].2);
        lemma_mul_basics(b);
        lemma_mul_basics(a);
        lemma_mul_is_commutative(a, b);
    }
    sums::lemma_sum_eq(g, h, n);
}

} // verus!
