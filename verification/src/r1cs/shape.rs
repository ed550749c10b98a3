//! The shape of a constraint system whose witness is committed to in pieces.
use super::sparse::{self, MatrixModel, SparseMatrix};
use crate::errors::{self, ErrorModel, SpartanError};
use crate::polys::sums;
use crate::provider::pcs::merkle_tree;
use crate::traits::{self, Engine, ScalarField};
#[allow(unused_imports)]
use vstd::arithmetic::div_mod::*;
#[allow(unused_imports)]
use vstd::arithmetic::mul::*;
use vstd::prelude::*;
#[allow(unused_imports)]
use vstd::string::*;

verus! {

/// The numbers of constraints, variables and inputs of a constraint system.
pub struct Sizes {
    /// Number of constraints.
    pub num_cons: nat,
    /// Number of variables that are shared between systems.
    pub num_shared: nat,
    /// Number of variables that are committed to before challenges are drawn.
    pub num_precommitted: nat,
    /// Number of other variables.
    pub num_rest: nat,
    /// Number of public values.
    pub num_public: nat,
    /// Number of challenges.
    pub num_challenges: nat,
}

impl Sizes {
    /// Number of variables.
    pub open spec fn num_vars(self) -> nat {
        self.num_shared + self.num_precommitted + self.num_rest
    }

    /// Number of columns: one for each variable, for the constant, for each public value and for
    /// each challenge.
    pub open spec fn num_cols(self) -> nat {
        self.num_vars() + 1 + self.num_public + self.num_challenges
    }
}

/// What the shape of a constraint system holds.
pub struct ShapeModel {
    /// The sizes before padding.
    pub unpadded: Sizes,
    /// The sizes.
    pub sizes: Sizes,
    /// The matrix of left factors.
    pub a: MatrixModel,
    /// The matrix of right factors.
    pub b: MatrixModel,
    /// The matrix of products.
    pub c: MatrixModel,
}

/// A matrix with the rows and columns of a shape.
pub open spec fn matrix_fits(m: MatrixModel, s: Sizes) -> bool {
    &&& m.rows.len() == s.num_cons
    &&& m.cols == s.num_cols()
    &&& sparse::in_bounds(m)
}

/// The numbers of constraints and of variables are powers of two, the inputs are fewer than the
/// variables, and all sizes are machine words.
pub open spec fn sizes_valid(s: Sizes) -> bool {
    &&& merkle_tree::is_pow2(s.num_cons)
    &&& merkle_tree::is_pow2(s.num_vars())
    &&& s.num_public + s.num_challenges + 1 <= s.num_vars()
    &&& s.num_cons <= usize::MAX
    &&& 2 * s.num_vars() <= usize::MAX
}

/// A shape whose parts fit together.
pub open spec fn shape_valid(s: ShapeModel) -> bool {
    &&& sizes_valid(s.sizes)
    &&& s.unpadded.num_shared <= s.sizes.num_shared
    &&& s.unpadded.num_precommitted <= s.sizes.num_precommitted
    &&& s.unpadded.num_rest <= s.sizes.num_rest
    &&& s.unpadded.num_cons <= s.sizes.num_cons
    &&& s.unpadded.num_public == s.sizes.num_public
    &&& s.unpadded.num_challenges == s.sizes.num_challenges
    &&& matrix_fits(s.a, s.sizes)
    &&& matrix_fits(s.b, s.sizes)
    &&& matrix_fits(s.c, s.sizes)
}

/// The vector `z` satisfies every constraint.
pub open spec fn satisfies(p: int, s: ShapeModel, z: Seq<int>) -> bool {
    forall|i: int|
        0 <= i < s.sizes.num_cons ==> (#[trigger] sparse::row_times(s.a, z, i)
            * sparse::row_times(s.b, z, i) - sparse::row_times(s.c, z, i)) % p == 0
}

/// The smallest power of two that is not below `n`.
pub open spec fn next_pow2(n: nat) -> nat
    decreases n,
{
    if n <= 1 {
        1
    } else {
        2 * next_pow2((n + 1) / 2)
    }
}

/// The next power of two is a power of two, not below the number, and below twice the number.
pub proof fn lemma_next_pow2(n: nat)
    ensures
        merkle_tree::is_pow2(next_pow2(n)),
        n <= next_pow2(n),
        n > 0 ==> next_pow2(n) < 2 * n,
    decreases n,
{
    if n > 1 {
        lemma_next_pow2((n + 1) / 2);
    }
}

/// No smaller power of two than the next one reaches `n`.
pub proof fn law_next_pow2_is_least(n: nat, q: nat)
    requires
        merkle_tree::is_pow2(q),
        n <= q,
    ensures
        next_pow2(n) <= q,
    decreases n,
{
    if n > 1 {
        law_next_pow2_is_least((n + 1) / 2, q / 2);
    }
}

/// The smallest multiple of `w` that is not below `n`.
pub open spec fn next_multiple(n: nat, w: nat) -> nat {
    (((n + w - 1) / (w as int)) * w) as nat
}

/// The next multiple is not below the number, and less than `w` above it.
pub proof fn lemma_next_multiple(n: nat, w: nat)
    requires
        w > 0,
    ensures
        n <= next_multiple(n, w) < n + w,
        ((n + w - 1) / (w as int)) * w == next_multiple(n, w),
{
    let x = n + w - 1;
    lemma_fundamental_div_mod(x, w as int);
    lemma_mod_bound(x, w as int);
    assert((x / (w as int)) * w == x - x % (w as int)) by (nonlinear_arith)
        requires
            x == w * (x / (w as int)) + x % (w as int),
    ;
}

/// The sizes after padding: each piece of the witness is filled up to a multiple of the width, and
/// the last one further, so that the number of variables is a power of two above the number of
/// inputs. The number of constraints becomes a power of two.
pub open spec fn padded(width: nat, s: Sizes) -> Sizes {
    let num_shared = next_multiple(s.num_shared, width);
    let num_precommitted = next_multiple(s.num_precommitted, width);
    let vars = num_shared + num_precommitted + next_multiple(s.num_rest, width);
    let inputs = s.num_public + s.num_challenges + 1;
    let num_vars = next_pow2(
        if vars < inputs {
            inputs
        } else {
            vars
        },
    );
    Sizes {
        num_cons: next_pow2(s.num_cons),
        num_shared,
        num_precommitted,
        num_rest: (num_vars - num_shared - num_precommitted) as nat,
        ..s
    }
}

/// The pieces in front of the last one fill rows of the given width.
pub open spec fn fills_rows(width: nat, s: Sizes) -> bool {
    s.num_shared % width == 0 && s.num_precommitted % width == 0
}

/// Padding makes the pieces in front of the last one fill rows.
pub proof fn law_padding_fills_rows(width: nat, s: Sizes)
    requires
        width > 0,
    ensures
        fills_rows(width, padded(width, s)),
{
    let w = width as int;
    lemma_next_multiple(s.num_shared, width);
    lemma_next_multiple(s.num_precommitted, width);
    lemma_mod_multiples_basic((s.num_shared + w - 1) / w, w);
    lemma_mod_multiples_basic((s.num_precommitted + w - 1) / w, w);
}

/// The column after padding that holds what stood in column `col`.
pub open spec fn padded_column(s: Sizes, t: Sizes, col: int) -> int {
    if col < s.num_shared {
        col
    } else if col < s.num_shared + s.num_precommitted {
        col - s.num_shared + t.num_shared
    } else if col < s.num_vars() {
        col - s.num_shared - s.num_precommitted + t.num_shared + t.num_precommitted
    } else {
        col - s.num_vars() + t.num_vars()
    }
}

/// Triplets with their columns moved to where padding puts them.
pub open spec fn padded_triplets(s: Sizes, t: Sizes, ts: Seq<(int, int, int)>) -> Seq<
    (int, int, int),
> {
    ts.map_values(|e: (int, int, int)| (e.0, padded_column(s, t, e.1), e.2))
}

/// The shape with the given sizes and triplets, after padding.
pub open spec fn shape_of(
    width: nat,
    s: Sizes,
    ta: Seq<(int, int, int)>,
    tb: Seq<(int, int, int)>,
    tc: Seq<(int, int, int)>,
) -> ShapeModel {
    let t = padded(width, s);
    ShapeModel {
        unpadded: s,
        sizes: t,
        a: sparse::matrix_of(padded_triplets(s, t, ta), t.num_cons, t.num_cols()),
        b: sparse::matrix_of(padded_triplets(s, t, tb), t.num_cons, t.num_cols()),
        c: sparse::matrix_of(padded_triplets(s, t, tc), t.num_cons, t.num_cols()),
    }
}

/// Whether the sizes after padding are machine words.
pub open spec fn sizes_fit(width: nat, s: Sizes) -> bool {
    &&& padded(width, s).num_cons <= usize::MAX
    &&& 2 * padded(width, s).num_vars() <= usize::MAX
}

/// Padding gives valid sizes and moves columns to columns.
pub proof fn lemma_padded(width: nat, s: Sizes)
    requires
        width > 0,
    ensures
        ({
            let t = padded(width, s);
            &&& sizes_fit(width, s) ==> sizes_valid(t)
            &&& s.num_shared <= t.num_shared
            &&& s.num_precommitted <= t.num_precommitted
            &&& s.num_rest <= t.num_rest
            &&& s.num_cons <= t.num_cons
            &&& forall|col: int|
                0 <= col < s.num_cols() ==> 0 <= #[trigger] padded_column(s, t, col)
                    < t.num_cols()
        }),
{
    lemma_next_multiple(s.num_shared, width);
    lemma_next_multiple(s.num_precommitted, width);
    lemma_next_multiple(s.num_rest, width);
    let vars = next_multiple(s.num_shared, width) + next_multiple(s.num_precommitted, width)
        + next_multiple(s.num_rest, width);
    let inputs = s.num_public + s.num_challenges + 1;
    lemma_next_pow2(
        if vars < inputs {
            inputs
        } else {
            vars
        },
    );
    lemma_next_pow2(s.num_cons);
}

/// `z` with zeros put in where padding adds variables.
pub open spec fn padded_vector(s: Sizes, t: Sizes, z: Seq<int>, w: Seq<int>) -> bool {
    &&& w.len() == t.num_cols()
    &&& forall|col: int|
        0 <= col < s.num_cols() ==> w[#[trigger] padded_column(s, t, col)] == z[col]
}

/// The rows of a padded matrix hold the entries of the rows before padding.
proof fn lemma_padded_rows(
    s: Sizes,
    t: Sizes,
    ts: Seq<(int, int, int)>,
    i: int,
    n: nat,
)
    requires
        n <= ts.len(),
    ensures
        sparse::row_of(padded_triplets(s, t, ts), i, n).len() == sparse::row_of(ts, i, n).len(),
        forall|k: int|
            0 <= k < sparse::row_of(ts, i, n).len() ==> #[trigger] sparse::row_of(
                padded_triplets(s, t, ts),
                i,
                n,
            )[k] == (
                padded_column(s, t, sparse::row_of(ts, i, n)[k].0),
                sparse::row_of(ts, i, n)[k].1,
            ),
    decreases n,
{
    if n > 0 {
        lemma_padded_rows(s, t, ts, i, (n - 1) as nat);
    }
}

/// The entries of a row come from triplets that fit.
proof fn lemma_row_of_fits(ts: Seq<(int, int, int)>, rows: nat, cols: nat, i: int, n: nat)
    requires
        n <= ts.len(),
        sparse::triplets_fit(ts, rows, cols),
    ensures
        forall|k: int|
            0 <= k < sparse::row_of(ts, i, n).len() ==> 0 <= (#[trigger] sparse::row_of(
                ts,
                i,
                n,
            )[k]).0 < cols,
    decreases n,
{
    if n > 0 {
        lemma_row_of_fits(ts, rows, cols, i, (n - 1) as nat);
        let before = sparse::row_of(ts, i, (n - 1) as nat);
        let now = sparse::row_of(ts, i, n);
        assert(0 <= ts[n - 1].0 < rows);
        assert forall|k: int| 0 <= k < now.len() implies 0 <= (#[trigger] now[k]).0 < cols by {
            if k < before.len() {
                assert(now[k] == before[k]);
            }
        }
    }
}

/// Padding keeps products: a row of a padded matrix times a padded vector is the row times the
/// vector.
pub proof fn law_padding_keeps_products(
    width: nat,
    s: Sizes,
    ts: Seq<(int, int, int)>,
    z: Seq<int>,
    w: Seq<int>,
    i: int,
)
    requires
        width > 0,
        sparse::triplets_fit(ts, s.num_cons, s.num_cols()),
        z.len() == s.num_cols(),
        padded_vector(s, padded(width, s), z, w),
        0 <= i < s.num_cons,
    ensures
        ({
            let t = padded(width, s);
            sparse::row_times(
                sparse::matrix_of(padded_triplets(s, t, ts), t.num_cons, t.num_cols()),
                w,
                i,
            ) == sparse::row_times(sparse::matrix_of(ts, s.num_cons, s.num_cols()), z, i)
        }),
{
    let t = padded(width, s);
    lemma_padded(width, s);
    let n = ts.len();
    let pts = padded_triplets(s, t, ts);
    let small = sparse::matrix_of(ts, s.num_cons, s.num_cols());
    let large = sparse::matrix_of(pts, t.num_cons, t.num_cols());
    lemma_padded_rows(s, t, ts, i, n);
    lemma_row_of_fits(ts, s.num_cons, s.num_cols(), i, n);
    let row = small.rows[i];
    let wide = large.rows[i];
    assert(row == sparse::row_of(ts, i, n));
    assert(wide == sparse::row_of(pts, i, n));
    assert forall|k: int| 0 <= k < wide.len() implies 0 <= (#[trigger] wide[k]).0 < large.cols by {
        assert(wide[k] == (padded_column(s, t, row[k].0), row[k].1));
        assert(0 <= row[k].0 < s.num_cols());
    }
    sparse::lemma_sparse_sum(row, z, small.cols, row.len());
    sparse::lemma_sparse_sum(wide, w, large.cols, wide.len());
    let f = |k: int| row[k].1 * z[row[k].0];
    let g = |k: int| wide[k].1 * w[wide[k].0];
    assert forall|k: int| 0 <= k < row.len() implies #[trigger] f(k) == g(k) by {
        assert(wide[k] == (padded_column(s, t, row[k].0), row[k].1));
        assert(0 <= row[k].0 < s.num_cols());
        assert(w[padded_column(s, t, row[k].0)] == z[row[k].0]);
    }
    sums::lemma_sum_eq(f, g, row.len());
    let fa = |j: int| sparse::row_entry(row, j, row.len()) * z[j];
    let fb = |j: int| sparse::entry(small, i, j) * z[j];
    sums::lemma_sum_eq(fa, fb, small.cols);
    let ga = |j: int| sparse::row_entry(wide, j, wide.len()) * w[j];
    let gb = |j: int| sparse::entry(large, i, j) * w[j];
    sums::lemma_sum_eq(ga, gb, large.cols);
}

/// The smallest power of two that is not below `n`.
fn next_power_of_two(n: u128) -> (r: u128)
    requires
        n <= 0x1_0000_0000_0000_0000_0000_0000,
    ensures
        r == next_pow2(n as nat),
        r < 0x2_0000_0000_0000_0000_0000_0000,
    decreases n,
{
    proof {
        lemma_next_pow2(n as nat);
    }
    if n <= 1 {
        1
    } else {
        let half: u128 = next_power_of_two((n + 1) / 2);
        2 * half
    }
}

/// The smallest multiple of `w` that is not below `n`.
fn multiple_of(n: usize, w: usize) -> (r: u128)
    requires
        w > 0,
    ensures
        r == next_multiple(n as nat, w as nat),
        r <= 2 * (u64::MAX as u128),
{
    proof {
        lemma_next_multiple(n as nat, w as nat);
    }
    let x: u128 = n as u128 + w as u128 - 1;
    let q: u128 = x / (w as u128);
    proof {
        assert(q * w == next_multiple(n as nat, w as nat));
    }
    q * (w as u128)
}

/// The shape of a constraint system.
pub struct SplitR1CSShape<E: Engine> {
    pub(crate) num_cons_unpadded: usize,
    pub(crate) num_shared_unpadded: usize,
    pub(crate) num_precommitted_unpadded: usize,
    pub(crate) num_rest_unpadded: usize,
    pub(crate) num_cons: usize,
    pub(crate) num_shared: usize,
    pub(crate) num_precommitted: usize,
    pub(crate) num_rest: usize,
    pub(crate) num_public: usize,
    pub(crate) num_challenges: usize,
    pub(crate) A: SparseMatrix<E::Scalar>,
    pub(crate) B: SparseMatrix<E::Scalar>,
    pub(crate) C: SparseMatrix<E::Scalar>,
}

impl<E: Engine> View for SplitR1CSShape<E> {
    type V = ShapeModel;

    closed spec fn view(&self) -> ShapeModel {
        ShapeModel {
            unpadded: Sizes {
                num_cons: self.num_cons_unpadded as nat,
                num_shared: self.num_shared_unpadded as nat,
                num_precommitted: self.num_precommitted_unpadded as nat,
                num_rest: self.num_rest_unpadded as nat,
                num_public: self.num_public as nat,
                num_challenges: self.num_challenges as nat,
            },
            sizes: Sizes {
                num_cons: self.num_cons as nat,
                num_shared: self.num_shared as nat,
                num_precommitted: self.num_precommitted as nat,
                num_rest: self.num_rest as nat,
                num_public: self.num_public as nat,
                num_challenges: self.num_challenges as nat,
            },
            a: self.A@,
            b: self.B@,
            c: self.C@,
        }
    }
}

impl<E: Engine> Clone for SplitR1CSShape<E> {
    fn clone(&self) -> (r: Self)
        ensures
            r@ == self@,
    {
        proof {
            use_type_invariant(self);
        }
        SplitR1CSShape {
            num_cons_unpadded: self.num_cons_unpadded,
            num_shared_unpadded: self.num_shared_unpadded,
            num_precommitted_unpadded: self.num_precommitted_unpadded,
            num_rest_unpadded: self.num_rest_unpadded,
            num_cons: self.num_cons,
            num_shared: self.num_shared,
            num_precommitted: self.num_precommitted,
            num_rest: self.num_rest,
            num_public: self.num_public,
            num_challenges: self.num_challenges,
            A: self.A.clone(),
            B: self.B.clone(),
            C: self.C.clone(),
        }
    }
}

/// Moves a column to where padding puts it.
fn move_column(
    col: usize,
    num_shared: usize,
    num_precommitted: usize,
    num_rest: usize,
    padded_shared: usize,
    padded_precommitted: usize,
    padded_vars: usize,
    Ghost(s): Ghost<Sizes>,
    Ghost(t): Ghost<Sizes>,
) -> (r: usize)
    requires
        s.num_shared == num_shared,
        s.num_precommitted == num_precommitted,
        s.num_rest == num_rest,
        t.num_shared == padded_shared,
        t.num_precommitted == padded_precommitted,
        t.num_vars() == padded_vars,
        t.num_cols() <= usize::MAX,
        s.num_vars() <= t.num_vars(),
        s.num_shared <= t.num_shared,
        s.num_precommitted <= t.num_precommitted,
        s.num_rest <= t.num_rest,
        s.num_public == t.num_public,
        s.num_challenges == t.num_challenges,
        col < s.num_cols(),
    ensures
        r == padded_column(s, t, col as int),
{
    if col < num_shared {
        col
    } else if col < num_shared + num_precommitted {
        col - num_shared + padded_shared
    } else if col < num_shared + num_precommitted + num_rest {
        col - num_shared - num_precommitted + padded_shared + padded_precommitted
    } else {
        col - num_shared - num_precommitted - num_rest + padded_vars
    }
}

impl<E: Engine> SplitR1CSShape<E> {
    /// The parts of the shape fit together.
    #[verifier::type_invariant]
    spec fn is_valid(self) -> bool {
        shape_valid(self@)
    }

    /// The parts of the shape fit together.
    pub(crate) fn note_valid(&self)
        ensures
            shape_valid(self@),
            self@.sizes.num_cons == self.num_cons,
            self@.sizes.num_shared == self.num_shared,
            self@.sizes.num_precommitted == self.num_precommitted,
            self@.sizes.num_rest == self.num_rest,
            self@.sizes.num_public == self.num_public,
            self@.sizes.num_challenges == self.num_challenges,
            self@.a == self.A@,
            self@.b == self.B@,
            self@.c == self.C@,
    {
        proof {
            use_type_invariant(self);
        }
    }

    /// A matrix with its columns moved to where padding puts them.
    fn padded_matrix(
        triplets: &Vec<(usize, usize, E::Scalar)>,
        num_cons: usize,
        num_shared: usize,
        num_precommitted: usize,
        num_rest: usize,
        num_inputs: usize,
        padded_cons: usize,
        padded_shared: usize,
        padded_precommitted: usize,
        padded_vars: usize,
        Ghost(s): Ghost<Sizes>,
        Ghost(t): Ghost<Sizes>,
    ) -> (r: Result<SparseMatrix<E::Scalar>, SpartanError>)
        requires
            s.num_cons == num_cons,
            s.num_shared == num_shared,
            s.num_precommitted == num_precommitted,
            s.num_rest == num_rest,
            s.num_public + s.num_challenges + 1 == num_inputs,
            t.num_cons == padded_cons,
            t.num_shared == padded_shared,
            t.num_precommitted == padded_precommitted,
            t.num_vars() == padded_vars,
            t.num_cols() <= usize::MAX,
            s.num_vars() <= t.num_vars(),
            s.num_shared <= t.num_shared,
            s.num_precommitted <= t.num_precommitted,
            s.num_rest <= t.num_rest,
            s.num_cons <= t.num_cons,
            s.num_public == t.num_public,
            s.num_challenges == t.num_challenges,
            forall|col: int|
                0 <= col < s.num_cols() ==> 0 <= #[trigger] padded_column(s, t, col)
                    < t.num_cols(),
        ensures
            match r {
                Ok(m) => {
                    &&& sparse::triplets_fit(
                        sparse::triplet_vals(triplets@),
                        s.num_cons,
                        s.num_cols(),
                    )
                    &&& m@ == sparse::matrix_of(
                        padded_triplets(s, t, sparse::triplet_vals(triplets@)),
                        t.num_cons,
                        t.num_cols(),
                    )
                    &&& matrix_fits(m@, t)
                },
                Err(e) => {
                    &&& !sparse::triplets_fit(
                        sparse::triplet_vals(triplets@),
                        s.num_cons,
                        s.num_cols(),
                    )
                    &&& e@ == ErrorModel::InvalidIndex
                },
            },
    {
        let ghost ts = sparse::triplet_vals(triplets@);
        let num_cols: usize = num_shared + num_precommitted + num_rest + num_inputs;
        let mut moved: Vec<(usize, usize, E::Scalar)> = Vec::new();
        for k in 0..triplets.len()
            invariant
                ts == sparse::triplet_vals(triplets@),
                num_cols == s.num_cols(),
                s.num_cons == num_cons,
                s.num_shared == num_shared,
                s.num_precommitted == num_precommitted,
                s.num_rest == num_rest,
                t.num_shared == padded_shared,
                t.num_precommitted == padded_precommitted,
                t.num_vars() == padded_vars,
                t.num_cols() <= usize::MAX,
                s.num_vars() <= t.num_vars(),
                s.num_shared <= t.num_shared,
                s.num_precommitted <= t.num_precommitted,
                s.num_rest <= t.num_rest,
                s.num_public == t.num_public,
                s.num_challenges == t.num_challenges,
                moved@.len() == k,
                forall|l: int|
                    0 <= l < k ==> sparse::triplet_vals(moved@)[l] == #[trigger] padded_triplets(
                        s,
                        t,
                        ts,
                    )[l],
                forall|l: int|
                    0 <= l < k ==> 0 <= (#[trigger] ts[l]).0 < s.num_cons && 0 <= ts[l].1
                        < s.num_cols(),
        {
            let (row, col, val) = triplets[k];
            assert(ts[k as int] == (row as int, col as int, val.val()));
            if row >= num_cons || col >= num_cols {
                return Err(SpartanError::InvalidIndex);
            }
            let to: usize = move_column(
                col,
                num_shared,
                num_precommitted,
                num_rest,
                padded_shared,
                padded_precommitted,
                padded_vars,
                Ghost(s),
                Ghost(t),
            );
            moved.push((row, to, val));
        }
        let ghost pts = padded_triplets(s, t, ts);
        assert(sparse::triplet_vals(moved@) =~= pts);
        assert forall|k: int| 0 <= k < pts.len() implies 0 <= (#[trigger] pts[k]).0 < t.num_cons
            && 0 <= pts[k].1 < t.num_cols() by {
            assert(0 <= ts[k].0 < s.num_cons);
            assert(pts[k].1 == padded_column(s, t, ts[k].1));
        }
        SparseMatrix::new(&moved, padded_cons, padded_vars + num_inputs)
    }

    /// The shape with the given sizes and matrices. Pieces of the witness are filled up to
    /// multiples of `width`, and the numbers of variables and constraints to powers of two.
    pub fn new(
        width: usize,
        num_cons: usize,
        num_shared: usize,
        num_precommitted: usize,
        num_rest: usize,
        num_public: usize,
        num_challenges: usize,
        A: &Vec<(usize, usize, E::Scalar)>,
        B: &Vec<(usize, usize, E::Scalar)>,
        C: &Vec<(usize, usize, E::Scalar)>,
    ) -> (r: Result<Self, SpartanError>)
        requires
            width > 0,
        ensures
            ({
                let s = Sizes {
                    num_cons: num_cons as nat,
                    num_shared: num_shared as nat,
                    num_precommitted: num_precommitted as nat,
                    num_rest: num_rest as nat,
                    num_public: num_public as nat,
                    num_challenges: num_challenges as nat,
                };
                let ta = sparse::triplet_vals(A@);
                let tb = sparse::triplet_vals(B@);
                let tc = sparse::triplet_vals(C@);
                let fit = sparse::triplets_fit(ta, s.num_cons, s.num_cols())
                    && sparse::triplets_fit(tb, s.num_cons, s.num_cols()) && sparse::triplets_fit(
                    tc,
                    s.num_cons,
                    s.num_cols(),
                );
                errors::outcome_view(r) == if !sizes_fit(width as nat, s) {
                    Err::<ShapeModel, ErrorModel>(
                        ErrorModel::InvalidInputLength("SplitR1CSShape: sizes are too large"@),
                    )
                } else if !fit {
                    Err::<ShapeModel, ErrorModel>(ErrorModel::InvalidIndex)
                } else {
                    Ok::<ShapeModel, ErrorModel>(shape_of(width as nat, s, ta, tb, tc))
                }
            }),
    {
        let ghost s = Sizes {
            num_cons: num_cons as nat,
            num_shared: num_shared as nat,
            num_precommitted: num_precommitted as nat,
            num_rest: num_rest as nat,
            num_public: num_public as nat,
            num_challenges: num_challenges as nat,
        };
        let ghost t = padded(width as nat, s);
        proof {
            lemma_padded(width as nat, s);
        }
        let shared: u128 = multiple_of(num_shared, width);
        let precommitted: u128 = multiple_of(num_precommitted, width);
        let vars: u128 = shared + precommitted + multiple_of(num_rest, width);
        let inputs: u128 = num_public as u128 + num_challenges as u128 + 1;
        let all_vars: u128 = next_power_of_two(
            if vars < inputs {
                inputs
            } else {
                vars
            },
        );
        let cons: u128 = next_power_of_two(num_cons as u128);
        proof {
            lemma_next_pow2(
                if vars < inputs {
                    inputs as nat
                } else {
                    vars as nat
                },
            );
            assert(t.num_vars() == all_vars);
        }
        if cons > usize::MAX as u128 || all_vars > (usize::MAX / 2) as u128 {
            return Err(
                SpartanError::InvalidInputLength {
                    reason: "SplitR1CSShape: sizes are too large".to_string(),
                },
            );
        }
        let padded_cons: usize = cons as usize;
        let padded_shared: usize = shared as usize;
        let padded_precommitted: usize = precommitted as usize;
        let padded_vars: usize = all_vars as usize;
        let num_inputs: usize = inputs as usize;
        let a = match Self::padded_matrix(
            A,
            num_cons,
            num_shared,
            num_precommitted,
            num_rest,
            num_inputs,
            padded_cons,
            padded_shared,
            padded_precommitted,
            padded_vars,
            Ghost(s),
            Ghost(t),
        ) {
            Ok(m) => m,
            Err(e) => return Err(e),
        };
        let b = match Self::padded_matrix(
            B,
            num_cons,
            num_shared,
            num_precommitted,
            num_rest,
            num_inputs,
            padded_cons,
            padded_shared,
            padded_precommitted,
            padded_vars,
            Ghost(s),
            Ghost(t),
        ) {
            Ok(m) => m,
            Err(e) => return Err(e),
        };
        let c = match Self::padded_matrix(
            C,
            num_cons,
            num_shared,
            num_precommitted,
            num_rest,
            num_inputs,
            padded_cons,
            padded_shared,
            padded_precommitted,
            padded_vars,
            Ghost(s),
            Ghost(t),
        ) {
            Ok(m) => m,
            Err(e) => return Err(e),
        };
        Ok(
            SplitR1CSShape {
                num_cons_unpadded: num_cons,
                num_shared_unpadded: num_shared,
                num_precommitted_unpadded: num_precommitted,
                num_rest_unpadded: num_rest,
                num_cons: padded_cons,
                num_shared: padded_shared,
                num_precommitted: padded_precommitted,
                num_rest: padded_vars - padded_shared - padded_precommitted,
                num_public,
                num_challenges,
                A: a,
                B: b,
                C: c,
            },
        )
    }

    /// Returns the sizes of the shape:
    /// [num_cons_unpadded, num_shared_unpadded, num_precommitted_unpadded, num_rest_unpadded,
    ///  num_cons, num_shared, num_precommitted, num_rest,
    ///  num_public, num_challenges]
    pub fn sizes(&self) -> (r: [usize; 10])
        ensures
            r@.map_values(|x: usize| x as nat) == seq![
                self@.unpadded.num_cons,
                self@.unpadded.num_shared,
                self@.unpadded.num_precommitted,
                self@.unpadded.num_rest,
                self@.sizes.num_cons,
                self@.sizes.num_shared,
                self@.sizes.num_precommitted,
                self@.sizes.num_rest,
                self@.sizes.num_public,
                self@.sizes.num_challenges,
            ],
    {
        let r: [usize; 10] = [
            self.num_cons_unpadded,
            self.num_shared_unpadded,
            self.num_precommitted_unpadded,
            self.num_rest_unpadded,
            self.num_cons,
            self.num_shared,
            self.num_precommitted,
            self.num_rest,
            self.num_public,
            self.num_challenges,
        ];
        assert(r@.map_values(|x: usize| x as nat) =~= seq![
            self@.unpadded.num_cons,
            self@.unpadded.num_shared,
            self@.unpadded.num_precommitted,
            self@.unpadded.num_rest,
            self@.sizes.num_cons,
            self@.sizes.num_shared,
            self@.sizes.num_precommitted,
            self@.sizes.num_rest,
            self@.sizes.num_public,
            self@.sizes.num_challenges,
        ]);
        r
    }

    /// The products of the three matrices and the vector `z`.
    pub fn multiply_vec(&self, z: &[E::Scalar]) -> (r: Result<
        (Vec<E::Scalar>, Vec<E::Scalar>, Vec<E::Scalar>),
        SpartanError,
    >)
        ensures
            match r {
                Ok((az, bz, cz)) => {
                    &&& z@.len() == self@.sizes.num_cols()
                    &&& traits::vals(az@) == products::<E::Scalar>(self@.a, traits::vals(z@))
                    &&& traits::vals(bz@) == products::<E::Scalar>(self@.b, traits::vals(z@))
                    &&& traits::vals(cz@) == products::<E::Scalar>(self@.c, traits::vals(z@))
                },
                Err(e) => {
                    &&& z@.len() != self@.sizes.num_cols()
                    &&& e@ == ErrorModel::InvalidWitnessLength
                },
            },
    {
        self.note_valid();
        if z.len() != self.A.num_cols() {
            return Err(SpartanError::InvalidWitnessLength);
        }
        let az = self.A.multiply_vec(z);
        let bz = self.B.multiply_vec(z);
        let cz = self.C.multiply_vec(z);
        assert(traits::vals(az@) =~= products::<E::Scalar>(self@.a, traits::vals(z@)));
        assert(traits::vals(bz@) =~= products::<E::Scalar>(self@.b, traits::vals(z@)));
        assert(traits::vals(cz@) =~= products::<E::Scalar>(self@.c, traits::vals(z@)));
        Ok((az, bz, cz))
    }
}

/// The product of a matrix and a vector.
pub open spec fn products<S: ScalarField>(m: MatrixModel, z: Seq<int>) -> Seq<int> {
    Seq::new(m.rows.len(), |i: int| sparse::row_times(m, z, i) % S::modulus())
}

/// What padding does to the sizes: the first two pieces grow to the next multiple of the width, the
/// number of variables is the smallest power of two that has room for the inputs and for the
/// pieces, the last one taken with its next multiple `r` of the width, the number of constraints is
/// the next power of two, and the inputs stay.
pub proof fn law_padded_sizes(width: nat, s: Sizes, r: nat, q: nat)
    requires
        width > 0,
    ensures
        ({
            let t = padded(width, s);
            let inputs = 1 + s.num_public + s.num_challenges;
            &&& t.num_shared % width == 0
            &&& s.num_shared <= t.num_shared < s.num_shared + width
            &&& t.num_precommitted % width == 0
            &&& s.num_precommitted <= t.num_precommitted < s.num_precommitted + width
            &&& s.num_rest <= t.num_rest
            &&& t.num_public == s.num_public
            &&& t.num_challenges == s.num_challenges
            &&& s.num_cons <= t.num_cons
            &&& merkle_tree::is_pow2(t.num_cons)
            &&& merkle_tree::is_pow2(q) && s.num_cons <= q ==> t.num_cons <= q
            &&& inputs <= t.num_vars()
            &&& merkle_tree::is_pow2(t.num_vars())
            &&& r % width == 0 && s.num_rest <= r < s.num_rest + width ==> {
                &&& t.num_shared + t.num_precommitted + r <= t.num_vars()
                &&& merkle_tree::is_pow2(q) && inputs <= q && t.num_shared + t.num_precommitted + r
                    <= q ==> t.num_vars() <= q
            }
        }),
{
    let w = width as int;
    lemma_padded(width, s);
    law_padding_fills_rows(width, s);
    lemma_next_multiple(s.num_shared, width);
    lemma_next_multiple(s.num_precommitted, width);
    lemma_next_multiple(s.num_rest, width);
    let t = padded(width, s);
    let vars = t.num_shared + t.num_precommitted + next_multiple(s.num_rest, width);
    let inputs = s.num_public + s.num_challenges + 1;
    let most = if vars < inputs {
        inputs
    } else {
        vars
    };
    lemma_next_pow2(most);
    lemma_next_pow2(s.num_cons);
    if merkle_tree::is_pow2(q) && s.num_cons <= q {
        law_next_pow2_is_least(s.num_cons, q);
    }
    if r % width == 0 && s.num_rest <= r < s.num_rest + width {
        lemma_fundamental_div_mod(r as int, w);
        let k = r as int / w;
        lemma_fundamental_div_mod_converse(
            s.num_rest + w - 1,
            w,
            k,
            s.num_rest + w - 1 - r,
        );
        assert(k * w == w * k) by (nonlinear_arith);
        assert(r == next_multiple(s.num_rest, width));
    }
    if merkle_tree::is_pow2(q) && most <= q {
        law_next_pow2_is_least(most, q);
    }
}

/// A piece filled up with zeros at its end.
pub open spec fn filled(piece: Seq<int>, n: nat) -> Seq<int> {
    piece + Seq::new((n - piece.len()) as nat, |k: int| 0int)
}

/// Padding keeps what constraints say: a row of a padded matrix, times the three pieces of the
/// witness, each filled up with zeros, and the constant, the public values and the challenges
/// behind them, is the sum that the triplets of the row make of the same vector without the zeros.
/// The rows that padding adds are empty.
pub proof fn law_padded_rows(
    width: nat,
    s: Sizes,
    ts: Seq<(int, int, int)>,
    shared: Seq<int>,
    precommitted: Seq<int>,
    rest: Seq<int>,
    public: Seq<int>,
    challenges: Seq<int>,
    i: int,
)
    requires
        width > 0,
        sparse::triplets_fit(ts, s.num_cons, s.num_cols()),
        shared.len() == s.num_shared,
        precommitted.len() == s.num_precommitted,
        rest.len() == s.num_rest,
        public.len() == s.num_public,
        challenges.len() == s.num_challenges,
        0 <= i < padded(width, s).num_cons,
    ensures
        ({
            let t = padded(width, s);
            let m = sparse::matrix_of(padded_triplets(s, t, ts), t.num_cons, t.num_cols());
            let inputs = seq![1int] + public + challenges;
            let w = filled(shared, t.num_shared) + filled(precommitted, t.num_precommitted)
                + filled(rest, t.num_rest) + inputs;
            let z = shared + precommitted + rest + inputs;
            &&& w.len() == t.num_cols()
            &&& sparse::row_times(m, w, i) == sparse::triplets_times(ts, z, i)
            &&& i >= s.num_cons ==> sparse::row_times(m, w, i) == 0
        }),
{
    let t = padded(width, s);
    lemma_padded(width, s);
    let pts = padded_triplets(s, t, ts);
    let inputs = seq![1int] + public + challenges;
    let w = filled(shared, t.num_shared) + filled(precommitted, t.num_precommitted) + filled(
        rest,
        t.num_rest,
    ) + inputs;
    let z = shared + precommitted + rest + inputs;
    assert forall|k: int| 0 <= k < pts.len() implies 0 <= (#[trigger] pts[k]).0 < t.num_cons && 0
        <= pts[k].1 < t.num_cols() by {
        assert(0 <= ts[k].1 < s.num_cols());
        assert(pts[k] == (ts[k].0, padded_column(s, t, ts[k].1), ts[k].2));
    }
    sparse::law_rows_sum_triplets(pts, t.num_cons, t.num_cols(), w, i);
    let f = |k: int| sparse::triplet_term(pts[k], w, i);
    let g = |k: int| sparse::triplet_term(ts[k], z, i);
    assert forall|k: int| 0 <= k < ts.len() implies #[trigger] f(k) == g(k) by {
        assert(pts[k] == (ts[k].0, padded_column(s, t, ts[k].1), ts[k].2));
        let col = ts[k].1;
        assert(0 <= col < s.num_cols());
        assert(w[padded_column(s, t, col)] == z[col]);
    }
    sums::lemma_sum_eq(f, g, ts.len());
    assert(sparse::triplets_times(pts, w, i) == sums::sum(f, pts.len()));
    assert(sparse::triplets_times(ts, z, i) == sums::sum(g, ts.len()));
    if i >= s.num_cons {
        assert forall|k: int| 0 <= k < ts.len() implies #[trigger] g(k) == 0 by {
            assert(ts[k].0 < s.num_cons);
        }
        sums::lemma_sum_zero(g, ts.len());
    }
}

/// Padding keeps solutions: a witness satisfies the padded shape, its pieces filled up with zeros,
/// exactly if it satisfies every constraint that the triplets state.
pub proof fn law_padding_keeps_solutions(
    p: int,
    width: nat,
    s: Sizes,
    ta: Seq<(int, int, int)>,
    tb: Seq<(int, int, int)>,
    tc: Seq<(int, int, int)>,
    shared: Seq<int>,
    precommitted: Seq<int>,
    rest: Seq<int>,
    public: Seq<int>,
    challenges: Seq<int>,
)
    requires
        p > 0,
        width > 0,
        sparse::triplets_fit(ta, s.num_cons, s.num_cols()),
        sparse::triplets_fit(tb, s.num_cons, s.num_cols()),
        sparse::triplets_fit(tc, s.num_cons, s.num_cols()),
        shared.len() == s.num_shared,
        precommitted.len() == s.num_precommitted,
        rest.len() == s.num_rest,
        public.len() == s.num_public,
        challenges.len() == s.num_challenges,
    ensures
        ({
            let t = shape_of(width, s, ta, tb, tc).sizes;
            let inputs = seq![1int] + public + challenges;
            let w = filled(shared, t.num_shared) + filled(precommitted, t.num_precommitted)
                + filled(rest, t.num_rest) + inputs;
            let z = shared + precommitted + rest + inputs;
            satisfies(p, shape_of(width, s, ta, tb, tc), w) <==> forall|i: int|
                0 <= i < s.num_cons ==> (#[trigger] sparse::triplets_times(ta, z, i)
                    * sparse::triplets_times(tb, z, i) - sparse::triplets_times(tc, z, i)) % p == 0
        }),
{
    let shape = shape_of(width, s, ta, tb, tc);
    let t = shape.sizes;
    lemma_padded(width, s);
    let inputs = seq![1int] + public + challenges;
    let w = filled(shared, t.num_shared) + filled(precommitted, t.num_precommitted) + filled(
        rest,
        t.num_rest,
    ) + inputs;
    let z = shared + precommitted + rest + inputs;
    assert forall|i: int| 0 <= i < t.num_cons implies #[trigger] sparse::row_times(shape.a, w, i)
        == sparse::triplets_times(ta, z, i) && sparse::row_times(shape.b, w, i)
        == sparse::triplets_times(tb, z, i) && sparse::row_times(shape.c, w, i)
        == sparse::triplets_times(tc, z, i) && (i >= s.num_cons ==> sparse::row_times(
        shape.a,
        w,
        i,
    ) == 0 && sparse::row_times(shape.c, w, i) == 0) by {
        law_padded_rows(width, s, ta, shared, precommitted, rest, public, challenges, i);
        law_padded_rows(width, s, tb, shared, precommitted, rest, public, challenges, i);
        law_padded_rows(width, s, tc, shared, precommitted, rest, public, challenges, i);
    }
    if satisfies(p, shape, w) {
        assert forall|i: int| 0 <= i < s.num_cons implies (#[trigger] sparse::triplets_times(
            ta,
            z,
            i,
        ) * sparse::triplets_times(tb, z, i) - sparse::triplets_times(tc, z, i)) % p == 0 by {
            assert(sparse::row_times(shape.a, w, i) == sparse::triplets_times(ta, z, i));
        }
    }
    if forall|i: int|
        0 <= i < s.num_cons ==> (#[trigger] sparse::triplets_times(ta, z, i)
            * sparse::triplets_times(tb, z, i) - sparse::triplets_times(tc, z, i)) % p == 0 {
        assert forall|i: int| 0 <= i < t.num_cons implies (#[trigger] sparse::row_times(
            shape.a,
            w,
            i,
        ) * sparse::row_times(shape.b, w, i) - sparse::row_times(shape.c, w, i)) % p == 0 by {
            if i < s.num_cons {
                assert(sparse::row_times(shape.a, w, i) == sparse::triplets_times(ta, z, i));
            } else {
                lemma_mul_basics(sparse::row_times(shape.b, w, i));
                lemma_small_mod(0, p as nat);
            }
        }
    }
}

/// A padded shape is valid, and keeps the sizes before padding.
pub proof fn law_padded_shape_is_valid(
    width: nat,
    s: Sizes,
    ta: Seq<(int, int, int)>,
    tb: Seq<(int, int, int)>,
    tc: Seq<(int, int, int)>,
)
    requires
        width > 0,
        sizes_fit(width, s),
        sparse::triplets_fit(ta, s.num_cons, s.num_cols()),
        sparse::triplets_fit(tb, s.num_cons, s.num_cols()),
        sparse::triplets_fit(tc, s.num_cons, s.num_cols()),
    ensures
        shape_valid(shape_of(width, s, ta, tb, tc)),
        fills_rows(width, shape_of(width, s, ta, tb, tc).sizes),
        shape_of(width, s, ta, tb, tc).unpadded == s,
        shape_of(width, s, ta, tb, tc).sizes.num_public == s.num_public,
        shape_of(width, s, ta, tb, tc).sizes.num_challenges == s.num_challenges,
{
    lemma_padded(width, s);
    law_padding_fills_rows(width, s);
    let t = padded(width, s);
    lemma_padded_triplets_fit(s, t, ta);
    lemma_padded_triplets_fit(s, t, tb);
    lemma_padded_triplets_fit(s, t, tc);
    sparse::lemma_matrix_in_bounds(padded_triplets(s, t, ta), t.num_cons, t.num_cols());
    sparse::lemma_matrix_in_bounds(padded_triplets(s, t, tb), t.num_cons, t.num_cols());
    sparse::lemma_matrix_in_bounds(padded_triplets(s, t, tc), t.num_cons, t.num_cols());
}

/// Triplets that fit a system fit it after padding.
proof fn lemma_padded_triplets_fit(s: Sizes, t: Sizes, ts: Seq<(int, int, int)>)
    requires
        s.num_cons <= t.num_cons,
        sparse::triplets_fit(ts, s.num_cons, s.num_cols()),
        forall|col: int|
            0 <= col < s.num_cols() ==> 0 <= #[trigger] padded_column(s, t, col) < t.num_cols(),
    ensures
        sparse::triplets_fit(padded_triplets(s, t, ts), t.num_cons, t.num_cols()),
{
    let pts = padded_triplets(s, t, ts);
    assert forall|k: int| 0 <= k < pts.len() implies 0 <= (#[trigger] pts[k]).0 < t.num_cons && 0
        <= pts[k].1 < t.num_cols() by {
        assert(0 <= ts[k].1 < s.num_cols());
        assert(pts[k] == (ts[k].0, padded_column(s, t, ts[k].1), ts[k].2));
    }
}

/// The products of a matrix made of triplets and a vector have one component for each row: the
/// remainder of the sum of the values of its triplets, each one times the component in its column.
pub proof fn law_products_sum_triplets<S: ScalarField>(
    ts: Seq<(int, int, int)>,
    rows: nat,
    cols: nat,
    z: Seq<int>,
    i: int,
)
    requires
        sparse::triplets_fit(ts, rows, cols),
        0 <= i < rows,
    ensures
        products::<S>(sparse::matrix_of(ts, rows, cols), z).len() == rows,
        products::<S>(sparse::matrix_of(ts, rows, cols), z)[i] == sparse::triplets_times(ts, z, i)
            % S::modulus(),
{
    sparse::law_rows_sum_triplets(ts, rows, cols, z, i);
}

/// Systems are refused for their size only where it matters: one that stays below a quarter of the
/// machine words with its variables, its inputs and three rows of the width, and below a half with
/// its constraints, is accepted.
pub proof fn law_small_systems_fit(width: nat, s: Sizes)
    requires
        width > 0,
        4 * (s.num_vars() + 3 * width + s.num_public + s.num_challenges + 1) <= usize::MAX,
        2 * s.num_cons <= usize::MAX,
    ensures
        sizes_fit(width, s),
{
    lemma_padded(width, s);
    lemma_next_multiple(s.num_shared, width);
    lemma_next_multiple(s.num_precommitted, width);
    lemma_next_multiple(s.num_rest, width);
    let t = padded(width, s);
    let vars = t.num_shared + t.num_precommitted + next_multiple(s.num_rest, width);
    let inputs = s.num_public + s.num_challenges + 1;
    let most = if vars < inputs {
        inputs
    } else {
        vars
    };
    lemma_next_pow2(most);
    lemma_next_pow2(s.num_cons);
}

} // verus!
