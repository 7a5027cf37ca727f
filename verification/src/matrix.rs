//! The distance matrix of a set of samples and the builder that fills it
//! row by row.
use crate::distance::is_distance;
use crate::distance::lemma_distance_to_self;
use rayon::iter::IntoParallelIterator;
use rayon::iter::ParallelIterator;
use vstd::prelude::*;

verus! {

/// `row` is row `i` of the distance matrix of `samples`: left of the diagonal
/// it holds `zero`, and from the diagonal on, at column `j`, a distance that
/// `kernel` may give for the samples `i` and `j`.
pub open spec fn is_distance_row<T, K: Fn(&Vec<T>, &Vec<T>) -> T>(
    kernel: K,
    zero: T,
    samples: Seq<Vec<T>>,
    i: int,
    row: Seq<T>,
) -> bool {
    &&& row.len() == samples.len()
    &&& forall|j: int| 0 <= j < i && j < row.len() ==> #[trigger] row[j] == zero
    &&& forall|j: int|
        0 <= i <= j < samples.len() ==> kernel.ensures((&samples[i], &samples[j]), #[trigger] row[j])
}

/// `row` has `n` cells, each of them `zero`.
pub open spec fn is_zero_row<T>(zero: T, n: nat, row: Seq<T>) -> bool {
    &&& row.len() == n
    &&& forall|j: int| 0 <= j < n ==> #[trigger] row[j] == zero
}

/// `matrix` is the distance matrix of `samples`: square, one row and one
/// column for each sample, the upper triangle (the diagonal included) filled
/// by `kernel` and the strict lower triangle left at `zero`.
pub open spec fn is_distance_matrix<T, K: Fn(&Vec<T>, &Vec<T>) -> T>(
    kernel: K,
    zero: T,
    samples: Seq<Vec<T>>,
    matrix: Seq<Vec<T>>,
) -> bool {
    &&& matrix.len() == samples.len()
    &&& forall|i: int|
        0 <= i < samples.len() ==> is_distance_row(kernel, zero, samples, i, #[trigger] matrix[i]@)
}

/// Number of samples, and number of values in the first of them (0 where
/// there is no sample).
pub fn dimensions<T>(coverage_matrix: &Vec<Vec<T>>) -> (size: (usize, usize))
    ensures
        size.0 == coverage_matrix.len(),
        size.1 == if coverage_matrix.len() == 0 {
            0
        } else {
            coverage_matrix[0].len()
        },
{
    let samples: usize = coverage_matrix.len();
    let columns: usize = if samples == 0 {
        0
    } else {
        coverage_matrix[0].len()
    };
    (samples, columns)
}

fn zero_row<T: Copy>(n: usize, zero: T) -> (row: Vec<T>)
    ensures
        is_zero_row(zero, n as nat, row@),
{
    let mut row: Vec<T> = Vec::new();
    let mut j: usize = 0;
    while j < n
        invariant
            j <= n,
            is_zero_row(zero, j as nat, row@),
        decreases n - j,
    {
        row.push(zero);
        j = j + 1;
    }
    row
}

fn zero_matrix<T: Copy>(n: usize, zero: T) -> (cells: Vec<Vec<T>>)
    ensures
        cells.len() == n,
        forall|i: int| 0 <= i < n ==> is_zero_row(zero, n as nat, #[trigger] cells[i]@),
{
    let mut cells: Vec<Vec<T>> = Vec::new();
    let mut i: usize = 0;
    while i < n
        invariant
            i <= n,
            cells.len() == i,
            forall|k: int| 0 <= k < i ==> is_zero_row(zero, n as nat, #[trigger] cells[k]@),
        decreases n - i,
    {
        cells.push(zero_row(n, zero));
        i = i + 1;
    }
    cells
}

/// The distance for the cell in row `i` and column `j`: what `kernel` gives
/// for the samples `i` and `j`.
fn cell_distance<T, K: Fn(&Vec<T>, &Vec<T>) -> T>(
    samples: &Vec<Vec<T>>,
    i: usize,
    j: usize,
    kernel: &K,
) -> (d: T)
    requires
        i < samples.len(),
        j < samples.len(),
        kernel.requires((&samples[i as int], &samples[j as int])),
    ensures
        kernel.ensures((&samples[i as int], &samples[j as int]), d),
{
    kernel(&samples[i], &samples[j])
}

/// Computes the cells of row `i` from the diagonal on, on the threads of
/// rayon's pool: `into_par_iter` on the range of the columns, `map` with
/// [`cell_distance`], and `collect`. The contract claims that the collected
/// vector has one cell for each column of the range, in the order of the
/// columns, and that each cell is what the call for its column returned.
#[verifier::external_body]
fn row_in_parallel<T: Copy + Send + Sync, K: Fn(&Vec<T>, &Vec<T>) -> T + Sync>(
    samples: &Vec<Vec<T>>,
    i: usize,
    kernel: &K,
) -> (distances: Vec<T>)
    requires
        i < samples.len(),
        forall|j: int|
            i <= j < samples.len() ==> kernel.requires((&samples[i as int], &samples[j])),
    ensures
        distances.len() == samples.len() - i,
        forall|k: int|
            0 <= k < distances.len() ==> kernel.ensures(
                (&samples[i as int], &samples[i + k]),
                #[trigger] distances[k],
            ),
{
    (i..samples.len()).into_par_iter().map(|j| cell_distance(samples, i, j, kernel)).collect()
}

/// A distance matrix under construction. Its rows are filled in order, one
/// call of [`MatrixBuilder::fill_row`] each; the rows not yet filled hold
/// `zero` in every cell.
pub struct MatrixBuilder<'a, T, K> {
    samples: &'a Vec<Vec<T>>,
    kernel: &'a K,
    zero: T,
    cells: Vec<Vec<T>>,
    row: usize,
}

impl<'a, T: Copy + Send + Sync, K: Fn(&Vec<T>, &Vec<T>) -> T + Sync> MatrixBuilder<'a, T, K> {
    /// The samples whose distances are computed.
    pub closed spec fn samples(&self) -> Seq<Vec<T>> {
        self.samples@
    }

    /// The kernel that computes each distance.
    pub closed spec fn kernel(&self) -> K {
        *self.kernel
    }

    /// The value of the cells that the builder does not fill.
    pub closed spec fn zero(&self) -> T {
        self.zero
    }

    /// The rows of the matrix as far as it is built.
    pub closed spec fn cells(&self) -> Seq<Vec<T>> {
        self.cells@
    }

    /// Number of rows filled so far.
    pub closed spec fn rows_done(&self) -> nat {
        self.row as nat
    }

    /// The matrix has one row for each sample; the rows filled so far are
    /// rows of the distance matrix, the others are zero rows; and `kernel`
    /// accepts every pair of samples of the upper triangle.
    pub open spec fn wf(&self) -> bool {
        let n = self.samples().len();
        &&& self.cells().len() == n
        &&& self.rows_done() <= n
        &&& forall|i: int, j: int|
            0 <= i <= j < n ==> self.kernel().requires((&self.samples()[i], &self.samples()[j]))
        &&& forall|i: int|
            0 <= i < self.rows_done() ==> is_distance_row(
                self.kernel(),
                self.zero(),
                self.samples(),
                i,
                #[trigger] self.cells()[i]@,
            )
        &&& forall|i: int|
            self.rows_done() <= i < n ==> is_zero_row(self.zero(), n, #[trigger] self.cells()[i]@)
    }

    /// A builder for the distance matrix of `samples`, with every cell at
    /// `zero` and no row filled.
    pub fn new(samples: &'a Vec<Vec<T>>, zero: T, kernel: &'a K) -> (builder: Self)
        requires
            forall|i: int, j: int|
                0 <= i <= j < samples.len() ==> kernel.requires((&samples[i], &samples[j])),
        ensures
            builder.wf(),
            builder.samples() == samples@,
            builder.kernel() == *kernel,
            builder.zero() == zero,
            builder.rows_done() == 0,
    {
        let n: usize = samples.len();
        MatrixBuilder { samples, kernel, zero, cells: zero_matrix(n, zero), row: 0 }
    }

    /// The row to fill next, which is also the position to report as
    /// progress before it is filled; `None` once every row is filled.
    pub fn next_row(&self) -> (next: Option<usize>)
        requires
            self.wf(),
        ensures
            next == if self.rows_done() < self.samples().len() {
                Some(self.rows_done() as usize)
            } else {
                None
            },
    {
        if self.row < self.samples.len() {
            Some(self.row)
        } else {
            None
        }
    }

    /// Fills the next row: the distances from its sample to itself and to
    /// each later sample are computed in parallel and written from the
    /// diagonal on. No other row changes.
    pub fn fill_row(&mut self)
        requires
            old(self).wf(),
            old(self).rows_done() < old(self).samples().len(),
        ensures
            final(self).wf(),
            final(self).samples() == old(self).samples(),
            final(self).kernel() == old(self).kernel(),
            final(self).zero() == old(self).zero(),
            final(self).rows_done() == old(self).rows_done() + 1,
            final(self).cells().len() == old(self).cells().len(),
            forall|i: int|
                0 <= i < old(self).cells().len() && i != old(self).rows_done()
                    ==> final(self).cells()[i] == old(self).cells()[i],
    {
        let n: usize = self.samples.len();
        let i: usize = self.row;
        assert forall|j: int| i <= j < n implies self.kernel.requires(
            (&self.samples@[i as int], &self.samples@[j]),
        ) by {
            assert(self.kernel().requires((&self.samples()[i as int], &self.samples()[j])));
        }
        let distances: Vec<T> = row_in_parallel(self.samples, i, self.kernel);
        let mut row: Vec<T> = Vec::new();
        let mut j: usize = 0;
        while j < n
            invariant
                j <= n,
                i < n,
                n == self.samples.len(),
                distances.len() == n - i,
                row.len() == j,
                forall|c: int| 0 <= c < j && c < i ==> #[trigger] row[c] == self.zero,
                forall|c: int| i <= c < j ==> #[trigger] row[c] == distances[c - i],
            decreases n - j,
        {
            if j < i {
                row.push(self.zero);
            } else {
                row.push(distances[j - i]);
            }
            j = j + 1;
        }
        assert(is_distance_row(*self.kernel, self.zero, self.samples@, i as int, row@)) by {
            assert forall|c: int| i <= c < n implies self.kernel.ensures(
                (&self.samples@[i as int], &self.samples@[c]),
                #[trigger] row@[c],
            ) by {
                assert(row@[c] == distances[c - i]);
            }
        }
        self.cells.set(i, row);
        self.row = i + 1;
        proof {
            assert forall|a: int, b: int| 0 <= a <= b < n implies self.kernel().requires(
                (&self.samples()[a], &self.samples()[b]),
            ) by {
                assert(old(self).kernel().requires(
                    (&old(self).samples()[a], &old(self).samples()[b]),
                ));
            }
        }
    }

    /// The finished matrix.
    pub fn finish(self) -> (distance_matrix: Vec<Vec<T>>)
        requires
            self.wf(),
            self.rows_done() == self.samples().len(),
        ensures
            distance_matrix@ == self.cells(),
            is_distance_matrix(self.kernel(), self.zero(), self.samples(), distance_matrix@),
    {
        self.cells
    }
}

/// Distance matrix of the samples of `coverage_matrix`.
///
/// Row `i` holds, from the diagonal on, the distance that `kernel` gives for
/// sample `i` and the sample of the column; the cells left of the diagonal
/// stay at `zero`. The rows are filled in order, each in parallel over its
/// columns. No sample gives a matrix without rows.
pub fn eucledian<T: Copy + Send + Sync, K: Fn(&Vec<T>, &Vec<T>) -> T + Sync>(
    coverage_matrix: &Vec<Vec<T>>,
    zero: T,
    kernel: &K,
) -> (distance_matrix: Vec<Vec<T>>)
    requires
        forall|i: int, j: int|
            0 <= i <= j < coverage_matrix.len() ==> kernel.requires(
                (&coverage_matrix[i], &coverage_matrix[j]),
            ),
    ensures
        is_distance_matrix(*kernel, zero, coverage_matrix@, distance_matrix@),
{
    let mut builder = MatrixBuilder::new(coverage_matrix, zero, kernel);
    while builder.next_row().is_some()
        invariant
            builder.wf(),
            builder.samples() == coverage_matrix@,
            builder.kernel() == *kernel,
            builder.zero() == zero,
        decreases builder.samples().len() - builder.rows_done(),
    {
        builder.fill_row();
    }
    builder.finish()
}

/// The diagonal of a distance matrix holds `zero` in every cell, provided
/// that the kernel gives `zero` for each sample and itself.
pub proof fn lemma_diagonal_is_zero<T, K: Fn(&Vec<T>, &Vec<T>) -> T>(
    kernel: K,
    zero: T,
    samples: Seq<Vec<T>>,
    matrix: Seq<Vec<T>>,
)
    requires
        is_distance_matrix(kernel, zero, samples, matrix),
        forall|i: int, d: T|
            0 <= i < samples.len() && kernel.ensures((&samples[i], &samples[i]), d) ==> d == zero,
    ensures
        forall|i: int| 0 <= i < samples.len() ==> (#[trigger] matrix[i])@[i] == zero,
{
    assert forall|i: int| 0 <= i < samples.len() implies (#[trigger] matrix[i])@[i] == zero by {
        assert(is_distance_row(kernel, zero, samples, i, matrix[i]@));
        assert(kernel.ensures((&samples[i], &samples[i]), matrix[i]@[i]));
    }
}

/// The diagonal of a distance matrix holds `zero` in every cell where the
/// kernel returns pairwise distances, provided that the term of each value
/// of a sample with itself is `zero`, that `zero` plus `zero` is `zero`, and
/// that the root of `zero` is `zero`.
pub proof fn lemma_diagonal_of_distances_is_zero<T, K: Fn(&Vec<T>, &Vec<T>) -> T>(
    kernel: K,
    term: spec_fn(T, T, T) -> bool,
    plus: spec_fn(T, T, T) -> bool,
    root: spec_fn(T, T) -> bool,
    zero: T,
    samples: Seq<Vec<T>>,
    matrix: Seq<Vec<T>>,
)
    requires
        is_distance_matrix(kernel, zero, samples, matrix),
        forall|i: int, d: T|
            0 <= i < samples.len() && #[trigger] kernel.ensures((&samples[i], &samples[i]), d)
                ==> is_distance(term, plus, root, zero, samples[i]@, samples[i]@, d),
        forall|i: int, k: int, t: T|
            0 <= i < samples.len() && 0 <= k < samples[i]@.len() && #[trigger] term(
                samples[i]@[k],
                samples[i]@[k],
                t,
            ) ==> t == zero,
        forall|s: T| #[trigger] plus(zero, zero, s) ==> s == zero,
        forall|r: T| #[trigger] root(zero, r) ==> r == zero,
    ensures
        forall|i: int| 0 <= i < samples.len() ==> (#[trigger] matrix[i])@[i] == zero,
{
    assert forall|i: int, d: T|
        0 <= i < samples.len() && kernel.ensures((&samples[i], &samples[i]), d) implies d
        == zero by {
        lemma_distance_to_self(term, plus, root, zero, samples[i]@, d);
    }
    lemma_diagonal_is_zero(kernel, zero, samples, matrix);
}

/// The strict lower triangle of a distance matrix holds `zero` in every
/// cell, whatever the kernel.
pub proof fn lemma_lower_triangle_is_zero<T, K: Fn(&Vec<T>, &Vec<T>) -> T>(
    kernel: K,
    zero: T,
    samples: Seq<Vec<T>>,
    matrix: Seq<Vec<T>>,
)
    requires
        is_distance_matrix(kernel, zero, samples, matrix),
    ensures
        forall|i: int, j: int|
            0 <= j < i < samples.len() ==> #[trigger] matrix[i]@[j] == zero,
{
    assert forall|i: int, j: int| 0 <= j < i < samples.len() implies #[trigger] matrix[i]@[j]
        == zero by {
        assert(is_distance_row(kernel, zero, samples, i, matrix[i]@));
    }
}

/// The samples have one distance matrix only, provided that the kernel gives
/// one distance only for each pair of the upper triangle: building twice
/// from the same samples gives the same cells, in whatever order the
/// parallel calls ran.
pub proof fn lemma_matrix_unique<T, K: Fn(&Vec<T>, &Vec<T>) -> T>(
    kernel: K,
    zero: T,
    samples: Seq<Vec<T>>,
    first: Seq<Vec<T>>,
    second: Seq<Vec<T>>,
)
    requires
        is_distance_matrix(kernel, zero, samples, first),
        is_distance_matrix(kernel, zero, samples, second),
        forall|i: int, j: int, d1: T, d2: T|
            0 <= i <= j < samples.len() && kernel.ensures((&samples[i], &samples[j]), d1)
                && kernel.ensures((&samples[i], &samples[j]), d2) ==> d1 == d2,
    ensures
        first.len() == second.len(),
        forall|i: int| 0 <= i < first.len() ==> (#[trigger] first[i])@ == second[i]@,
{
    assert forall|i: int| 0 <= i < first.len() implies (#[trigger] first[i])@ == second[i]@ by {
        assert(is_distance_row(kernel, zero, samples, i, first[i]@));
        assert(is_distance_row(kernel, zero, samples, i, second[i]@));
        assert forall|j: int| 0 <= j < samples.len() implies first[i]@[j] == second[i]@[j] by {
            if j >= i {
                assert(kernel.ensures((&samples[i], &samples[j]), first[i]@[j]));
                assert(kernel.ensures((&samples[i], &samples[j]), second[i]@[j]));
            }
        }
        assert(first[i]@ =~= second[i]@);
    }
}

} // verus!
