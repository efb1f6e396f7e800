use crate::scalar::Scalar;
use crate::sparse_matrix::{rhs_value, vectors_built, SparseMatrix};
use crate::stencil::{
    entry_value, lemma_entries_index, lemma_row_value_sum, lemma_value_sum, value_sum, Grid,
};
use rayon::iter::{IntoParallelIterator, ParallelIterator};
use vstd::prelude::*;

verus! {

/// The product of row `i` of `matrix` with `vector`, over the first `k`
/// stored entries of the row, accumulated from zero in storage order.
pub open spec fn row_dot<T: Scalar>(matrix: SparseMatrix<T>, vector: Seq<T>, i: int, k: nat) -> T
    decreases k,
{
    if k == 0 {
        T::of_int(0)
    } else {
        let at = matrix.row_start_inds@[i] + k - 1;
        row_dot(matrix, vector, i, (k - 1) as nat).plus(
            matrix.list_of_vals@[at].times(vector[matrix.list_of_inds@[at] as int]),
        )
    }
}

/// The product of row `i` of `matrix` with `vector`.
pub fn row_product<T: Scalar>(matrix: &SparseMatrix<T>, vector: &[T], i: usize) -> (sum: T)
    requires
        matrix.csr_wf(),
        matrix.cols_below(vector@.len() as int),
        i < matrix.local_nrow,
    ensures
        sum == row_dot(*matrix, vector@, i as int, matrix.nnz_in_row@[i as int] as nat),
{
    let total = matrix.list_of_inds.len();
    let mut sum = T::from_i32(0);
    let start_ind = matrix.row_start_inds[i];
    let cur_nnz = matrix.nnz_in_row[i];
    proof {
        matrix.lemma_row_in_bounds(i as int);
    }
    let mut j: usize = 0;
    while j < cur_nnz
        invariant
            j <= cur_nnz,
            i < matrix.local_nrow,
            start_ind == matrix.row_start_inds@[i as int],
            total == matrix.list_of_inds@.len(),
            start_ind + cur_nnz <= total,
            matrix.list_of_vals@.len() == matrix.list_of_inds@.len(),
            matrix.cols_below(vector@.len() as int),
            sum == row_dot(*matrix, vector@, i as int, j as nat),
        decreases cur_nnz - j,
    {
        let col = matrix.list_of_inds[start_ind + j];
        sum = sum.sum(matrix.list_of_vals[start_ind + j].product(vector[col as usize]));
        j += 1;
    }
    sum
}

/// The product of the owned rows of `matrix` with `vector`.
pub open spec fn product<T: Scalar>(matrix: &SparseMatrix<T>, vector: Seq<T>) -> Seq<T> {
    Seq::new(
        matrix.local_nrow as nat,
        |i: int| row_dot(*matrix, vector, i, matrix.nnz_in_row@[i] as nat),
    )
}

/// The product of the owned rows of `matrix` with `vector`.
///
/// `vector` holds a value for every column that the matrix refers to: the
/// owned entries followed by the external ones.
pub fn sparsemv<T: Scalar>(matrix: &SparseMatrix<T>, vector: &[T]) -> (result: Vec<T>)
    requires
        matrix.csr_wf(),
        matrix.cols_below(vector@.len() as int),
    ensures
        result@ == product(matrix, vector@),
{
    let nrow = matrix.local_nrow;
    let mut result: Vec<T> = Vec::with_capacity(vector.len());
    let mut i: usize = 0;
    while i < nrow
        invariant
            i <= nrow,
            nrow == matrix.local_nrow,
            matrix.csr_wf(),
            matrix.cols_below(vector@.len() as int),
            result@.len() == i,
            forall|i2: int|
                0 <= i2 < i ==> #[trigger] result@[i2] == row_dot(
                    *matrix,
                    vector@,
                    i2,
                    matrix.nnz_in_row@[i2] as nat,
                ),
        decreases nrow - i,
    {
        result.push(row_product(matrix, vector, i));
        i += 1;
    }
    assert(result@ =~= product(matrix, vector@));
    result
}

/// Computes the product of each owned row with `vector` on rayon's thread
/// pool.
///
/// Calls `into_par_iter`, `map` and `collect` of rayon on the range of the
/// owned rows, with `row_product` as the function mapped. The contract
/// claims of rayon that the collected vector holds, for each index of the
/// range and in the order of the range, what the mapped function returns
/// for it.
#[verifier::external_body]
fn rows_in_parallel<T: Scalar + Send + Sync>(
    matrix: &SparseMatrix<T>,
    vector: &[T],
) -> (result: Vec<T>)
    requires
        matrix.csr_wf(),
        matrix.cols_below(vector@.len() as int),
    ensures
        result@ == product(matrix, vector@),
{
    (0..matrix.local_nrow).into_par_iter().map(|i| row_product(matrix, vector, i)).collect()
}

/// The product of the owned rows of `matrix` with `vector`, the rows shared
/// out among the threads of the pool.
///
/// No row's result depends on another row, and each is computed as
/// `sparsemv` computes it, so the result is the same.
pub fn sparsemv_parallel<T: Scalar + Send + Sync>(
    matrix: &SparseMatrix<T>,
    vector: &[T],
) -> (result: Vec<T>)
    requires
        matrix.csr_wf(),
        matrix.cols_below(vector@.len() as int),
    ensures
        result@ == product(matrix, vector@),
{
    rows_in_parallel(matrix, vector)
}

/// Over the integers, the product of the first `k` entries of row `i` of a
/// stencil matrix with a vector of ones is the sum of their values.
proof fn lemma_row_dot_of_ones(
    matrix: SparseMatrix<i64>,
    g: Grid,
    ones: Seq<i64>,
    i: int,
    k: nat,
)
    requires
        g.valid(),
        matrix.has_stencil_values(g),
        matrix.cols_below(ones.len() as int),
        forall|c: int| 0 <= c < ones.len() ==> #[trigger] ones[c] == 1,
        0 <= i < matrix.local_nrow,
        k <= matrix.nnz_in_row@[i],
    ensures
        row_dot(matrix, ones, i, k) == value_sum(g.row_entries(i, 27), k),
        -27 <= value_sum(g.row_entries(i, 27), k) <= 27 * 27,
    decreases k,
{
    let e = g.row_entries(i, 27);
    lemma_value_sum(e, k);
    lemma_row_value_sum(g, i);
    if k > 0 {
        lemma_row_dot_of_ones(matrix, g, ones, i, (k - 1) as nat);
        lemma_value_sum(e, (k - 1) as nat);
        lemma_entries_index(g, g.local_nrow() as nat, i, k - 1);
        let at = matrix.row_start_inds@[i] + k - 1;
        let v = matrix.list_of_vals@[at];
        assert(v == entry_value(e[k - 1]));
        assert(ones[matrix.list_of_inds@[at] as int] == 1);
        assert(v * 1 == v) by (nonlinear_arith);
    }
}

/// Over the integers, a stencil matrix times the vector of ones is the
/// right-hand side that the generator gives: the all-ones vector solves the
/// generated system exactly.
pub proof fn lemma_matrix_times_ones(matrix: SparseMatrix<i64>, g: Grid, ones: Seq<i64>)
    requires
        g.valid(),
        matrix.has_stencil_values(g),
        matrix.cols_below(ones.len() as int),
        forall|c: int| 0 <= c < ones.len() ==> #[trigger] ones[c] == 1,
    ensures
        product(&matrix, ones).len() == g.local_nrow(),
        forall|i: int|
            0 <= i < g.local_nrow() ==> #[trigger] product(&matrix, ones)[i] == rhs_value(g, i),
{
    assert forall|i: int| 0 <= i < matrix.local_nrow implies #[trigger] row_dot(
        matrix,
        ones,
        i,
        matrix.nnz_in_row@[i] as nat,
    ) == rhs_value(g, i) by {
        lemma_row_dot_of_ones(matrix, g, ones, i, matrix.nnz_in_row@[i] as nat);
        lemma_row_value_sum(g, i);
    }
}

/// Over the integers, the generated system of a single process is solved
/// exactly by the generated solution: the matrix times the vector of ones
/// is the right-hand side.
pub proof fn lemma_generated_system_is_solved(
    matrix: SparseMatrix<i64>,
    g: Grid,
    guess: Seq<i64>,
    rhs: Seq<i64>,
    exact: Seq<i64>,
)
    requires
        g.valid(),
        g.size == 1,
        matrix.is_stencil_of(g),
        matrix.cols_global(),
        vectors_built(g, g.local_nrow() as nat, guess, rhs, exact),
    ensures
        product(&matrix, exact) == rhs,
{
    assert(g.total_nrow() == g.local_nrow()) by (nonlinear_arith)
        requires
            g.total_nrow() == g.local_nrow() * g.size,
            g.size == 1,
    ;
    lemma_matrix_times_ones(matrix, g, exact);
    assert(product(&matrix, exact) =~= rhs);
}

} // verus!
