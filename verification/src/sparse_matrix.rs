use crate::scalar::Scalar;
use crate::stencil::{
    entry_value, lemma_coordinates, lemma_entries_range, lemma_grid_bounds,
    lemma_row_entries_len, offset_x, offset_y, offset_z, scaled, Grid,
};
use vstd::prelude::*;

verus! {

/// One process's block of rows of a sparse matrix in compressed-row storage,
/// with the bookkeeping for exchanging boundary values with its neighbours.
///
/// Column indices are global until the local-matrix setup has run and local
/// afterwards. The fields after `list_of_inds` are empty until then.
#[derive(Debug)]
pub struct SparseMatrix<T> {
    /// First global row owned by this process.
    pub start_row: usize,
    /// Last global row owned by this process.
    pub stop_row: usize,
    /// Number of rows of the whole matrix.
    pub total_nrow: usize,
    /// Upper bound on the non-zeros of the whole matrix, 27 per row.
    pub total_nnz: usize,
    /// Number of rows owned by this process.
    pub local_nrow: usize,
    /// Number of columns this process reads: its rows and its externals.
    pub local_ncol: usize,
    /// Upper bound on the non-zeros of this process, 27 per row.
    pub local_nnz: usize,
    /// Number of stored entries of each row.
    pub nnz_in_row: Vec<usize>,
    /// Position in the entry arrays at which each row begins.
    pub row_start_inds: Vec<usize>,
    /// Stored values, row after row.
    pub list_of_vals: Vec<T>,
    /// Column index of each stored value.
    pub list_of_inds: Vec<i32>,
    /// Number of distinct columns owned by other processes.
    pub num_external: usize,
    /// Number of neighbours this process exchanges with.
    pub num_send_neighbors: usize,
    /// Global index of each external column, in order of discovery.
    pub external_index: Vec<usize>,
    /// Local column assigned to each external column.
    pub external_local_index: Vec<i32>,
    /// Number of vector entries this process sends in one exchange.
    pub total_to_be_sent: usize,
    /// Local rows whose values are sent, in sending order.
    pub elements_to_send: Vec<i32>,
    /// Ranks of the neighbours.
    pub neighbors: Vec<usize>,
    /// Number of values received from each neighbour.
    pub recv_length: Vec<usize>,
    /// Number of values sent to each neighbour.
    pub send_length: Vec<usize>,
    /// Scratch space for the values being sent.
    pub send_buffer: Vec<T>,
}

/// The sum of the first `n` entries of `s`.
pub open spec fn sum_to(s: Seq<usize>, n: nat) -> nat
    decreases n,
{
    if n == 0 {
        0
    } else {
        sum_to(s, (n - 1) as nat) + s[n - 1] as nat
    }
}

/// The sum of a prefix depends only on the prefix.
pub proof fn lemma_sum_to_prefix(a: Seq<usize>, b: Seq<usize>, n: nat)
    requires
        n <= a.len(),
        n <= b.len(),
        forall|k: int| 0 <= k < n ==> a[k] == b[k],
    ensures
        sum_to(a, n) == sum_to(b, n),
    decreases n,
{
    if n > 0 {
        lemma_sum_to_prefix(a, b, (n - 1) as nat);
    }
}

/// A longer prefix has the larger sum.
pub proof fn lemma_sum_to_monotone(s: Seq<usize>, n: nat, m: nat)
    requires
        n <= m,
    ensures
        sum_to(s, n) <= sum_to(s, m),
    decreases m,
{
    if n < m {
        lemma_sum_to_monotone(s, n, (m - 1) as nat);
    }
}

/// The grid that the five numbers describe.
pub open spec fn grid_of(nx: usize, ny: usize, nz: usize, rank: usize, size: usize) -> Grid {
    Grid { nx: nx as int, ny: ny as int, nz: nz as int, rank: rank as int, size: size as int }
}

/// The row counts, row starts and values are those of the first `rows` rows
/// of the stencil matrix on `g`.
pub open spec fn values_built<T: Scalar>(
    g: Grid,
    rows: nat,
    nnz: Seq<usize>,
    starts: Seq<usize>,
    vals: Seq<T>,
) -> bool {
    &&& nnz.len() == rows
    &&& starts.len() == rows
    &&& vals.len() == g.entries(rows).len()
    &&& forall|i: int| 0 <= i < rows ==> #[trigger] nnz[i] == g.row_nnz(i)
    &&& forall|i: int| 0 <= i < rows ==> #[trigger] starts[i] == g.entries(i as nat).len()
    &&& forall|k: int|
        0 <= k < g.entries(rows).len() ==> #[trigger] vals[k] == T::of_int(
            entry_value(g.entries(rows)[k]),
        )
}

/// The compressed-row arrays hold exactly the first `rows` rows of the
/// stencil matrix on `g`, with global column indices.
pub open spec fn rows_built<T: Scalar>(
    g: Grid,
    rows: nat,
    nnz: Seq<usize>,
    starts: Seq<usize>,
    inds: Seq<i32>,
    vals: Seq<T>,
) -> bool {
    &&& values_built(g, rows, nnz, starts, vals)
    &&& inds.len() == g.entries(rows).len()
    &&& forall|k: int| 0 <= k < g.entries(rows).len() ==> #[trigger] inds[k] == g.entries(rows)[k].1
}

/// The entry arrays are the arrays `inds0` and `vals0` followed by the entries
/// of local row `row` among the first `t` stencil points.
pub open spec fn row_appended<T: Scalar>(
    g: Grid,
    row: int,
    t: nat,
    inds0: Seq<i32>,
    vals0: Seq<T>,
    inds: Seq<i32>,
    vals: Seq<T>,
) -> bool {
    let e = g.row_entries(row, t);
    &&& inds.len() == inds0.len() + e.len()
    &&& vals.len() == vals0.len() + e.len()
    &&& forall|k: int| 0 <= k < inds0.len() ==> #[trigger] inds[k] == inds0[k]
    &&& forall|k: int| 0 <= k < vals0.len() ==> #[trigger] vals[k] == vals0[k]
    &&& forall|j: int| 0 <= j < e.len() ==> #[trigger] inds[inds0.len() + j] == e[j].1
    &&& forall|j: int|
        0 <= j < e.len() ==> #[trigger] vals[vals0.len() + j] == T::of_int(entry_value(e[j]))
}

/// The right-hand side for which the all-ones vector solves row `row`.
pub open spec fn rhs_value(g: Grid, row: int) -> i32 {
    (27 - (g.row_nnz(row) - 1)) as i32
}

impl<T: Scalar> SparseMatrix<T> {
    /// Where row `i` begins in the entry arrays; for `i == local_nrow`, where
    /// the last row ends.
    pub open spec fn row_begin(&self, i: int) -> int {
        if i < self.local_nrow {
            self.row_start_inds@[i] as int
        } else {
            self.list_of_inds@.len() as int
        }
    }

    /// The compressed-row arrays are consistent: one count and one start per
    /// owned row, one index per value, and each row beginning where the one
    /// before it ends.
    pub open spec fn csr_wf(&self) -> bool {
        &&& self.local_nrow >= 1
        &&& self.start_row + self.local_nrow - 1 == self.stop_row
        &&& self.nnz_in_row@.len() == self.local_nrow
        &&& self.row_start_inds@.len() == self.local_nrow
        &&& self.list_of_vals@.len() == self.list_of_inds@.len()
        &&& self.row_begin(0) == 0
        &&& forall|i: int|
            0 <= i < self.local_nrow ==> #[trigger] self.row_begin(i) + self.nnz_in_row@[i]
                == self.row_begin(i + 1)
    }

    /// Row `i` lies inside the entry arrays.
    pub proof fn lemma_row_in_bounds(&self, i: int)
        requires
            self.csr_wf(),
            0 <= i < self.local_nrow,
        ensures
            0 <= self.row_begin(i),
            self.row_begin(i) + self.nnz_in_row@[i] <= self.list_of_inds@.len(),
        decreases self.local_nrow - i,
    {
        assert(self.row_begin(i) + self.nnz_in_row@[i] == self.row_begin(i + 1));
        if i + 1 < self.local_nrow {
            self.lemma_row_in_bounds(i + 1);
        }
    }

    /// Every stored column index is a position in a vector of `ncol` entries.
    pub open spec fn cols_below(&self, ncol: int) -> bool {
        forall|k: int|
            0 <= k < self.list_of_inds@.len() ==> 0 <= #[trigger] self.list_of_inds@[k] < ncol
    }

    /// Every stored column is a row of the whole matrix, which a 32-bit index
    /// can number.
    pub open spec fn cols_global(&self) -> bool {
        &&& self.total_nrow <= i32::MAX
        &&& self.stop_row < self.total_nrow
        &&& forall|k: int|
            0 <= k < self.list_of_inds@.len() ==> 0 <= #[trigger] self.list_of_inds@[k]
                < self.total_nrow
    }

    /// No halo information has been set up yet.
    pub open spec fn halo_empty(&self) -> bool {
        &&& self.num_external == 0
        &&& self.num_send_neighbors == 0
        &&& self.total_to_be_sent == 0
        &&& self.external_index@.len() == 0
        &&& self.external_local_index@.len() == 0
        &&& self.elements_to_send@.len() == 0
        &&& self.neighbors@.len() == 0
        &&& self.recv_length@.len() == 0
        &&& self.send_length@.len() == 0
        &&& self.send_buffer@.len() == 0
    }

    /// The halo bookkeeping is complete and consistent: every stored column
    /// is a local column, the neighbours' lengths add up to the externals and
    /// to the values sent, and every value sent is an owned row.
    pub open spec fn halo_wf(&self) -> bool {
        &&& self.local_ncol == self.local_nrow + self.num_external
        &&& self.cols_below(self.local_ncol as int)
        &&& self.neighbors@.len() == self.num_send_neighbors
        &&& self.recv_length@.len() == self.num_send_neighbors
        &&& self.send_length@.len() == self.num_send_neighbors
        &&& sum_to(self.recv_length@, self.recv_length@.len()) == self.num_external
        &&& sum_to(self.send_length@, self.send_length@.len()) == self.total_to_be_sent
        &&& self.elements_to_send@.len() == self.total_to_be_sent
        &&& self.send_buffer@.len() == self.total_to_be_sent
        &&& forall|i: int|
            0 <= i < self.elements_to_send@.len() ==> 0 <= #[trigger] self.elements_to_send@[i]
                < self.local_nrow
    }

    /// The rows of the matrix have the lengths and the values of this
    /// process's block of the stencil matrix on `g`, whatever form the column
    /// indices are in.
    pub open spec fn has_stencil_values(&self, g: Grid) -> bool {
        &&& self.local_nrow == g.local_nrow()
        &&& self.list_of_inds@.len() == self.list_of_vals@.len()
        &&& values_built(
            g,
            g.local_nrow() as nat,
            self.nnz_in_row@,
            self.row_start_inds@,
            self.list_of_vals@,
        )
    }

    /// The matrix is this process's block of the 27-point stencil matrix on
    /// `g`, with global column indices.
    pub open spec fn is_stencil_of(&self, g: Grid) -> bool {
        &&& self.start_row == g.start_row()
        &&& self.stop_row == g.start_row() + g.local_nrow() - 1
        &&& self.total_nrow == g.total_nrow()
        &&& self.total_nnz == 27 * g.total_nrow()
        &&& self.local_nrow == g.local_nrow()
        &&& self.local_ncol == g.local_nrow()
        &&& self.local_nnz == 27 * g.local_nrow()
        &&& rows_built(
            g,
            g.local_nrow() as nat,
            self.nnz_in_row@,
            self.row_start_inds@,
            self.list_of_inds@,
            self.list_of_vals@,
        )
    }
}

/// Appends the entries of local row `row` to the entry arrays and returns
/// their number.
fn push_row<T: Scalar>(
    Ghost(g): Ghost<Grid>,
    Ghost(row): Ghost<int>,
    nx: usize,
    ny: usize,
    plane: usize,
    total_nrow: usize,
    ix: usize,
    iy: usize,
    currow: usize,
    list_of_vals: &mut Vec<T>,
    list_of_inds: &mut Vec<i32>,
) -> (nnzrow: usize)
    requires
        nx == g.nx,
        ny == g.ny,
        plane == g.plane(),
        total_nrow == g.total_nrow(),
        ix == g.ix(row),
        iy == g.iy(row),
        currow == g.start_row() + row,
        ix < nx <= i32::MAX,
        iy < ny <= i32::MAX,
        plane <= i32::MAX,
        currow < total_nrow <= i32::MAX,
        old(list_of_vals)@.len() == old(list_of_inds)@.len(),
    ensures
        nnzrow == g.row_nnz(row),
        nnzrow <= 27,
        row_appended(
            g,
            row,
            27,
            old(list_of_inds)@,
            old(list_of_vals)@,
            final(list_of_inds)@,
            final(list_of_vals)@,
        ),
{
    let ghost inds0 = list_of_inds@;
    let ghost vals0 = list_of_vals@;
    let mut nnzrow: usize = 0;
    let mut sz: i64 = -1;
    while sz <= 1
        invariant
            -1 <= sz <= 2,
            nx == g.nx,
            ny == g.ny,
            plane == g.plane(),
            total_nrow == g.total_nrow(),
            ix == g.ix(row),
            iy == g.iy(row),
            currow == g.start_row() + row,
            ix < nx <= i32::MAX,
            iy < ny <= i32::MAX,
            plane <= i32::MAX,
            currow < total_nrow <= i32::MAX,
            inds0.len() == vals0.len(),
            nnzrow == g.row_entries(row, (9 * (sz + 1)) as nat).len(),
            row_appended(g, row, (9 * (sz + 1)) as nat, inds0, vals0, list_of_inds@, list_of_vals@),
        decreases 2 - sz,
    {
        let mut sy: i64 = -1;
        while sy <= 1
            invariant
                -1 <= sz <= 1,
                -1 <= sy <= 2,
                nx == g.nx,
                ny == g.ny,
                plane == g.plane(),
                total_nrow == g.total_nrow(),
                ix == g.ix(row),
                iy == g.iy(row),
                currow == g.start_row() + row,
                ix < nx <= i32::MAX,
                iy < ny <= i32::MAX,
                plane <= i32::MAX,
                currow < total_nrow <= i32::MAX,
                inds0.len() == vals0.len(),
                nnzrow == g.row_entries(row, (9 * (sz + 1) + 3 * (sy + 1)) as nat).len(),
                row_appended(
                    g,
                    row,
                    (9 * (sz + 1) + 3 * (sy + 1)) as nat,
                    inds0,
                    vals0,
                    list_of_inds@,
                    list_of_vals@,
                ),
            decreases 2 - sy,
        {
            let mut sx: i64 = -1;
            while sx <= 1
                invariant
                    -1 <= sz <= 1,
                    -1 <= sy <= 1,
                    -1 <= sx <= 2,
                    nx == g.nx,
                    ny == g.ny,
                    plane == g.plane(),
                    total_nrow == g.total_nrow(),
                    ix == g.ix(row),
                    iy == g.iy(row),
                    currow == g.start_row() + row,
                    ix < nx <= i32::MAX,
                    iy < ny <= i32::MAX,
                    plane <= i32::MAX,
                    currow < total_nrow <= i32::MAX,
                    inds0.len() == vals0.len(),
                    nnzrow == g.row_entries(
                        row,
                        (9 * (sz + 1) + 3 * (sy + 1) + (sx + 1)) as nat,
                    ).len(),
                    row_appended(
                        g,
                        row,
                        (9 * (sz + 1) + 3 * (sy + 1) + (sx + 1)) as nat,
                        inds0,
                        vals0,
                        list_of_inds@,
                        list_of_vals@,
                    ),
                decreases 2 - sx,
            {
                let ghost t: int = 9 * (sz + 1) + 3 * (sy + 1) + (sx + 1);
                let ghost before = g.row_entries(row, t as nat);
                proof {
                    assert(offset_z(t) == sz && offset_y(t) == sy && offset_x(t) == sx);
                    assert(sz * plane == scaled(sz as int, plane as int)) by (nonlinear_arith)
                        requires
                            -1 <= sz <= 1,
                    ;
                    assert(sy * nx == scaled(sy as int, nx as int)) by (nonlinear_arith)
                        requires
                            -1 <= sy <= 1,
                    ;
                    lemma_row_entries_len(g, row, t as nat);
                }
                let curcol: i64 = currow as i64 + sz * (plane as i64) + sy * (nx as i64) + sx;
                let sx_ix: i64 = ix as i64 + sx;
                let sy_iy: i64 = iy as i64 + sy;
                assert(curcol == g.col(row, t));
                assert(g.row_entries(row, (t + 1) as nat) == if g.hit(row, t) {
                    before.push((g.start_row() + row, g.col(row, t)))
                } else {
                    before
                });
                if sx_ix >= 0 && sx_ix < nx as i64 && sy_iy >= 0 && sy_iy < ny as i64 && curcol
                    >= 0 && curcol < total_nrow as i64 {
                    assert(g.hit(row, t));
                    if curcol == currow as i64 {
                        list_of_vals.push(T::from_i32(27));
                    } else {
                        list_of_vals.push(T::from_i32(-1));
                    }
                    list_of_inds.push(curcol as i32);
                    nnzrow += 1;
                } else {
                    assert(!g.hit(row, t));
                }
                sx += 1;
            }
            sy += 1;
        }
        sz += 1;
    }
    proof {
        lemma_row_entries_len(g, row, 27);
    }
    nnzrow
}

/// The first `rows` entries of the three vectors are the initial guess, the
/// right-hand side and the exact solution of the stencil problem on `g`.
pub open spec fn vectors_built<T: Scalar>(
    g: Grid,
    rows: nat,
    guess: Seq<T>,
    rhs: Seq<T>,
    exact: Seq<T>,
) -> bool {
    &&& guess.len() == rows
    &&& rhs.len() == rows
    &&& exact.len() == rows
    &&& forall|i: int| 0 <= i < rows ==> #[trigger] guess[i] == T::of_int(0)
    &&& forall|i: int| 0 <= i < rows ==> #[trigger] rhs[i] == T::of_int(rhs_value(g, i))
    &&& forall|i: int| 0 <= i < rows ==> #[trigger] exact[i] == T::of_int(1)
}

/// Whether the grid is one that `generate_matrix` accepts.
pub fn grid_is_valid(nx: usize, ny: usize, nz: usize, rank: usize, size: usize) -> (ok: bool)
    ensures
        ok == grid_of(nx, ny, nz, rank, size).valid(),
{
    let ghost g = grid_of(nx, ny, nz, rank, size);
    if nx < 1 || ny < 1 || nz < 1 || rank >= size {
        return false;
    }
    let limit: u64 = if usize::MAX as u64 / 27 < i32::MAX as u64 {
        usize::MAX as u64 / 27
    } else {
        i32::MAX as u64
    };
    assert(g.total_nrow() <= limit <==> g.total_nrow() <= i32::MAX && 27 * g.total_nrow()
        <= usize::MAX);
    if nx as u64 > limit || ny as u64 > limit || nz as u64 > limit || size as u64 > limit {
        proof {
            let p = g.nx * g.ny;
            let l = p * g.nz;
            assert(g.nx <= p && g.ny <= p && 1 <= p) by (nonlinear_arith)
                requires
                    1 <= g.nx,
                    1 <= g.ny,
                    p == g.nx * g.ny,
            ;
            assert(p <= l && g.nz <= l && 1 <= l) by (nonlinear_arith)
                requires
                    1 <= p,
                    1 <= g.nz,
                    l == p * g.nz,
            ;
            assert(l <= l * g.size && g.size <= l * g.size) by (nonlinear_arith)
                requires
                    1 <= l,
                    1 <= g.size,
            ;
        }
        return false;
    }
    assert(nx * ny <= 0x7fff_ffff * 0x7fff_ffff) by (nonlinear_arith)
        requires
            nx <= 0x7fff_ffff,
            ny <= 0x7fff_ffff,
    ;
    let plane: u64 = nx as u64 * ny as u64;
    if plane > limit {
        proof {
            let p = g.nx * g.ny;
            let l = p * g.nz;
            assert(p <= l && 1 <= l) by (nonlinear_arith)
                requires
                    1 <= p,
                    1 <= g.nz,
                    l == p * g.nz,
            ;
            assert(l <= l * g.size) by (nonlinear_arith)
                requires
                    1 <= l,
                    1 <= g.size,
            ;
        }
        return false;
    }
    assert(plane * nz <= 0x7fff_ffff * 0x7fff_ffff) by (nonlinear_arith)
        requires
            plane <= 0x7fff_ffff,
            nz <= 0x7fff_ffff,
    ;
    let local: u64 = plane * nz as u64;
    if local > limit {
        proof {
            let l = g.local_nrow();
            assert(l <= l * g.size) by (nonlinear_arith)
                requires
                    1 <= l,
                    1 <= g.size,
            ;
        }
        return false;
    }
    assert(local * size <= 0x7fff_ffff * 0x7fff_ffff) by (nonlinear_arith)
        requires
            local <= 0x7fff_ffff,
            size <= 0x7fff_ffff,
    ;
    let total: u64 = local * size as u64;
    total <= limit
}

/// The executable sizes are those of the valid grid `g`.
pub open spec fn sizes_of(
    g: Grid,
    nx: usize,
    ny: usize,
    nz: usize,
    plane: usize,
    local_nrow: usize,
    total_nrow: usize,
    start_row: usize,
) -> bool {
    &&& g.valid()
    &&& nx == g.nx
    &&& ny == g.ny
    &&& nz == g.nz
    &&& plane == g.plane()
    &&& local_nrow == g.local_nrow()
    &&& total_nrow == g.total_nrow()
    &&& start_row == g.start_row()
}

impl<T: Scalar> SparseMatrix<T> {
    /// Builds this process's block of the 27-point stencil matrix on the grid
    /// of `size` blocks of `nx * ny * nz` cells, of which it owns block `rank`,
    /// together with the initial guess, the right-hand side and the exact
    /// solution over the owned rows.
    ///
    /// Column indices are global. Row `i` couples cell `i` to each of its up to
    /// 26 neighbours with -1 and to itself with 27; the right-hand side is
    /// chosen so that the all-ones vector is the solution.
    pub fn generate_matrix(nx: usize, ny: usize, nz: usize, rank: usize, size: usize) -> (out: (
        Self,
        Vec<T>,
        Vec<T>,
        Vec<T>,
    ))
        requires
            grid_of(nx, ny, nz, rank, size).valid(),
        ensures
            out.0.is_stencil_of(grid_of(nx, ny, nz, rank, size)),
            out.0.csr_wf(),
            out.0.cols_global(),
            out.0.halo_empty(),
            vectors_built(
                grid_of(nx, ny, nz, rank, size),
                grid_of(nx, ny, nz, rank, size).local_nrow() as nat,
                out.1@,
                out.2@,
                out.3@,
            ),
    {
        let ghost g = grid_of(nx, ny, nz, rank, size);
        proof {
            lemma_grid_bounds(g);
        }
        let plane: usize = nx * ny;
        let local_nrow: usize = plane * nz;
        let local_nnz: usize = 27 * local_nrow;
        let total_nrow: usize = local_nrow * size;
        let total_nnz: usize = 27 * total_nrow;
        let local_ncol: usize = local_nrow;
        let start_row: usize = local_nrow * rank;
        let stop_row: usize = start_row + local_nrow - 1;

        let mut nnz_in_row: Vec<usize> = Vec::with_capacity(local_nrow);
        let mut row_start_inds: Vec<usize> = Vec::with_capacity(local_nrow);
        let mut guess: Vec<T> = Vec::with_capacity(local_nrow);
        let mut rhs: Vec<T> = Vec::with_capacity(local_nrow);
        let mut exact: Vec<T> = Vec::with_capacity(local_nrow);
        let mut list_of_vals: Vec<T> = Vec::with_capacity(local_nnz);
        let mut list_of_inds: Vec<i32> = Vec::with_capacity(local_nnz);

        let mut row: usize = 0;
        let mut iz: usize = 0;
        while iz < nz
            invariant
                sizes_of(g, nx, ny, nz, plane, local_nrow, total_nrow, start_row),
                iz <= nz,
                row == iz * g.plane(),
                rows_built(
                    g,
                    row as nat,
                    nnz_in_row@,
                    row_start_inds@,
                    list_of_inds@,
                    list_of_vals@,
                ),
                vectors_built(g, row as nat, guess@, rhs@, exact@),
            decreases nz - iz,
        {
            let mut iy: usize = 0;
            while iy < ny
                invariant
                    sizes_of(g, nx, ny, nz, plane, local_nrow, total_nrow, start_row),
                    iz < nz,
                    iy <= ny,
                    row == iz * g.plane() + iy * g.nx,
                    rows_built(
                        g,
                        row as nat,
                        nnz_in_row@,
                        row_start_inds@,
                        list_of_inds@,
                        list_of_vals@,
                    ),
                    vectors_built(g, row as nat, guess@, rhs@, exact@),
                decreases ny - iy,
            {
                let mut ix: usize = 0;
                while ix < nx
                    invariant
                        sizes_of(g, nx, ny, nz, plane, local_nrow, total_nrow, start_row),
                        iz < nz,
                        iy < ny,
                        ix <= nx,
                        row == iz * g.plane() + iy * g.nx + ix,
                        rows_built(
                            g,
                            row as nat,
                            nnz_in_row@,
                            row_start_inds@,
                            list_of_inds@,
                            list_of_vals@,
                        ),
                        vectors_built(g, row as nat, guess@, rhs@, exact@),
                    decreases nx - ix,
                {
                    proof {
                        lemma_grid_bounds(g);
                        lemma_coordinates(g, ix as int, iy as int, iz as int);
                        assert(row < g.local_nrow()) by (nonlinear_arith)
                            requires
                                row == iz * (g.nx * g.ny) + iy * g.nx + ix,
                                0 <= ix < g.nx,
                                0 <= iy < g.ny,
                                0 <= iz < g.nz,
                                g.local_nrow() == (g.nx * g.ny) * g.nz,
                        ;
                    }
                    let currow: usize = start_row + row;
                    let ghost inds0 = list_of_inds@;
                    let ghost vals0 = list_of_vals@;
                    row_start_inds.push(list_of_inds.len());
                    let nnzrow = push_row(
                        Ghost(g),
                        Ghost(row as int),
                        nx,
                        ny,
                        plane,
                        total_nrow,
                        ix,
                        iy,
                        currow,
                        &mut list_of_vals,
                        &mut list_of_inds,
                    );
                    nnz_in_row.push(nnzrow);
                    guess.push(T::from_i32(0));
                    rhs.push(T::from_i32(27 - (nnzrow as i32 - 1)));
                    exact.push(T::from_i32(1));
                    proof {
                        let e0 = g.entries(row as nat);
                        let e1 = g.entries((row + 1) as nat);
                        let r = g.row_entries(row as int, 27);
                        assert(e1 == e0 + r);
                        assert forall|k: int| 0 <= k < e1.len() implies #[trigger] list_of_inds@[k]
                            == e1[k].1 by {
                            if k >= e0.len() {
                                assert(list_of_inds@[inds0.len() + (k - e0.len())] == r[k
                                    - e0.len()].1);
                            }
                        }
                        assert forall|k: int| 0 <= k < e1.len() implies #[trigger] list_of_vals@[k]
                            == T::of_int(entry_value(e1[k])) by {
                            if k >= e0.len() {
                                assert(list_of_vals@[vals0.len() + (k - e0.len())] == T::of_int(
                                    entry_value(r[k - e0.len()]),
                                ));
                            }
                        }
                    }
                    row += 1;
                    ix += 1;
                }
                proof {
                    assert(iz * g.plane() + iy * g.nx + g.nx == iz * g.plane() + (iy + 1) * g.nx)
                        by (nonlinear_arith);
                }
                iy += 1;
            }
            proof {
                assert(iz * g.plane() + g.ny * g.nx == (iz + 1) * g.plane()) by (nonlinear_arith)
                    requires
                        g.plane() == g.nx * g.ny,
                ;
            }
            iz += 1;
        }
        proof {
            assert(row == g.local_nrow()) by (nonlinear_arith)
                requires
                    row == g.nz * g.plane(),
                    g.local_nrow() == g.plane() * g.nz,
            ;
        }
        let matrix = SparseMatrix {
            start_row,
            stop_row,
            total_nrow,
            total_nnz,
            local_nrow,
            local_ncol,
            local_nnz,
            nnz_in_row,
            row_start_inds,
            list_of_vals,
            list_of_inds,
            num_external: 0,
            num_send_neighbors: 0,
            external_index: Vec::new(),
            external_local_index: Vec::new(),
            total_to_be_sent: 0,
            elements_to_send: Vec::new(),
            neighbors: Vec::new(),
            recv_length: Vec::new(),
            send_length: Vec::new(),
            send_buffer: Vec::new(),
        };
        proof {
            assert forall|k: int| 0 <= k < matrix.list_of_inds@.len() implies 0
                <= #[trigger] matrix.list_of_inds@[k] < matrix.total_nrow by {
                lemma_entries_range(g, g.local_nrow() as nat, k);
            }
            assert(g.entries(0).len() == 0);
            assert forall|i: int| 0 <= i < matrix.local_nrow implies #[trigger] matrix.row_begin(i)
                + matrix.nnz_in_row@[i] == matrix.row_begin(i + 1) by {
                assert(g.entries((i + 1) as nat) == g.entries(i as nat) + g.row_entries(i, 27));
            }
        }
        (matrix, guess, rhs, exact)
    }
}

} // verus!
