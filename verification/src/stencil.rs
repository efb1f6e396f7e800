use vstd::prelude::*;

verus! {

/// One entry of the matrix in coordinate form: its global row and its global
/// column.
pub type Entry = (int, int);

/// `v`, its negation or zero, as the stencil offset `s` in `{-1, 0, 1}` asks.
pub open spec fn scaled(s: int, v: int) -> int {
    if s == -1 {
        -v
    } else if s == 0 {
        0
    } else {
        v
    }
}

/// The z offset of the `t`-th point of the 27-point stencil, `t` counting
/// with x fastest.
pub open spec fn offset_z(t: int) -> int {
    t / 9 - 1
}

/// The y offset of the `t`-th stencil point.
pub open spec fn offset_y(t: int) -> int {
    (t / 3) % 3 - 1
}

/// The x offset of the `t`-th stencil point.
pub open spec fn offset_x(t: int) -> int {
    t % 3 - 1
}

/// A chimney-stack domain: `size` blocks of `nx * ny * nz` cells stacked along
/// z, of which this process owns block `rank`.
pub struct Grid {
    pub nx: int,
    pub ny: int,
    pub nz: int,
    pub rank: int,
    pub size: int,
}

impl Grid {
    /// The number of cells in one xy plane.
    pub open spec fn plane(self) -> int {
        self.nx * self.ny
    }

    /// The number of rows owned by one process.
    pub open spec fn local_nrow(self) -> int {
        self.plane() * self.nz
    }

    /// The number of rows of the whole matrix.
    pub open spec fn total_nrow(self) -> int {
        self.local_nrow() * self.size
    }

    /// The first global row owned by this process.
    pub open spec fn start_row(self) -> int {
        self.local_nrow() * self.rank
    }

    /// Every dimension is positive, the rank lies in the world, and the
    /// index space fits the 32-bit column indices and the machine word.
    pub open spec fn valid(self) -> bool {
        &&& 1 <= self.nx
        &&& 1 <= self.ny
        &&& 1 <= self.nz
        &&& 0 <= self.rank < self.size
        &&& self.total_nrow() <= i32::MAX
        &&& 27 * self.total_nrow() <= usize::MAX
    }

    /// The x coordinate of local row `row`.
    pub open spec fn ix(self, row: int) -> int {
        row % self.nx
    }

    /// The y coordinate of local row `row`.
    pub open spec fn iy(self, row: int) -> int {
        (row / self.nx) % self.ny
    }

    /// The z coordinate of local row `row` within this process's block.
    pub open spec fn iz(self, row: int) -> int {
        row / self.plane()
    }

    /// The global column that stencil point `t` of local row `row` reaches.
    pub open spec fn col(self, row: int, t: int) -> int {
        self.start_row() + row + scaled(offset_z(t), self.plane()) + scaled(offset_y(t), self.nx)
            + offset_x(t)
    }

    /// Whether stencil point `t` of local row `row` is a matrix entry: it
    /// stays inside the xy plane and its column is a row of the matrix.
    pub open spec fn hit(self, row: int, t: int) -> bool {
        &&& 0 <= self.ix(row) + offset_x(t) < self.nx
        &&& 0 <= self.iy(row) + offset_y(t) < self.ny
        &&& 0 <= self.col(row, t) < self.total_nrow()
    }

    /// The entries of local row `row` among the first `t` stencil points, in
    /// storage order.
    pub open spec fn row_entries(self, row: int, t: nat) -> Seq<Entry>
        decreases t,
    {
        if t == 0 {
            Seq::empty()
        } else {
            let prev = self.row_entries(row, (t - 1) as nat);
            if self.hit(row, t - 1) {
                prev.push((self.start_row() + row, self.col(row, t - 1)))
            } else {
                prev
            }
        }
    }

    /// The number of entries of local row `row`.
    pub open spec fn row_nnz(self, row: int) -> nat {
        self.row_entries(row, 27).len()
    }

    /// The entries of the first `rows` local rows, row after row.
    pub open spec fn entries(self, rows: nat) -> Seq<Entry>
        decreases rows,
    {
        if rows == 0 {
            Seq::empty()
        } else {
            self.entries((rows - 1) as nat) + self.row_entries(rows - 1, 27)
        }
    }
}

/// The value stored for an entry: 27 on the diagonal, -1 off it.
pub open spec fn entry_value(e: Entry) -> i32 {
    if e.0 == e.1 {
        27
    } else {
        -1i32
    }
}

/// A row has at most one entry for each stencil point considered.
pub proof fn lemma_row_entries_len(g: Grid, row: int, t: nat)
    ensures
        g.row_entries(row, t).len() <= t,
    decreases t,
{
    if t > 0 {
        lemma_row_entries_len(g, row, (t - 1) as nat);
    }
}

/// Every entry of a row lies in that row and in a column of the matrix.
pub proof fn lemma_row_entries_range(g: Grid, row: int, t: nat, k: int)
    requires
        0 <= k < g.row_entries(row, t).len(),
    ensures
        g.row_entries(row, t)[k].0 == g.start_row() + row,
        0 <= g.row_entries(row, t)[k].1 < g.total_nrow(),
    decreases t,
{
    if t > 0 {
        let prev = g.row_entries(row, (t - 1) as nat);
        if k < prev.len() {
            lemma_row_entries_range(g, row, (t - 1) as nat, k);
        }
    }
}

/// A row index built from in-range coordinates has those coordinates.
pub proof fn lemma_coordinates(g: Grid, ix: int, iy: int, iz: int)
    requires
        1 <= g.nx,
        1 <= g.ny,
        0 <= ix < g.nx,
        0 <= iy < g.ny,
        0 <= iz,
    ensures
        g.ix(iz * g.plane() + iy * g.nx + ix) == ix,
        g.iy(iz * g.plane() + iy * g.nx + ix) == iy,
        g.iz(iz * g.plane() + iy * g.nx + ix) == iz,
{
    let row = iz * g.plane() + iy * g.nx + ix;
    let q = iz * g.ny + iy;
    assert(row == q * g.nx + ix) by (nonlinear_arith)
        requires
            row == iz * (g.nx * g.ny) + iy * g.nx + ix,
            q == iz * g.ny + iy,
    ;
    vstd::arithmetic::div_mod::lemma_fundamental_div_mod_converse(row, g.nx, q, ix);
    vstd::arithmetic::div_mod::lemma_fundamental_div_mod_converse(q, g.ny, iz, iy);
    let r = iy * g.nx + ix;
    assert(0 <= r < g.plane()) by (nonlinear_arith)
        requires
            r == iy * g.nx + ix,
            0 <= ix < g.nx,
            0 <= iy < g.ny,
            g.plane() == g.nx * g.ny,
    ;
    assert(0 < g.plane()) by (nonlinear_arith)
        requires
            1 <= g.nx,
            1 <= g.ny,
            g.plane() == g.nx * g.ny,
    ;
    vstd::arithmetic::div_mod::lemma_fundamental_div_mod_converse(row, g.plane(), iz, r);
}

/// The sizes of a valid grid fit the integer types that hold them.
pub proof fn lemma_grid_bounds(g: Grid)
    requires
        g.valid(),
    ensures
        1 <= g.nx <= g.plane(),
        1 <= g.ny <= g.plane(),
        g.plane() <= g.local_nrow(),
        g.nz <= g.local_nrow(),
        g.local_nrow() <= g.total_nrow(),
        0 <= g.start_row(),
        g.start_row() + g.local_nrow() <= g.total_nrow(),
        g.local_nrow() * (g.rank + 1) == g.start_row() + g.local_nrow(),
{
    let p = g.nx * g.ny;
    let l = p * g.nz;
    assert(1 <= g.nx <= p && 1 <= g.ny <= p) by (nonlinear_arith)
        requires
            1 <= g.nx,
            1 <= g.ny,
            p == g.nx * g.ny,
    ;
    assert(p <= l && g.nz <= l) by (nonlinear_arith)
        requires
            1 <= p,
            1 <= g.nz,
            l == p * g.nz,
    ;
    assert(l <= l * g.size && 0 <= l * g.rank && l * g.rank + l <= l * g.size && l * (g.rank + 1)
        == l * g.rank + l) by (nonlinear_arith)
        requires
            1 <= l,
            0 <= g.rank < g.size,
    ;
}

/// Scaling by a stencil offset is multiplying by it.
pub proof fn lemma_scaled(s: int, v: int)
    requires
        -1 <= s <= 1,
    ensures
        scaled(s, v) == s * v,
{
    assert(scaled(s, v) == s * v) by (nonlinear_arith)
        requires
            -1 <= s <= 1,
            scaled(s, v) == if s == -1 {
                -v
            } else if s == 0 {
                0
            } else {
                v
            },
    ;
}

/// The coordinates of a local row lie inside the block.
pub proof fn lemma_coordinates_in_range(g: Grid, row: int)
    requires
        g.valid(),
        0 <= row < g.local_nrow(),
    ensures
        0 <= g.ix(row) < g.nx,
        0 <= g.iy(row) < g.ny,
        0 <= g.iz(row) < g.nz,
        row == g.iz(row) * g.plane() + g.iy(row) * g.nx + g.ix(row),
        0 <= g.iy(row) * g.nx + g.ix(row) < g.plane(),
{
    lemma_grid_bounds(g);
    let q = row / g.nx;
    vstd::arithmetic::div_mod::lemma_fundamental_div_mod(row, g.nx);
    vstd::arithmetic::div_mod::lemma_mod_pos_bound(row, g.nx);
    vstd::arithmetic::div_mod::lemma_fundamental_div_mod(q, g.ny);
    vstd::arithmetic::div_mod::lemma_mod_pos_bound(q, g.ny);
    vstd::arithmetic::div_mod::lemma_div_pos_is_pos(row, g.nx);
    vstd::arithmetic::div_mod::lemma_div_denominator(row, g.nx, g.ny);
    let ix = g.ix(row);
    let iy = g.iy(row);
    let iz = g.iz(row);
    assert(iz == q / g.ny);
    assert(row == iz * (g.nx * g.ny) + iy * g.nx + ix) by (nonlinear_arith)
        requires
            row == g.nx * q + ix,
            q == g.ny * iz + iy,
    ;
    assert(0 <= iy * g.nx + ix < g.nx * g.ny) by (nonlinear_arith)
        requires
            0 <= ix < g.nx,
            0 <= iy < g.ny,
    ;
    assert(0 <= iz < g.nz) by (nonlinear_arith)
        requires
            row == iz * (g.nx * g.ny) + iy * g.nx + ix,
            0 <= iy * g.nx + ix < g.nx * g.ny,
            0 <= row < (g.nx * g.ny) * g.nz,
            1 <= g.nx * g.ny,
    ;
}

/// The centre of the stencil is an entry of every row: its diagonal.
pub proof fn lemma_centre_is_diagonal(g: Grid, row: int)
    requires
        g.valid(),
        0 <= row < g.local_nrow(),
    ensures
        g.hit(row, 13),
        g.col(row, 13) == g.start_row() + row,
{
    lemma_grid_bounds(g);
    lemma_coordinates_in_range(g, row);
}

/// Every entry of a row but the centre of the stencil lies off the
/// diagonal.
pub proof fn lemma_off_centre_is_off_diagonal(g: Grid, row: int, t: int)
    requires
        g.valid(),
        0 <= row < g.local_nrow(),
        0 <= t < 27,
        t != 13,
        g.hit(row, t),
    ensures
        g.col(row, t) != g.start_row() + row,
{
    lemma_grid_bounds(g);
    lemma_coordinates_in_range(g, row);
    let ix = g.ix(row);
    let iy = g.iy(row);
    let sy = offset_y(t);
    let sx = offset_x(t);
    lemma_scaled(sy, g.nx);
    assert((iy + sy) * g.nx == iy * g.nx + sy * g.nx) by (nonlinear_arith);
    assert(0 <= (iy + sy) * g.nx + (ix + sx) < g.nx * g.ny) by (nonlinear_arith)
        requires
            0 <= ix + sx < g.nx,
            0 <= iy + sy < g.ny,
    ;
}

/// The number of diagonal entries among the first `k` of `e`.
pub open spec fn diagonal_count(e: Seq<Entry>, k: nat) -> nat
    decreases k,
{
    if k == 0 {
        0
    } else {
        diagonal_count(e, (k - 1) as nat) + if e[k - 1].0 == e[k - 1].1 {
            1nat
        } else {
            0nat
        }
    }
}

/// The sum of the values of the first `k` entries of `e`.
pub open spec fn value_sum(e: Seq<Entry>, k: nat) -> int
    decreases k,
{
    if k == 0 {
        0
    } else {
        value_sum(e, (k - 1) as nat) + entry_value(e[k - 1])
    }
}

/// The values of some entries add up to 27 for each diagonal entry less one
/// for each other entry.
pub proof fn lemma_value_sum(e: Seq<Entry>, k: nat)
    ensures
        diagonal_count(e, k) <= k,
        value_sum(e, k) == 28 * diagonal_count(e, k) - k,
    decreases k,
{
    if k > 0 {
        lemma_value_sum(e, (k - 1) as nat);
    }
}

proof fn lemma_diagonal_count_prefix(a: Seq<Entry>, b: Seq<Entry>, k: nat)
    requires
        k <= a.len(),
        k <= b.len(),
        forall|j: int| 0 <= j < k ==> a[j] == b[j],
    ensures
        diagonal_count(a, k) == diagonal_count(b, k),
    decreases k,
{
    if k > 0 {
        lemma_diagonal_count_prefix(a, b, (k - 1) as nat);
    }
}

/// Among the first `t` stencil points a row has its diagonal entry once the
/// centre has been passed, and no other diagonal entry.
pub proof fn lemma_diagonal_once(g: Grid, row: int, t: nat)
    requires
        g.valid(),
        0 <= row < g.local_nrow(),
        t <= 27,
    ensures
        diagonal_count(g.row_entries(row, t), g.row_entries(row, t).len()) == if t <= 13 {
            0nat
        } else {
            1nat
        },
    decreases t,
{
    if t > 0 {
        let prev = g.row_entries(row, (t - 1) as nat);
        let cur = g.row_entries(row, t);
        lemma_diagonal_once(g, row, (t - 1) as nat);
        if g.hit(row, t - 1) {
            lemma_diagonal_count_prefix(prev, cur, prev.len());
            if t - 1 == 13 {
                lemma_centre_is_diagonal(g, row);
            } else {
                lemma_off_centre_is_off_diagonal(g, row, t - 1);
            }
        } else {
            if t - 1 == 13 {
                lemma_centre_is_diagonal(g, row);
            }
        }
    }
}

/// The values of a row add up to 27 less one for each entry off the
/// diagonal.
pub proof fn lemma_row_value_sum(g: Grid, row: int)
    requires
        g.valid(),
        0 <= row < g.local_nrow(),
    ensures
        1 <= g.row_nnz(row) <= 27,
        value_sum(g.row_entries(row, 27), g.row_nnz(row)) == 27 - (g.row_nnz(row) - 1),
{
    lemma_diagonal_once(g, row, 27);
    lemma_value_sum(g.row_entries(row, 27), g.row_nnz(row));
    lemma_row_entries_len(g, row, 27);
}

/// A cell with a neighbour on every side, in its xy plane and in the whole
/// stack along z.
pub open spec fn interior(g: Grid, row: int) -> bool {
    &&& 1 <= g.ix(row) <= g.nx - 2
    &&& 1 <= g.iy(row) <= g.ny - 2
    &&& 1 <= g.rank * g.nz + g.iz(row) <= g.size * g.nz - 2
}

/// Every stencil point of an interior cell is an entry.
proof fn lemma_interior_hit(g: Grid, row: int, t: int)
    requires
        g.valid(),
        0 <= row < g.local_nrow(),
        interior(g, row),
        0 <= t < 27,
    ensures
        g.hit(row, t),
{
    lemma_grid_bounds(g);
    lemma_coordinates_in_range(g, row);
    let ix = g.ix(row);
    let iy = g.iy(row);
    let iz = g.iz(row);
    let sz = offset_z(t);
    let sy = offset_y(t);
    let sx = offset_x(t);
    let gz = g.rank * g.nz + iz + sz;
    let p = g.nx * g.ny;
    let below = g.rank * g.nz;
    lemma_scaled(sz, p);
    lemma_scaled(sy, g.nx);
    assert((below + iz + sz) * p == below * p + iz * p + sz * p) by (nonlinear_arith);
    assert(below * p == (p * g.nz) * g.rank) by (nonlinear_arith)
        requires
            below == g.rank * g.nz,
    ;
    assert((iy + sy) * g.nx == iy * g.nx + sy * g.nx) by (nonlinear_arith);
    assert(g.col(row, t) == gz * p + (iy + sy) * g.nx + (ix + sx));
    assert(0 <= (iy + sy) * g.nx + (ix + sx) < p) by (nonlinear_arith)
        requires
            0 <= ix + sx < g.nx,
            0 <= iy + sy < g.ny,
            p == g.nx * g.ny,
    ;
    assert(0 <= gz * p + (iy + sy) * g.nx + (ix + sx) < (p * g.nz) * g.size) by (nonlinear_arith)
        requires
            0 <= gz <= g.size * g.nz - 1,
            0 <= (iy + sy) * g.nx + (ix + sx) < p,
    ;
}

proof fn lemma_interior_entries(g: Grid, row: int, t: nat)
    requires
        g.valid(),
        0 <= row < g.local_nrow(),
        interior(g, row),
        t <= 27,
    ensures
        g.row_entries(row, t).len() == t,
    decreases t,
{
    if t > 0 {
        lemma_interior_entries(g, row, (t - 1) as nat);
        lemma_interior_hit(g, row, t - 1);
    }
}

/// The row of an interior cell has all 27 entries.
pub proof fn lemma_interior_row_is_full(g: Grid, row: int)
    requires
        g.valid(),
        0 <= row < g.local_nrow(),
        interior(g, row),
    ensures
        g.row_nnz(row) == 27,
{
    lemma_interior_entries(g, row, 27);
}

/// Entry `j` of row `i` stands in the entries of the first `n` rows behind
/// the entries of the rows before `i`.
pub proof fn lemma_entries_index(g: Grid, n: nat, i: int, j: int)
    requires
        0 <= i < n,
        0 <= j < g.row_nnz(i),
    ensures
        g.entries(i as nat).len() + g.row_nnz(i) <= g.entries(n).len(),
        g.entries(n)[g.entries(i as nat).len() + j] == g.row_entries(i, 27)[j],
    decreases n,
{
    if i < n - 1 {
        lemma_entries_index(g, (n - 1) as nat, i, j);
    }
}

/// Every entry of the first `n` rows lies in a column of the matrix.
pub proof fn lemma_entries_range(g: Grid, n: nat, k: int)
    requires
        0 <= k < g.entries(n).len(),
    ensures
        0 <= g.entries(n)[k].1 < g.total_nrow(),
    decreases n,
{
    if n > 0 {
        let before = g.entries((n - 1) as nat);
        if k < before.len() {
            lemma_entries_range(g, (n - 1) as nat, k);
        } else {
            lemma_row_entries_range(g, n - 1, 27, k - before.len());
        }
    }
}

} // verus!
