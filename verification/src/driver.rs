use vstd::prelude::*;

verus! {

/// How often the solver reports the residual: every tenth of the iterations
/// allowed, but not more often than every iteration nor less often than
/// every fiftieth.
pub open spec fn report_interval(max_iterations: int) -> int {
    if max_iterations < 20 {
        1
    } else if max_iterations >= 500 {
        50
    } else {
        max_iterations / 10
    }
}

/// The interval at which the solver reports the residual.
pub fn print_frequency(max_iterations: i32) -> (freq: i32)
    ensures
        freq == report_interval(max_iterations as int),
        1 <= freq <= 50,
{
    if max_iterations < 20 {
        1
    } else if max_iterations >= 500 {
        50
    } else {
        max_iterations / 10
    }
}

/// Whether the solver reports the residual in iteration `k`: in every
/// iteration that the interval divides, and in the last one.
pub fn reports_iteration(k: i32, print_freq: i32, max_iterations: i32) -> (report: bool)
    requires
        0 <= k,
        0 < print_freq,
    ensures
        report == (k % print_freq == 0 || k + 1 == max_iterations),
{
    k % print_freq == 0 || (k < i32::MAX && k + 1 == max_iterations)
}

/// Whether the solver goes into iteration `k`: the iterations are numbered
/// from one and stop short of `max_iterations`.
pub fn iteration_allowed(k: i32, max_iterations: i32) -> (go: bool)
    ensures
        go == (1 <= k < max_iterations),
{
    1 <= k && k < max_iterations
}

/// The floating-point operations that the kernels performed.
#[derive(Debug, Clone, Copy, PartialEq, Eq, Structural)]
pub struct FlopCounts {
    /// All three kernels together.
    pub total: i64,
    /// The dot products.
    pub ddot: i64,
    /// The scaled vector sums.
    pub waxpby: i64,
    /// The matrix-vector products.
    pub sparsemv: i64,
}

/// The operations of `iterations` iterations on a matrix of `total_nrow`
/// rows and `total_nnz` non-zeros: four per row in the dot products, six per
/// row in the vector sums, two per non-zero in the matrix-vector product.
pub open spec fn ddot_flops(iterations: int, total_nrow: int) -> int {
    iterations * 4 * total_nrow
}

/// See [`ddot_flops`].
pub open spec fn waxpby_flops(iterations: int, total_nrow: int) -> int {
    iterations * 6 * total_nrow
}

/// See [`ddot_flops`].
pub open spec fn sparsemv_flops(iterations: int, total_nnz: int) -> int {
    iterations * 2 * total_nnz
}

/// The sum of the three kernels' operations.
pub open spec fn total_flops(iterations: int, total_nrow: int, total_nnz: int) -> int {
    ddot_flops(iterations, total_nrow) + waxpby_flops(iterations, total_nrow) + sparsemv_flops(
        iterations,
        total_nnz,
    )
}

/// Counts the floating-point operations of a run, if the counts fit 64-bit
/// integers.
pub fn flop_counts(iterations: i32, total_nrow: usize, total_nnz: usize) -> (counts: Option<
    FlopCounts,
>)
    requires
        0 <= iterations,
    ensures
        counts is Some <==> total_flops(iterations as int, total_nrow as int, total_nnz as int)
            <= i64::MAX,
        counts matches Some(c) ==> {
            &&& c.ddot == ddot_flops(iterations as int, total_nrow as int)
            &&& c.waxpby == waxpby_flops(iterations as int, total_nrow as int)
            &&& c.sparsemv == sparsemv_flops(iterations as int, total_nnz as int)
            &&& c.total == total_flops(iterations as int, total_nrow as int, total_nnz as int)
        },
{
    let it: i128 = iterations as i128;
    let rows: i128 = total_nrow as i128;
    let nnz: i128 = total_nnz as i128;
    assert(0 <= it * 4 * rows <= 0x2_0000_0000 * 0x1_0000_0000_0000_0000) by (nonlinear_arith)
        requires
            0 <= it <= 0x7fff_ffff,
            0 <= rows <= 0xffff_ffff_ffff_ffff,
    ;
    assert(0 <= it * 6 * rows <= 0x3_0000_0000 * 0x1_0000_0000_0000_0000) by (nonlinear_arith)
        requires
            0 <= it <= 0x7fff_ffff,
            0 <= rows <= 0xffff_ffff_ffff_ffff,
    ;
    assert(0 <= it * 2 * nnz <= 0x1_0000_0000 * 0x1_0000_0000_0000_0000) by (nonlinear_arith)
        requires
            0 <= it <= 0x7fff_ffff,
            0 <= nnz <= 0xffff_ffff_ffff_ffff,
    ;
    let ddot: i128 = it * 4 * rows;
    let waxpby: i128 = it * 6 * rows;
    let sparsemv: i128 = it * 2 * nnz;
    let total: i128 = ddot + waxpby + sparsemv;
    if total > i64::MAX as i128 {
        None
    } else {
        Some(
            FlopCounts {
                total: total as i64,
                ddot: ddot as i64,
                waxpby: waxpby as i64,
                sparsemv: sparsemv as i64,
            },
        )
    }
}

} // verus!
