use crate::scalar::Scalar;
use crate::sparse_matrix::{lemma_sum_to_monotone, lemma_sum_to_prefix, sum_to, SparseMatrix};
use std::collections::HashMap;
use vstd::prelude::*;

verus! {

broadcast use vstd::std_specs::hash::group_hash_axioms;

/// The largest number of external columns, and of vector entries sent in one
/// exchange, that the setup accepts.
pub const MAX_EXTERNAL: usize = 100000;

/// The largest number of neighbours that the setup accepts.
pub const MAX_NUM_MESSAGES: usize = 500;

/// Why the local-matrix setup gave up.
#[derive(Debug, Clone, Copy, PartialEq, Eq, Structural)]
pub enum SetupError {
    /// More external columns, or more entries to send, than `MAX_EXTERNAL`,
    /// or more columns than a 32-bit index can number.
    TooManyExternals,
    /// More neighbours than `MAX_NUM_MESSAGES`.
    TooManyMessages,
    /// An external column lies below every process's first row.
    NoOwner,
    /// What the neighbours reported does not fit what this process expects.
    Mismatch,
}

/// Whether global column `c` is one of the rows `lo..=hi`.
pub open spec fn is_owned(c: int, lo: int, hi: int) -> bool {
    lo <= c <= hi
}

/// The external columns among the first `n` stored columns, each once, in
/// order of first appearance.
pub open spec fn discovered(cols: Seq<i32>, lo: int, hi: int, n: nat) -> Seq<usize>
    decreases n,
{
    if n == 0 {
        Seq::empty()
    } else {
        let prev = discovered(cols, lo, hi, (n - 1) as nat);
        let c = cols[n - 1];
        if is_owned(c as int, lo, hi) || prev.contains(c as usize) {
            prev
        } else {
            prev.push(c as usize)
        }
    }
}

/// What the scan stores for global column `c`: its local index if it is
/// owned, and otherwise the negative mark `-(c + 1)`.
pub open spec fn marked(c: i32, lo: int, hi: int) -> int {
    if is_owned(c as int, lo, hi) {
        c - lo
    } else {
        -(c + 1)
    }
}

/// `m` maps each element of `e` to its position and nothing else.
pub open spec fn positions_of(m: Map<usize, usize>, e: Seq<usize>) -> bool {
    &&& forall|g: usize| #[trigger] m.contains_key(g) <==> e.contains(g)
    &&& forall|i: int| 0 <= i < e.len() ==> #[trigger] m[e[i]] == i
}

/// Every stored column is either a local row or the mark of an external
/// column listed in `e`.
pub open spec fn marks_resolved(inds: Seq<i32>, e: Seq<usize>, local_nrow: int) -> bool {
    forall|k: int|
        0 <= k < inds.len() ==> {
            let v = #[trigger] inds[k];
            ||| 0 <= v < local_nrow
            ||| v < 0 && e.contains((-(v + 1)) as usize)
        }
}

/// The largest number of externals that the matrix can take.
pub open spec fn external_limit(local_nrow: int) -> int {
    if i32::MAX - local_nrow < MAX_EXTERNAL {
        i32::MAX - local_nrow
    } else {
        MAX_EXTERNAL as int
    }
}

/// The externals found in a prefix are among those found in the whole.
pub proof fn lemma_discovered_grows(cols: Seq<i32>, lo: int, hi: int, n: nat, m: nat)
    requires
        n <= m,
    ensures
        discovered(cols, lo, hi, n).len() <= discovered(cols, lo, hi, m).len(),
    decreases m,
{
    if n < m {
        lemma_discovered_grows(cols, lo, hi, n, (m - 1) as nat);
    }
}

/// The discovered externals are distinct columns of the matrix that this
/// process does not own.
pub proof fn lemma_discovered_sound(cols: Seq<i32>, lo: int, hi: int, total: int, n: nat)
    requires
        n <= cols.len(),
        forall|k: int| 0 <= k < cols.len() ==> 0 <= #[trigger] cols[k] < total,
    ensures
        discovered(cols, lo, hi, n).no_duplicates(),
        forall|i: int|
            0 <= i < discovered(cols, lo, hi, n).len() ==> {
                let x = #[trigger] discovered(cols, lo, hi, n)[i];
                0 <= x < total && !is_owned(x as int, lo, hi)
            },
    decreases n,
{
    if n > 0 {
        lemma_discovered_sound(cols, lo, hi, total, (n - 1) as nat);
    }
}

/// The external columns of a matrix whose column indices are global, each
/// once, in the order in which its entries first name them.
pub open spec fn externals_of<T: Scalar>(matrix: SparseMatrix<T>) -> Seq<usize> {
    discovered(
        matrix.list_of_inds@,
        matrix.start_row as int,
        matrix.stop_row as int,
        matrix.list_of_inds@.len(),
    )
}

/// `after` is `before` with its columns scanned: every owned column
/// replaced by its local row and every other column by its mark, the
/// external columns listed and counted, and `externals` giving each its
/// position in the list.
pub open spec fn scanned<T: Scalar>(
    before: SparseMatrix<T>,
    after: SparseMatrix<T>,
    externals: Map<usize, usize>,
) -> bool {
    let cols = before.list_of_inds@;
    let e = externals_of(before);
    &&& after == (SparseMatrix {
        list_of_inds: after.list_of_inds,
        external_index: after.external_index,
        num_external: after.num_external,
        ..before
    })
    &&& after.list_of_inds@.len() == cols.len()
    &&& after.external_index@ == e
    &&& after.num_external == e.len()
    &&& positions_of(externals, e)
    &&& marks_resolved(after.list_of_inds@, e, before.local_nrow as int)
    &&& forall|k: int|
        0 <= k < cols.len() ==> #[trigger] after.list_of_inds@[k] == marked(
            cols[k],
            before.start_row as int,
            before.stop_row as int,
        )
}

/// Rewrites every stored column from global to local form and collects the
/// external columns.
///
/// An owned column becomes its local row. A column owned by another process is
/// replaced by the negative mark `-(c + 1)` and, the first time it is seen,
/// appended to `external_index`. The returned map gives each external column
/// its position in `external_index`; the returned number, also stored in
/// `num_external`, is their count.
pub fn scan_and_transform_local<T: Scalar>(matrix: &mut SparseMatrix<T>) -> (res: Result<
    (HashMap<usize, usize>, usize),
    SetupError,
>)
    requires
        old(matrix).csr_wf(),
        old(matrix).cols_global(),
        old(matrix).external_index@.len() == 0,
    ensures
        *final(matrix) == (SparseMatrix {
            list_of_inds: final(matrix).list_of_inds,
            external_index: final(matrix).external_index,
            num_external: final(matrix).num_external,
            ..*old(matrix)
        }),
        final(matrix).list_of_inds@.len() == old(matrix).list_of_inds@.len(),
        res is Ok <==> externals_of(*old(matrix)).len() <= external_limit(
            old(matrix).local_nrow as int,
        ),
        res matches Ok((externals, num_external)) ==> scanned(
            *old(matrix),
            *final(matrix),
            externals@,
        ) && num_external == final(matrix).num_external,
        res matches Err(e) ==> e == SetupError::TooManyExternals,
{
    let ghost cols = matrix.list_of_inds@;
    let ghost lo = matrix.start_row as int;
    let ghost hi = matrix.stop_row as int;
    let mut externals: HashMap<usize, usize> = HashMap::new();
    let mut num_external: usize = 0;
    let limit: usize = if i32::MAX as usize - matrix.local_nrow < MAX_EXTERNAL {
        i32::MAX as usize - matrix.local_nrow
    } else {
        MAX_EXTERNAL
    };
    let n = matrix.list_of_inds.len();
    let mut k: usize = 0;
    while k < n
        invariant
            k <= n,
            n == cols.len(),
            lo == old(matrix).start_row,
            hi == old(matrix).stop_row,
            cols == old(matrix).list_of_inds@,
            old(matrix).cols_global(),
            old(matrix).csr_wf(),
            limit == external_limit(old(matrix).local_nrow as int),
            forall|j: int|
                0 <= j < k && !is_owned(#[trigger] cols[j] as int, lo, hi)
                    ==> matrix.external_index@.contains(cols[j] as usize),
            *matrix == (SparseMatrix {
                list_of_inds: matrix.list_of_inds,
                external_index: matrix.external_index,
                num_external: matrix.num_external,
                ..*old(matrix)
            }),
            matrix.list_of_inds@.len() == n,
            matrix.external_index@ == discovered(cols, lo, hi, k as nat),
            num_external == matrix.external_index@.len(),
            num_external <= limit,
            positions_of(externals@, matrix.external_index@),
            forall|j: int| 0 <= j < k ==> #[trigger] matrix.list_of_inds@[j] == marked(cols[j], lo, hi),
            forall|j: int| k <= j < n ==> #[trigger] matrix.list_of_inds@[j] == cols[j],
        decreases n - k,
    {
        let c: i32 = matrix.list_of_inds[k];
        let cur_ind: usize = c as usize;
        let ghost e0 = matrix.external_index@;
        if matrix.start_row <= cur_ind && cur_ind <= matrix.stop_row {
            matrix.list_of_inds.set(k, c - matrix.start_row as i32);
        } else {
            if externals.contains_key(&cur_ind) {
                matrix.list_of_inds.set(k, -(c + 1));
            } else {
                assert forall|j: int|
                    0 <= j < k && !is_owned(#[trigger] cols[j] as int, lo, hi) implies e0.push(
                    cur_ind,
                ).contains(cols[j] as usize) by {
                    let i = choose|i: int| 0 <= i < e0.len() && e0[i] == cols[j] as usize;
                    assert(e0.push(cur_ind)[i] == cols[j] as usize);
                }
                if num_external >= limit {
                    proof {
                        lemma_discovered_grows(cols, lo, hi, (k + 1) as nat, n as nat);
                    }
                    return Err(SetupError::TooManyExternals);
                }
                externals.insert(cur_ind, num_external);
                num_external = num_external + 1;
                matrix.external_index.push(cur_ind);
                matrix.list_of_inds.set(k, -(c + 1));
                proof {
                    let e1 = matrix.external_index@;
                    assert(e1 == e0.push(cur_ind));
                    assert(e1[e0.len() as int] == cur_ind);
                    assert forall|g: usize| #[trigger] externals@.contains_key(g) <==> e1.contains(
                        g,
                    ) by {
                        if e0.contains(g) {
                            let i = choose|i: int| 0 <= i < e0.len() && e0[i] == g;
                            assert(e1[i] == g);
                        }
                        if g == cur_ind {
                            assert(e1[e0.len() as int] == g);
                        }
                    }
                    assert forall|i: int| 0 <= i < e1.len() implies #[trigger] externals@[e1[i]]
                        == i by {
                        if i < e0.len() {
                            assert(e0.contains(e0[i]));
                        }
                    }
                }
            }
        }
        k += 1;
    }
    matrix.num_external = num_external;
    Ok((externals, num_external))
}

/// Process `j` owns global row `x`: it is the last process whose first row
/// is not above `x`.
pub open spec fn is_owner(offsets: Seq<usize>, x: int, j: int) -> bool {
    &&& 0 <= j < offsets.len()
    &&& offsets[j] <= x
    &&& forall|j2: int| j < j2 < offsets.len() ==> #[trigger] offsets[j2] > x
}

/// Some process's first row is not above `x`.
pub open spec fn has_owner(offsets: Seq<usize>, x: int) -> bool {
    exists|j: int| 0 <= j < offsets.len() && #[trigger] offsets[j] <= x
}

/// Every one of `externals` has an owner.
pub open spec fn all_have_owners(externals: Seq<usize>, offsets: Seq<usize>) -> bool {
    forall|i: int| 0 <= i < externals.len() ==> has_owner(offsets, #[trigger] externals[i] as int)
}

/// `owners` names the owner of each of `externals`.
pub open spec fn owners_of(externals: Seq<usize>, offsets: Seq<usize>, owners: Seq<usize>) -> bool {
    &&& owners.len() == externals.len()
    &&& forall|i: int|
        0 <= i < owners.len() ==> is_owner(offsets, externals[i] as int, #[trigger] owners[i] as int)
}

/// Finds the process that owns each external column.
///
/// `global_index_offsets[j]` is the first global row of process `j`. The
/// result holds, for each entry of `external_index`, the last process whose
/// first row is not above it.
pub fn find_accessed_processors<T: Scalar>(
    matrix: &SparseMatrix<T>,
    global_index_offsets: &[usize],
) -> (res: Result<Vec<usize>, SetupError>)
    requires
        matrix.num_external == matrix.external_index@.len(),
    ensures
        res is Ok <==> all_have_owners(matrix.external_index@, global_index_offsets@),
        res matches Ok(owners) ==> owners_of(
            matrix.external_index@,
            global_index_offsets@,
            owners@,
        ),
        res matches Err(e) ==> e == SetupError::NoOwner,
{
    let size = global_index_offsets.len();
    let mut external_processor: Vec<usize> = Vec::with_capacity(matrix.num_external);
    let mut i: usize = 0;
    while i < matrix.num_external
        invariant
            i <= matrix.num_external,
            matrix.num_external == matrix.external_index@.len(),
            size == global_index_offsets@.len(),
            external_processor@.len() == i,
            forall|i2: int|
                0 <= i2 < i ==> is_owner(
                    global_index_offsets@,
                    matrix.external_index@[i2] as int,
                    #[trigger] external_processor@[i2] as int,
                ),
            forall|i2: int|
                0 <= i2 < i ==> has_owner(
                    global_index_offsets@,
                    #[trigger] matrix.external_index@[i2] as int,
                ),
        decreases matrix.num_external - i,
    {
        let cur_ind = matrix.external_index[i];
        let mut j: usize = size;
        while j > 0 && global_index_offsets[j - 1] > cur_ind
            invariant
                j <= size,
                size == global_index_offsets@.len(),
                forall|j2: int| j <= j2 < size ==> #[trigger] global_index_offsets@[j2] > cur_ind,
            decreases j,
        {
            j -= 1;
        }
        if j == 0 {
            assert(!has_owner(global_index_offsets@, matrix.external_index@[i as int] as int));
            return Err(SetupError::NoOwner);
        }
        external_processor.push(j - 1);
        i += 1;
    }
    Ok(external_processor)
}

/// The first position at or after `from` at which `owners` holds `p`, or the
/// length of `owners` if there is none.
pub open spec fn first_from(owners: Seq<usize>, p: usize, from: nat) -> int
    decreases owners.len() - from,
{
    if from >= owners.len() {
        owners.len() as int
    } else if owners[from as int] == p {
        from as int
    } else {
        first_from(owners, p, from + 1)
    }
}

/// The first position at which `owners` holds `p`.
pub open spec fn first_of(owners: Seq<usize>, p: usize) -> int {
    first_from(owners, p, 0)
}

/// External `a` gets a smaller local column than external `b`: its owner
/// appears first, or they share the owner and `a` was discovered first.
pub open spec fn slot_precedes(owners: Seq<usize>, a: int, b: int) -> bool {
    if owners[a] == owners[b] {
        a < b
    } else {
        first_of(owners, owners[a]) < first_of(owners, owners[b])
    }
}

/// Some external has local column `s`.
pub open spec fn slot_taken(slots: Seq<i32>, s: int) -> bool {
    exists|i: int| 0 <= i < slots.len() && #[trigger] slots[i] == s
}

/// The local columns `slots` number the externals from `local_nrow` on
/// without gaps, owner by owner in order of first appearance, and within one
/// owner in order of discovery.
pub open spec fn slots_assigned(owners: Seq<usize>, slots: Seq<i32>, local_nrow: int) -> bool {
    &&& slots.len() == owners.len()
    &&& forall|i: int|
        0 <= i < slots.len() ==> local_nrow <= #[trigger] slots[i] < local_nrow + slots.len()
    &&& forall|s: int| local_nrow <= s < local_nrow + slots.len() ==> #[trigger] slot_taken(slots, s)
    &&& forall|a: int, b: int|
        0 <= a < slots.len() && 0 <= b < slots.len() && a != b ==> ((#[trigger] slots[a]
            < #[trigger] slots[b]) <==> slot_precedes(owners, a, b))
}

/// `after` is `before` with a local column assigned to every external and
/// written where the external's mark stood, and `by_slot` names the owner of
/// each of these columns in their order.
pub open spec fn sifted<T: Scalar>(
    before: SparseMatrix<T>,
    after: SparseMatrix<T>,
    externals: Map<usize, usize>,
    owners: Seq<usize>,
    by_slot: Seq<usize>,
) -> bool {
    let local = before.local_nrow as int;
    let slots = after.external_local_index@;
    &&& after == (SparseMatrix {
        list_of_inds: after.list_of_inds,
        external_local_index: after.external_local_index,
        ..before
    })
    &&& slots_assigned(owners, slots, local)
    &&& after.list_of_inds@.len() == before.list_of_inds@.len()
    &&& after.cols_below(local + before.num_external)
    &&& forall|k: int|
        0 <= k < before.list_of_inds@.len() ==> {
            let v = before.list_of_inds@[k];
            #[trigger] after.list_of_inds@[k] == if v >= 0 {
                v
            } else {
                slots[externals[(-(v + 1)) as usize] as int]
            }
        }
    &&& by_slot.len() == owners.len()
    &&& forall|i: int| 0 <= i < owners.len() ==> by_slot[slots[i] - local] == #[trigger] owners[i]
}

/// Local column `c` of a matrix that has been set up stands for global
/// column `global`: it is that row of this process, or the local column of
/// that external.
pub open spec fn stands_for<T: Scalar>(matrix: SparseMatrix<T>, c: int, global: int) -> bool {
    if c < matrix.local_nrow {
        c + matrix.start_row == global
    } else {
        exists|i: int|
            0 <= i < matrix.external_index@.len() && #[trigger] matrix.external_local_index@[i] == c
                && matrix.external_index@[i] == global
    }
}

/// The setup keeps what every entry refers to: the local column that it
/// writes in place of a global column stands for that column.
pub proof fn lemma_setup_keeps_columns<T: Scalar>(
    generated: SparseMatrix<T>,
    scanned_matrix: SparseMatrix<T>,
    sifted_matrix: SparseMatrix<T>,
    externals: Map<usize, usize>,
    owners: Seq<usize>,
    by_slot: Seq<usize>,
    k: int,
)
    requires
        generated.csr_wf(),
        generated.cols_global(),
        scanned(generated, scanned_matrix, externals),
        owners.len() == scanned_matrix.num_external,
        sifted(scanned_matrix, sifted_matrix, externals, owners, by_slot),
        0 <= k < generated.list_of_inds@.len(),
    ensures
        stands_for(
            sifted_matrix,
            sifted_matrix.list_of_inds@[k] as int,
            generated.list_of_inds@[k] as int,
        ),
{
    let c = generated.list_of_inds@[k];
    let v = scanned_matrix.list_of_inds@[k];
    let e = scanned_matrix.external_index@;
    let slots = sifted_matrix.external_local_index@;
    assert(v == marked(c, generated.start_row as int, generated.stop_row as int));
    if v < 0 {
        assert(e.contains(c as usize));
        let i = choose|i: int| 0 <= i < e.len() && e[i] == c as usize;
        assert(externals[e[i]] == i);
        assert(sifted_matrix.list_of_inds@[k] == slots[i]);
        assert(sifted_matrix.local_nrow <= slots[i]);
    }
}

/// `first_from` finds the first occurrence.
pub proof fn lemma_first_from(owners: Seq<usize>, p: usize, from: nat)
    requires
        from <= owners.len(),
    ensures
        from <= first_from(owners, p, from) <= owners.len(),
        first_from(owners, p, from) < owners.len() ==> owners[first_from(owners, p, from)] == p,
        forall|j: int| from <= j < first_from(owners, p, from) ==> #[trigger] owners[j] != p,
    decreases owners.len() - from,
{
    if from < owners.len() && owners[from as int] != p {
        lemma_first_from(owners, p, from + 1);
    }
}

/// The first occurrence of the owner of `j` is at or before `j`, and holds
/// that owner.
pub proof fn lemma_first_of(owners: Seq<usize>, j: int)
    requires
        0 <= j < owners.len(),
    ensures
        0 <= first_of(owners, owners[j]) <= j,
        owners[first_of(owners, owners[j])] == owners[j],
        forall|m: int| 0 <= m < first_of(owners, owners[j]) ==> #[trigger] owners[m] != owners[j],
{
    lemma_first_from(owners, owners[j], 0);
}

/// The number of entries among the first `n` that hold a local column rather
/// than the placeholder -1.
pub open spec fn count_set(slots: Seq<i32>, n: nat) -> nat
    decreases n,
{
    if n == 0 {
        0
    } else {
        count_set(slots, (n - 1) as nat) + if slots[n - 1] != -1 {
            1nat
        } else {
            0nat
        }
    }
}

proof fn lemma_count_set_bound(slots: Seq<i32>, n: nat)
    ensures
        count_set(slots, n) <= n,
    decreases n,
{
    if n > 0 {
        lemma_count_set_bound(slots, (n - 1) as nat);
    }
}

proof fn lemma_count_set_update(slots: Seq<i32>, j: int, v: i32, n: nat)
    requires
        0 <= j < slots.len(),
        n <= slots.len(),
        slots[j] == -1,
        v != -1,
    ensures
        count_set(slots.update(j, v), n) == count_set(slots, n) + if j < n {
            1nat
        } else {
            0nat
        },
    decreases n,
{
    if n > 0 {
        lemma_count_set_update(slots, j, v, (n - 1) as nat);
    }
}

proof fn lemma_count_set_full(slots: Seq<i32>, n: nat)
    requires
        n <= slots.len(),
        forall|k: int| 0 <= k < n ==> #[trigger] slots[k] != -1,
    ensures
        count_set(slots, n) == n,
    decreases n,
{
    if n > 0 {
        lemma_count_set_full(slots, (n - 1) as nat);
    }
}

proof fn lemma_count_set_empty(slots: Seq<i32>, n: nat)
    requires
        n <= slots.len(),
        forall|k: int| 0 <= k < n ==> #[trigger] slots[k] == -1,
    ensures
        count_set(slots, n) == 0,
    decreases n,
{
    if n > 0 {
        lemma_count_set_empty(slots, (n - 1) as nat);
    }
}

/// What holds of the local columns while they are being handed out: `count`
/// is the next free one, `inv` lists the externals served so far in the order
/// of their columns.
spec fn sifting(
    owners: Seq<usize>,
    slots: Seq<i32>,
    local_nrow: int,
    count: int,
    inv: Seq<int>,
) -> bool {
    let n = owners.len();
    &&& slots.len() == n
    &&& count == local_nrow + count_set(slots, n)
    &&& inv.len() == count - local_nrow
    &&& forall|j: int|
        0 <= j < n ==> #[trigger] slots[j] == -1 || local_nrow <= slots[j] < count
    &&& forall|j: int|
        0 <= j < n && #[trigger] slots[j] != -1 ==> inv[slots[j] - local_nrow] == j
    &&& forall|s: int|
        0 <= s < inv.len() ==> 0 <= #[trigger] inv[s] < n && slots[inv[s]] == local_nrow + s
    &&& forall|a: int, b: int|
        0 <= a < n && 0 <= b < n && a != b && slots[a] != -1 && slots[b] != -1 ==> ((
        #[trigger] slots[a] < #[trigger] slots[b]) <==> slot_precedes(owners, a, b))
}

/// Hands external `j` the next free local column.
proof fn lemma_sift_step(
    owners: Seq<usize>,
    slots: Seq<i32>,
    local_nrow: int,
    count: int,
    inv: Seq<int>,
    j: int,
)
    requires
        sifting(owners, slots, local_nrow, count, inv),
        0 <= j < owners.len(),
        slots[j] == -1,
        0 <= local_nrow,
        local_nrow + owners.len() <= i32::MAX,
        forall|a: int|
            0 <= a < owners.len() && #[trigger] slots[a] != -1 ==> slot_precedes(owners, a, j)
                && !slot_precedes(owners, j, a),
    ensures
        count < local_nrow + owners.len(),
        sifting(owners, slots.update(j, count as i32), local_nrow, count + 1, inv.push(j)),
{
    let n = owners.len();
    lemma_count_set_update(slots, j, 0, n);
    lemma_count_set_bound(slots.update(j, 0), n);
    let slots2 = slots.update(j, count as i32);
    let inv2 = inv.push(j);
    lemma_count_set_update(slots, j, count as i32, n);
    assert forall|s: int| 0 <= s < inv2.len() implies 0 <= #[trigger] inv2[s] < n
        && slots2[inv2[s]] == local_nrow + s by {
        if s < inv.len() {
            assert(inv[s] != j);
        }
    }
    assert forall|a: int, b: int|
        0 <= a < n && 0 <= b < n && a != b && slots2[a] != -1 && slots2[b] != -1 implies ((
        #[trigger] slots2[a] < #[trigger] slots2[b]) <==> slot_precedes(owners, a, b)) by {
        if a == j {
            assert(slots[b] != -1);
        } else if b == j {
            assert(slots[a] != -1);
        } else {
            assert(slots[a] != -1 && slots[b] != -1);
        }
    }
}

/// Assigns local columns to the external columns and rewrites the marked
/// column indices to them.
///
/// Externals get the columns from `local_nrow` on: all externals of the owner
/// that was discovered first, then all of the owner discovered next, and so
/// on, each owner's externals in order of discovery. So what one neighbour
/// sends lands in one contiguous stretch. The result names, for each of these
/// columns in order, the process that owns it.
pub fn sift_external_elements<T: Scalar>(
    matrix: &mut SparseMatrix<T>,
    externals: HashMap<usize, usize>,
    external_processor: Vec<usize>,
) -> (new_external_processor: Vec<usize>)
    requires
        old(matrix).num_external == old(matrix).external_index@.len(),
        external_processor@.len() == old(matrix).num_external,
        old(matrix).local_nrow + old(matrix).num_external <= i32::MAX,
        positions_of(externals@, old(matrix).external_index@),
        marks_resolved(
            old(matrix).list_of_inds@,
            old(matrix).external_index@,
            old(matrix).local_nrow as int,
        ),
    ensures
        sifted(
            *old(matrix),
            *final(matrix),
            externals@,
            external_processor@,
            new_external_processor@,
        ),
{
    let n = matrix.num_external;
    let local_nrow = matrix.local_nrow;
    let ghost owners = external_processor@;
    let mut count: i32 = local_nrow as i32;
    let mut slots: Vec<i32> = vec![-1i32; n];
    let ghost mut inv: Seq<int> = Seq::empty();
    proof {
        lemma_count_set_empty(slots@, n as nat);
        assert forall|j: int| 0 <= j < n implies first_of(owners, #[trigger] owners[j]) >= 0 by {
            lemma_first_of(owners, j);
        }
    }
    let mut i: usize = 0;
    while i < n
        invariant
            i <= n,
            n == owners.len(),
            owners == external_processor@,
            local_nrow + n <= i32::MAX,
            sifting(owners, slots@, local_nrow as int, count as int, inv),
            forall|j: int|
                0 <= j < n ==> ((#[trigger] slots@[j] != -1) <==> first_of(owners, owners[j]) < i),
        decreases n - i,
    {
        if slots[i] == -1 {
            proof {
                lemma_first_of(owners, i as int);
                assert forall|a: int| 0 <= a < n && #[trigger] slots@[a] != -1 implies slot_precedes(
                    owners,
                    a,
                    i as int,
                ) && !slot_precedes(owners, i as int, a) by {
                    assert(owners[a] != owners[i as int]);
                }
                lemma_sift_step(owners, slots@, local_nrow as int, count as int, inv, i as int);
                inv = inv.push(i as int);
            }
            slots.set(i, count);
            count += 1;
            let mut j: usize = i + 1;
            while j < n
                invariant
                    i < j <= n,
                    n == owners.len(),
                    owners == external_processor@,
                    local_nrow + n <= i32::MAX,
                    first_of(owners, owners[i as int]) == i,
                    sifting(owners, slots@, local_nrow as int, count as int, inv),
                    forall|m: int|
                        0 <= m < n ==> ((#[trigger] slots@[m] != -1) <==> (first_of(
                            owners,
                            owners[m],
                        ) < i || (owners[m] == owners[i as int] && m < j))),
                decreases n - j,
            {
                if external_processor[j] == external_processor[i] {
                    proof {
                        assert forall|a: int|
                            0 <= a < n && #[trigger] slots@[a] != -1 implies slot_precedes(
                            owners,
                            a,
                            j as int,
                        ) && !slot_precedes(owners, j as int, a) by {
                            lemma_first_of(owners, a);
                        }
                        lemma_sift_step(
                            owners,
                            slots@,
                            local_nrow as int,
                            count as int,
                            inv,
                            j as int,
                        );
                        inv = inv.push(j as int);
                    }
                    slots.set(j, count);
                    count += 1;
                }
                j += 1;
            }
            proof {
                assert forall|m: int| 0 <= m < n implies ((#[trigger] slots@[m] != -1)
                    <==> first_of(owners, owners[m]) < i + 1) by {
                    lemma_first_of(owners, m);
                }
            }
        } else {
            proof {
                assert forall|m: int| 0 <= m < n implies ((#[trigger] slots@[m] != -1)
                    <==> first_of(owners, owners[m]) < i + 1) by {
                    lemma_first_of(owners, m);
                }
            }
        }
        i += 1;
    }
    proof {
        assert forall|k: int| 0 <= k < n implies #[trigger] slots@[k] != -1 by {
            lemma_first_of(owners, k);
        }
        lemma_count_set_full(slots@, n as nat);
        assert forall|s: int| local_nrow <= s < local_nrow + n implies #[trigger] slot_taken(
            slots@,
            s,
        ) by {
            assert(slots@[inv[s - local_nrow]] == s);
        }
    }
    let ghost inds0 = matrix.list_of_inds@;
    let m = matrix.list_of_inds.len();
    let mut k: usize = 0;
    while k < m
        invariant
            k <= m,
            m == inds0.len(),
            matrix.list_of_inds@.len() == m,
            inds0 == old(matrix).list_of_inds@,
            n == slots@.len(),
            n == old(matrix).external_index@.len(),
            positions_of(externals@, old(matrix).external_index@),
            marks_resolved(inds0, old(matrix).external_index@, old(matrix).local_nrow as int),
            *matrix == (SparseMatrix { list_of_inds: matrix.list_of_inds, ..*old(matrix) }),
            forall|j: int| k <= j < m ==> #[trigger] matrix.list_of_inds@[j] == inds0[j],
            forall|j: int|
                0 <= j < k ==> {
                    let v = inds0[j];
                    #[trigger] matrix.list_of_inds@[j] == if v >= 0 {
                        v
                    } else {
                        slots@[externals@[(-(v + 1)) as usize] as int]
                    }
                },
        decreases m - k,
    {
        let poss_cur_ind = matrix.list_of_inds[k];
        if poss_cur_ind < 0 {
            let cur_ind: usize = (-(poss_cur_ind + 1)) as usize;
            proof {
                let v = inds0[k as int];
                assert(old(matrix).external_index@.contains(cur_ind));
                let w = choose|w: int|
                    0 <= w < old(matrix).external_index@.len() && old(matrix).external_index@[w]
                        == cur_ind;
                assert(externals@[old(matrix).external_index@[w]] == w);
            }
            let position = externals.get(&cur_ind);
            let idx: usize = *position.unwrap();
            matrix.list_of_inds.set(k, slots[idx]);
        }
        k += 1;
    }
    proof {
        assert forall|k: int| 0 <= k < m implies 0 <= #[trigger] matrix.list_of_inds@[k]
            < local_nrow + n by {
            let v = inds0[k];
            if v < 0 {
                let key = (-(v + 1)) as usize;
                assert(old(matrix).external_index@.contains(key));
                let w = choose|w: int|
                    0 <= w < old(matrix).external_index@.len() && old(matrix).external_index@[w]
                        == key;
                assert(externals@[old(matrix).external_index@[w]] == w);
                assert(slots@[w] != -1);
            }
        }
    }
    let mut new_external_processor: Vec<usize> = vec![0usize; n];
    let mut i: usize = 0;
    while i < n
        invariant
            i <= n,
            n == owners.len(),
            owners == external_processor@,
            local_nrow == old(matrix).local_nrow,
            new_external_processor@.len() == n,
            sifting(owners, slots@, local_nrow as int, local_nrow + n, inv),
            forall|k: int| 0 <= k < n ==> #[trigger] slots@[k] != -1,
            forall|i2: int|
                0 <= i2 < i ==> new_external_processor@[slots@[i2] - local_nrow]
                    == #[trigger] owners[i2],
        decreases n - i,
    {
        let ghost before = new_external_processor@;
        assert(slots@[i as int] != -1);
        new_external_processor.set(slots[i] as usize - local_nrow, external_processor[i]);
        proof {
            assert forall|i2: int| 0 <= i2 < i + 1 implies new_external_processor@[slots@[i2]
                - local_nrow] == #[trigger] owners[i2] by {
                if i2 < i {
                    assert(slots@[i2] != -1);
                    assert(inv[slots@[i2] - local_nrow] == i2);
                    assert(inv[slots@[i as int] - local_nrow] == i);
                    assert(before[slots@[i2] - local_nrow] == owners[i2]);
                }
            }
        }
        i += 1;
    }
    matrix.external_local_index = slots;
    new_external_processor
}

/// `by_slot` holds the global index of each external at the position of its
/// local column.
pub open spec fn ordered_by_slot<T: Scalar>(matrix: &SparseMatrix<T>, by_slot: Seq<usize>) -> bool {
    &&& by_slot.len() == matrix.num_external
    &&& forall|i: int|
        0 <= i < matrix.num_external ==> by_slot[matrix.external_local_index@[i] - matrix.local_nrow]
            == #[trigger] matrix.external_index@[i]
}

/// Puts the global indices of the externals in the order of their local
/// columns: entry `s` is the external whose local column is `local_nrow + s`.
pub fn create_ordered_new_external<T: Scalar>(matrix: &SparseMatrix<T>) -> (new_external: Vec<
    usize,
>)
    requires
        matrix.num_external == matrix.external_index@.len(),
        exists|owners: Seq<usize>|
            owners.len() == matrix.num_external && #[trigger] slots_assigned(
                owners,
                matrix.external_local_index@,
                matrix.local_nrow as int,
            ),
    ensures
        ordered_by_slot(matrix, new_external@),
{
    let n = matrix.num_external;
    let ghost owners = choose|owners: Seq<usize>|
        owners.len() == matrix.num_external && #[trigger] slots_assigned(
            owners,
            matrix.external_local_index@,
            matrix.local_nrow as int,
        );
    let ghost slots = matrix.external_local_index@;
    let mut new_external: Vec<usize> = vec![0usize; n];
    let mut i: usize = 0;
    while i < n
        invariant
            i <= n,
            n == matrix.num_external,
            n == matrix.external_index@.len(),
            slots == matrix.external_local_index@,
            owners.len() == n,
            slots_assigned(owners, slots, matrix.local_nrow as int),
            new_external@.len() == n,
            forall|i2: int|
                0 <= i2 < i ==> new_external@[slots[i2] - matrix.local_nrow]
                    == #[trigger] matrix.external_index@[i2],
        decreases n - i,
    {
        let ghost before = new_external@;
        new_external.set(
            matrix.external_local_index[i] as usize - matrix.local_nrow,
            matrix.external_index[i],
        );
        proof {
            assert forall|i2: int| 0 <= i2 < i + 1 implies new_external@[slots[i2]
                - matrix.local_nrow] == #[trigger] matrix.external_index@[i2] by {
                if i2 < i {
                    lemma_slots_distinct(owners, slots, matrix.local_nrow as int, i2, i as int);
                    assert(before[slots[i2] - matrix.local_nrow] == matrix.external_index@[i2]);
                }
            }
        }
        i += 1;
    }
    new_external
}

/// Two externals never share a local column.
pub proof fn lemma_slots_distinct(
    owners: Seq<usize>,
    slots: Seq<i32>,
    local_nrow: int,
    a: int,
    b: int,
)
    requires
        slots_assigned(owners, slots, local_nrow),
        0 <= a < slots.len(),
        0 <= b < slots.len(),
        a != b,
    ensures
        slots[a] != slots[b],
{
    assert((slots[a] < slots[b]) <==> slot_precedes(owners, a, b));
    assert((slots[b] < slots[a]) <==> slot_precedes(owners, b, a));
    if owners[a] != owners[b] {
        let fa = first_of(owners, owners[a]);
        let fb = first_of(owners, owners[b]);
        lemma_first_of(owners, a);
        lemma_first_of(owners, b);
        assert(fa != fb);
    }
}

/// Equal entries of `s` stand together: between two of them there is no
/// other.
pub open spec fn contiguous(s: Seq<usize>) -> bool {
    forall|a: int, b: int, c: int|
        0 <= a < b < c < s.len() && #[trigger] s[a] == #[trigger] s[c] ==> #[trigger] s[b] == s[a]
}

/// The local columns of the externals of one owner form one stretch: in the
/// order of the local columns, the owners stand together.
pub proof fn lemma_owners_stand_together(
    owners: Seq<usize>,
    slots: Seq<i32>,
    local_nrow: int,
    by_slot: Seq<usize>,
)
    requires
        slots_assigned(owners, slots, local_nrow),
        by_slot.len() == owners.len(),
        forall|i: int|
            0 <= i < owners.len() ==> by_slot[slots[i] - local_nrow] == #[trigger] owners[i],
    ensures
        contiguous(by_slot),
{
    assert forall|a: int, b: int, c: int|
        0 <= a < b < c < by_slot.len() && #[trigger] by_slot[a] == #[trigger] by_slot[c]
        implies #[trigger] by_slot[b] == by_slot[a] by {
        assert(slot_taken(slots, local_nrow + a));
        assert(slot_taken(slots, local_nrow + b));
        assert(slot_taken(slots, local_nrow + c));
        let ia = choose|i: int| 0 <= i < slots.len() && #[trigger] slots[i] == local_nrow + a;
        let ib = choose|i: int| 0 <= i < slots.len() && #[trigger] slots[i] == local_nrow + b;
        let ic = choose|i: int| 0 <= i < slots.len() && #[trigger] slots[i] == local_nrow + c;
        assert(by_slot[a] == owners[ia]);
        assert(by_slot[b] == owners[ib]);
        assert(by_slot[c] == owners[ic]);
        assert((slots[ia] < slots[ib]) <==> slot_precedes(owners, ia, ib));
        assert((slots[ib] < slots[ic]) <==> slot_precedes(owners, ib, ic));
    }
}

/// The number of times `p` occurs among the first `n` entries of `s`.
pub open spec fn occurrences(s: Seq<usize>, p: usize, n: nat) -> nat
    decreases n,
{
    if n == 0 {
        0
    } else {
        occurrences(s, p, (n - 1) as nat) + if s[n - 1] == p {
            1nat
        } else {
            0nat
        }
    }
}

/// The number of different values among the first `n` entries of `s`.
pub open spec fn distinct_count(s: Seq<usize>, n: nat) -> nat
    decreases n,
{
    if n == 0 {
        0
    } else {
        distinct_count(s, (n - 1) as nat) + if occurrences(s, s[n - 1], (n - 1) as nat) == 0 {
            1nat
        } else {
            0nat
        }
    }
}

/// How a process tells the others, in one number that survives summation
/// over all processes, that it needs `count` values from one of them: one for
/// being a neighbour, plus `size` for each value.
pub open spec fn neighbor_code(count: nat, size: int) -> int {
    if count == 0 {
        0
    } else {
        1 + size * count
    }
}

/// `codes` holds for each of the `size` processes the code of the number of
/// externals that it owns.
pub open spec fn codes_of(owners: Seq<usize>, size: usize, codes: Seq<usize>) -> bool {
    &&& codes.len() == size
    &&& forall|p: int|
        0 <= p < size ==> #[trigger] codes[p] == neighbor_code(
            occurrences(owners, p as usize, owners.len()),
            size as int,
        )
}

proof fn lemma_occurrences_bound(s: Seq<usize>, p: usize, n: nat)
    ensures
        occurrences(s, p, n) <= n,
    decreases n,
{
    if n > 0 {
        lemma_occurrences_bound(s, p, (n - 1) as nat);
    }
}

proof fn lemma_distinct_count_bound(s: Seq<usize>, n: nat)
    ensures
        distinct_count(s, n) <= n,
    decreases n,
{
    if n > 0 {
        lemma_distinct_count_bound(s, (n - 1) as nat);
    }
}

/// Counts the neighbours that this process receives from and encodes, for
/// each process, how much it needs from it.
///
/// Entry `p` of the first result is `neighbor_code` of the number of
/// externals that process `p` owns. Summed over all processes, entry `r`
/// tells process `r` how many processes need its values and how many values
/// in all. The second result is the number of processes that own an external.
pub fn count_num_neighbors<T: Scalar>(
    matrix: &SparseMatrix<T>,
    new_external_processor: &[usize],
    size: usize,
) -> (out: (Vec<usize>, usize))
    requires
        new_external_processor@.len() == matrix.num_external,
        forall|i: int|
            0 <= i < new_external_processor@.len() ==> #[trigger] new_external_processor@[i] < size,
        size * matrix.num_external + 1 <= usize::MAX,
    ensures
        codes_of(new_external_processor@, size, out.0@),
        out.1 == distinct_count(new_external_processor@, new_external_processor@.len()),
{
    let n = matrix.num_external;
    let ghost nep = new_external_processor@;
    let mut tmp_neighbors: Vec<usize> = vec![0usize; size];
    let mut num_recv_neighbors: usize = 0;
    let mut i: usize = 0;
    while i < n
        invariant
            i <= n,
            n == nep.len(),
            nep == new_external_processor@,
            forall|i2: int| 0 <= i2 < n ==> #[trigger] nep[i2] < size,
            size * n + 1 <= usize::MAX,
            tmp_neighbors@.len() == size,
            forall|p: int|
                0 <= p < size ==> #[trigger] tmp_neighbors@[p] == neighbor_code(
                    occurrences(nep, p as usize, i as nat),
                    size as int,
                ),
            num_recv_neighbors == distinct_count(nep, i as nat),
        decreases n - i,
    {
        let p = new_external_processor[i];
        proof {
            lemma_occurrences_bound(nep, p, i as nat);
            lemma_distinct_count_bound(nep, i as nat);
            let occ = occurrences(nep, p, i as nat);
            assert(size * (occ + 1) <= size * n) by (nonlinear_arith)
                requires
                    occ + 1 <= n,
                    0 <= size,
            ;
            assert(size * (occ + 1) == size * occ + size) by (nonlinear_arith);
            assert(occ > 0 ==> size * occ >= size) by (nonlinear_arith)
                requires
                    0 <= size,
            ;
        }
        if tmp_neighbors[p] == 0 {
            num_recv_neighbors += 1;
            tmp_neighbors.set(p, 1);
        }
        let bumped = tmp_neighbors[p] + size;
        tmp_neighbors.set(p, bumped);
        proof {
            let occ = occurrences(nep, p, i as nat);
            assert(occurrences(nep, p, (i + 1) as nat) == occ + 1);
            assert(size * 1 == size) by (nonlinear_arith);
            assert(bumped == neighbor_code(occ + 1, size as int));
            assert forall|q: int| 0 <= q < size implies #[trigger] tmp_neighbors@[q]
                == neighbor_code(occurrences(nep, q as usize, (i + 1) as nat), size as int) by {
                if q != p {
                    assert(occurrences(nep, q as usize, (i + 1) as nat) == occurrences(
                        nep,
                        q as usize,
                        i as nat,
                    ));
                }
            }
        }
        i += 1;
    }
    (tmp_neighbors, num_recv_neighbors)
}

/// Reads from the summed codes what the other processes need of this one:
/// how many of them are neighbours, and how many values it sends in all.
pub fn decode_neighbor_counts(code_sum: usize, size: usize) -> (res: Result<
    (usize, usize),
    SetupError,
>)
    requires
        size > 0,
    ensures
        res is Ok <==> code_sum % size <= MAX_NUM_MESSAGES && code_sum / size <= MAX_EXTERNAL,
        res matches Ok((num_send_neighbors, total_to_be_sent)) ==> num_send_neighbors == code_sum
            % size && total_to_be_sent == code_sum / size,
        res matches Err(e) ==> e == (if code_sum % size > MAX_NUM_MESSAGES {
            SetupError::TooManyMessages
        } else {
            SetupError::TooManyExternals
        }),
{
    let num_send_neighbors = code_sum % size;
    proof {
        let q = code_sum as int / size as int;
        vstd::arithmetic::div_mod::lemma_fundamental_div_mod(code_sum as int, size as int);
        assert(0 <= q && code_sum - num_send_neighbors == q * size + 0) by (nonlinear_arith)
            requires
                code_sum == size * q + num_send_neighbors,
                0 <= num_send_neighbors < size,
                0 <= code_sum,
        ;
        vstd::arithmetic::div_mod::lemma_fundamental_div_mod_converse(
            code_sum - num_send_neighbors,
            size as int,
            q,
            0,
        );
    }
    let total_to_be_sent = (code_sum - num_send_neighbors) / size;
    if num_send_neighbors > MAX_NUM_MESSAGES {
        return Err(SetupError::TooManyMessages);
    }
    if total_to_be_sent > MAX_EXTERNAL {
        return Err(SetupError::TooManyExternals);
    }
    Ok((num_send_neighbors, total_to_be_sent))
}

/// The first entry of each run of equal entries among the first `n` of `s`.
pub open spec fn run_heads(s: Seq<usize>, n: nat) -> Seq<usize>
    decreases n,
{
    if n == 0 {
        Seq::empty()
    } else {
        let prev = run_heads(s, (n - 1) as nat);
        if n == 1 || s[n - 2] != s[n - 1] {
            prev.push(s[n - 1])
        } else {
            prev
        }
    }
}

/// `p` occurs among the first `n` entries of `s` exactly if it is counted
/// there.
proof fn lemma_occurrences_none(s: Seq<usize>, p: usize, n: nat)
    requires
        n <= s.len(),
    ensures
        occurrences(s, p, n) == 0 <==> forall|j: int| 0 <= j < n ==> #[trigger] s[j] != p,
    decreases n,
{
    if n > 0 {
        lemma_occurrences_none(s, p, (n - 1) as nat);
    }
}

/// Where equal owners stand together, there are as many runs as there are
/// different owners: the neighbours listed are the neighbours counted.
pub proof fn lemma_runs_are_owners(s: Seq<usize>, n: nat)
    requires
        n <= s.len(),
        contiguous(s),
    ensures
        run_heads(s, n).len() == distinct_count(s, n),
    decreases n,
{
    if n > 0 {
        lemma_runs_are_owners(s, (n - 1) as nat);
        lemma_occurrences_none(s, s[n - 1], (n - 1) as nat);
        if n > 1 {
            if s[n - 2] != s[n - 1] {
                assert forall|j: int| 0 <= j < n - 1 implies #[trigger] s[j] != s[n - 1] by {
                    if j < n - 2 && s[j] == s[n - 1] {
                        assert(s[n - 2] == s[j]);
                    }
                }
            }
        }
    }
}

/// Lists the neighbours that this process receives from, in the order in
/// which their values lie in the local columns.
pub fn make_list_of_neighbors(new_external_processor: &[usize]) -> (recv_list: Vec<usize>)
    ensures
        recv_list@ == run_heads(new_external_processor@, new_external_processor@.len()),
{
    let n = new_external_processor.len();
    let mut recv_list: Vec<usize> = Vec::new();
    if n > 0 {
        recv_list.push(new_external_processor[0]);
        assert(recv_list@ == run_heads(new_external_processor@, 1)) by {
            assert(run_heads(new_external_processor@, 0) == Seq::<usize>::empty());
        }
    }
    let mut i: usize = 1;
    while i < n
        invariant
            n == new_external_processor@.len(),
            n > 0 ==> 1 <= i <= n,
            n > 0 ==> recv_list@ == run_heads(new_external_processor@, i as nat),
            n == 0 ==> recv_list@ == run_heads(new_external_processor@, 0),
        decreases n - i,
    {
        if new_external_processor[i - 1] != new_external_processor[i] {
            recv_list.push(new_external_processor[i]);
        }
        i += 1;
    }
    recv_list
}

/// `recv` followed by those of the first `n` entries of `send` that it does
/// not hold yet, each once.
pub open spec fn merged(recv: Seq<usize>, send: Seq<usize>, n: nat) -> Seq<usize>
    decreases n,
{
    if n == 0 {
        recv
    } else {
        let m = merged(recv, send, (n - 1) as nat);
        if m.contains(send[n - 1]) {
            m
        } else {
            m.push(send[n - 1])
        }
    }
}

/// Merging keeps the list it starts from as a prefix.
pub proof fn lemma_merged_extends(recv: Seq<usize>, send: Seq<usize>, n: nat)
    ensures
        recv.len() <= merged(recv, send, n).len() <= recv.len() + n,
        forall|i: int| 0 <= i < recv.len() ==> #[trigger] merged(recv, send, n)[i] == recv[i],
    decreases n,
{
    if n > 0 {
        lemma_merged_extends(recv, send, (n - 1) as nat);
    }
}

/// Adds to the list of neighbours those processes that this process sends
/// to and does not receive from, so that every exchange partner is listed
/// once. Returns the number of neighbours received from and sent to, which
/// are the same number from here on.
pub fn compare_send_recv_lists(recv_list: &mut Vec<usize>, send_list: &[usize]) -> (res: Result<
    (usize, usize),
    SetupError,
>)
    ensures
        final(recv_list)@ == merged(old(recv_list)@, send_list@, send_list@.len()),
        res is Ok <==> final(recv_list)@.len() <= MAX_NUM_MESSAGES,
        res matches Ok((num_recv_neighbors, num_send_neighbors)) ==> {
            &&& num_recv_neighbors == final(recv_list)@.len()
            &&& num_send_neighbors == num_recv_neighbors
        },
        res matches Err(e) ==> e == SetupError::TooManyMessages,
{
    let mut j: usize = 0;
    while j < send_list.len()
        invariant
            j <= send_list@.len(),
            recv_list@ == merged(old(recv_list)@, send_list@, j as nat),
        decreases send_list@.len() - j,
    {
        let mut found = false;
        let mut i: usize = 0;
        while i < recv_list.len() && !found
            invariant
                i <= recv_list@.len(),
                j < send_list@.len(),
                found ==> recv_list@.contains(send_list@[j as int]),
                !found ==> forall|i2: int| 0 <= i2 < i ==> #[trigger] recv_list@[i2] != send_list@[j as int],
            decreases recv_list@.len() - i + if found { 0int } else { 1int },
        {
            if recv_list[i] == send_list[j] {
                found = true;
            } else {
                i += 1;
            }
        }
        if !found {
            recv_list.push(send_list[j]);
        }
        j += 1;
    }
    let num_recv_neighbors = recv_list.len();
    if num_recv_neighbors > MAX_NUM_MESSAGES {
        return Err(SetupError::TooManyMessages);
    }
    Ok((num_recv_neighbors, num_recv_neighbors))
}

/// The length of the run of `p` in `s` that starts at `from`.
pub open spec fn run_len(s: Seq<usize>, p: usize, from: nat) -> nat
    decreases s.len() - from,
{
    if from >= s.len() || s[from as int] != p {
        0
    } else {
        1 + run_len(s, p, from + 1)
    }
}

/// How far into `s` the first `i` neighbours of `list` reach, when each in
/// turn takes the run of its own entries that starts where the one before
/// stopped.
pub open spec fn walk(s: Seq<usize>, list: Seq<usize>, i: nat) -> nat
    decreases i,
{
    if i == 0 {
        0
    } else {
        let j = walk(s, list, (i - 1) as nat);
        j + run_len(s, list[i - 1], j)
    }
}

/// A run ends inside the sequence, holds one value throughout, and stops at a
/// different one.
pub proof fn lemma_run_len(s: Seq<usize>, p: usize, from: nat)
    ensures
        from + run_len(s, p, from) <= s.len() || run_len(s, p, from) == 0,
        forall|k: int| from <= k < from + run_len(s, p, from) ==> #[trigger] s[k] == p,
        from + run_len(s, p, from) < s.len() ==> s[(from + run_len(s, p, from)) as int] != p,
    decreases s.len() - from,
{
    if from < s.len() && s[from as int] == p {
        lemma_run_len(s, p, from + 1);
    }
}

/// The run heads of a prefix are a prefix of the run heads of the whole.
pub proof fn lemma_run_heads_prefix(s: Seq<usize>, a: nat, b: nat)
    requires
        a <= b,
    ensures
        run_heads(s, a).len() <= run_heads(s, b).len(),
        forall|k: int|
            0 <= k < run_heads(s, a).len() ==> #[trigger] run_heads(s, b)[k] == run_heads(s, a)[k],
    decreases b,
{
    if a < b {
        lemma_run_heads_prefix(s, a, (b - 1) as nat);
    }
}

/// Going on inside a run adds no run head.
proof fn lemma_run_heads_within_run(s: Seq<usize>, a: nat, b: nat)
    requires
        1 <= a <= b,
        forall|k: int| a <= k < b ==> s[k - 1] == #[trigger] s[k],
    ensures
        run_heads(s, b) == run_heads(s, a),
    decreases b,
{
    if a < b {
        lemma_run_heads_within_run(s, a, (b - 1) as nat);
    }
}

/// Position `j` of `s` is where a run begins, or the end of `s`.
pub open spec fn run_boundary(s: Seq<usize>, j: int) -> bool {
    j == 0 || j == s.len() || (0 < j < s.len() && s[j - 1] != s[j])
}

/// `list` begins with the run heads of `s`.
pub open spec fn begins_with_run_heads(s: Seq<usize>, list: Seq<usize>) -> bool {
    let heads = run_heads(s, s.len());
    &&& heads.len() <= list.len()
    &&& forall|k: int| 0 <= k < heads.len() ==> #[trigger] list[k] == heads[k]
}

/// After serving the first `i` run heads, the walk stands at the beginning
/// of run `i`.
proof fn lemma_walk_heads(s: Seq<usize>, list: Seq<usize>, i: nat)
    requires
        begins_with_run_heads(s, list),
        i <= run_heads(s, s.len()).len(),
    ensures
        walk(s, list, i) <= s.len(),
        run_heads(s, walk(s, list, i)).len() == i,
        run_boundary(s, walk(s, list, i) as int),
    decreases i,
{
    let n = s.len();
    if i > 0 {
        lemma_walk_heads(s, list, (i - 1) as nat);
        let j = walk(s, list, (i - 1) as nat);
        assert(j < n);
        assert(run_heads(s, j + 1) == run_heads(s, j).push(s[j as int]));
        lemma_run_heads_prefix(s, j + 1, n);
        let p = list[i - 1];
        assert(p == run_heads(s, n)[i - 1]);
        assert(p == s[j as int]);
        lemma_run_len(s, p, j);
        let e = j + run_len(s, p, j);
        assert(e >= j + 1);
        assert forall|k: int| j + 1 <= k < e implies s[k - 1] == #[trigger] s[k] by {
            assert(s[k] == p);
            assert(s[k - 1] == p);
        }
        lemma_run_heads_within_run(s, j + 1, e);
        if e < n {
            assert(s[e - 1] == p);
        }
    }
}

/// Once the walk has reached the end it stays there.
proof fn lemma_walk_stays(s: Seq<usize>, list: Seq<usize>, h: nat, i: nat)
    requires
        h <= i,
        walk(s, list, h) == s.len(),
    ensures
        walk(s, list, i) == s.len(),
    decreases i,
{
    if h < i {
        lemma_walk_stays(s, list, h, (i - 1) as nat);
    }
}

/// A list that begins with the run heads of `s` walks through all of `s`.
pub proof fn lemma_walk_covers(s: Seq<usize>, list: Seq<usize>)
    requires
        begins_with_run_heads(s, list),
    ensures
        walk(s, list, list.len()) == s.len(),
{
    let n = s.len();
    let h = run_heads(s, n).len();
    lemma_walk_heads(s, list, h);
    let j = walk(s, list, h);
    if j < n {
        assert(run_heads(s, j + 1) == run_heads(s, j).push(s[j as int]));
        lemma_run_heads_prefix(s, j + 1, n);
    }
    lemma_walk_stays(s, list, h, list.len());
}

/// `after` is `before` with `recv_list` as its neighbours and, for each of
/// them, the length of its run in `by_slot` as the number of values received
/// from it; `lengths` holds the same numbers.
pub open spec fn neighbors_fixed<T: Scalar>(
    before: SparseMatrix<T>,
    after: SparseMatrix<T>,
    recv_list: Seq<usize>,
    by_slot: Seq<usize>,
    lengths: Seq<i32>,
) -> bool {
    &&& after == (SparseMatrix {
        neighbors: after.neighbors,
        recv_length: after.recv_length,
        ..before
    })
    &&& after.neighbors@ == recv_list
    &&& after.recv_length@.len() == recv_list.len()
    &&& lengths.len() == recv_list.len()
    &&& forall|i: int|
        0 <= i < recv_list.len() ==> #[trigger] after.recv_length@[i] == run_len(
            by_slot,
            recv_list[i],
            walk(by_slot, recv_list, i as nat),
        )
    &&& forall|i: int| 0 <= i < recv_list.len() ==> #[trigger] lengths[i] == after.recv_length@[i]
    &&& sum_to(after.recv_length@, recv_list.len()) == walk(by_slot, recv_list, recv_list.len())
}

/// Fixes the neighbours and how many values each of them sends.
///
/// Neighbour `i` is `recv_list[i]`. The values it sends are those of its run
/// in `new_external_processor`, taken where the neighbour before it stopped.
/// The result holds these lengths in the form in which they are announced to
/// the neighbours.
pub fn send_processor_global_index<T: Scalar>(
    matrix: &mut SparseMatrix<T>,
    recv_list: &[usize],
    new_external_processor: &[usize],
) -> (lengths: Vec<i32>)
    requires
        new_external_processor@.len() == old(matrix).num_external,
        old(matrix).num_external <= i32::MAX,
    ensures
        neighbors_fixed(
            *old(matrix),
            *final(matrix),
            recv_list@,
            new_external_processor@,
            lengths@,
        ),
        begins_with_run_heads(new_external_processor@, recv_list@) ==> sum_to(
            final(matrix).recv_length@,
            recv_list@.len(),
        ) == old(matrix).num_external,
{
    let ghost nep = new_external_processor@;
    let ghost list = recv_list@;
    let n = matrix.num_external;
    let mut neighbors: Vec<usize> = Vec::new();
    let mut recv_length: Vec<usize> = Vec::new();
    let mut lengths: Vec<i32> = Vec::new();
    let mut j: usize = 0;
    let mut i: usize = 0;
    while i < recv_list.len()
        invariant
            i <= list.len(),
            list == recv_list@,
            nep == new_external_processor@,
            n == nep.len(),
            n <= i32::MAX,
            j <= n,
            j == walk(nep, list, i as nat),
            neighbors@ == list.take(i as int),
            recv_length@.len() == i,
            lengths@.len() == i,
            forall|i2: int|
                0 <= i2 < i ==> #[trigger] recv_length@[i2] == run_len(
                    nep,
                    list[i2],
                    walk(nep, list, i2 as nat),
                ),
            forall|i2: int| 0 <= i2 < i ==> #[trigger] lengths@[i2] == recv_length@[i2],
            sum_to(recv_length@, i as nat) == j,
        decreases list.len() - i,
    {
        let start = j;
        let mut newlength: usize = 0;
        while j < n && new_external_processor[j] == recv_list[i]
            invariant
                i < list.len(),
                list == recv_list@,
                nep == new_external_processor@,
                n == nep.len(),
                start <= j <= n,
                j == start + newlength,
                newlength + run_len(nep, list[i as int], j as nat) == run_len(
                    nep,
                    list[i as int],
                    start as nat,
                ),
            decreases n - j,
        {
            newlength += 1;
            j += 1;
        }
        let ghost before = recv_length@;
        recv_length.push(newlength);
        neighbors.push(recv_list[i]);
        lengths.push((j - start) as i32);
        proof {
            assert(neighbors@ == list.take(i + 1));
            assert(sum_to(recv_length@, (i + 1) as nat) == sum_to(recv_length@, i as nat)
                + newlength);
            lemma_sum_to_prefix(before, recv_length@, i as nat);
        }
        i += 1;
    }
    proof {
        assert(neighbors@ == list);
        if begins_with_run_heads(nep, list) {
            lemma_walk_covers(nep, list);
        }
    }
    matrix.neighbors = neighbors;
    matrix.recv_length = recv_length;
    lengths
}

/// The sum of the first `n` entries of `s`.
pub open spec fn sum_lengths(s: Seq<i32>, n: nat) -> int
    decreases n,
{
    if n == 0 {
        0
    } else {
        sum_lengths(s, (n - 1) as nat) + s[n - 1]
    }
}

/// What the neighbours announced can be taken as the lengths of what this
/// process sends them: one length for each neighbour, none negative, and
/// `total` in all.
pub open spec fn lengths_fit(lengths: Seq<i32>, neighbors: nat, total: int) -> bool {
    &&& lengths.len() == neighbors
    &&& forall|i: int| 0 <= i < lengths.len() ==> #[trigger] lengths[i] >= 0
    &&& sum_lengths(lengths, lengths.len()) == total
}

proof fn lemma_sum_lengths_monotone(s: Seq<i32>, n: nat, m: nat)
    requires
        n <= m <= s.len(),
        forall|i: int| 0 <= i < s.len() ==> #[trigger] s[i] >= 0,
    ensures
        sum_lengths(s, n) <= sum_lengths(s, m),
    decreases m,
{
    if n < m {
        lemma_sum_lengths_monotone(s, n, (m - 1) as nat);
    }
}

/// `after` is `before` with `lengths` as the numbers of values sent to the
/// neighbours and `total`, their sum, as the number sent in all.
pub open spec fn send_lengths_recorded<T: Scalar>(
    before: SparseMatrix<T>,
    after: SparseMatrix<T>,
    lengths: Seq<i32>,
    total: usize,
) -> bool {
    &&& after == (SparseMatrix {
        send_length: after.send_length,
        total_to_be_sent: total,
        ..before
    })
    &&& after.send_length@.len() == lengths.len()
    &&& forall|i: int| 0 <= i < lengths.len() ==> #[trigger] after.send_length@[i] == lengths[i]
    &&& sum_to(after.send_length@, lengths.len()) == total
}

/// Stores how many values this process sends to each neighbour, as the
/// neighbours announced it, and how many it sends in all.
///
/// The announcement is refused, and the matrix left as it is, unless it fits
/// the total that the neighbour count gave.
pub fn record_send_lengths<T: Scalar>(
    matrix: &mut SparseMatrix<T>,
    lengths: &[i32],
    total_to_be_sent: usize,
) -> (res: Result<(), SetupError>)
    ensures
        res is Ok <==> lengths_fit(
            lengths@,
            old(matrix).neighbors@.len(),
            total_to_be_sent as int,
        ),
        res is Ok ==> send_lengths_recorded(
            *old(matrix),
            *final(matrix),
            lengths@,
            total_to_be_sent,
        ),
        res matches Err(e) ==> e == SetupError::Mismatch && *final(matrix) == *old(matrix),
{
    if lengths.len() != matrix.neighbors.len() {
        return Err(SetupError::Mismatch);
    }
    let mut send_length: Vec<usize> = Vec::new();
    let mut sum: usize = 0;
    let mut i: usize = 0;
    while i < lengths.len()
        invariant
            i <= lengths@.len(),
            send_length@.len() == i,
            forall|i2: int| 0 <= i2 < i ==> #[trigger] lengths@[i2] >= 0,
            forall|i2: int| 0 <= i2 < i ==> #[trigger] send_length@[i2] == lengths@[i2],
            sum == sum_lengths(lengths@, i as nat),
            sum == sum_to(send_length@, i as nat),
            sum <= total_to_be_sent,
        decreases lengths@.len() - i,
    {
        let len = lengths[i];
        if len < 0 {
            return Err(SetupError::Mismatch);
        }
        if len as usize > total_to_be_sent - sum {
            proof {
                if forall|i2: int| 0 <= i2 < lengths@.len() ==> #[trigger] lengths@[i2] >= 0 {
                    lemma_sum_lengths_monotone(lengths@, (i + 1) as nat, lengths@.len());
                }
            }
            return Err(SetupError::Mismatch);
        }
        let ghost before = send_length@;
        send_length.push(len as usize);
        sum += len as usize;
        proof {
            lemma_sum_to_prefix(before, send_length@, i as nat);
        }
        i += 1;
    }
    if sum != total_to_be_sent {
        return Err(SetupError::Mismatch);
    }
    matrix.send_length = send_length;
    matrix.total_to_be_sent = total_to_be_sent;
    Ok(())
}

/// `requests` cuts `by_slot` into one stretch for each neighbour, of the
/// length that the neighbour sends.
pub open spec fn requests_listed(
    recv_length: Seq<usize>,
    by_slot: Seq<usize>,
    requests: Seq<Vec<i32>>,
) -> bool {
    &&& requests.len() == recv_length.len()
    &&& forall|i: int|
        0 <= i < requests.len() ==> (#[trigger] requests[i])@.len() == recv_length[i]
    &&& forall|i: int, k: int|
        0 <= i < requests.len() && 0 <= k < recv_length[i] ==> #[trigger] requests[i]@[k]
            == by_slot[sum_to(recv_length, i as nat) + k]
}

/// Lists, for each neighbour, the global indices of the values that this
/// process wants from it, in the order of their local columns.
pub fn external_requests<T: Scalar>(matrix: &SparseMatrix<T>, new_external: &[usize]) -> (out: Vec<
    Vec<i32>,
>)
    requires
        new_external@.len() == matrix.num_external,
        sum_to(matrix.recv_length@, matrix.recv_length@.len()) == matrix.num_external,
        forall|k: int| 0 <= k < new_external@.len() ==> #[trigger] new_external@[k] <= i32::MAX,
    ensures
        requests_listed(matrix.recv_length@, new_external@, out@),
{
    let ghost lens = matrix.recv_length@;
    let n = new_external.len();
    let mut out: Vec<Vec<i32>> = Vec::new();
    let mut start: usize = 0;
    let mut i: usize = 0;
    while i < matrix.recv_length.len()
        invariant
            i <= lens.len(),
            n == new_external@.len(),
            lens == matrix.recv_length@,
            new_external@.len() == sum_to(lens, lens.len()),
            forall|k: int| 0 <= k < new_external@.len() ==> #[trigger] new_external@[k] <= i32::MAX,
            start == sum_to(lens, i as nat),
            out@.len() == i,
            forall|i2: int| 0 <= i2 < i ==> (#[trigger] out@[i2])@.len() == lens[i2],
            forall|i2: int, k: int|
                0 <= i2 < i && 0 <= k < lens[i2] ==> #[trigger] out@[i2]@[k] == new_external@[sum_to(
                    lens,
                    i2 as nat,
                ) + k],
        decreases lens.len() - i,
    {
        let len = matrix.recv_length[i];
        proof {
            lemma_sum_to_monotone(lens, (i + 1) as nat, lens.len());
            assert(sum_to(lens, (i + 1) as nat) == sum_to(lens, i as nat) + lens[i as int]);
        }
        let mut data_to_send: Vec<i32> = Vec::new();
        let mut k: usize = 0;
        while k < len
            invariant
                k <= len,
                n == new_external@.len(),
                start + len <= n,
                forall|k2: int|
                    0 <= k2 < new_external@.len() ==> #[trigger] new_external@[k2] <= i32::MAX,
                data_to_send@.len() == k,
                forall|k2: int|
                    0 <= k2 < k ==> #[trigger] data_to_send@[k2] == new_external@[start + k2],
            decreases len - k,
        {
            data_to_send.push(new_external[start + k] as i32);
            k += 1;
        }
        out.push(data_to_send);
        start += len;
        i += 1;
    }
    out
}

/// Every neighbour asked for as many values as it announced, and only for
/// rows between `lo` and `hi`.
pub open spec fn requests_fit(
    received: Seq<Vec<i32>>,
    send_length: Seq<usize>,
    lo: int,
    hi: int,
) -> bool {
    &&& received.len() == send_length.len()
    &&& forall|i: int|
        0 <= i < received.len() ==> (#[trigger] received[i])@.len() == send_length[i]
    &&& forall|i: int, k: int|
        0 <= i < received.len() && 0 <= k < received[i]@.len() ==> lo <= #[trigger] received[i]@[k]
            <= hi
}

/// `after` is `before` with the setup completed: the rows that the
/// neighbours asked for listed as local rows, neighbour after neighbour, a
/// send buffer of zeros of that length, and the counts of neighbours and of
/// local columns filled in.
pub open spec fn send_list_built<T: Scalar>(
    before: SparseMatrix<T>,
    after: SparseMatrix<T>,
    received: Seq<Vec<i32>>,
) -> bool {
    &&& after == (SparseMatrix {
        elements_to_send: after.elements_to_send,
        send_buffer: after.send_buffer,
        num_send_neighbors: before.neighbors@.len() as usize,
        local_ncol: (before.local_nrow + before.num_external) as usize,
        ..before
    })
    &&& after.halo_wf()
    &&& forall|i: int, k: int|
        0 <= i < received.len() && 0 <= k < received[i]@.len() ==> after.elements_to_send@[sum_to(
            before.send_length@,
            i as nat,
        ) + k] == #[trigger] received[i]@[k] - before.start_row
    &&& forall|k: int|
        0 <= k < after.send_buffer@.len() ==> #[trigger] after.send_buffer@[k] == T::of_int(0)
}

/// Records which of its rows this process sends, from the global indices
/// that the neighbours asked for, and completes the setup.
///
/// The rows are stored as local indices, neighbour after neighbour. A request
/// that does not fit what the neighbour announced, or names a row that this
/// process does not own, is refused and the matrix left as it is.
pub fn build_elements_to_send_list<T: Scalar>(
    matrix: &mut SparseMatrix<T>,
    received: &[Vec<i32>],
) -> (res: Result<(), SetupError>)
    requires
        old(matrix).csr_wf(),
        old(matrix).start_row <= i32::MAX,
        old(matrix).cols_below(old(matrix).local_nrow + old(matrix).num_external),
        old(matrix).local_nrow + old(matrix).num_external <= usize::MAX,
        old(matrix).neighbors@.len() == old(matrix).recv_length@.len(),
        old(matrix).neighbors@.len() == old(matrix).send_length@.len(),
        sum_to(old(matrix).recv_length@, old(matrix).recv_length@.len())
            == old(matrix).num_external,
        sum_to(old(matrix).send_length@, old(matrix).send_length@.len())
            == old(matrix).total_to_be_sent,
    ensures
        res is Ok <==> requests_fit(
            received@,
            old(matrix).send_length@,
            old(matrix).start_row as int,
            old(matrix).stop_row as int,
        ),
        res is Ok ==> send_list_built(*old(matrix), *final(matrix), received@),
        res matches Err(e) ==> e == SetupError::Mismatch && *final(matrix) == *old(matrix),
{
    let ghost lens = matrix.send_length@;
    let ghost lo = matrix.start_row as int;
    let ghost hi = matrix.stop_row as int;
    if received.len() != matrix.send_length.len() {
        return Err(SetupError::Mismatch);
    }
    let mut elements_to_send: Vec<i32> = Vec::new();
    let mut i: usize = 0;
    while i < received.len()
        invariant
            i <= received@.len(),
            received@.len() == lens.len(),
            lens == matrix.send_length@,
            lo == matrix.start_row,
            hi == matrix.stop_row,
            *matrix == *old(matrix),
            matrix.csr_wf(),
            matrix.start_row <= i32::MAX,
            forall|i2: int| 0 <= i2 < i ==> (#[trigger] received@[i2])@.len() == lens[i2],
            forall|i2: int, k: int|
                0 <= i2 < i && 0 <= k < received@[i2]@.len() ==> lo <= #[trigger] received@[i2]@[k]
                    <= hi,
            elements_to_send@.len() == sum_to(lens, i as nat),
            forall|j: int|
                0 <= j < elements_to_send@.len() ==> 0 <= #[trigger] elements_to_send@[j]
                    < matrix.local_nrow,
            forall|i2: int, k: int|
                0 <= i2 < i && 0 <= k < received@[i2]@.len() ==> elements_to_send@[sum_to(
                    lens,
                    i2 as nat,
                ) + k] == #[trigger] received@[i2]@[k] - lo,
        decreases received@.len() - i,
    {
        let slice = &received[i];
        if slice.len() != matrix.send_length[i] {
            return Err(SetupError::Mismatch);
        }
        let ghost base = elements_to_send@.len() as int;
        let mut k: usize = 0;
        while k < slice.len()
            invariant
                k <= slice@.len(),
                i < received@.len(),
                slice@ == received@[i as int]@,
                lo == matrix.start_row,
                hi == matrix.stop_row,
                *matrix == *old(matrix),
                matrix.csr_wf(),
                matrix.start_row <= i32::MAX,
                received@.len() == lens.len(),
                base == sum_to(lens, i as nat),
                elements_to_send@.len() == base + k,
                forall|k2: int| 0 <= k2 < k ==> lo <= #[trigger] slice@[k2] <= hi,
                forall|j: int|
                    0 <= j < elements_to_send@.len() ==> 0 <= #[trigger] elements_to_send@[j]
                        < matrix.local_nrow,
                forall|k2: int|
                    0 <= k2 < k ==> elements_to_send@[base + k2] == #[trigger] slice@[k2] - lo,
                forall|i2: int, k2: int|
                    0 <= i2 < i && 0 <= k2 < received@[i2]@.len() ==> elements_to_send@[sum_to(
                        lens,
                        i2 as nat,
                    ) + k2] == #[trigger] received@[i2]@[k2] - lo,
                forall|i2: int| 0 <= i2 < i ==> (#[trigger] received@[i2])@.len() == lens[i2],
            decreases slice@.len() - k,
        {
            let item = slice[k];
            if item < 0 || (item as usize) < matrix.start_row || (item as usize)
                > matrix.stop_row {
                assert(!(lo <= received@[i as int]@[k as int] <= hi));
                return Err(SetupError::Mismatch);
            }
            let ghost before = elements_to_send@;
            elements_to_send.push(item - matrix.start_row as i32);
            proof {
                assert forall|i2: int, k2: int|
                    0 <= i2 < i && 0 <= k2 < received@[i2]@.len() implies elements_to_send@[sum_to(
                    lens,
                    i2 as nat,
                ) + k2] == #[trigger] received@[i2]@[k2] - lo by {
                    lemma_sum_to_monotone(lens, (i2 + 1) as nat, i as nat);
                    assert(sum_to(lens, (i2 + 1) as nat) == sum_to(lens, i2 as nat) + lens[i2]);
                    assert(before[sum_to(lens, i2 as nat) + k2] == received@[i2]@[k2] - lo);
                }
                assert forall|k2: int| 0 <= k2 < k + 1 implies elements_to_send@[base + k2]
                    == #[trigger] slice@[k2] - lo by {
                    if k2 < k {
                        assert(before[base + k2] == slice@[k2] - lo);
                    }
                }
            }
            k += 1;
        }
        i += 1;
    }
    let total = elements_to_send.len();
    let mut send_buffer: Vec<T> = Vec::new();
    let mut k: usize = 0;
    while k < total
        invariant
            k <= total,
            send_buffer@.len() == k,
            forall|k2: int| 0 <= k2 < k ==> #[trigger] send_buffer@[k2] == T::of_int(0),
        decreases total - k,
    {
        send_buffer.push(T::from_i32(0));
        k += 1;
    }
    matrix.elements_to_send = elements_to_send;
    matrix.send_buffer = send_buffer;
    matrix.num_send_neighbors = matrix.neighbors.len();
    matrix.local_ncol = matrix.local_nrow + matrix.num_external;
    Ok(())
}

} // verus!
