use crate::make_local_matrix::{
    all_have_owners, build_elements_to_send_list, codes_of, compare_send_recv_lists,
    count_num_neighbors, create_ordered_new_external, decode_neighbor_counts, external_limit,
    external_requests, externals_of, find_accessed_processors, lemma_discovered_sound,
    lemma_merged_extends, lengths_fit, make_list_of_neighbors, marks_resolved, merged,
    neighbors_fixed, ordered_by_slot, owners_of, positions_of, record_send_lengths,
    requests_fit, requests_listed, run_heads, scan_and_transform_local, scanned,
    send_lengths_recorded, send_list_built, send_processor_global_index,
    sift_external_elements, sifted, slot_taken, slots_assigned, SetupError, MAX_EXTERNAL,
    MAX_NUM_MESSAGES,
};
use crate::scalar::Scalar;
use crate::sparse_matrix::{sum_to, SparseMatrix};
use std::collections::HashMap;
use vstd::prelude::*;

verus! {

/// How far the setup of the local matrix has come: what this process waits
/// for from the others.
#[derive(Debug, Clone, Copy, PartialEq, Eq, Structural)]
pub enum SetupPhase {
    /// Nothing has been done yet.
    Fresh,
    /// The first rows of all processes.
    Offsets,
    /// The summed codes of what every process needs.
    Codes,
    /// The ranks of the processes that need values of this one.
    Senders,
    /// How many values each neighbour needs.
    Lengths,
    /// Which rows each neighbour needs.
    Requests,
    /// The matrix is set up.
    Complete,
}

/// What the other processes answered.
pub enum SetupEvent {
    /// Nothing yet: the setup begins.
    Start,
    /// The sums, entry by entry over all processes, of the values handed out.
    Reduced(Vec<usize>),
    /// The ranks from which a token arrived.
    Senders(Vec<usize>),
    /// The length that each neighbour announced, in the neighbours' order.
    Lengths(Vec<i32>),
    /// The global rows that each neighbour asked for, in the neighbours'
    /// order.
    Requests(Vec<Vec<i32>>),
}

/// What this process has to do with the others before the setup can go on.
pub enum SetupAction {
    /// Sum these values entry by entry over all processes.
    ReduceSum(Vec<usize>),
    /// Send a token to each of `targets` and take one from each of
    /// `expected` processes, whichever they are.
    FindSenders { targets: Vec<usize>, expected: usize },
    /// Send `lengths[i]` to `neighbors[i]` and take one length from each.
    SwapLengths { neighbors: Vec<usize>, lengths: Vec<i32> },
    /// Send `requests[i]` to `neighbors[i]` and take `expected[i]` rows from
    /// each.
    SwapRequests { neighbors: Vec<usize>, requests: Vec<Vec<i32>>, expected: Vec<usize> },
    /// Nothing: the matrix is set up.
    Done,
}

/// A matrix on its way from global to local column indices, with what the
/// steps of the setup hand on to each other.
pub struct LocalSetup<T> {
    /// The matrix being set up.
    pub matrix: SparseMatrix<T>,
    /// The rank of this process.
    pub rank: usize,
    /// The number of processes.
    pub size: usize,
    /// What the setup waits for.
    pub phase: SetupPhase,
    /// The position of each external column in the order of discovery.
    pub externals: HashMap<usize, usize>,
    /// The owner of each external, in the order of the local columns.
    pub new_external_processor: Vec<usize>,
    /// The neighbours, in the order of the local columns.
    pub recv_list: Vec<usize>,
    /// The number of processes that need values of this one.
    pub num_send_neighbors: usize,
    /// The number of values that this process sends in one exchange.
    pub total_to_be_sent: usize,
    /// The global index of each external, in the order of the local columns.
    pub new_external: Vec<usize>,
}

/// A copy of `v`.
fn copied<E: Copy>(v: &Vec<E>) -> (out: Vec<E>)
    ensures
        out@ == v@,
{
    let mut out: Vec<E> = Vec::with_capacity(v.len());
    let mut i: usize = 0;
    while i < v.len()
        invariant
            i <= v@.len(),
            out@ == v@.take(i as int),
        decreases v@.len() - i,
    {
        out.push(v[i]);
        assert(out@ == v@.take(i + 1));
        i += 1;
    }
    assert(v@.take(v@.len() as int) == v@);
    out
}

impl<T: Scalar> LocalSetup<T> {
    /// The external columns are listed, and the local columns that they will
    /// take can be numbered.
    pub open spec fn listed(&self) -> bool {
        &&& self.matrix.num_external == self.matrix.external_index@.len()
        &&& self.matrix.local_nrow + self.matrix.num_external <= i32::MAX
        &&& forall|i: int|
            0 <= i < self.matrix.external_index@.len() ==> #[trigger] self.matrix.external_index@[i]
                < self.matrix.total_nrow
    }

    /// Every external has its local column, and every stored column index is
    /// local.
    pub open spec fn sorted(&self) -> bool {
        &&& self.matrix.cols_below(self.matrix.local_nrow + self.matrix.num_external)
        &&& self.new_external_processor@.len() == self.matrix.num_external
        &&& exists|owners: Seq<usize>|
            owners.len() == self.matrix.num_external && #[trigger] slots_assigned(
                owners,
                self.matrix.external_local_index@,
                self.matrix.local_nrow as int,
            )
    }

    /// The neighbours and what they send are fixed.
    pub open spec fn counted(&self) -> bool {
        &&& self.matrix.cols_below(self.matrix.local_nrow + self.matrix.num_external)
        &&& self.matrix.neighbors@.len() == self.matrix.recv_length@.len()
        &&& sum_to(self.matrix.recv_length@, self.matrix.recv_length@.len())
            == self.matrix.num_external
        &&& self.new_external@.len() == self.matrix.num_external
        &&& forall|k: int|
            0 <= k < self.new_external@.len() ==> #[trigger] self.new_external@[k] <= i32::MAX
    }

    /// The state is one that the setup itself has produced.
    pub open spec fn wf(&self) -> bool {
        &&& self.rank < self.size
        &&& self.matrix.csr_wf()
        &&& self.matrix.total_nrow <= i32::MAX
        &&& self.matrix.stop_row < self.matrix.total_nrow
        &&& match self.phase {
            SetupPhase::Fresh => self.matrix.cols_global() && self.matrix.external_index@.len()
                == 0,
            SetupPhase::Offsets => {
                &&& self.listed()
                &&& positions_of(self.externals@, self.matrix.external_index@)
                &&& marks_resolved(
                    self.matrix.list_of_inds@,
                    self.matrix.external_index@,
                    self.matrix.local_nrow as int,
                )
            },
            SetupPhase::Codes => self.listed() && self.sorted(),
            SetupPhase::Senders => {
                &&& self.listed()
                &&& self.sorted()
                &&& self.recv_list@ == run_heads(
                    self.new_external_processor@,
                    self.new_external_processor@.len(),
                )
            },
            SetupPhase::Lengths => self.listed() && self.counted(),
            SetupPhase::Requests => {
                &&& self.listed()
                &&& self.counted()
                &&& self.matrix.send_length@.len() == self.matrix.neighbors@.len()
                &&& sum_to(self.matrix.send_length@, self.matrix.send_length@.len())
                    == self.matrix.total_to_be_sent
            },
            SetupPhase::Complete => self.matrix.halo_wf(),
        }
    }

    /// Whether the setup goes on when `event` arrives.
    pub open spec fn accepts(&self, event: SetupEvent) -> bool {
        match (self.phase, event) {
            (SetupPhase::Fresh, SetupEvent::Start) => externals_of(self.matrix).len()
                <= external_limit(self.matrix.local_nrow as int),
            (SetupPhase::Offsets, SetupEvent::Reduced(offsets)) => {
                &&& offsets@.len() == self.size
                &&& all_have_owners(self.matrix.external_index@, offsets@)
                &&& self.size * self.matrix.num_external + 1 <= usize::MAX
            },
            (SetupPhase::Codes, SetupEvent::Reduced(sums)) => {
                &&& sums@.len() == self.size
                &&& sums@[self.rank as int] % self.size <= MAX_NUM_MESSAGES
                &&& sums@[self.rank as int] / self.size <= MAX_EXTERNAL
            },
            (SetupPhase::Senders, SetupEvent::Senders(senders)) => {
                &&& senders@.len() == self.num_send_neighbors
                &&& merged(self.recv_list@, senders@, senders@.len()).len() <= MAX_NUM_MESSAGES
            },
            (SetupPhase::Lengths, SetupEvent::Lengths(lengths)) => lengths_fit(
                lengths@,
                self.matrix.neighbors@.len(),
                self.total_to_be_sent as int,
            ),
            (SetupPhase::Requests, SetupEvent::Requests(received)) => requests_fit(
                received@,
                self.matrix.send_length@,
                self.matrix.start_row as int,
                self.matrix.stop_row as int,
            ),
            _ => false,
        }
    }

    /// The error with which the setup stops when it does not accept `event`.
    pub open spec fn refusal(&self, event: SetupEvent) -> SetupError {
        match (self.phase, event) {
            (SetupPhase::Fresh, SetupEvent::Start) => SetupError::TooManyExternals,
            (SetupPhase::Offsets, SetupEvent::Reduced(offsets)) => {
                if offsets@.len() != self.size {
                    SetupError::Mismatch
                } else if !all_have_owners(self.matrix.external_index@, offsets@) {
                    SetupError::NoOwner
                } else {
                    SetupError::TooManyExternals
                }
            },
            (SetupPhase::Codes, SetupEvent::Reduced(sums)) => {
                if sums@.len() != self.size {
                    SetupError::Mismatch
                } else if sums@[self.rank as int] % self.size > MAX_NUM_MESSAGES {
                    SetupError::TooManyMessages
                } else {
                    SetupError::TooManyExternals
                }
            },
            (SetupPhase::Senders, SetupEvent::Senders(senders)) => {
                if senders@.len() != self.num_send_neighbors {
                    SetupError::Mismatch
                } else {
                    SetupError::TooManyMessages
                }
            },
            _ => SetupError::Mismatch,
        }
    }

    /// `next` and `action` are what the setup makes of this state and
    /// `event`.
    pub open spec fn leads_to(&self, event: SetupEvent, next: Self, action: SetupAction) -> bool {
        &&& next.rank == self.rank
        &&& next.size == self.size
        &&& match (self.phase, event) {
            (SetupPhase::Fresh, SetupEvent::Start) => {
                &&& next.phase == SetupPhase::Offsets
                &&& scanned(self.matrix, next.matrix, next.externals@)
                &&& action matches SetupAction::ReduceSum(values)
                &&& values@.len() == self.size
                &&& forall|p: int|
                    0 <= p < self.size ==> #[trigger] values@[p] == if p == self.rank {
                        self.matrix.start_row
                    } else {
                        0
                    }
            },
            (SetupPhase::Offsets, SetupEvent::Reduced(offsets)) => {
                &&& next.phase == SetupPhase::Codes
                &&& exists|owners: Seq<usize>|
                    owners_of(self.matrix.external_index@, offsets@, owners) && #[trigger] sifted(
                        self.matrix,
                        next.matrix,
                        self.externals@,
                        owners,
                        next.new_external_processor@,
                    )
                &&& action matches SetupAction::ReduceSum(codes)
                &&& codes_of(next.new_external_processor@, self.size, codes@)
            },
            (SetupPhase::Codes, SetupEvent::Reduced(sums)) => {
                &&& next.phase == SetupPhase::Senders
                &&& next.matrix == self.matrix
                &&& next.new_external_processor@ == self.new_external_processor@
                &&& next.recv_list@ == run_heads(
                    self.new_external_processor@,
                    self.new_external_processor@.len(),
                )
                &&& next.num_send_neighbors == sums@[self.rank as int] % self.size
                &&& next.total_to_be_sent == sums@[self.rank as int] / self.size
                &&& action matches SetupAction::FindSenders { targets, expected }
                &&& targets@ == next.recv_list@
                &&& expected == next.num_send_neighbors
            },
            (SetupPhase::Senders, SetupEvent::Senders(senders)) => {
                &&& next.phase == SetupPhase::Lengths
                &&& next.total_to_be_sent == self.total_to_be_sent
                &&& next.recv_list@ == merged(self.recv_list@, senders@, senders@.len())
                &&& ordered_by_slot(&self.matrix, next.new_external@)
                &&& action matches SetupAction::SwapLengths { neighbors, lengths }
                &&& neighbors@ == next.recv_list@
                &&& neighbors_fixed(
                    self.matrix,
                    next.matrix,
                    next.recv_list@,
                    self.new_external_processor@,
                    lengths@,
                )
            },
            (SetupPhase::Lengths, SetupEvent::Lengths(lengths)) => {
                &&& next.phase == SetupPhase::Requests
                &&& send_lengths_recorded(
                    self.matrix,
                    next.matrix,
                    lengths@,
                    self.total_to_be_sent,
                )
                &&& action matches SetupAction::SwapRequests { neighbors, requests, expected }
                &&& neighbors@ == self.matrix.neighbors@
                &&& requests_listed(self.matrix.recv_length@, self.new_external@, requests@)
                &&& expected@ == next.matrix.send_length@
            },
            (SetupPhase::Requests, SetupEvent::Requests(received)) => {
                &&& next.phase == SetupPhase::Complete
                &&& send_list_built(self.matrix, next.matrix, received@)
                &&& action is Done
            },
            _ => false,
        }
    }

    /// Takes a freshly generated matrix, with global column indices and no
    /// halo information, into the setup.
    pub fn new(matrix: SparseMatrix<T>, rank: usize, size: usize) -> (setup: Self)
        requires
            rank < size,
            matrix.csr_wf(),
            matrix.cols_global(),
            matrix.external_index@.len() == 0,
        ensures
            setup.wf(),
            setup.phase == SetupPhase::Fresh,
            setup.matrix == matrix,
            setup.rank == rank,
            setup.size == size,
    {
        LocalSetup {
            matrix,
            rank,
            size,
            phase: SetupPhase::Fresh,
            externals: HashMap::new(),
            new_external_processor: Vec::new(),
            recv_list: Vec::new(),
            num_send_neighbors: 0,
            total_to_be_sent: 0,
            new_external: Vec::new(),
        }
    }

    /// Hands out the matrix once the setup is complete.
    pub fn into_matrix(self) -> (matrix: Option<SparseMatrix<T>>)
        requires
            self.wf(),
        ensures
            matrix is Some <==> self.phase == SetupPhase::Complete,
            matrix matches Some(m) ==> m == self.matrix && m.halo_wf() && m.csr_wf(),
    {
        match self.phase {
            SetupPhase::Complete => Some(self.matrix),
            _ => None,
        }
    }
}

/// Every position of the local columns' order is the column of some
/// external.
proof fn lemma_slot_holder(owners: Seq<usize>, slots: Seq<i32>, local_nrow: int, k: int) -> (i: int)
    requires
        slots_assigned(owners, slots, local_nrow),
        0 <= k < slots.len(),
    ensures
        0 <= i < slots.len(),
        slots[i] == local_nrow + k,
{
    assert(slot_taken(slots, local_nrow + k));
    choose|i: int| 0 <= i < slots.len() && #[trigger] slots[i] == local_nrow + k
}

/// Begins the setup: scans the columns and asks for the first rows of all
/// processes.
fn begin<T: Scalar>(setup: LocalSetup<T>) -> (res: Result<
    (LocalSetup<T>, SetupAction),
    SetupError,
>)
    requires
        setup.wf(),
        setup.phase == SetupPhase::Fresh,
    ensures
        res is Ok <==> setup.accepts(SetupEvent::Start),
        res matches Ok((next, action)) ==> next.wf() && setup.leads_to(
            SetupEvent::Start,
            next,
            action,
        ),
        res matches Err(e) ==> e == setup.refusal(SetupEvent::Start),
{
    let LocalSetup {
        matrix,
        rank,
        size,
        phase: _,
        externals: _,
        new_external_processor,
        recv_list,
        num_send_neighbors,
        total_to_be_sent,
        new_external,
    } = setup;
    let mut matrix = matrix;
    match scan_and_transform_local(&mut matrix) {
        Err(e) => Err(e),
        Ok((externals, _)) => {
            let mut values: Vec<usize> = Vec::with_capacity(size);
            let mut p: usize = 0;
            while p < size
                invariant
                    p <= size,
                    values@.len() == p,
                    forall|q: int|
                        0 <= q < p ==> #[trigger] values@[q] == if q == rank {
                            matrix.start_row
                        } else {
                            0
                        },
                decreases size - p,
            {
                values.push(if p == rank { matrix.start_row } else { 0 });
                p += 1;
            }
            proof {
                lemma_discovered_sound(
                    setup.matrix.list_of_inds@,
                    setup.matrix.start_row as int,
                    setup.matrix.stop_row as int,
                    setup.matrix.total_nrow as int,
                    setup.matrix.list_of_inds@.len(),
                );
                assert forall|i: int| 0 <= i < matrix.local_nrow implies #[trigger] matrix.row_begin(
                    i,
                ) + matrix.nnz_in_row@[i] == matrix.row_begin(i + 1) by {
                    assert(setup.matrix.row_begin(i) + setup.matrix.nnz_in_row@[i]
                        == setup.matrix.row_begin(i + 1));
                }
            }
            let next = LocalSetup {
                matrix,
                rank,
                size,
                phase: SetupPhase::Offsets,
                externals,
                new_external_processor,
                recv_list,
                num_send_neighbors,
                total_to_be_sent,
                new_external,
            };
            Ok((next, SetupAction::ReduceSum(values)))
        },
    }
}

/// Whether `size * n + 1` fits the machine word.
fn codes_fit(size: usize, n: usize) -> (fit: bool)
    ensures
        fit == (size * n + 1 <= usize::MAX),
{
    if n == 0 {
        assert(size * n == 0) by (nonlinear_arith)
            requires
                n == 0,
        ;
        return true;
    }
    let most = (usize::MAX - 1) / n;
    proof {
        let m = (usize::MAX - 1) as int;
        vstd::arithmetic::div_mod::lemma_fundamental_div_mod(m, n as int);
        vstd::arithmetic::div_mod::lemma_mod_pos_bound(m, n as int);
        let q = m / (n as int);
        if size <= most {
            assert(size * n <= m) by (nonlinear_arith)
                requires
                    0 <= size <= q,
                    0 < n,
                    n * q <= m,
            ;
        } else {
            assert(size * n > m) by (nonlinear_arith)
                requires
                    size >= q + 1,
                    0 < n,
                    m < n * q + n,
            ;
        }
    }
    size <= most
}

/// Takes the first rows of all processes: finds the owners of the
/// externals, assigns the local columns and asks for the summed codes.
fn on_offsets<T: Scalar>(setup: LocalSetup<T>, offsets: Vec<usize>) -> (res: Result<
    (LocalSetup<T>, SetupAction),
    SetupError,
>)
    requires
        setup.wf(),
        setup.phase == SetupPhase::Offsets,
    ensures
        res is Ok <==> setup.accepts(SetupEvent::Reduced(offsets)),
        res matches Ok((next, action)) ==> next.wf() && setup.leads_to(
            SetupEvent::Reduced(offsets),
            next,
            action,
        ),
        res matches Err(e) ==> e == setup.refusal(SetupEvent::Reduced(offsets)),
{
    let LocalSetup {
        matrix,
        rank,
        size,
        phase: _,
        externals,
        new_external_processor: _,
        recv_list,
        num_send_neighbors,
        total_to_be_sent,
        new_external,
    } = setup;
    let mut matrix = matrix;
    if offsets.len() != size {
        return Err(SetupError::Mismatch);
    }
    let owners = match find_accessed_processors(&matrix, offsets.as_slice()) {
        Err(e) => {
            return Err(e);
        },
        Ok(owners) => owners,
    };
    if !codes_fit(size, matrix.num_external) {
        return Err(SetupError::TooManyExternals);
    }
    let ghost owners_seq = owners@;
    let new_external_processor = sift_external_elements(&mut matrix, externals, owners);
    proof {
        let slots = matrix.external_local_index@;
        let local = matrix.local_nrow as int;
        assert forall|k: int|
            0 <= k < new_external_processor@.len() implies #[trigger] new_external_processor@[k]
            < size by {
            let i = lemma_slot_holder(owners_seq, slots, local, k);
            assert(new_external_processor@[slots[i] - local] == owners_seq[i]);
        }
        assert forall|i: int| 0 <= i < matrix.local_nrow implies #[trigger] matrix.row_begin(i)
            + matrix.nnz_in_row@[i] == matrix.row_begin(i + 1) by {
            assert(setup.matrix.row_begin(i) + setup.matrix.nnz_in_row@[i]
                == setup.matrix.row_begin(i + 1));
        }
    }
    let (codes, _) = count_num_neighbors(&matrix, new_external_processor.as_slice(), size);
    let next = LocalSetup {
        matrix,
        rank,
        size,
        phase: SetupPhase::Codes,
        externals: HashMap::new(),
        new_external_processor,
        recv_list,
        num_send_neighbors,
        total_to_be_sent,
        new_external,
    };
    proof {
        assert(sifted(
            setup.matrix,
            next.matrix,
            setup.externals@,
            owners_seq,
            next.new_external_processor@,
        ));
    }
    Ok((next, SetupAction::ReduceSum(codes)))
}

/// Takes the summed codes: reads off how much this process sends and to
/// how many, lists the neighbours it receives from and asks who the
/// senders are.
fn on_codes<T: Scalar>(setup: LocalSetup<T>, sums: Vec<usize>) -> (res: Result<
    (LocalSetup<T>, SetupAction),
    SetupError,
>)
    requires
        setup.wf(),
        setup.phase == SetupPhase::Codes,
    ensures
        res is Ok <==> setup.accepts(SetupEvent::Reduced(sums)),
        res matches Ok((next, action)) ==> next.wf() && setup.leads_to(
            SetupEvent::Reduced(sums),
            next,
            action,
        ),
        res matches Err(e) ==> e == setup.refusal(SetupEvent::Reduced(sums)),
{
    let LocalSetup {
        matrix,
        rank,
        size,
        phase: _,
        externals,
        new_external_processor,
        recv_list: _,
        num_send_neighbors: _,
        total_to_be_sent: _,
        new_external,
    } = setup;
    if sums.len() != size {
        return Err(SetupError::Mismatch);
    }
    let (num_send_neighbors, total_to_be_sent) = match decode_neighbor_counts(sums[rank], size) {
        Err(e) => {
            return Err(e);
        },
        Ok(counts) => counts,
    };
    let recv_list = make_list_of_neighbors(new_external_processor.as_slice());
    let targets = copied(&recv_list);
    let next = LocalSetup {
        matrix,
        rank,
        size,
        phase: SetupPhase::Senders,
        externals,
        new_external_processor,
        recv_list,
        num_send_neighbors,
        total_to_be_sent,
        new_external,
    };
    Ok((next, SetupAction::FindSenders { targets, expected: num_send_neighbors }))
}

/// Takes the ranks of the senders: completes the list of neighbours, fixes
/// what each of them sends and announces it to them.
fn on_senders<T: Scalar>(setup: LocalSetup<T>, senders: Vec<usize>) -> (res: Result<
    (LocalSetup<T>, SetupAction),
    SetupError,
>)
    requires
        setup.wf(),
        setup.phase == SetupPhase::Senders,
    ensures
        res is Ok <==> setup.accepts(SetupEvent::Senders(senders)),
        res matches Ok((next, action)) ==> next.wf() && setup.leads_to(
            SetupEvent::Senders(senders),
            next,
            action,
        ),
        res matches Err(e) ==> e == setup.refusal(SetupEvent::Senders(senders)),
{
    let LocalSetup {
        matrix,
        rank,
        size,
        phase: _,
        externals,
        new_external_processor,
        recv_list,
        num_send_neighbors,
        total_to_be_sent,
        new_external: _,
    } = setup;
    let mut matrix = matrix;
    let mut recv_list = recv_list;
    if senders.len() != num_send_neighbors {
        return Err(SetupError::Mismatch);
    }
    match compare_send_recv_lists(&mut recv_list, senders.as_slice()) {
        Err(e) => {
            return Err(e);
        },
        Ok(_) => {},
    }
    let new_external = create_ordered_new_external(&matrix);
    proof {
        lemma_merged_extends(setup.recv_list@, senders@, senders@.len());
        let owners = choose|owners: Seq<usize>|
            owners.len() == matrix.num_external && #[trigger] slots_assigned(
                owners,
                matrix.external_local_index@,
                matrix.local_nrow as int,
            );
        let slots = matrix.external_local_index@;
        let local = matrix.local_nrow as int;
        assert forall|k: int| 0 <= k < new_external@.len() implies #[trigger] new_external@[k]
            <= i32::MAX by {
            let i = lemma_slot_holder(owners, slots, local, k);
            assert(new_external@[slots[i] - local] == matrix.external_index@[i]);
        }
    }
    let lengths = send_processor_global_index(
        &mut matrix,
        recv_list.as_slice(),
        new_external_processor.as_slice(),
    );
    proof {
        assert forall|i: int| 0 <= i < matrix.local_nrow implies #[trigger] matrix.row_begin(i)
            + matrix.nnz_in_row@[i] == matrix.row_begin(i + 1) by {
            assert(setup.matrix.row_begin(i) + setup.matrix.nnz_in_row@[i]
                == setup.matrix.row_begin(i + 1));
        }
    }
    let neighbors = copied(&recv_list);
    let next = LocalSetup {
        matrix,
        rank,
        size,
        phase: SetupPhase::Lengths,
        externals,
        new_external_processor,
        recv_list,
        num_send_neighbors,
        total_to_be_sent,
        new_external,
    };
    Ok((next, SetupAction::SwapLengths { neighbors, lengths }))
}

/// Takes the lengths that the neighbours announced and asks each of them
/// for the rows that this process needs.
fn on_lengths<T: Scalar>(setup: LocalSetup<T>, lengths: Vec<i32>) -> (res: Result<
    (LocalSetup<T>, SetupAction),
    SetupError,
>)
    requires
        setup.wf(),
        setup.phase == SetupPhase::Lengths,
    ensures
        res is Ok <==> setup.accepts(SetupEvent::Lengths(lengths)),
        res matches Ok((next, action)) ==> next.wf() && setup.leads_to(
            SetupEvent::Lengths(lengths),
            next,
            action,
        ),
        res matches Err(e) ==> e == setup.refusal(SetupEvent::Lengths(lengths)),
{
    let LocalSetup {
        matrix,
        rank,
        size,
        phase: _,
        externals,
        new_external_processor,
        recv_list,
        num_send_neighbors,
        total_to_be_sent,
        new_external,
    } = setup;
    let mut matrix = matrix;
    match record_send_lengths(&mut matrix, lengths.as_slice(), total_to_be_sent) {
        Err(e) => {
            return Err(e);
        },
        Ok(_) => {},
    }
    proof {
        assert forall|i: int| 0 <= i < matrix.local_nrow implies #[trigger] matrix.row_begin(i)
            + matrix.nnz_in_row@[i] == matrix.row_begin(i + 1) by {
            assert(setup.matrix.row_begin(i) + setup.matrix.nnz_in_row@[i]
                == setup.matrix.row_begin(i + 1));
        }
    }
    let requests = external_requests(&matrix, new_external.as_slice());
    let expected = copied(&matrix.send_length);
    let neighbors = copied(&matrix.neighbors);
    let next = LocalSetup {
        matrix,
        rank,
        size,
        phase: SetupPhase::Requests,
        externals,
        new_external_processor,
        recv_list,
        num_send_neighbors,
        total_to_be_sent,
        new_external,
    };
    Ok((next, SetupAction::SwapRequests { neighbors, requests, expected }))
}

/// Takes the rows that the neighbours asked for and completes the setup.
fn on_requests<T: Scalar>(setup: LocalSetup<T>, received: Vec<Vec<i32>>) -> (res: Result<
    (LocalSetup<T>, SetupAction),
    SetupError,
>)
    requires
        setup.wf(),
        setup.phase == SetupPhase::Requests,
    ensures
        res is Ok <==> setup.accepts(SetupEvent::Requests(received)),
        res matches Ok((next, action)) ==> next.wf() && setup.leads_to(
            SetupEvent::Requests(received),
            next,
            action,
        ),
        res matches Err(e) ==> e == setup.refusal(SetupEvent::Requests(received)),
{
    let LocalSetup {
        matrix,
        rank,
        size,
        phase: _,
        externals,
        new_external_processor,
        recv_list,
        num_send_neighbors,
        total_to_be_sent,
        new_external,
    } = setup;
    let mut matrix = matrix;
    match build_elements_to_send_list(&mut matrix, received.as_slice()) {
        Err(e) => {
            return Err(e);
        },
        Ok(_) => {},
    }
    proof {
        assert forall|i: int| 0 <= i < matrix.local_nrow implies #[trigger] matrix.row_begin(i)
            + matrix.nnz_in_row@[i] == matrix.row_begin(i + 1) by {
            assert(setup.matrix.row_begin(i) + setup.matrix.nnz_in_row@[i]
                == setup.matrix.row_begin(i + 1));
        }
    }
    let next = LocalSetup {
        matrix,
        rank,
        size,
        phase: SetupPhase::Complete,
        externals,
        new_external_processor,
        recv_list,
        num_send_neighbors,
        total_to_be_sent,
        new_external,
    };
    Ok((next, SetupAction::Done))
}

/// Takes the setup of the local matrix one step further.
///
/// The setup turns the global column indices of a generated matrix into
/// local ones and works out which values this process exchanges with which
/// neighbours. It needs answers from the other processes five times. Each
/// call takes the answer to what the call before asked for, does what can be
/// done with it, and returns the new state with what to ask next: begin with
/// `SetupEvent::Start`, carry out each action and hand back its outcome,
/// until the action is `SetupAction::Done`.
///
/// An answer of the wrong kind, or one that does not fit what this process
/// knows, ends the setup with an error.
pub fn make_local_matrix<T: Scalar>(setup: LocalSetup<T>, event: SetupEvent) -> (res: Result<
    (LocalSetup<T>, SetupAction),
    SetupError,
>)
    requires
        setup.wf(),
    ensures
        res is Ok <==> setup.accepts(event),
        res matches Ok((next, action)) ==> next.wf() && setup.leads_to(event, next, action),
        res matches Err(e) ==> e == setup.refusal(event),
{
    match setup.phase {
        SetupPhase::Fresh => match event {
            SetupEvent::Start => begin(setup),
            _ => Err(SetupError::Mismatch),
        },
        SetupPhase::Offsets => match event {
            SetupEvent::Reduced(offsets) => on_offsets(setup, offsets),
            _ => Err(SetupError::Mismatch),
        },
        SetupPhase::Codes => match event {
            SetupEvent::Reduced(sums) => on_codes(setup, sums),
            _ => Err(SetupError::Mismatch),
        },
        SetupPhase::Senders => match event {
            SetupEvent::Senders(senders) => on_senders(setup, senders),
            _ => Err(SetupError::Mismatch),
        },
        SetupPhase::Lengths => match event {
            SetupEvent::Lengths(lengths) => on_lengths(setup, lengths),
            _ => Err(SetupError::Mismatch),
        },
        SetupPhase::Requests => match event {
            SetupEvent::Requests(received) => on_requests(setup, received),
            _ => Err(SetupError::Mismatch),
        },
        SetupPhase::Complete => Err(SetupError::Mismatch),
    }
}

} // verus!
