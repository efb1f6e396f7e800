use crate::ddot::{ddot, dot_prefix};
use crate::driver::{iteration_allowed, print_frequency, report_interval, reports_iteration};
use crate::exchange_externals::{
    exchange_externals, joined, pack_externals, packed_into, shapes_fit,
};
use crate::scalar::Scalar;
use crate::sparse_matrix::SparseMatrix;
use crate::sparsemv::{product, sparsemv, sparsemv_parallel};
use crate::waxpby::{scaled_sums, waxpby};
use vstd::prelude::*;

verus! {

/// What the solver does when it is called next.
#[derive(Debug, Clone, Copy, PartialEq, Eq, Structural)]
pub enum CgPhase {
    /// Copy the guess into the search direction.
    Start,
    /// Multiply the matrix with the extended guess.
    InitProduct,
    /// Form the first residual.
    InitResidual,
    /// Form the squared norm of the first residual.
    InitDot,
    /// Take the norm of the first residual.
    InitNorm,
    /// Decide whether to go into another iteration, and begin it.
    Top,
    /// Form the new search direction.
    Direction,
    /// Multiply the matrix with the extended search direction.
    Product,
    /// Form the product of the search direction and its image.
    StepDot,
    /// Step along the search direction.
    Update,
    /// Nothing: the solver has stopped.
    Finished,
}

/// The kernel that a step of the solver ran, for the caller's stopwatch.
#[derive(Debug, Clone, Copy, PartialEq, Eq, Structural)]
pub enum Kernel {
    /// No kernel.
    Idle,
    /// The dot product.
    Ddot,
    /// The scaled vector sum.
    Waxpby,
    /// The matrix-vector product.
    Sparsemv,
}

/// Why the solver stopped short.
#[derive(Debug, Clone, Copy, PartialEq, Eq, Structural)]
pub enum CgError {
    /// The solver was handed something other than what it had asked for.
    WrongEvent,
    /// The messages of the neighbours are not of the lengths agreed on.
    WrongShape,
}

/// What the other processes answered.
pub enum CgEvent<T> {
    /// Nothing was asked for.
    Proceed,
    /// The values that the neighbours sent, in the neighbours' order.
    Halo(Vec<Vec<T>>),
    /// The sum over all processes of the value handed out.
    Reduced(T),
}

/// What the caller has to do before it calls the solver again.
pub enum CgAction<T> {
    /// Nothing.
    Continue,
    /// Send message `n` to neighbour `n` and take one message from each.
    Exchange(Vec<Vec<T>>),
    /// Sum this value over all processes.
    Reduce(T),
    /// Nothing, and do not call again: the solver has stopped.
    Done,
}

/// A residual norm to report.
pub struct Report<T> {
    /// The iteration that the norm belongs to; zero before the first.
    pub iteration: i32,
    /// The norm of the residual.
    pub normr: T,
}

/// What one step of the solver hands back.
pub struct CgStep<T> {
    /// What to do before the next call.
    pub action: CgAction<T>,
    /// The kernel that the step ran.
    pub kernel: Kernel,
    /// The residual norm, where this step is one that reports it.
    pub report: Option<Report<T>>,
}

/// A conjugate-gradient iteration for `A x = b` in progress on one process.
pub struct Solver<T> {
    /// The matrix `A`, set up for halo exchanges.
    pub matrix: SparseMatrix<T>,
    /// The right-hand side.
    pub b: Vec<T>,
    /// The current approximation of the solution.
    pub x: Vec<T>,
    /// The residual.
    pub r: Vec<T>,
    /// The search direction, with or without its external values.
    pub p: Vec<T>,
    /// The image of the search direction under the matrix.
    pub ap: Vec<T>,
    /// The squared norm of the residual.
    pub rtrans: T,
    /// The norm of the residual.
    pub normr: T,
    /// The iteration that is running or about to begin.
    pub k: i32,
    /// The last iteration that was completed.
    pub iteration: i32,
    /// The number that the iterations stay below.
    pub max_iterations: i32,
    /// The residual norm at which the solver stops.
    pub tolerance: T,
    /// What the next call does.
    pub phase: CgPhase,
    /// Whether the rows of the matrix-vector product are shared out among
    /// the threads of the pool.
    pub parallel: bool,
}

/// The report of iteration `k`, if it is one that is reported.
pub open spec fn report_of<T>(k: i32, max_iterations: i32, normr: T) -> Option<Report<T>> {
    if k % (report_interval(max_iterations as int) as i32) == 0 || k + 1 == max_iterations {
        Some(Report { iteration: k, normr })
    } else {
        None
    }
}

impl<T: Scalar> Solver<T> {
    /// The vectors have the lengths that the phase needs.
    pub open spec fn wf(&self) -> bool {
        let nrow = self.matrix.local_nrow as int;
        let ncol = self.matrix.local_ncol as int;
        &&& self.matrix.csr_wf()
        &&& self.matrix.halo_wf()
        &&& self.b@.len() == nrow
        &&& self.x@.len() == nrow
        &&& match self.phase {
            CgPhase::Start => true,
            CgPhase::InitProduct => self.p@.len() == nrow,
            CgPhase::InitResidual => self.p@.len() == ncol && self.ap@.len() == nrow,
            CgPhase::InitDot => self.p@.len() == ncol && self.r@.len() == nrow,
            CgPhase::InitNorm => self.p@.len() == ncol && self.r@.len() == nrow,
            CgPhase::Top => self.p@.len() >= nrow && self.r@.len() == nrow && 1 <= self.k,
            CgPhase::Direction => {
                &&& self.p@.len() >= nrow
                &&& self.r@.len() == nrow
                &&& 1 <= self.k < self.max_iterations
            },
            CgPhase::Product => {
                &&& self.p@.len() == nrow
                &&& self.r@.len() == nrow
                &&& 1 <= self.k < self.max_iterations
            },
            CgPhase::StepDot => {
                &&& self.p@.len() == ncol
                &&& self.ap@.len() == nrow
                &&& self.r@.len() == nrow
                &&& 1 <= self.k < self.max_iterations
            },
            CgPhase::Update => {
                &&& self.p@.len() == ncol
                &&& self.ap@.len() == nrow
                &&& self.r@.len() == nrow
                &&& 1 <= self.k < self.max_iterations
            },
            CgPhase::Finished => true,
        }
    }

    /// Whether the solver has asked for `event`.
    pub open spec fn expects(&self, event: CgEvent<T>) -> bool {
        match self.phase {
            CgPhase::Start | CgPhase::InitResidual | CgPhase::InitDot | CgPhase::Top
            | CgPhase::StepDot => event is Proceed,
            CgPhase::InitProduct | CgPhase::Product => event is Halo,
            CgPhase::InitNorm | CgPhase::Direction | CgPhase::Update => event is Reduced,
            CgPhase::Finished => false,
        }
    }

    /// Whether the solver goes on when `event` arrives.
    pub open spec fn accepts(&self, event: CgEvent<T>) -> bool {
        &&& self.expects(event)
        &&& event matches CgEvent::Halo(received) ==> shapes_fit(
            received@,
            self.matrix.recv_length@,
        )
    }

    /// Whether the iteration that is about to begin is not begun: the
    /// iterations are used up, or the residual is small enough.
    pub open spec fn stops(&self) -> bool {
        !(1 <= self.k < self.max_iterations) || self.normr.leq(self.tolerance)
    }

    /// `next` and `step` send out the search direction `p` of iteration `k`
    /// with the squared residual norm `rtrans`.
    pub open spec fn sends_direction(
        &self,
        p: Seq<T>,
        rtrans: T,
        next: Self,
        step: CgStep<T>,
    ) -> bool {
        &&& next == (Solver {
            matrix: next.matrix,
            p: next.p,
            rtrans,
            normr: rtrans.root(),
            phase: CgPhase::Product,
            ..*self
        })
        &&& next.p@ == p
        &&& step.kernel == Kernel::Waxpby
        &&& step.report == report_of(self.k, self.max_iterations, rtrans.root())
        &&& step.action matches CgAction::Exchange(messages)
        &&& packed_into(self.matrix, next.matrix, p, messages@)
    }

    /// `next` is this state with the search direction extended by what the
    /// neighbours sent and multiplied with the matrix.
    pub open spec fn multiplies(
        &self,
        received: Seq<Vec<T>>,
        phase: CgPhase,
        next: Self,
        step: CgStep<T>,
    ) -> bool {
        &&& next == (Solver { p: next.p, ap: next.ap, phase, ..*self })
        &&& next.p@ == self.p@ + joined(received, received.len())
        &&& next.ap@ == product(&self.matrix, next.p@)
        &&& step.kernel == Kernel::Sparsemv
        &&& step.report is None
        &&& step.action is Continue
    }

    /// `next` and `step` are what the solver makes of this state and
    /// `event`.
    pub open spec fn leads_to(&self, event: CgEvent<T>, next: Self, step: CgStep<T>) -> bool {
        let nrow = self.matrix.local_nrow as nat;
        let one = T::of_int(1);
        let zero = T::of_int(0);
        match (self.phase, event) {
            (CgPhase::Start, CgEvent::Proceed) => {
                &&& next == (Solver {
                    matrix: next.matrix,
                    p: next.p,
                    phase: CgPhase::InitProduct,
                    ..*self
                })
                &&& next.p@ == scaled_sums(nrow, one, self.x@, zero, self.b@)
                &&& step.kernel == Kernel::Waxpby
                &&& step.report is None
                &&& step.action matches CgAction::Exchange(messages)
                &&& packed_into(self.matrix, next.matrix, next.p@, messages@)
            },
            (CgPhase::InitProduct, CgEvent::Halo(received)) => self.multiplies(
                received@,
                CgPhase::InitResidual,
                next,
                step,
            ),
            (CgPhase::InitResidual, CgEvent::Proceed) => {
                &&& next == (Solver { r: next.r, phase: CgPhase::InitDot, ..*self })
                &&& next.r@ == scaled_sums(nrow, one, self.b@, T::of_int(-1i32), self.ap@)
                &&& step.kernel == Kernel::Waxpby
                &&& step.report is None
                &&& step.action is Continue
            },
            (CgPhase::InitDot, CgEvent::Proceed) => {
                &&& next == (Solver { phase: CgPhase::InitNorm, ..*self })
                &&& step.kernel == Kernel::Ddot
                &&& step.report is None
                &&& step.action == CgAction::Reduce(dot_prefix(self.r@, self.r@, nrow))
            },
            (CgPhase::InitNorm, CgEvent::Reduced(sum)) => {
                &&& next == (Solver {
                    rtrans: sum,
                    normr: sum.root(),
                    k: 1,
                    phase: CgPhase::Top,
                    ..*self
                })
                &&& step.kernel == Kernel::Idle
                &&& step.report == Some(Report { iteration: 0, normr: sum.root() })
                &&& step.action is Continue
            },
            (CgPhase::Top, CgEvent::Proceed) => {
                if self.stops() {
                    &&& next == (Solver { phase: CgPhase::Finished, ..*self })
                    &&& step.kernel == Kernel::Idle
                    &&& step.report is None
                    &&& step.action is Done
                } else if self.k == 1 {
                    self.sends_direction(
                        scaled_sums(nrow, one, self.r@, zero, self.r@),
                        self.rtrans,
                        next,
                        step,
                    )
                } else {
                    &&& next == (Solver { phase: CgPhase::Direction, ..*self })
                    &&& step.kernel == Kernel::Ddot
                    &&& step.report is None
                    &&& step.action == CgAction::Reduce(dot_prefix(self.r@, self.r@, nrow))
                }
            },
            (CgPhase::Direction, CgEvent::Reduced(sum)) => self.sends_direction(
                scaled_sums(nrow, one, self.r@, sum.quotient(self.rtrans), self.p@),
                sum,
                next,
                step,
            ),
            (CgPhase::Product, CgEvent::Halo(received)) => self.multiplies(
                received@,
                CgPhase::StepDot,
                next,
                step,
            ),
            (CgPhase::StepDot, CgEvent::Proceed) => {
                &&& next == (Solver { phase: CgPhase::Update, ..*self })
                &&& step.kernel == Kernel::Ddot
                &&& step.report is None
                &&& step.action == CgAction::Reduce(dot_prefix(self.p@, self.ap@, nrow))
            },
            (CgPhase::Update, CgEvent::Reduced(sum)) => {
                let alpha = self.rtrans.quotient(sum);
                &&& next == (Solver {
                    x: next.x,
                    r: next.r,
                    iteration: self.k,
                    k: (self.k + 1) as i32,
                    phase: CgPhase::Top,
                    ..*self
                })
                &&& next.x@ == scaled_sums(nrow, one, self.x@, alpha, self.p@)
                &&& next.r@ == scaled_sums(nrow, one, self.r@, alpha.negation(), self.ap@)
                &&& step.kernel == Kernel::Waxpby
                &&& step.report is None
                &&& step.action is Continue
            },
            _ => false,
        }
    }

    /// Prepares the solution of `A x = b` from the guess `x`, in iterations
    /// numbered from one that stay below `max_iterations`, until the norm of
    /// the residual is at most `tolerance`.
    pub fn new(
        matrix: SparseMatrix<T>,
        b: Vec<T>,
        x: Vec<T>,
        max_iterations: i32,
        tolerance: T,
    ) -> (solver: Self)
        requires
            matrix.csr_wf(),
            matrix.halo_wf(),
            b@.len() == matrix.local_nrow,
            x@.len() == matrix.local_nrow,
        ensures
            solver.wf(),
            solver.phase == CgPhase::Start,
            solver.matrix == matrix,
            solver.b == b,
            solver.x == x,
            solver.max_iterations == max_iterations,
            solver.tolerance == tolerance,
            solver.iteration == 0,
            !solver.parallel,
    {
        Solver {
            matrix,
            b,
            x,
            r: Vec::new(),
            p: Vec::new(),
            ap: Vec::new(),
            rtrans: T::from_i32(0),
            normr: T::from_i32(0),
            k: 0,
            iteration: 0,
            max_iterations,
            tolerance,
            phase: CgPhase::Start,
            parallel: false,
        }
    }

    /// Has the matrix-vector products share out their rows among the threads
    /// of the pool. The results are the same.
    pub fn in_parallel(self) -> (solver: Self)
        ensures
            solver == (Solver { parallel: true, ..self }),
    {
        let Solver {
            matrix,
            b,
            x,
            r,
            p,
            ap,
            rtrans,
            normr,
            k,
            iteration,
            max_iterations,
            tolerance,
            phase,
            parallel: _,
        } = self;
        Solver {
            matrix,
            b,
            x,
            r,
            p,
            ap,
            rtrans,
            normr,
            k,
            iteration,
            max_iterations,
            tolerance,
            phase,
            parallel: true,
        }
    }
}

/// Takes the norm of the residual, packs the new search direction `p` for
/// the neighbours and asks for the exchange.
fn send_direction<T: Scalar + Send + Sync>(state: Solver<T>, p: Vec<T>, rtrans: T) -> (out: (
    Solver<T>,
    CgStep<T>,
))
    requires
        state.matrix.csr_wf(),
        state.matrix.halo_wf(),
        state.b@.len() == state.matrix.local_nrow,
        state.x@.len() == state.matrix.local_nrow,
        state.r@.len() == state.matrix.local_nrow,
        p@.len() == state.matrix.local_nrow,
        1 <= state.k < state.max_iterations,
    ensures
        out.0.wf(),
        state.sends_direction(p@, rtrans, out.0, out.1),
{
    let Solver {
        matrix,
        b,
        x,
        r,
        p: _,
        ap,
        rtrans: _,
        normr: _,
        k,
        iteration,
        max_iterations,
        tolerance,
        phase: _,
        parallel,
    } = state;
    let mut matrix = matrix;
    let normr = rtrans.square_root();
    let report = if reports_iteration(k, print_frequency(max_iterations), max_iterations) {
        Some(Report { iteration: k, normr })
    } else {
        None
    };
    let messages = pack_externals(&mut matrix, p.as_slice());
    proof {
        assert forall|i: int| 0 <= i < matrix.local_nrow implies #[trigger] matrix.row_begin(i)
            + matrix.nnz_in_row@[i] == matrix.row_begin(i + 1) by {
            assert(state.matrix.row_begin(i) + state.matrix.nnz_in_row@[i]
                == state.matrix.row_begin(i + 1));
        }
    }
    let next = Solver {
        matrix,
        b,
        x,
        r,
        p,
        ap,
        rtrans,
        normr,
        k,
        iteration,
        max_iterations,
        tolerance,
        phase: CgPhase::Product,
        parallel,
    };
    (next, CgStep { action: CgAction::Exchange(messages), kernel: Kernel::Waxpby, report })
}

/// Extends the search direction by what the neighbours sent and multiplies
/// it with the matrix.
fn multiply<T: Scalar + Send + Sync>(
    state: Solver<T>,
    received: Vec<Vec<T>>,
    phase: CgPhase,
) -> (res: Result<(Solver<T>, CgStep<T>), CgError>)
    requires
        state.matrix.csr_wf(),
        state.matrix.halo_wf(),
        state.p@.len() == state.matrix.local_nrow,
    ensures
        res is Ok <==> shapes_fit(received@, state.matrix.recv_length@),
        res matches Ok((next, step)) ==> state.multiplies(received@, phase, next, step)
            && next.p@.len() == state.matrix.local_ncol && next.ap@.len()
            == state.matrix.local_nrow,
        res matches Err(e) ==> e == CgError::WrongShape,
{
    let Solver {
        matrix,
        b,
        x,
        r,
        p,
        ap: _,
        rtrans,
        normr,
        k,
        iteration,
        max_iterations,
        tolerance,
        phase: _,
        parallel,
    } = state;
    let mut p = p;
    match exchange_externals(&matrix, &mut p, received.as_slice()) {
        Err(_) => {
            return Err(CgError::WrongShape);
        },
        Ok(_) => {},
    }
    let ap = if parallel {
        sparsemv_parallel(&matrix, p.as_slice())
    } else {
        sparsemv(&matrix, p.as_slice())
    };
    let next = Solver {
        matrix,
        b,
        x,
        r,
        p,
        ap,
        rtrans,
        normr,
        k,
        iteration,
        max_iterations,
        tolerance,
        phase,
        parallel,
    };
    Ok((next, CgStep { action: CgAction::Continue, kernel: Kernel::Sparsemv, report: None }))
}

/// Copies the guess into the search direction and sends it out.
fn start<T: Scalar + Send + Sync>(state: Solver<T>) -> (out: (Solver<T>, CgStep<T>))
    requires
        state.wf(),
        state.phase == CgPhase::Start,
    ensures
        out.0.wf(),
        state.leads_to(CgEvent::Proceed, out.0, out.1),
{
    let Solver {
        matrix,
        b,
        x,
        r,
        p: _,
        ap,
        rtrans,
        normr,
        k,
        iteration,
        max_iterations,
        tolerance,
        phase: _,
        parallel,
    } = state;
    let mut matrix = matrix;
    let p = waxpby(x.len(), T::from_i32(1), x.as_slice(), T::from_i32(0), b.as_slice());
    let messages = pack_externals(&mut matrix, p.as_slice());
    proof {
        assert forall|i: int| 0 <= i < matrix.local_nrow implies #[trigger] matrix.row_begin(i)
            + matrix.nnz_in_row@[i] == matrix.row_begin(i + 1) by {
            assert(state.matrix.row_begin(i) + state.matrix.nnz_in_row@[i]
                == state.matrix.row_begin(i + 1));
        }
    }
    let next = Solver {
        matrix,
        b,
        x,
        r,
        p,
        ap,
        rtrans,
        normr,
        k,
        iteration,
        max_iterations,
        tolerance,
        phase: CgPhase::InitProduct,
        parallel,
    };
    (next, CgStep { action: CgAction::Exchange(messages), kernel: Kernel::Waxpby, report: None })
}

/// Forms the first residual, `b - A x`.
fn first_residual<T: Scalar + Send + Sync>(state: Solver<T>) -> (out: (Solver<T>, CgStep<T>))
    requires
        state.wf(),
        state.phase == CgPhase::InitResidual,
    ensures
        out.0.wf(),
        state.leads_to(CgEvent::Proceed, out.0, out.1),
{
    let Solver {
        matrix,
        b,
        x,
        r: _,
        p,
        ap,
        rtrans,
        normr,
        k,
        iteration,
        max_iterations,
        tolerance,
        phase: _,
        parallel,
    } = state;
    let r = waxpby(x.len(), T::from_i32(1), b.as_slice(), T::from_i32(-1), ap.as_slice());
    let next = Solver {
        matrix,
        b,
        x,
        r,
        p,
        ap,
        rtrans,
        normr,
        k,
        iteration,
        max_iterations,
        tolerance,
        phase: CgPhase::InitDot,
        parallel,
    };
    (next, CgStep { action: CgAction::Continue, kernel: Kernel::Waxpby, report: None })
}

/// Forms this process's share of the squared norm of the residual and asks
/// for the sum over all processes; the solver goes on in `phase`.
fn residual_dot<T: Scalar + Send + Sync>(state: Solver<T>, phase: CgPhase) -> (out: (
    Solver<T>,
    CgStep<T>,
))
    requires
        state.r@.len() == state.matrix.local_nrow,
    ensures
        out.0 == (Solver { phase, ..state }),
        out.1.kernel == Kernel::Ddot,
        out.1.report is None,
        out.1.action == CgAction::Reduce(
            dot_prefix(state.r@, state.r@, state.matrix.local_nrow as nat),
        ),
{
    let local = ddot(state.r.len(), state.r.as_slice(), state.r.as_slice());
    let Solver {
        matrix,
        b,
        x,
        r,
        p,
        ap,
        rtrans,
        normr,
        k,
        iteration,
        max_iterations,
        tolerance,
        phase: _,
        parallel,
    } = state;
    let next = Solver {
        matrix,
        b,
        x,
        r,
        p,
        ap,
        rtrans,
        normr,
        k,
        iteration,
        max_iterations,
        tolerance,
        phase,
        parallel,
    };
    (next, CgStep { action: CgAction::Reduce(local), kernel: Kernel::Ddot, report: None })
}

/// Takes the squared norm of the first residual.
fn first_norm<T: Scalar + Send + Sync>(state: Solver<T>, sum: T) -> (out: (Solver<T>, CgStep<T>))
    requires
        state.wf(),
        state.phase == CgPhase::InitNorm,
    ensures
        out.0.wf(),
        state.leads_to(CgEvent::Reduced(sum), out.0, out.1),
{
    let Solver {
        matrix,
        b,
        x,
        r,
        p,
        ap,
        rtrans: _,
        normr: _,
        k: _,
        iteration,
        max_iterations,
        tolerance,
        phase: _,
        parallel,
    } = state;
    let normr = sum.square_root();
    let next = Solver {
        matrix,
        b,
        x,
        r,
        p,
        ap,
        rtrans: sum,
        normr,
        k: 1,
        iteration,
        max_iterations,
        tolerance,
        phase: CgPhase::Top,
        parallel,
    };
    (
        next,
        CgStep {
            action: CgAction::Continue,
            kernel: Kernel::Idle,
            report: Some(Report { iteration: 0, normr }),
        },
    )
}

/// Decides whether another iteration begins, and begins it.
fn top<T: Scalar + Send + Sync>(state: Solver<T>) -> (out: (Solver<T>, CgStep<T>))
    requires
        state.wf(),
        state.phase == CgPhase::Top,
    ensures
        out.0.wf(),
        state.leads_to(CgEvent::Proceed, out.0, out.1),
{
    if !iteration_allowed(state.k, state.max_iterations) || state.normr.at_most(state.tolerance) {
        let Solver {
            matrix,
            b,
            x,
            r,
            p,
            ap,
            rtrans,
            normr,
            k,
            iteration,
            max_iterations,
            tolerance,
            phase: _,
            parallel,
        } = state;
        let next = Solver {
            matrix,
            b,
            x,
            r,
            p,
            ap,
            rtrans,
            normr,
            k,
            iteration,
            max_iterations,
            tolerance,
            phase: CgPhase::Finished,
            parallel,
        };
        (next, CgStep { action: CgAction::Done, kernel: Kernel::Idle, report: None })
    } else if state.k == 1 {
        let p = waxpby(
            state.matrix.local_nrow,
            T::from_i32(1),
            state.r.as_slice(),
            T::from_i32(0),
            state.r.as_slice(),
        );
        let rtrans = state.rtrans;
        send_direction(state, p, rtrans)
    } else {
        residual_dot(state, CgPhase::Direction)
    }
}

/// Takes the squared norm of the residual and forms the new search
/// direction, `r + beta p`.
fn direction<T: Scalar + Send + Sync>(state: Solver<T>, sum: T) -> (out: (Solver<T>, CgStep<T>))
    requires
        state.wf(),
        state.phase == CgPhase::Direction,
    ensures
        out.0.wf(),
        state.leads_to(CgEvent::Reduced(sum), out.0, out.1),
{
    let oldrtrans = state.rtrans;
    let beta = sum.divided_by(oldrtrans);
    let p = waxpby(
        state.matrix.local_nrow,
        T::from_i32(1),
        state.r.as_slice(),
        beta,
        state.p.as_slice(),
    );
    send_direction(state, p, sum)
}

/// Forms this process's share of the product of the search direction and
/// its image and asks for the sum over all processes.
fn step_dot<T: Scalar + Send + Sync>(state: Solver<T>) -> (out: (Solver<T>, CgStep<T>))
    requires
        state.wf(),
        state.phase == CgPhase::StepDot,
    ensures
        out.0.wf(),
        state.leads_to(CgEvent::Proceed, out.0, out.1),
{
    let local = ddot(state.r.len(), state.p.as_slice(), state.ap.as_slice());
    let Solver {
        matrix,
        b,
        x,
        r,
        p,
        ap,
        rtrans,
        normr,
        k,
        iteration,
        max_iterations,
        tolerance,
        phase: _,
        parallel,
    } = state;
    let next = Solver {
        matrix,
        b,
        x,
        r,
        p,
        ap,
        rtrans,
        normr,
        k,
        iteration,
        max_iterations,
        tolerance,
        phase: CgPhase::Update,
        parallel,
    };
    (next, CgStep { action: CgAction::Reduce(local), kernel: Kernel::Ddot, report: None })
}

/// Steps along the search direction: `x + alpha p` and `r - alpha A p`.
fn update<T: Scalar + Send + Sync>(state: Solver<T>, sum: T) -> (out: (Solver<T>, CgStep<T>))
    requires
        state.wf(),
        state.phase == CgPhase::Update,
    ensures
        out.0.wf(),
        state.leads_to(CgEvent::Reduced(sum), out.0, out.1),
{
    let Solver {
        matrix,
        b,
        x,
        r,
        p,
        ap,
        rtrans,
        normr,
        k,
        iteration: _,
        max_iterations,
        tolerance,
        phase: _,
        parallel,
    } = state;
    let nrow = matrix.local_nrow;
    let alpha = rtrans.divided_by(sum);
    let x = waxpby(nrow, T::from_i32(1), x.as_slice(), alpha, p.as_slice());
    let r = waxpby(nrow, T::from_i32(1), r.as_slice(), alpha.negated(), ap.as_slice());
    let next = Solver {
        matrix,
        b,
        x,
        r,
        p,
        ap,
        rtrans,
        normr,
        k: k + 1,
        iteration: k,
        max_iterations,
        tolerance,
        phase: CgPhase::Top,
        parallel,
    };
    (next, CgStep { action: CgAction::Continue, kernel: Kernel::Waxpby, report: None })
}

/// Takes the conjugate-gradient iteration one step further.
///
/// The iteration needs the other processes twice in its preparation and
/// three times in every iteration: for the external values of the search
/// direction, and for the sums of the dot products. Each call takes the
/// answer to what the call before asked for, runs one kernel, and returns
/// the new state with what to ask next: begin with `CgEvent::Proceed`, carry
/// out each action and hand back its outcome, until the action is
/// `CgAction::Done`. The result is then in `x`, the number of iterations in
/// `iteration` and the norm of the residual in `normr`.
///
/// An iteration begins while its number is below `max_iterations` and the
/// norm of the residual is above `tolerance`. Not to converge is no error.
pub fn solver<T: Scalar + Send + Sync>(state: Solver<T>, event: CgEvent<T>) -> (res: Result<
    (Solver<T>, CgStep<T>),
    CgError,
>)
    requires
        state.wf(),
    ensures
        res is Ok <==> state.accepts(event),
        res matches Ok((next, step)) ==> next.wf() && state.leads_to(event, next, step),
        res matches Err(e) ==> e == (if state.expects(event) {
            CgError::WrongShape
        } else {
            CgError::WrongEvent
        }),
{
    match state.phase {
        CgPhase::Start => match event {
            CgEvent::Proceed => Ok(start(state)),
            _ => Err(CgError::WrongEvent),
        },
        CgPhase::InitProduct => match event {
            CgEvent::Halo(received) => multiply(state, received, CgPhase::InitResidual),
            _ => Err(CgError::WrongEvent),
        },
        CgPhase::InitResidual => match event {
            CgEvent::Proceed => Ok(first_residual(state)),
            _ => Err(CgError::WrongEvent),
        },
        CgPhase::InitDot => match event {
            CgEvent::Proceed => Ok(residual_dot(state, CgPhase::InitNorm)),
            _ => Err(CgError::WrongEvent),
        },
        CgPhase::InitNorm => match event {
            CgEvent::Reduced(sum) => Ok(first_norm(state, sum)),
            _ => Err(CgError::WrongEvent),
        },
        CgPhase::Top => match event {
            CgEvent::Proceed => Ok(top(state)),
            _ => Err(CgError::WrongEvent),
        },
        CgPhase::Direction => match event {
            CgEvent::Reduced(sum) => Ok(direction(state, sum)),
            _ => Err(CgError::WrongEvent),
        },
        CgPhase::Product => match event {
            CgEvent::Halo(received) => multiply(state, received, CgPhase::StepDot),
            _ => Err(CgError::WrongEvent),
        },
        CgPhase::StepDot => match event {
            CgEvent::Proceed => Ok(step_dot(state)),
            _ => Err(CgError::WrongEvent),
        },
        CgPhase::Update => match event {
            CgEvent::Reduced(sum) => Ok(update(state, sum)),
            _ => Err(CgError::WrongEvent),
        },
        CgPhase::Finished => Err(CgError::WrongEvent),
    }
}

/// A step of the solver is determined by the state and the answer it is
/// handed: two runs that begin alike and are answered alike have the same
/// vectors and, bit for bit, the same residual norm after every step.
pub proof fn lemma_steps_are_determined<T: Scalar>(
    state: Solver<T>,
    event: CgEvent<T>,
    first: Solver<T>,
    first_step: CgStep<T>,
    second: Solver<T>,
    second_step: CgStep<T>,
)
    requires
        state.leads_to(event, first, first_step),
        state.leads_to(event, second, second_step),
    ensures
        first.phase == second.phase,
        first.k == second.k,
        first.iteration == second.iteration,
        first.rtrans == second.rtrans,
        first.normr == second.normr,
        first.x@ == second.x@,
        first.r@ == second.r@,
        first.p@ == second.p@,
        first.ap@ == second.ap@,
        first.matrix.send_buffer@ == second.matrix.send_buffer@,
        first_step.kernel == second_step.kernel,
        first_step.report == second_step.report,
        first_step.action is Continue <==> second_step.action is Continue,
        first_step.action is Done <==> second_step.action is Done,
        first_step.action is Exchange <==> second_step.action is Exchange,
        first_step.action matches CgAction::Reduce(a) ==> second_step.action == CgAction::Reduce(
            a,
        ),
{
}

} // verus!
