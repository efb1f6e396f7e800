use hpccg::compute_residual::compute_residual;
use hpccg::driver::{flop_counts, iteration_allowed, print_frequency, reports_iteration, FlopCounts};
use hpccg::local_setup::{make_local_matrix, LocalSetup, SetupAction, SetupEvent};
use hpccg::scalar::Scalar;
use hpccg::solver::{solver, CgAction, CgError, CgEvent, CgPhase, Kernel, Solver};
use hpccg::sparse_matrix::SparseMatrix;
use hpccg::sparsemv::{sparsemv, sparsemv_parallel};

/// Double-precision numbers as the element type of the solver.
#[derive(Clone, Copy, Debug, PartialEq)]
struct Real(f64);

impl Scalar for Real {
    fn of_int(v: i32) -> Real {
        Real(v as f64)
    }

    fn plus(self, rhs: Real) -> Real {
        Real(self.0 + rhs.0)
    }

    fn times(self, rhs: Real) -> Real {
        Real(self.0 * rhs.0)
    }

    fn is_unit(self) -> bool {
        self.0 == 1.0
    }

    fn negation(self) -> Real {
        Real(-self.0)
    }

    fn quotient(self, rhs: Real) -> Real {
        Real(self.0 / rhs.0)
    }

    fn root(self) -> Real {
        Real(self.0.sqrt())
    }

    fn leq(self, rhs: Real) -> bool {
        self.0 <= rhs.0
    }

    fn gap(self, rhs: Real) -> Real {
        Real((self.0 - rhs.0).abs())
    }

    fn from_i32(v: i32) -> Real {
        Real(v as f64)
    }

    fn sum(self, rhs: Real) -> Real {
        Real(self.0 + rhs.0)
    }

    fn product(self, rhs: Real) -> Real {
        Real(self.0 * rhs.0)
    }

    fn is_one(self) -> bool {
        self.0 == 1.0
    }

    fn negated(self) -> Real {
        Real(-self.0)
    }

    fn divided_by(self, rhs: Real) -> Real {
        Real(self.0 / rhs.0)
    }

    fn square_root(self) -> Real {
        Real(self.0.sqrt())
    }

    fn at_most(self, rhs: Real) -> bool {
        self.0 <= rhs.0
    }

    fn distance(self, rhs: Real) -> Real {
        Real((self.0 - rhs.0).abs())
    }
}

/// Runs the solver on one process. Returns the result, the number of
/// iterations, the last residual norm and every norm that was reported.
fn solve(
    matrix: SparseMatrix<Real>,
    b: &[Real],
    x: &[Real],
    max_iterations: i32,
    tolerance: f64,
) -> (Vec<Real>, i32, f64, Vec<(i32, u64)>) {
    let mut state = Solver::new(matrix, b.to_vec(), x.to_vec(), max_iterations, Real(tolerance));
    let mut event = CgEvent::Proceed;
    let mut reports = Vec::new();
    loop {
        let (next, step) = solver(state, event).unwrap();
        state = next;
        if let Some(report) = step.report {
            reports.push((report.iteration, report.normr.0.to_bits()));
        }
        event = match step.action {
            CgAction::Continue => CgEvent::Proceed,
            CgAction::Exchange(messages) => {
                assert!(messages.is_empty());
                CgEvent::Halo(Vec::new())
            }
            CgAction::Reduce(local) => CgEvent::Reduced(local),
            CgAction::Done => break,
        };
    }
    assert_eq!(state.phase, CgPhase::Finished);
    (state.x, state.iteration, state.normr.0, reports)
}

/// Sets up the matrices of all processes of a world.
fn set_up(matrices: Vec<SparseMatrix<Real>>) -> Vec<SparseMatrix<Real>> {
    let size = matrices.len();
    let mut setups: Vec<LocalSetup<Real>> = matrices
        .into_iter()
        .enumerate()
        .map(|(rank, matrix)| LocalSetup::new(matrix, rank, size))
        .collect();
    let mut events: Vec<SetupEvent> = (0..size).map(|_| SetupEvent::Start).collect();
    loop {
        let mut actions = Vec::new();
        let mut next = Vec::new();
        for (setup, event) in setups.into_iter().zip(events) {
            let (setup, action) = make_local_matrix(setup, event).unwrap();
            next.push(setup);
            actions.push(action);
        }
        setups = next;
        if actions.iter().all(|action| matches!(action, SetupAction::Done)) {
            break;
        }
        events = (0..size)
            .map(|me| match &actions[me] {
                SetupAction::ReduceSum(mine) => {
                    let mut sums = vec![0usize; mine.len()];
                    for action in &actions {
                        if let SetupAction::ReduceSum(values) = action {
                            for (sum, value) in sums.iter_mut().zip(values) {
                                *sum += value;
                            }
                        }
                    }
                    SetupEvent::Reduced(sums)
                }
                SetupAction::FindSenders { .. } => SetupEvent::Senders(
                    (0..size)
                        .filter(|&other| match &actions[other] {
                            SetupAction::FindSenders { targets, .. } => targets.contains(&me),
                            _ => false,
                        })
                        .collect(),
                ),
                SetupAction::SwapLengths { neighbors, .. } => SetupEvent::Lengths(
                    neighbors
                        .iter()
                        .map(|&other| match &actions[other] {
                            SetupAction::SwapLengths { neighbors: theirs, lengths } => {
                                lengths[theirs.iter().position(|&p| p == me).unwrap()]
                            }
                            _ => panic!("the processes are out of step"),
                        })
                        .collect(),
                ),
                SetupAction::SwapRequests { neighbors, .. } => SetupEvent::Requests(
                    neighbors
                        .iter()
                        .map(|&other| match &actions[other] {
                            SetupAction::SwapRequests { neighbors: theirs, requests, .. } => {
                                requests[theirs.iter().position(|&p| p == me).unwrap()].clone()
                            }
                            _ => panic!("the processes are out of step"),
                        })
                        .collect(),
                ),
                SetupAction::Done => panic!("nothing is left to answer"),
            })
            .collect();
    }
    setups.into_iter().map(|setup| setup.into_matrix().unwrap()).collect()
}

/// Runs the solver on all processes of a world in step. Returns each
/// process's result, and the number of iterations and the last residual
/// norm, which are the same on all of them.
fn solve_together(
    nx: usize,
    ny: usize,
    nz: usize,
    size: usize,
    max_iterations: i32,
    tolerance: f64,
) -> (Vec<Vec<Real>>, i32, f64) {
    let mut vectors = Vec::new();
    let mut matrices = Vec::new();
    for rank in 0..size {
        let (matrix, guess, rhs, _) = SparseMatrix::<Real>::generate_matrix(nx, ny, nz, rank, size);
        matrices.push(matrix);
        vectors.push((rhs, guess));
    }
    let matrices = set_up(matrices);
    let neighbors: Vec<Vec<usize>> = matrices.iter().map(|m| m.neighbors.clone()).collect();
    let mut states: Vec<Solver<Real>> = matrices
        .into_iter()
        .zip(vectors)
        .map(|(matrix, (rhs, guess))| {
            Solver::new(matrix, rhs, guess, max_iterations, Real(tolerance))
        })
        .collect();
    let mut events: Vec<CgEvent<Real>> = (0..size).map(|_| CgEvent::Proceed).collect();
    loop {
        let mut actions = Vec::new();
        let mut next = Vec::new();
        for (state, event) in states.into_iter().zip(events) {
            let (state, step) = solver(state, event).unwrap();
            next.push(state);
            actions.push(step.action);
        }
        states = next;
        if actions.iter().all(|action| matches!(action, CgAction::Done)) {
            break;
        }
        events = (0..size)
            .map(|me| match &actions[me] {
                CgAction::Continue => CgEvent::Proceed,
                CgAction::Reduce(_) => {
                    let mut sum = 0.0;
                    for action in &actions {
                        match action {
                            CgAction::Reduce(local) => sum += local.0,
                            _ => panic!("the processes are out of step"),
                        }
                    }
                    CgEvent::Reduced(Real(sum))
                }
                CgAction::Exchange(_) => CgEvent::Halo(
                    neighbors[me]
                        .iter()
                        .map(|&other| match &actions[other] {
                            CgAction::Exchange(messages) => {
                                let at = neighbors[other].iter().position(|&p| p == me).unwrap();
                                messages[at].clone()
                            }
                            _ => panic!("the processes are out of step"),
                        })
                        .collect(),
                ),
                CgAction::Done => panic!("the processes are out of step"),
            })
            .collect();
    }
    let iterations = states[0].iteration;
    let normr = states[0].normr.0;
    for state in &states {
        assert_eq!(state.iteration, iterations);
        assert_eq!(state.normr.0.to_bits(), normr.to_bits());
    }
    (states.into_iter().map(|state| state.x).collect(), iterations, normr)
}

#[test]
fn test_solver() {
    let (nx, ny, nz) = (5, 5, 5);
    let (matrix, guess, rhs, exact) = SparseMatrix::<Real>::generate_matrix(nx, ny, nz, 0, 1);
    let max_iter = 150;
    let tolerance = 5e-40;
    let local_nrow = matrix.local_nrow;
    let (result, iterations, normr, _) = solve(matrix, &rhs, &guess, max_iter, tolerance);
    let residual = compute_residual(local_nrow, &result, &exact).0;
    assert!(normr < tolerance);
    assert!(iterations < max_iter);
    assert!(residual < 1e-15);
    for (actual, expected) in result.iter().zip(exact) {
        assert!((expected.0 - actual.0).abs() < 1e-5);
    }
}

#[test]
fn the_solver_converges_without_a_tolerance() {
    let (matrix, guess, rhs, exact) = SparseMatrix::<Real>::generate_matrix(5, 5, 5, 0, 1);
    let (result, iterations, normr, reports) = solve(matrix, &rhs, &guess, 150, 0.0);
    assert!(iterations < 150);
    assert!(normr < 1e-15);
    assert!(compute_residual(125, &result, &exact).0 < 1e-5);
    for value in &result {
        assert!((value.0 - 1.0).abs() < 1e-5);
    }
    // The first report is that of the initial residual: the right-hand
    // side's norm, as the guess is zero.
    let rhs_norm = rhs.iter().map(|v| v.0 * v.0).sum::<f64>().sqrt();
    assert_eq!(reports[0], (0, rhs_norm.to_bits()));
    assert!(reports[1..].iter().all(|&(k, _)| k % 15 == 0 || k == 149));
}

#[test]
fn two_runs_give_the_same_residuals_bit_for_bit() {
    let run = || {
        let (matrix, guess, rhs, _) = SparseMatrix::<Real>::generate_matrix(5, 5, 5, 0, 1);
        solve(matrix, &rhs, &guess, 12, 0.0)
    };
    let (first, iterations, normr, reports) = run();
    let (second, again, normr_again, reports_again) = run();
    assert_eq!(iterations, 11);
    assert_eq!(iterations, again);
    assert_eq!(normr.to_bits(), normr_again.to_bits());
    assert_eq!(reports.len(), 12);
    assert_eq!(reports, reports_again);
    assert_eq!(first, second);
}

#[test]
fn processes_together_solve_the_system_of_the_whole_stack() {
    let (parts, iterations, normr) = solve_together(3, 2, 2, 3, 150, 1e-12);
    assert!(iterations < 150);
    assert!(normr <= 1e-12);
    let (matrix, guess, rhs, _) = SparseMatrix::<Real>::generate_matrix(3, 2, 6, 0, 1);
    let (whole, alone, _, _) = solve(matrix, &rhs, &guess, 150, 1e-12);
    assert_eq!(iterations, alone);
    let together: Vec<Real> = parts.into_iter().flatten().collect();
    assert_eq!(together.len(), whole.len());
    for (a, b) in together.iter().zip(&whole) {
        assert!((a.0 - b.0).abs() < 1e-9);
        assert!((a.0 - 1.0).abs() < 1e-9);
    }
}

#[test]
fn the_solver_stops_at_once_when_no_iteration_is_allowed() {
    let (matrix, guess, rhs, _) = SparseMatrix::<Real>::generate_matrix(2, 2, 2, 0, 1);
    let (result, iterations, normr, reports) = solve(matrix, &rhs, &guess, 1, 0.0);
    assert_eq!(result, guess);
    assert_eq!(iterations, 0);
    assert_eq!(normr, (8.0f64 * 400.0).sqrt());
    assert_eq!(reports.len(), 1);
}

#[test]
fn the_solver_stops_when_the_guess_is_the_solution() {
    let (matrix, _, rhs, exact) = SparseMatrix::<Real>::generate_matrix(3, 3, 3, 0, 1);
    let (result, iterations, normr, _) = solve(matrix, &rhs, &exact, 150, 0.0);
    assert_eq!(result, exact);
    assert_eq!(iterations, 0);
    assert_eq!(normr, 0.0);
}

#[test]
fn each_step_names_its_kernel_and_asks_for_what_it_needs() {
    let (matrix, guess, rhs, _) = SparseMatrix::<Real>::generate_matrix(2, 2, 2, 0, 1);
    let state = Solver::new(matrix, rhs, guess, 150, Real(0.0));
    let (state, step) = solver(state, CgEvent::Proceed).unwrap();
    assert_eq!(step.kernel, Kernel::Waxpby);
    assert!(matches!(step.action, CgAction::Exchange(ref messages) if messages.is_empty()));
    assert_eq!(state.phase, CgPhase::InitProduct);
    assert_eq!(state.p, vec![Real(0.0); 8]);
    assert!(matches!(solver(state, CgEvent::Proceed), Err(CgError::WrongEvent)));

    let (matrix, guess, rhs, _) = SparseMatrix::<Real>::generate_matrix(2, 2, 2, 0, 1);
    let state = Solver::new(matrix, rhs, guess, 150, Real(0.0));
    let (state, _) = solver(state, CgEvent::Proceed).unwrap();
    assert!(matches!(
        solver(state, CgEvent::Halo(vec![vec![Real(1.0)]])),
        Err(CgError::WrongShape)
    ));

    let (matrix, guess, rhs, _) = SparseMatrix::<Real>::generate_matrix(2, 2, 2, 0, 1);
    let state = Solver::new(matrix, rhs, guess, 150, Real(0.0));
    let (state, _) = solver(state, CgEvent::Proceed).unwrap();
    let (state, step) = solver(state, CgEvent::Halo(Vec::new())).unwrap();
    assert_eq!(step.kernel, Kernel::Sparsemv);
    assert_eq!(state.ap, vec![Real(0.0); 8]);
    let (state, step) = solver(state, CgEvent::Proceed).unwrap();
    assert_eq!(step.kernel, Kernel::Waxpby);
    assert_eq!(state.r, vec![Real(20.0); 8]);
    let (state, step) = solver(state, CgEvent::Proceed).unwrap();
    assert_eq!(step.kernel, Kernel::Ddot);
    assert!(matches!(step.action, CgAction::Reduce(local) if local == Real(3200.0)));
    let (state, step) = solver(state, CgEvent::Reduced(Real(3200.0))).unwrap();
    assert_eq!(step.kernel, Kernel::Idle);
    assert_eq!(step.report.map(|report| (report.iteration, report.normr)), Some((0, Real(3200f64.sqrt()))));
    assert_eq!(state.k, 1);
    let (state, step) = solver(state, CgEvent::Proceed).unwrap();
    assert_eq!(step.kernel, Kernel::Waxpby);
    assert_eq!(state.p, vec![Real(20.0); 8]);
    assert!(step.report.is_none());
    let (state, _) = solver(state, CgEvent::Halo(Vec::new())).unwrap();
    assert_eq!(state.ap, vec![Real(400.0); 8]);
    let (state, step) = solver(state, CgEvent::Proceed).unwrap();
    assert!(matches!(step.action, CgAction::Reduce(local) if local == Real(64000.0)));
    let (state, _) = solver(state, CgEvent::Reduced(Real(64000.0))).unwrap();
    assert_eq!(state.x, vec![Real(1.0); 8]);
    assert_eq!(state.r, vec![Real(0.0); 8]);
    assert_eq!(state.iteration, 1);
    assert_eq!(state.k, 2);
    assert_eq!(state.phase, CgPhase::Top);
}

#[test]
fn the_solver_runs_over_the_integers_too() {
    let (matrix, guess, rhs, exact) = SparseMatrix::<i64>::generate_matrix(2, 2, 2, 0, 1);
    let mut state = Solver::new(matrix, rhs, guess, 150, 0i64);
    let mut event = CgEvent::Proceed;
    loop {
        let (next, step) = solver(state, event).unwrap();
        state = next;
        event = match step.action {
            CgAction::Continue => CgEvent::Proceed,
            CgAction::Exchange(_) => CgEvent::Halo(Vec::new()),
            CgAction::Reduce(local) => CgEvent::Reduced(local),
            CgAction::Done => break,
        };
    }
    // The step length, 3200 / 64000, truncates to zero: the iterations run
    // out with the guess unchanged and the residual norm at the integer
    // root of 3200.
    assert_ne!(state.x, exact);
    assert_eq!(state.x, vec![0; 8]);
    assert_eq!(state.r, vec![20; 8]);
    assert_eq!(state.iteration, 149);
    assert_eq!(state.normr, 56);
}

#[test]
fn the_solver_gives_the_same_result_on_the_thread_pool() {
    let (matrix, guess, rhs, _) = SparseMatrix::<Real>::generate_matrix(4, 4, 4, 0, 1);
    let (serial, iterations, normr, _) = solve(matrix, &rhs, &guess, 150, 1e-10);
    let (matrix, guess, rhs, _) = SparseMatrix::<Real>::generate_matrix(4, 4, 4, 0, 1);
    let mut state = Solver::new(matrix, rhs, guess, 150, Real(1e-10)).in_parallel();
    assert!(state.parallel);
    let mut event = CgEvent::Proceed;
    loop {
        let (next, step) = solver(state, event).unwrap();
        state = next;
        event = match step.action {
            CgAction::Continue => CgEvent::Proceed,
            CgAction::Exchange(_) => CgEvent::Halo(Vec::new()),
            CgAction::Reduce(local) => CgEvent::Reduced(local),
            CgAction::Done => break,
        };
    }
    assert_eq!(state.x, serial);
    assert_eq!(state.iteration, iterations);
    assert_eq!(state.normr.0.to_bits(), normr.to_bits());
    assert!(iterations > 1);
}

#[test]
fn rows_shared_out_among_threads_give_the_same_product() {
    let (matrix, _, rhs, exact) = SparseMatrix::<Real>::generate_matrix(4, 3, 5, 0, 1);
    let vector: Vec<Real> = (0..60).map(|i| Real(0.25 * i as f64 - 3.0)).collect();
    let serial = sparsemv(&matrix, &vector);
    let parallel = sparsemv_parallel(&matrix, &vector);
    assert_eq!(serial, parallel);
    assert_ne!(parallel, vector);
    assert_eq!(sparsemv_parallel(&matrix, &exact), rhs);
    let (matrix, _, _, _) = SparseMatrix::<i64>::generate_matrix(2, 2, 2, 0, 1);
    assert_eq!(sparsemv_parallel(&matrix, &[20i64; 8]), vec![400; 8]);
}

#[test]
fn the_residual_is_reported_every_tenth_of_the_iterations() {
    assert_eq!(print_frequency(150), 15);
    assert_eq!(print_frequency(10), 1);
    assert_eq!(print_frequency(0), 1);
    assert_eq!(print_frequency(-7), 1);
    assert_eq!(print_frequency(19), 1);
    assert_eq!(print_frequency(20), 2);
    assert_eq!(print_frequency(499), 49);
    assert_eq!(print_frequency(500), 50);
    assert_eq!(print_frequency(100_000), 50);
    assert!(reports_iteration(15, 15, 150));
    assert!(reports_iteration(30, 15, 150));
    assert!(!reports_iteration(31, 15, 150));
    assert!(reports_iteration(149, 15, 150));
    assert!(!reports_iteration(148, 15, 150));
    assert!(reports_iteration(0, 15, 150));
    assert!(!reports_iteration(i32::MAX, 2, 150));
}

#[test]
fn iterations_are_numbered_from_one_and_stop_short_of_the_limit() {
    assert!(!iteration_allowed(0, 150));
    assert!(iteration_allowed(1, 150));
    assert!(iteration_allowed(149, 150));
    assert!(!iteration_allowed(150, 150));
    assert!(!iteration_allowed(1, 1));
    assert!(!iteration_allowed(1, 0));
}

#[test]
fn operations_are_counted_per_row_and_per_non_zero() {
    assert_eq!(
        flop_counts(10, 125, 3375),
        Some(FlopCounts { total: 5000 + 7500 + 67500, ddot: 5000, waxpby: 7500, sparsemv: 67500 })
    );
    assert_eq!(
        flop_counts(0, 125, 3375),
        Some(FlopCounts { total: 0, ddot: 0, waxpby: 0, sparsemv: 0 })
    );
    assert_eq!(flop_counts(i32::MAX, usize::MAX / 27, usize::MAX), None);
    assert!(flop_counts(149, 2_000_000_000, 54_000_000_000).is_some());
}
