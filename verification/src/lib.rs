//! A conjugate-gradient solver for the sparse linear systems of a 27-point
//! stencil on a stack of blocks, one block for each process.
//!
//! The library generates the problem, sets up the exchange of boundary
//! values between neighbouring processes and runs the iteration. It does no
//! input or output of its own: wherever the processes have to talk to each
//! other it returns what to send and is called again with what came back.
//! Its kernels work on any element type that implements [`scalar::Scalar`].

pub mod compute_residual;
pub mod ddot;
pub mod driver;
pub mod exchange_externals;
pub mod local_setup;
pub mod make_local_matrix;
pub mod scalar;
pub mod solver;
pub mod sparse_matrix;
pub mod sparsemv;
pub mod stencil;
pub mod waxpby;
