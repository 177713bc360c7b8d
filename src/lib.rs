//! Dense integer matrices, dot products, and the verified building blocks of a
//! parallel matrix-multiplication engine, together with simple named-counter
//! utilities.
pub mod counters;
pub mod decimal;
pub mod matrix;
pub mod metrix;
pub mod parallel;

pub use matrix::{dot_product, multiply, products_fit, Matrix, MatrixError, Vector};
pub use metrix::atomic::AtomicMetrix;
pub use metrix::dash_map::DashMapMetrix;
pub use metrix::{Metrix, MetrixError};
pub use parallel::{collect, plan_tasks, run_task, worker_for, MsgInput, MsgOutput, NUM_THREADS};
