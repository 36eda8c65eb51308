//! A compiler core for a small language of quantum experiments: shape checking,
//! validation of operators and states, lowering to a graph of typed operations,
//! dense kernels, two integrators and the executor that runs the graph.
//!
//! Numbers are held as binary64 bit patterns. The library orders, negates and
//! conjugates them itself; rounding arithmetic is supplied by the caller through
//! [`arith::Arithmetic`], and every contract is stated relative to that supplier.

use vstd::prelude::*;

pub mod arith;
pub mod ast;
pub mod error;
pub mod executor;
pub mod fit;
pub mod ir;
pub mod job_queue;
pub mod kernels;
pub mod laws;
pub mod logging;
pub mod lowering;
pub mod matrix;
pub mod ode;
pub mod optimizer;
pub mod prover;
pub mod scalar;
pub mod stats;
pub mod streaming;
pub mod symbols;
pub mod templates;
pub mod text;
pub mod typechecker;
pub mod validator;

verus! {

/// Version of the engine.
pub const VERSION: &'static str = "0.1.0";

/// Largest Hilbert-space dimension the dense engine is meant for.
pub const MAX_HILBERT_DIM: usize = 4;

/// Bit pattern of the tolerance `1e-10` used by every validation check.
pub const VALIDATION_TOL_BITS: u64 = 0x3ddb7cdfd9d7bdbb;

} // verus!
