//! Decisions of the double-pendulum chaotic / regular classifier.
//!
//! The classifier measures a starting state with floating-point numerics (an
//! adaptive integrator, a two-trajectory Lyapunov estimate and a Poincaré
//! section on `θ₂ = 0` crossings). What those measurements decide is stated
//! and proved here:
//!
//! - [`classifier`]: the outcome type, its display text, the verdict for a
//!   regular orbit from the size of its section, and the renormalisation
//!   checkpoint schedule of the Lyapunov estimate;
//! - [`distinct`]: the number of distinct cells a section occupies;
//! - [`args`]: reading the command line `θ1 ω1 θ2 ω2 [λ_threshold]` and the
//!   report for one that is incomplete or malformed.
use vstd::prelude::*;

pub mod args;
pub mod classifier;
pub mod distinct;

pub use args::{missing_names, parse_args};
pub use classifier::{checkpoints, regular_verdict, Classification};
pub use distinct::count_distinct;

verus! {

} // verus!
