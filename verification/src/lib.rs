//! Construction, simplification, and evaluation of implicit-function
//! expression trees (F-Reps).
//!
//! An implicit surface is described by a scalar function of space whose sign
//! encodes inside/outside/on-surface. This crate represents such functions as
//! immutable, structurally shared expression DAGs owned by an [`arena::Arena`],
//! evaluates them at points, over interval boxes, and with forward-mode
//! derivatives, and rewrites them into smaller equivalent forms.
//!
//! All coordinates and constants are fixed-point values carried in `i64`;
//! every arithmetic step is checked, so evaluation either returns the exact
//! mathematical result or reports how it failed. Fields that would need a
//! square root off the grid (true distance fields) are deliberately carried
//! in squared form: the signs and zero sets are exact, the magnitudes are
//! the quadric's.

pub mod node;
pub mod arena;
pub mod builder;
pub mod eval;
pub mod gradient;
pub mod interval;
pub mod remap;
pub mod semantics;
pub mod shapes;
pub mod simplify;
