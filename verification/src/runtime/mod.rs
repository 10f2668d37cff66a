//! The parts of the runtime that compute on plain values: values, their
//! equality and display, environments, builtins, the decisions of a call,
//! failures, integer arithmetic, indices and ranges, map keys and the outcome
//! of a run.
//!
//! Nothing here panics for any input: arithmetic is checked, indexing is
//! bounds-checked, and every problem is a [`failure::Failure`].

pub mod builtins;
pub mod calls;
pub mod env;
pub mod driver;
pub mod failure;
pub mod floats;
pub mod interp;
pub mod ops;
pub mod value;
pub mod values;
