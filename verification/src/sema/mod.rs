//! Name resolution and type checking.

pub mod ty;
pub mod scopes;
pub mod model;
pub mod check;
pub mod laws;
