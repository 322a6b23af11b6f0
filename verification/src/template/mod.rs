//! Compilation of the element tree into instruction buckets, and the
//! closure texts the generated component registers.

pub mod closure;
pub mod component;
pub mod nodes;
