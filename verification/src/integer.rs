//! Integer terms.

pub mod big;
