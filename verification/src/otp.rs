//! The modules of the Open Telecom Platform.

pub mod erlang;
