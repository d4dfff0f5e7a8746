//! Erlang runtime support: arbitrary-precision integers and the built-in
//! functions of the `erlang` module, over a model of Erlang terms.

pub mod exception;
pub mod integer;
pub mod term;
pub mod otp;
pub mod registry;
