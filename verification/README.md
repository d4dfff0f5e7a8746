# lumen_runtime

Verified support code for an Erlang runtime, written in Verus.

- `src/integer/big.rs` — big integers (sign and base-2^32 digits, kept in
  canonical form) built and compared through `num-bigint`, and their
  conversion to a machine word.
- `src/term.rs` — Erlang terms, exact equality, lists of cons cells and the
  conversions of terms to machine values.
- `src/registry.rs` — the registry of process names.
- `src/otp/erlang.rs` — built-in functions of the `erlang` module: list
  subtraction, `tl`, `tuple_size`, `tuple_to_list`, `throw`, `xor`,
  `is_record`, `unregister`, `whereis`, character lists, and the decisions
  of the timer built-ins.
- `src/exception.rs` — the exceptions these functions raise.

Every function states its result in its `ensures`; `verus` proves them.
