# payments_engine

A payments engine that processes deposits, withdrawals, disputes, resolves
and chargebacks over client accounts, verified with Verus.

- `src/decimal.rs`: `Amount`, an exact decimal (`mantissa / 10^scale`, the
  representation of `rust_decimal::Decimal`). Sums, differences, comparisons
  and text are computed by `rust_decimal` behind trusted wrappers. Their
  contracts fix the result where an operand is zero or the operands are in
  the range where `rust_decimal` does not round (`add_regime`,
  `sub_regime`); elsewhere the result is only named.
- `src/types.rs`: input records, accounts, stored deposits, output rows.
- `src/text.rs`: decimal digits of client ids, the text of booleans.
- `src/engine.rs`: the engine, its state as a mathematical model (accounts,
  stored deposits, ids seen), the transition function `step` that `process`
  follows exactly, and the whole output text.
- `src/laws.rs`: properties proved of `step` and of whole runs. Consistency
  of every reachable state, finality of chargebacks, duplicate ids ignored,
  frozen locked accounts and locks explained by chargebacks hold
  unconditionally. The laws about amounts (conservation of funds by disputes
  and resolves, held funds equal to the deposits under dispute, funds equal
  to accepted deposits less withdrawals and chargebacks) assume that
  `rust_decimal` computes the sums and differences involved without
  rounding (`exact_sum`, `exact_difference`); `process` guarantees this for
  each record whose operations are in the exact range (`step_in_regime`).
- `app/main.rs`: the command-line program (CSV in, CSV out).
