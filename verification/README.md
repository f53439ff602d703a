# gacha_marketplace

A marketplace of listed items with purchases and gacha draws, verified with Verus.

- `src/` is the verified library: the ledger (`state.rs`), the decisions of each
  instruction (`gacha_marketplace.rs`), the seeded draws of a gacha (`draw.rs`), the
  error type (`error.rs`) and the properties that hold across instructions (`laws.rs`).
- `app/` is the on-chain program around it: account validation, token and lamport
  transfers, the clock, and the floating-point scaling of a draw.
- `tests/` runs the library on concrete values.
