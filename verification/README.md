# price_oracle

A multi-source price oracle for Soroban, written in Verus. Whitelisted sources
submit prices per asset; the oracle aggregates them (median by default, with
mean, trimmed mean, volume-weighted and fault-tolerant variants), keeps a
per-asset price history, and answers SEP-40 queries. Around that core sit
overrides, commit-reveal submissions, relayers, multi-signature and timelocked
governance, reputation and staking, IBC and LayerZero price intake, callbacks
and history maintenance (pruning, compaction, OHLCV bars).

## Layout

- `src/` — the verified library. The contract state is plain Rust data; every
  operation is a function from the current state and the ledger clock to the
  next state and a result, with its behaviour stated in `requires`/`ensures`.
  `src/laws.rs` holds the properties that span several operations.
  `src/crypto.rs` holds the only trusted items: SHA-256 through
  `soroban-sdk` and Ed25519 verification through `ed25519-dalek`.
- `tests/` — tests run against the compiled library.
- `app/` — the Soroban side: addresses to ids, the ledger clock, token
  transfers, consumer callbacks, events, upgrades and authorization.

## Dependencies

`soroban-sdk` is built with its `testutils` feature even outside the tests:
the SHA-256 wrapper creates a standalone host environment to hash with, and
that constructor is only available with this feature.
