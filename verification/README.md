# trader_scout

A verified core for scouting on-chain traders: exact money and amount
types, chain/wallet/asset identities, a FIFO cost-basis ledger, episode
ratios (win rate, profit factor), net-delta buy classification, the
`buyer-intersect` ranking, swap and bonding-curve decoders, provider
capabilities and fixtures, and the parser for the tools' `lines`/`csv`
input. Every function in `src/` carries a contract proved by Verus; the
`*_laws.rs` modules state properties that span several functions.

Layout:

- `src/` — the verified library.
- `tests/` — executable tests of the library.
- `app/` — the edge: the async provider port, the SQLite watermark store,
  TOML configuration, JSONL serialization, stdout, and the three
  command-line tools (`buyer-intersect`, `wallet-rank`, `wallet-stats`).
