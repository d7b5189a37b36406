# rill

The consensus and wallet logic of Rill, a cryptocurrency with progressive
concentration decay, written in Verus and verified against its contracts.

- `src/` is the library. Every function is verified, apart from a few
  trusted wrappers around outside code (BLAKE3, SHA-256, Ed25519, hex
  decoding, random keys, the system clock, building a `String` from
  characters), each of which states what it claims of the call it makes.
- The main modules: `types` and `codec` (transactions, blocks and their
  canonical encoding with round-trip laws), `address` (Bech32m addresses),
  `merkle`, `block_validation`, `validation`, `mempool`, `chain_state`
  (connect and disconnect with the undo law), `decay` and `conduct` (the
  integer decay and conduct-score arithmetic), `reward`, `difficulty`,
  `consensus` (the engine, checkpoints, RandomX key rotation), and the
  computing parts of the wallet, faucet, miner and explorer (`payments`,
  `faucet`, `miner`, `explorer`, `text`).
- `tests/` exercises the library on concrete values.
- `app/` is a small command-line front end: argument parsing, environment
  and file reading, JSON, and the mining statistics kept in floating point.
