# thunder

A small proof-of-stake blockchain core with its contracts proved by Verus:
SHA-256/Ed25519 primitives and Merkle trees, transactions and blocks, the
Thunder stack VM with gas metering, the ThunderScript lexer, parser and
compiler, the Hashgraph-style aBFT consensus over an event DAG, the world
state, and a node that turns consensus output into blocks.

Layout:

- `src/` — the verified library. Each module's doc comment says what it
  holds; the contracts speak of spec functions and views defined beside the
  code. Calls into `sha2`, `ed25519-dalek`, `rand`, `hex` and a few std text
  routines sit behind small trusted wrappers whose doc comments say what is
  assumed of them.
- `tests/` — tests of the library through its public interface.
- `app/` — the `thunder` command line and JSON-RPC server: argument parsing,
  HTTP, JSON and bincode encoding, the clock and the shared node. It calls
  the library for every decision.
