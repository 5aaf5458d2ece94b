# rok — read-only keys, verified

A hierarchical key scheme for encrypted data: a spend key derives a tree of read keys,
one per scope path (`/`, `/finance`, `/finance/q1`, …). Data encrypted for a scope can be
read by a key at that scope or above it, never by a key below or beside it. Envelopes are
signed by the spend key and carry one wrapped data key per recipient, or one for the
scope itself in scope-based mode.

The library is written in Verus: every function carries a contract, and the properties
the scheme promises are proved as lemmas.

## Layout

- `src/` — the verified library.
  - `keys/` — scopes, key identifiers, spend keys, read keys and their derivation.
  - `derive.rs`, `sign.rs`, `encrypt.rs`, `envelope.rs`, `sectioned.rs`, `encoding.rs` —
    derivation, signatures, envelope encryption and the binary and text encodings.
  - `pq/` — the hybrid X25519 + ML-KEM-768 mode.
  - `proto/` — the protobuf wire format, written and proved by hand.
  - `keyring.rs`, `sdk/` — keyrings, storage backends, vaults, pipelines, access
    policies, credentials, encrypted memories and the Fileverse document conventions.
  - `mcp/` — the memory tools: sessions, replies, resources.
  - `commands.rs` — what each command of the command-line tool computes.
  - `crypto.rs` — the calls into the cryptographic crates, each with the contract it is
    trusted to meet.
- `tests/` — tests of the library.
- `app/` — the `rok` command-line tool: argument parsing, files, HTTP to Fileverse,
  and a line-based JSON host for the memory tools.
