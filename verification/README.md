# libro

A tamper-evident audit chain: SHA-256 hash-linked entries, Merkle trees
with inclusion and RFC 9162 consistency proofs, retention and rotation,
review summaries, CSV export, Ed25519 entry signatures, witness anchors,
RFC 3161 timestamp requests and responses, and self-contained integrity
proof bundles. The library is written in Verus and its contracts are proved.

## Layout

- `src/` — the verified library. Each module states its behaviour over
  spec functions (`content_hash`, `chain_sound`, `mth`, `subproof_spec`,
  `der_tlv`, ...) and proves it. Calls into `sha2`, `chrono`, `uuid`,
  `ed25519-dalek` and `serde_json` go through small trusted wrappers whose
  contracts name what those crates compute.
- `src/consistency.rs` — the proof that every consistency proof a tree
  generates passes the RFC 9162 verification.
- `tests/` — tests on concrete values.
- `app/` — what stays outside the verifier: serde forms of the library's
  types, JSON Lines and CSV writers, the file and SQLite stores, and the
  publish/subscribe stream.

## Laws proved

- appending a sealed, linked entry keeps a chain intact; cutting it keeps
  both parts intact;
- replacing or deleting an entry is detected unless SHA-256 collides;
- every generated inclusion proof leads to the tree root;
- every generated consistency proof verifies;
- a bundle assembled from generated parts is valid exactly when its tree
  head's signature is;
- hex and DER encodings decode to what was encoded;
- a signature made by a key verifies under its own verifying key (as the
  signing crate documents).
