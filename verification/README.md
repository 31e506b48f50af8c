# lantern_filesystem

A content-addressed, encrypted-by-default, capability-gated file store, verified with Verus.

Files are single blocks of at most 256 bytes, named by the BLAKE3 hash of their plaintext and kept
as ciphertext. Files with the same content share a block; a block is freed the instant no file
needs it. A file is reached only through a badge that was granted operations on it.

- `src/model.rs` says what a store is, mathematically, and what each operation makes of it.
- `src/store.rs` is the store, proved against that model; `src/tables.rs` and `src/counting.rs`
  hold the lemmas about its tables.
- `src/laws.rs` states what follows across operations: that a read gives back what a write wrote,
  that reference counts are exact, that names are never reused, that a destroyed file is gone for
  good, that revocation is permanent.
- `src/histories.rs` compares two histories: what happens to other files never shows in a read.
- `src/cipher.rs` is the interface to the key, `src/address.rs` the hash and the nonce.
- `src/wire.rs` answers the requests of the call protocol.
- `app/` binds the store to the keystore and the capability broker of the system it runs in.

What is not proved: that `blake3::hash` is a function of its input, and that a `Cipher` that a
caller brings keeps the conditions stated on the trait.
