//! A content-addressed store of encrypted files that only badges reach.
//!
//! A [`Store`] keeps files of at most [`MAX_BLOCK_LEN`] bytes, one block each, in
//! tables of fixed size. There is no namespace: a file is reached only through a
//! badge that was granted some operations on it, and anything else is refused.
//!
//! - A block is named by the hash of its plaintext, so files with the same
//!   content share one block; what is kept is ciphertext, sealed with a nonce
//!   taken from that hash.
//! - A block is freed the instant the last file that needs it is rewritten or
//!   destroyed, and its slot is used again. The name of a file never is: a
//!   destroyed file is out of reach for good.
//! - The key is out of the store's reach: sealing and opening go through a
//!   [`cipher::Cipher`] that the caller brings.
//! - Badges are minted, delivered and revoked by the kernel's capability broker;
//!   the store decides what is asked of it and records the answers.
//!
//! [`model`] says what a store is and what each operation makes of it, [`effects`]
//! what each is for, [`laws`] what follows across operations, [`histories`] how
//! two courses of operations compare, and [`wire`] answers requests.
pub mod address;
pub mod cipher;
mod counting;
pub mod effects;
pub mod error;
pub mod histories;
pub mod laws;
pub mod model;
pub mod ops;
pub mod store;
mod tables;
pub mod wire;

pub use error::StoreError;
pub use model::{FileId, MAX_BLOCKS, MAX_BLOCK_LEN, MAX_FILES, MAX_GRANTS};
pub use ops::FileOps;
pub use store::Store;
