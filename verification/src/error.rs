//! The errors a store reports.
use vstd::prelude::*;

verus! {

/// Why the kernel turned down a capability operation. The store never looks
/// inside; it hands the value on in [`StoreError::Kernel`].
#[derive(Clone, Copy, PartialEq, Eq, Debug, Structural)]
pub enum SyscallError {
    IllegalOperation,
    /// Any other kernel error, by its number.
    Other(u32),
}

/// Why the keystore turned down an encryption or a decryption, by number.
#[derive(Clone, Copy, PartialEq, Eq, Debug, Structural)]
pub struct KeystoreError(pub u32);

/// Why an exchange with a confined service failed.
#[derive(Clone, Copy, PartialEq, Eq, Debug, Structural)]
pub enum ChannelError {
    /// The peer's reply does not decode, or has the wrong length.
    Malformed,
    /// Any other transport error, by its number.
    Other(u32),
}

#[derive(Clone, Copy, PartialEq, Eq, Debug, Structural)]
pub enum StoreError {
    NoSuchFile,
    /// The file exists but [`crate::Store::destroy`] already released it.
    FileDestroyed,
    /// The file was read before any write to it ever succeeded.
    FileEmpty,
    /// The content (on write) exceeds [`crate::MAX_BLOCK_LEN`], or (on read)
    /// does not fit the caller's buffer.
    ContentTooLarge,
    NotEnoughCapacity,
    /// A badge this store never granted: deny by default.
    UnknownBadge,
    BadgeRevoked,
    /// The badge is valid but was not granted the operation attempted.
    OpNotGranted,
    /// The badge names a different file than the one passed in; which one is
    /// not revealed.
    WrongFile,
    /// The keystore that holds the store's key failed or refused.
    CryptoFailure(KeystoreError),
    /// The exchange with a confined keystore service failed.
    Channel(ChannelError),
    /// A confined keystore service answered with this status instead of success.
    RemoteCryptoDenied(u16),
    /// The kernel refused a capability operation.
    Kernel(SyscallError),
}

/// The store's own outcome of a capability operation that the kernel answered.
pub open spec fn kernel_outcome(answer: Result<(), SyscallError>) -> Result<(), StoreError> {
    match answer {
        Ok(_) => Ok(()),
        Err(e) => Err(StoreError::Kernel(e)),
    }
}

} // verus!
