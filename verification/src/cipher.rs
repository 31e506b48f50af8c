//! How a store reaches the key that its blocks are sealed under.
use vstd::prelude::*;

use crate::address::{NONCE_LEN, TAG_LEN};
use crate::error::{ChannelError, StoreError};
use crate::wire::status;

verus! {

/// A key, as far as it matters to a store: what it opens ciphertexts to.
pub struct Key {
    pub recovers: spec_fn(Seq<u8>, Seq<u8>, Seq<u8>, Seq<u8>) -> Option<Seq<u8>>,
}

impl Key {
    /// The plaintext that this key recovers from `ciphertext`, if `tag`
    /// authenticates it together with `nonce` and `aad`.
    pub open spec fn opens(
        self,
        nonce: Seq<u8>,
        aad: Seq<u8>,
        ciphertext: Seq<u8>,
        tag: Seq<u8>,
    ) -> Option<Seq<u8>> {
        (self.recovers)(nonce, aad, ciphertext, tag)
    }
}

/// An authenticated cipher bound to one key.
///
/// Which key that is, and how it is reached, is fixed when the cipher is made:
/// no call takes a badge or a key. Whoever calls [`crate::Store::write`] and
/// [`crate::Store::read`] brings the implementation, in-process or over a
/// channel; what is proved of a store through this trait holds for
/// implementations that keep the conditions stated here. Neither operation has
/// to succeed.
pub trait Cipher {
    /// The key this cipher is bound to.
    spec fn key(&self) -> Key;

    /// Encrypts `buffer` in place, returning the detached tag. On success the
    /// key opens the ciphertext to what `buffer` held.
    fn encrypt(
        &mut self,
        nonce: &[u8; NONCE_LEN],
        aad: &[u8],
        buffer: &mut [u8],
    ) -> (sealed: Result<[u8; TAG_LEN], StoreError>)
        ensures
            final(self).key() == old(self).key(),
            final(buffer)@.len() == old(buffer)@.len(),
            sealed matches Ok(tag) ==> old(self).key().opens(nonce@, aad@, final(buffer)@, tag@)
                == Some(old(buffer)@),
    ;

    /// Decrypts `buffer` in place, checking it against `tag`. On success
    /// `buffer` holds what the key opens the ciphertext to.
    fn decrypt(
        &mut self,
        nonce: &[u8; NONCE_LEN],
        aad: &[u8],
        buffer: &mut [u8],
        tag: &[u8; TAG_LEN],
    ) -> (opened: Result<(), StoreError>)
        ensures
            final(self).key() == old(self).key(),
            final(buffer)@.len() == old(buffer)@.len(),
            opened is Ok ==> old(self).key().opens(nonce@, aad@, old(buffer)@, tag@) == Some(
                final(buffer)@,
            ),
    ;
}

// ---- a cipher whose key a confined keystore service holds

/// What an exchange with a keystore service came to.
pub enum Exchange<R> {
    /// The request does not fit the transport's buffer; nothing was sent.
    TooLarge,
    /// The transport failed.
    Failed(ChannelError),
    /// The service answered.
    Replied { status: u16, reply: R },
}

/// A service's answer to an encryption: the tag and the ciphertext, if the reply
/// decodes.
pub type EncryptReply = Option<([u8; TAG_LEN], Vec<u8>)>;

/// What an encryption by exchange returns.
pub open spec fn encrypt_outcome(exchange: Exchange<EncryptReply>, len: nat) -> Result<
    [u8; TAG_LEN],
    StoreError,
> {
    match exchange {
        Exchange::TooLarge => Err(StoreError::ContentTooLarge),
        Exchange::Failed(e) => Err(StoreError::Channel(e)),
        Exchange::Replied { status, reply } => if status != status::OK {
            Err(StoreError::RemoteCryptoDenied(status))
        } else {
            match reply {
                Some((tag, ciphertext)) if ciphertext@.len() == len => Ok(tag),
                _ => Err(StoreError::Channel(ChannelError::Malformed)),
            }
        },
    }
}

/// The ciphertext that a service answered with.
pub open spec fn replied_ciphertext(exchange: Exchange<EncryptReply>) -> Seq<u8> {
    match exchange {
        Exchange::Replied { reply: Some((_, ciphertext)), .. } => ciphertext@,
        _ => Seq::empty(),
    }
}

/// What a decryption by exchange returns.
pub open spec fn decrypt_outcome(exchange: Exchange<Vec<u8>>, len: nat) -> Result<
    (),
    StoreError,
> {
    match exchange {
        Exchange::TooLarge => Err(StoreError::ContentTooLarge),
        Exchange::Failed(e) => Err(StoreError::Channel(e)),
        Exchange::Replied { status, reply } => if status != status::OK {
            Err(StoreError::RemoteCryptoDenied(status))
        } else if reply@.len() != len {
            Err(StoreError::Channel(ChannelError::Malformed))
        } else {
            Ok(())
        },
    }
}

/// Ends an encryption by exchange: on success `buffer` holds the ciphertext of
/// the reply, otherwise what it held.
pub fn finish_encrypt(exchange: Exchange<EncryptReply>, buffer: &mut [u8]) -> (sealed: Result<
    [u8; TAG_LEN],
    StoreError,
>)
    ensures
        sealed == encrypt_outcome(exchange, old(buffer)@.len()),
        final(buffer)@ == (if sealed is Ok {
            replied_ciphertext(exchange)
        } else {
            old(buffer)@
        }),
{
    match exchange {
        Exchange::TooLarge => Err(StoreError::ContentTooLarge),
        Exchange::Failed(e) => Err(StoreError::Channel(e)),
        Exchange::Replied { status, reply } => {
            if status != status::OK {
                return Err(StoreError::RemoteCryptoDenied(status));
            }
            let (tag, ciphertext) = match reply {
                Some(decoded) => decoded,
                None => return Err(StoreError::Channel(ChannelError::Malformed)),
            };
            if ciphertext.len() != buffer.len() {
                return Err(StoreError::Channel(ChannelError::Malformed));
            }
            copy_into(&ciphertext, buffer);
            Ok(tag)
        },
    }
}

/// Ends a decryption by exchange: on success `buffer` holds the plaintext of the
/// reply, otherwise what it held.
pub fn finish_decrypt(exchange: Exchange<Vec<u8>>, buffer: &mut [u8]) -> (opened: Result<
    (),
    StoreError,
>)
    ensures
        opened == decrypt_outcome(exchange, old(buffer)@.len()),
        final(buffer)@ == (if opened is Ok {
            exchange->Replied_reply@
        } else {
            old(buffer)@
        }),
{
    match exchange {
        Exchange::TooLarge => Err(StoreError::ContentTooLarge),
        Exchange::Failed(e) => Err(StoreError::Channel(e)),
        Exchange::Replied { status, reply } => {
            if status != status::OK {
                return Err(StoreError::RemoteCryptoDenied(status));
            }
            if reply.len() != buffer.len() {
                return Err(StoreError::Channel(ChannelError::Malformed));
            }
            copy_into(&reply, buffer);
            Ok(())
        },
    }
}

/// Encrypts `buffer` in place by one exchange with a keystore service.
/// `exchange` sends the nonce, the associated data and the plaintext it is given,
/// and hands back what came of it.
pub fn encrypt_by_exchange<X>(
    exchange: X,
    nonce: &[u8; NONCE_LEN],
    aad: &[u8],
    buffer: &mut [u8],
) -> (sealed: Result<[u8; TAG_LEN], StoreError>) where
    X: FnOnce(&[u8; NONCE_LEN], &[u8], &[u8]) -> Exchange<EncryptReply>,

    requires
        forall|plaintext: &[u8]|
            plaintext@ == old(buffer)@ ==> call_requires(exchange, (nonce, aad, plaintext)),
    ensures
        exists|plaintext: &[u8], came: Exchange<EncryptReply>|
            {
                &&& plaintext@ == old(buffer)@
                &&& #[trigger] call_ensures(exchange, (nonce, aad, plaintext), came)
                &&& sealed == encrypt_outcome(came, old(buffer)@.len())
                &&& final(buffer)@ == (if sealed is Ok {
                    replied_ciphertext(came)
                } else {
                    old(buffer)@
                })
            },
{
    let came = exchange(nonce, aad, &*buffer);
    finish_encrypt(came, buffer)
}

/// Decrypts `buffer` in place by one exchange with a keystore service.
/// `exchange` sends the nonce, the associated data, the ciphertext and the tag it
/// is given, and hands back what came of it.
pub fn decrypt_by_exchange<X>(
    exchange: X,
    nonce: &[u8; NONCE_LEN],
    aad: &[u8],
    buffer: &mut [u8],
    tag: &[u8; TAG_LEN],
) -> (opened: Result<(), StoreError>) where
    X: FnOnce(&[u8; NONCE_LEN], &[u8], &[u8], &[u8; TAG_LEN]) -> Exchange<Vec<u8>>,

    requires
        forall|ciphertext: &[u8]|
            ciphertext@ == old(buffer)@ ==> call_requires(exchange, (nonce, aad, ciphertext, tag)),
    ensures
        exists|ciphertext: &[u8], came: Exchange<Vec<u8>>|
            {
                &&& ciphertext@ == old(buffer)@
                &&& #[trigger] call_ensures(exchange, (nonce, aad, ciphertext, tag), came)
                &&& opened == decrypt_outcome(came, old(buffer)@.len())
                &&& final(buffer)@ == (if opened is Ok {
                    came->Replied_reply@
                } else {
                    old(buffer)@
                })
            },
{
    let came = exchange(nonce, aad, &*buffer, tag);
    finish_decrypt(came, buffer)
}

// ---- what a service that holds a key makes of an exchange

/// Whether `came` can come of an encryption asked of a service that holds `key`:
/// no success, or a ciphertext and a tag that the key opens to the plaintext.
pub open spec fn answers_encryption(
    key: Key,
    nonce: Seq<u8>,
    aad: Seq<u8>,
    plaintext: Seq<u8>,
    came: Exchange<EncryptReply>,
) -> bool {
    came matches Exchange::Replied { status, reply: Some((tag, ciphertext)) } ==> (status
        == status::OK ==> key.opens(nonce, aad, ciphertext@, tag@) == Some(plaintext))
}

/// Whether `came` can come of a decryption asked of a service that holds `key`:
/// no success, or what the key opens the ciphertext and the tag to.
pub open spec fn answers_decryption(
    key: Key,
    nonce: Seq<u8>,
    aad: Seq<u8>,
    ciphertext: Seq<u8>,
    tag: Seq<u8>,
    came: Exchange<Vec<u8>>,
) -> bool {
    came matches Exchange::Replied { status, reply } ==> (status == status::OK ==> key.opens(
        nonce,
        aad,
        ciphertext,
        tag,
    ) == Some(reply@))
}

/// Whether a decryption asked of a service that holds `key` got through, and the
/// service opened what the key opens.
pub open spec fn carries_out_decryption(
    key: Key,
    nonce: Seq<u8>,
    aad: Seq<u8>,
    ciphertext: Seq<u8>,
    tag: Seq<u8>,
    came: Exchange<Vec<u8>>,
) -> bool {
    key.opens(nonce, aad, ciphertext, tag) matches Some(plaintext) ==> {
        &&& came is Replied
        &&& came->Replied_status == status::OK
        &&& came->Replied_reply@ == plaintext
    }
}

/// **Encryption by exchange is encryption.** With a service that answers as a key
/// does, what [`encrypt_by_exchange`] returns and leaves in the buffer is what
/// [`Cipher::encrypt`] asks for.
pub proof fn law_encryption_by_exchange_meets_the_cipher(
    key: Key,
    nonce: Seq<u8>,
    aad: Seq<u8>,
    before: Seq<u8>,
    came: Exchange<EncryptReply>,
    sealed: Result<[u8; TAG_LEN], StoreError>,
    after: Seq<u8>,
)
    requires
        answers_encryption(key, nonce, aad, before, came),
        sealed == encrypt_outcome(came, before.len()),
        after == (if sealed is Ok {
            replied_ciphertext(came)
        } else {
            before
        }),
    ensures
        after.len() == before.len(),
        sealed matches Ok(tag) ==> key.opens(nonce, aad, after, tag@) == Some(before),
{
}

/// **Decryption by exchange is decryption.** With a service that answers as a key
/// does, what [`decrypt_by_exchange`] returns and leaves in the buffer is what
/// [`Cipher::decrypt`] asks for.
pub proof fn law_decryption_by_exchange_meets_the_cipher(
    key: Key,
    nonce: Seq<u8>,
    aad: Seq<u8>,
    before: Seq<u8>,
    tag: Seq<u8>,
    came: Exchange<Vec<u8>>,
    opened: Result<(), StoreError>,
    after: Seq<u8>,
)
    requires
        answers_decryption(key, nonce, aad, before, tag, came),
        opened == decrypt_outcome(came, before.len()),
        after == (if opened is Ok {
            came->Replied_reply@
        } else {
            before
        }),
    ensures
        after.len() == before.len(),
        opened is Ok ==> key.opens(nonce, aad, before, tag) == Some(after),
{
}

/// **An exchange undoes an exchange.** What was encrypted by exchange with a
/// service that holds a key, and is then decrypted by an exchange that gets
/// through to it, succeeds and gives back the plaintext.
pub proof fn law_decryption_by_exchange_undoes_encryption(
    key: Key,
    nonce: Seq<u8>,
    aad: Seq<u8>,
    plaintext: Seq<u8>,
    there: Exchange<EncryptReply>,
    tag: [u8; TAG_LEN],
    back: Exchange<Vec<u8>>,
    opened: Result<(), StoreError>,
    after: Seq<u8>,
)
    requires
        answers_encryption(key, nonce, aad, plaintext, there),
        encrypt_outcome(there, plaintext.len()) == Ok::<[u8; TAG_LEN], StoreError>(tag),
        carries_out_decryption(key, nonce, aad, replied_ciphertext(there), tag@, back),
        opened == decrypt_outcome(back, replied_ciphertext(there).len()),
        after == (if opened is Ok {
            back->Replied_reply@
        } else {
            replied_ciphertext(there)
        }),
    ensures
        opened is Ok,
        after == plaintext,
{
}

/// Copies `source` over `target`.
fn copy_into(source: &Vec<u8>, target: &mut [u8])
    requires
        source@.len() == old(target)@.len(),
    ensures
        final(target)@ == source@,
{
    let mut i: usize = 0;
    while i < source.len()
        invariant
            i <= source@.len(),
            target@.len() == source@.len(),
            forall|j: int| 0 <= j < i ==> target@[j] == source@[j],
        decreases source@.len() - i,
    {
        target[i] = source[i];
        i = i + 1;
    }
    assert(target@ =~= source@);
}

} // verus!
