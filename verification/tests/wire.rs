//! Requests, and encryption by exchange with a keystore service.
use chacha20poly1305::aead::{AeadInPlace, KeyInit};
use chacha20poly1305::{ChaCha20Poly1305, Key, Nonce, Tag};
use lantern_filesystem::address::{NONCE_LEN, TAG_LEN};
use lantern_filesystem::cipher::{
    decrypt_by_exchange, encrypt_by_exchange, finish_decrypt, finish_encrypt, Cipher, Exchange,
};
use lantern_filesystem::error::{ChannelError, KeystoreError, SyscallError};
use lantern_filesystem::wire::{
    handle_request, read_reply, status, status_for, write_reply, OP_READ, OP_WRITE,
};
use lantern_filesystem::{FileId, FileOps, Store, StoreError, MAX_BLOCK_LEN};

/// ChaCha20-Poly1305 under one fixed key. `refusal` makes every call fail.
struct TestCipher {
    key: [u8; 32],
    refusal: Option<StoreError>,
    encryptions: usize,
    decryptions: usize,
}

impl TestCipher {
    fn new(byte: u8) -> Self {
        TestCipher { key: [byte; 32], refusal: None, encryptions: 0, decryptions: 0 }
    }

    fn refusing(err: StoreError) -> Self {
        TestCipher { refusal: Some(err), ..TestCipher::new(3) }
    }
}

impl Cipher for TestCipher {
    /// Only contracts speak of the key.
    fn key(&self) -> lantern_filesystem::cipher::Key {
        unreachable!()
    }

    fn encrypt(
        &mut self,
        nonce: &[u8; NONCE_LEN],
        aad: &[u8],
        buffer: &mut [u8],
    ) -> Result<[u8; TAG_LEN], StoreError> {
        self.encryptions += 1;
        if let Some(err) = self.refusal {
            return Err(err);
        }
        let aead = ChaCha20Poly1305::new(Key::from_slice(&self.key));
        let tag = aead
            .encrypt_in_place_detached(Nonce::from_slice(nonce), aad, buffer)
            .map_err(|_| StoreError::CryptoFailure(KeystoreError(1)))?;
        Ok(tag.into())
    }

    fn decrypt(
        &mut self,
        nonce: &[u8; NONCE_LEN],
        aad: &[u8],
        buffer: &mut [u8],
        tag: &[u8; TAG_LEN],
    ) -> Result<(), StoreError> {
        self.decryptions += 1;
        if let Some(err) = self.refusal {
            return Err(err);
        }
        ChaCha20Poly1305::new(Key::from_slice(&self.key))
            .decrypt_in_place_detached(Nonce::from_slice(nonce), aad, buffer, Tag::from_slice(tag))
            .map_err(|_| StoreError::CryptoFailure(KeystoreError(2)))
    }
}

const FILE_BADGE: u64 = 41;

/// A store with one file, granted in full to a badge, and a cipher.
fn granted_store() -> (Store, TestCipher, u64, FileId) {
    let mut store = Store::new();
    let file = store.create().unwrap();
    let badge = store
        .request_file_access(|_, _, _| Ok(FILE_BADGE), file, FileOps::ALL, 5, 6)
        .unwrap();
    (store, TestCipher::new(9), badge, file)
}

#[test]
fn op_and_status_codes_match_rfc_0019() {
    assert_eq!(OP_READ, 1);
    assert_eq!(OP_WRITE, 2);
    assert_eq!(status::OK, 0);
    assert_eq!(status::ACCESS, 1);
    assert_eq!(status::INVALID, 2);
    assert_eq!(status::FAILED, 3);
}

#[test]
fn status_for_covers_every_storeerror_variant_without_panicking() {
    let samples = [
        StoreError::NoSuchFile,
        StoreError::FileDestroyed,
        StoreError::ContentTooLarge,
        StoreError::NotEnoughCapacity,
        StoreError::UnknownBadge,
        StoreError::BadgeRevoked,
        StoreError::OpNotGranted,
        StoreError::WrongFile,
        StoreError::Kernel(SyscallError::IllegalOperation),
        StoreError::Channel(ChannelError::Malformed),
        StoreError::RemoteCryptoDenied(status::FAILED),
    ];
    for err in samples {
        let s = status_for(err);
        assert!(
            s == status::ACCESS || s == status::INVALID || s == status::FAILED,
            "{err:?} -> {s}"
        );
    }
}

#[test]
fn unknown_badge_is_rejected_before_any_op_runs() {
    let (mut store, mut cipher, _badge, _file) = granted_store();
    let mut reply = [0u8; 64];
    let (status, len) = handle_request(&mut store, &mut cipher, 0xDEAD, OP_READ, &[], &mut reply);
    assert_eq!(status, status::ACCESS);
    assert_eq!(len, 0);
}

#[test]
fn unknown_op_is_invalid() {
    let (mut store, mut cipher, badge, _file) = granted_store();
    let mut reply = [0u8; 64];
    let (status, _len) = handle_request(&mut store, &mut cipher, badge, 99, &[], &mut reply);
    assert_eq!(status, status::INVALID);
}

#[test]
fn read_before_any_write_is_ok_and_empty() {
    let (mut store, mut cipher, badge, _file) = granted_store();
    let mut reply = [0u8; 64];
    let (status, len) = handle_request(&mut store, &mut cipher, badge, OP_READ, &[], &mut reply);
    assert_eq!(status, status::OK);
    assert_eq!(len, 0);
}

#[test]
fn wire_write_then_read_round_trips() {
    let (mut store, mut cipher, badge, _file) = granted_store();
    let mut reply = [0u8; 64];
    let (status, len) =
        handle_request(&mut store, &mut cipher, badge, OP_WRITE, b"hello, wire", &mut reply);
    assert_eq!(status, status::OK);
    assert_eq!(len, 0);

    let mut reply = [0u8; 64];
    let (status, len) = handle_request(&mut store, &mut cipher, badge, OP_READ, &[], &mut reply);
    assert_eq!(status, status::OK);
    assert_eq!(&reply[..len], b"hello, wire");
}

#[test]
fn write_over_the_block_size_ceiling_is_invalid() {
    let (mut store, mut cipher, badge, _file) = granted_store();
    let oversized = [0u8; MAX_BLOCK_LEN + 1];
    let mut reply = [0u8; 64];
    let (status, _len) =
        handle_request(&mut store, &mut cipher, badge, OP_WRITE, &oversized, &mut reply);
    assert_eq!(status, status::INVALID);
}

// ---- replies

#[test]
fn each_error_has_its_status() {
    assert_eq!(status_for(StoreError::NoSuchFile), status::ACCESS);
    assert_eq!(status_for(StoreError::FileDestroyed), status::ACCESS);
    assert_eq!(status_for(StoreError::UnknownBadge), status::ACCESS);
    assert_eq!(status_for(StoreError::BadgeRevoked), status::ACCESS);
    assert_eq!(status_for(StoreError::OpNotGranted), status::ACCESS);
    assert_eq!(status_for(StoreError::WrongFile), status::ACCESS);
    assert_eq!(status_for(StoreError::ContentTooLarge), status::INVALID);
    assert_eq!(status_for(StoreError::NotEnoughCapacity), status::FAILED);
    assert_eq!(status_for(StoreError::CryptoFailure(KeystoreError(1))), status::FAILED);
    assert_eq!(status_for(StoreError::Channel(ChannelError::Other(1))), status::FAILED);
    assert_eq!(status_for(StoreError::RemoteCryptoDenied(0)), status::FAILED);
    assert_eq!(status_for(StoreError::Kernel(SyscallError::Other(1))), status::FAILED);
    assert_eq!(status_for(StoreError::FileEmpty), status::OK);
}

#[test]
fn replies_carry_a_length_only_on_success() {
    assert_eq!(read_reply(Ok(12)), (status::OK, 12));
    assert_eq!(read_reply(Err(StoreError::FileEmpty)), (status::OK, 0));
    assert_eq!(read_reply(Err(StoreError::OpNotGranted)), (status::ACCESS, 0));
    assert_eq!(write_reply(Ok(())), (status::OK, 0));
    assert_eq!(write_reply(Err(StoreError::ContentTooLarge)), (status::INVALID, 0));
}

#[test]
fn a_revoked_badge_is_answered_with_access() {
    let (mut store, mut cipher, badge, _file) = granted_store();
    store.revoke_access(|_| Ok(()), badge).unwrap();
    let mut reply = [0u8; 64];
    for op in [OP_READ, OP_WRITE] {
        let answer = handle_request(&mut store, &mut cipher, badge, op, b"x", &mut reply);
        assert_eq!(answer, (status::ACCESS, 0));
    }
}

#[test]
fn a_reply_buffer_that_is_too_small_is_invalid() {
    let (mut store, mut cipher, badge, _file) = granted_store();
    let mut reply = [0u8; 4];
    handle_request(&mut store, &mut cipher, badge, OP_WRITE, b"five!", &mut reply);
    let answer = handle_request(&mut store, &mut cipher, badge, OP_READ, &[], &mut reply);
    assert_eq!(answer, (status::INVALID, 0));
    assert_eq!(reply, [0u8; 4]);
}

#[test]
fn a_cipher_that_fails_is_answered_with_failed() {
    let (mut store, mut cipher, badge, _file) = granted_store();
    let mut broken = TestCipher::refusing(StoreError::RemoteCryptoDenied(1));
    let mut reply = [0u8; 64];
    let answer = handle_request(&mut store, &mut broken, badge, OP_WRITE, b"x", &mut reply);
    assert_eq!(answer, (status::FAILED, 0));
    handle_request(&mut store, &mut cipher, badge, OP_WRITE, b"x", &mut reply);
    let answer = handle_request(&mut store, &mut broken, badge, OP_READ, &[], &mut reply);
    assert_eq!(answer, (status::FAILED, 0));
}

// ---- encryption by exchange

#[test]
fn an_encryption_reply_is_taken_over() {
    let mut buffer = *b"plain";
    let reply = Some(([7u8; TAG_LEN], b"CRYPT".to_vec()));
    let sealed = finish_encrypt(Exchange::Replied { status: status::OK, reply }, &mut buffer);
    assert_eq!(sealed, Ok([7u8; TAG_LEN]));
    assert_eq!(&buffer, b"CRYPT");
}

#[test]
fn an_encryption_that_fails_leaves_the_buffer_alone() {
    let mut buffer = *b"plain";
    assert_eq!(
        finish_encrypt(Exchange::TooLarge, &mut buffer),
        Err(StoreError::ContentTooLarge)
    );
    assert_eq!(
        finish_encrypt(Exchange::Failed(ChannelError::Other(5)), &mut buffer),
        Err(StoreError::Channel(ChannelError::Other(5)))
    );
    let reply = Some(([7u8; TAG_LEN], b"CRYPT".to_vec()));
    assert_eq!(
        finish_encrypt(Exchange::Replied { status: status::ACCESS, reply }, &mut buffer),
        Err(StoreError::RemoteCryptoDenied(status::ACCESS))
    );
    assert_eq!(
        finish_encrypt(Exchange::Replied { status: status::OK, reply: None }, &mut buffer),
        Err(StoreError::Channel(ChannelError::Malformed))
    );
    let reply = Some(([7u8; TAG_LEN], b"CRYPTO".to_vec()));
    assert_eq!(
        finish_encrypt(Exchange::Replied { status: status::OK, reply }, &mut buffer),
        Err(StoreError::Channel(ChannelError::Malformed))
    );
    assert_eq!(&buffer, b"plain");
}

#[test]
fn a_decryption_reply_is_taken_over_or_refused() {
    let mut buffer = *b"CRYPT";
    assert_eq!(
        finish_decrypt(Exchange::TooLarge, &mut buffer),
        Err(StoreError::ContentTooLarge)
    );
    assert_eq!(
        finish_decrypt(Exchange::Failed(ChannelError::Malformed), &mut buffer),
        Err(StoreError::Channel(ChannelError::Malformed))
    );
    let denied = Exchange::Replied { status: status::FAILED, reply: b"plain".to_vec() };
    assert_eq!(
        finish_decrypt(denied, &mut buffer),
        Err(StoreError::RemoteCryptoDenied(status::FAILED))
    );
    let short = Exchange::Replied { status: status::OK, reply: b"pla".to_vec() };
    assert_eq!(
        finish_decrypt(short, &mut buffer),
        Err(StoreError::Channel(ChannelError::Malformed))
    );
    assert_eq!(&buffer, b"CRYPT");
    let good = Exchange::Replied { status: status::OK, reply: b"plain".to_vec() };
    assert_eq!(finish_decrypt(good, &mut buffer), Ok(()));
    assert_eq!(&buffer, b"plain");
}

#[test]
fn an_exchange_is_given_what_is_to_be_sealed_or_opened() {
    let mut sent = None;
    let mut buffer = *b"abc";
    let sealed = encrypt_by_exchange(
        |nonce, aad, plaintext| {
            sent = Some((*nonce, aad.to_vec(), plaintext.to_vec()));
            Exchange::Replied { status: status::OK, reply: Some(([1; TAG_LEN], b"xyz".to_vec())) }
        },
        &[4; NONCE_LEN],
        b"name",
        &mut buffer,
    );
    assert_eq!(sealed, Ok([1; TAG_LEN]));
    assert_eq!(sent, Some(([4; NONCE_LEN], b"name".to_vec(), b"abc".to_vec())));
    assert_eq!(&buffer, b"xyz");

    let mut sent = None;
    let opened = decrypt_by_exchange(
        |nonce, aad, ciphertext, tag| {
            sent = Some((*nonce, aad.to_vec(), ciphertext.to_vec(), *tag));
            Exchange::Replied { status: status::OK, reply: b"abc".to_vec() }
        },
        &[4; NONCE_LEN],
        b"name",
        &mut buffer,
        &[1; TAG_LEN],
    );
    assert_eq!(opened, Ok(()));
    assert_eq!(
        sent,
        Some(([4; NONCE_LEN], b"name".to_vec(), b"xyz".to_vec(), [1; TAG_LEN]))
    );
    assert_eq!(&buffer, b"abc");
}

#[test]
fn what_one_badge_wrote_another_badge_of_the_file_reads() {
    let (mut store, mut cipher, badge, file) = granted_store();
    let reader =
        store.request_file_access(|_, _, _| Ok(0x22), file, FileOps::READ, 5, 7).unwrap();
    let mut reply = [0u8; 64];
    let written =
        handle_request(&mut store, &mut cipher, badge, OP_WRITE, b"for both", &mut reply);
    assert_eq!(written, (status::OK, 0));

    // What happens in between to another file does not matter.
    let other = store.create().unwrap();
    let owner = store.request_file_access(|_, _, _| Ok(0x33), other, FileOps::ALL, 5, 8).unwrap();
    handle_request(&mut store, &mut cipher, owner, OP_WRITE, b"elsewhere", &mut reply);

    let (code, len) =
        handle_request(&mut store, &mut cipher, reader, OP_READ, b"ignored", &mut reply);
    assert_eq!(code, status::OK);
    assert_eq!(&reply[..len], b"for both");
}

#[test]
fn a_request_reaches_no_file_but_its_own() {
    let (mut store, mut cipher, badge, _) = granted_store();
    let other = store.create().unwrap();
    let owner = store.request_file_access(|_, _, _| Ok(0x33), other, FileOps::ALL, 5, 8).unwrap();
    let mut reply = [0u8; 64];
    handle_request(&mut store, &mut cipher, owner, OP_WRITE, b"mine", &mut reply);
    handle_request(&mut store, &mut cipher, badge, OP_WRITE, b"yours", &mut reply);

    let n = store.read(&mut cipher, owner, other, &mut reply).unwrap();
    assert_eq!(&reply[..n], b"mine");
}

#[test]
fn a_request_for_a_destroyed_file_is_answered_with_access() {
    let (mut store, mut cipher, badge, file) = granted_store();
    let mut reply = [0u8; 64];
    handle_request(&mut store, &mut cipher, badge, OP_WRITE, b"soon gone", &mut reply);
    store.destroy(file).unwrap();
    let encryptions = cipher.encryptions;

    let read = handle_request(&mut store, &mut cipher, badge, OP_READ, &[], &mut reply);
    assert_eq!(read, (status::ACCESS, 0));
    let written = handle_request(&mut store, &mut cipher, badge, OP_WRITE, b"again", &mut reply);
    assert_eq!(written, (status::ACCESS, 0));
    assert_eq!(store.live_blocks(), 0);
    assert_eq!(cipher.encryptions, encryptions);
    assert_eq!(cipher.decryptions, 0);
}

#[test]
fn a_decryption_by_exchange_undoes_an_encryption() {
    let mut service = TestCipher::new(5);
    let (nonce, aad) = ([4u8; NONCE_LEN], [8u8; 32]);
    let mut buffer = *b"over the channel";

    let tag = encrypt_by_exchange(
        |nonce: &[u8; NONCE_LEN], aad: &[u8], plaintext: &[u8]| {
            let mut sealed = plaintext.to_vec();
            let tag = service.encrypt(nonce, aad, &mut sealed).unwrap();
            Exchange::Replied { status: status::OK, reply: Some((tag, sealed)) }
        },
        &nonce,
        &aad,
        &mut buffer,
    )
    .unwrap();
    assert_ne!(&buffer, b"over the channel");

    let opened = decrypt_by_exchange(
        |nonce: &[u8; NONCE_LEN], aad: &[u8], ciphertext: &[u8], tag: &[u8; TAG_LEN]| {
            let mut opened = ciphertext.to_vec();
            service.decrypt(nonce, aad, &mut opened, tag).unwrap();
            Exchange::Replied { status: status::OK, reply: opened }
        },
        &nonce,
        &aad,
        &mut buffer,
        &tag,
    );
    assert_eq!(opened, Ok(()));
    assert_eq!(&buffer, b"over the channel");
    assert_eq!((service.encryptions, service.decryptions), (1, 1));
}
