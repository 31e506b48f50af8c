//! The store itself: content, sharing, collection and access.
use chacha20poly1305::aead::{AeadInPlace, KeyInit};
use chacha20poly1305::{ChaCha20Poly1305, Key, Nonce, Tag};
use lantern_filesystem::address::{content_hash, nonce_from_hash, NONCE_LEN, TAG_LEN};
use lantern_filesystem::cipher::Cipher;
use lantern_filesystem::error::{KeystoreError, SyscallError};
use lantern_filesystem::ops::Rights;
use lantern_filesystem::store::Sealed;
use lantern_filesystem::{FileId, FileOps, Store, StoreError, MAX_BLOCK_LEN, MAX_FILES, MAX_GRANTS};

const SOURCE_SLOT: usize = 5;
const SCRATCH_SLOT: usize = 6;

/// ChaCha20-Poly1305 under one fixed key. `refusal` makes every call fail.
struct TestCipher {
    key: [u8; 32],
    refusal: Option<StoreError>,
    encryptions: usize,
    decryptions: usize,
}

impl TestCipher {
    fn new(byte: u8) -> Self {
        TestCipher { key: [byte; 32], refusal: None, encryptions: 0, decryptions: 0 }
    }

    fn refusing(err: StoreError) -> Self {
        TestCipher { refusal: Some(err), ..TestCipher::new(3) }
    }
}

impl Cipher for TestCipher {
    /// Only contracts speak of the key.
    fn key(&self) -> lantern_filesystem::cipher::Key {
        unreachable!()
    }

    fn encrypt(
        &mut self,
        nonce: &[u8; NONCE_LEN],
        aad: &[u8],
        buffer: &mut [u8],
    ) -> Result<[u8; TAG_LEN], StoreError> {
        self.encryptions += 1;
        if let Some(err) = self.refusal {
            return Err(err);
        }
        let aead = ChaCha20Poly1305::new(Key::from_slice(&self.key));
        let tag = aead
            .encrypt_in_place_detached(Nonce::from_slice(nonce), aad, buffer)
            .map_err(|_| StoreError::CryptoFailure(KeystoreError(1)))?;
        Ok(tag.into())
    }

    fn decrypt(
        &mut self,
        nonce: &[u8; NONCE_LEN],
        aad: &[u8],
        buffer: &mut [u8],
        tag: &[u8; TAG_LEN],
    ) -> Result<(), StoreError> {
        self.decryptions += 1;
        if let Some(err) = self.refusal {
            return Err(err);
        }
        ChaCha20Poly1305::new(Key::from_slice(&self.key))
            .decrypt_in_place_detached(Nonce::from_slice(nonce), aad, buffer, Tag::from_slice(tag))
            .map_err(|_| StoreError::CryptoFailure(KeystoreError(2)))
    }
}

struct Fixture {
    store: Store,
    cipher: TestCipher,
    next_badge: u64,
}

fn setup() -> Fixture {
    Fixture { store: Store::new(), cipher: TestCipher::new(3), next_badge: 1 }
}

/// Requests access to `file`, with a kernel that mints a fresh badge, and
/// delivers it.
fn grant_access(f: &mut Fixture, file: FileId, ops: FileOps, scratch_slot: usize) -> u64 {
    let fresh = f.next_badge;
    f.next_badge += 1;
    let badge = f
        .store
        .request_file_access(|_, _, _| Ok(fresh), file, ops, SOURCE_SLOT, scratch_slot)
        .unwrap();
    f.store.deliver_grant(|_, _, _| Ok(()), 1, scratch_slot, (0, 0)).unwrap();
    badge
}

#[test]
fn lib_write_then_read_round_trips() {
    let mut f = setup();
    let file = f.store.create().unwrap();
    let badge = grant_access(&mut f, file, FileOps::ALL, SCRATCH_SLOT);

    f.store.write(&mut f.cipher, badge, file, b"hello, lantern").unwrap();
    let mut buf = [0u8; 32];
    let n = f.store.read(&mut f.cipher, badge, file, &mut buf).unwrap();
    assert_eq!(&buf[..n], b"hello, lantern");
}

#[test]
fn reading_an_empty_file_fails() {
    let mut f = setup();
    let file = f.store.create().unwrap();
    let badge = grant_access(&mut f, file, FileOps::ALL, SCRATCH_SLOT);

    let mut buf = [0u8; 32];
    assert_eq!(f.store.read(&mut f.cipher, badge, file, &mut buf), Err(StoreError::FileEmpty));
}

#[test]
fn identical_content_across_two_files_deduplicates_into_one_block() {
    let mut f = setup();
    let file_a = f.store.create().unwrap();
    let file_b = f.store.create().unwrap();
    let badge_a = grant_access(&mut f, file_a, FileOps::ALL, SCRATCH_SLOT);
    let badge_b = grant_access(&mut f, file_b, FileOps::ALL, SCRATCH_SLOT + 1);

    f.store.write(&mut f.cipher, badge_a, file_a, b"same content").unwrap();
    f.store.write(&mut f.cipher, badge_b, file_b, b"same content").unwrap();

    assert_eq!(
        f.store.live_blocks(),
        1,
        "identical plaintext must dedup into a single stored block"
    );

    // Destroying one file's reference must not disturb the other's.
    f.store.destroy(file_a).unwrap();
    let mut buf = [0u8; 32];
    let n = f.store.read(&mut f.cipher, badge_b, file_b, &mut buf).unwrap();
    assert_eq!(&buf[..n], b"same content");
}

#[test]
fn destroying_the_last_reference_frees_the_block_slot() {
    let mut f = setup();
    let file = f.store.create().unwrap();
    let badge = grant_access(&mut f, file, FileOps::ALL, SCRATCH_SLOT);
    f.store.write(&mut f.cipher, badge, file, b"solo content").unwrap();
    assert_eq!(f.store.live_blocks(), 1);

    f.store.destroy(file).unwrap();
    assert_eq!(
        f.store.live_blocks(),
        0,
        "the only reference was destroyed -- the block must be reclaimed"
    );
}

#[test]
fn rewriting_a_file_releases_its_previous_block() {
    let mut f = setup();
    let file = f.store.create().unwrap();
    let badge = grant_access(&mut f, file, FileOps::ALL, SCRATCH_SLOT);

    f.store.write(&mut f.cipher, badge, file, b"first version").unwrap();
    f.store.write(&mut f.cipher, badge, file, b"second version").unwrap();
    assert_eq!(
        f.store.live_blocks(),
        1,
        "the first version's block must be released, not leaked"
    );

    let mut buf = [0u8; 32];
    let n = f.store.read(&mut f.cipher, badge, file, &mut buf).unwrap();
    assert_eq!(&buf[..n], b"second version");
}

#[test]
fn rewriting_a_file_with_its_own_current_content_does_not_drift_the_refcount() {
    let mut f = setup();
    let file = f.store.create().unwrap();
    let badge = grant_access(&mut f, file, FileOps::ALL, SCRATCH_SLOT);

    f.store.write(&mut f.cipher, badge, file, b"stable content").unwrap();
    f.store.write(&mut f.cipher, badge, file, b"stable content").unwrap();
    f.store.destroy(file).unwrap();
    assert_eq!(
        f.store.live_blocks(),
        0,
        "a refcount that drifted high would leak the block here"
    );
}

#[test]
fn badge_scoped_to_read_cannot_write() {
    let mut f = setup();
    let file = f.store.create().unwrap();
    let badge = grant_access(&mut f, file, FileOps::READ, SCRATCH_SLOT);
    assert_eq!(
        f.store.write(&mut f.cipher, badge, file, b"nope"),
        Err(StoreError::OpNotGranted)
    );
}

#[test]
fn badge_scoped_to_a_different_file_is_rejected() {
    let mut f = setup();
    let file_a = f.store.create().unwrap();
    let file_b = f.store.create().unwrap();
    let badge_a = grant_access(&mut f, file_a, FileOps::ALL, SCRATCH_SLOT);

    assert_eq!(
        f.store.write(&mut f.cipher, badge_a, file_b, b"nope"),
        Err(StoreError::WrongFile)
    );
}

#[test]
fn revoked_badge_is_rejected() {
    let mut f = setup();
    let file = f.store.create().unwrap();
    let badge = grant_access(&mut f, file, FileOps::ALL, SCRATCH_SLOT);
    f.store.revoke_access(|_| Ok(()), badge).unwrap();
    assert_eq!(
        f.store.write(&mut f.cipher, badge, file, b"nope"),
        Err(StoreError::BadgeRevoked)
    );
}

#[test]
fn destroyed_file_id_is_never_reused_by_a_later_create_call() {
    let mut f = setup();
    let file_a = f.store.create().unwrap();
    f.store.destroy(file_a).unwrap();
    let file_b = f.store.create().unwrap();
    assert_ne!(
        file_a, file_b,
        "a destroyed FileId must never be handed to a new, unrelated file"
    );
}

#[test]
fn content_over_the_block_size_ceiling_is_rejected() {
    let mut f = setup();
    let file = f.store.create().unwrap();
    let badge = grant_access(&mut f, file, FileOps::ALL, SCRATCH_SLOT);
    let oversized = [0u8; MAX_BLOCK_LEN + 1];
    assert_eq!(
        f.store.write(&mut f.cipher, badge, file, &oversized),
        Err(StoreError::ContentTooLarge)
    );
}

// ---- addresses

#[test]
fn the_address_is_the_blake3_hash_of_the_plaintext() {
    let empty = content_hash(b"");
    assert_eq!(&empty[..8], &[0xaf, 0x13, 0x49, 0xb9, 0xf5, 0xf9, 0xa1, 0xa6]);
    let abc = content_hash(b"abc");
    assert_eq!(&abc[..8], &[0x64, 0x37, 0xb3, 0xac, 0x38, 0x46, 0x51, 0x33]);
    assert_eq!(abc, *blake3::hash(b"abc").as_bytes());
}

#[test]
fn the_nonce_is_the_front_of_the_hash() {
    let mut hash = [0u8; 32];
    for (i, byte) in hash.iter_mut().enumerate() {
        *byte = i as u8;
    }
    assert_eq!(nonce_from_hash(&hash), [0, 1, 2, 3, 4, 5, 6, 7, 8, 9, 10, 11]);
}

// ---- operations

#[test]
fn operations_combine_and_include_as_sets() {
    let all = [FileOps::NONE, FileOps::READ, FileOps::WRITE, FileOps::ALL];
    assert_eq!(FileOps::READ.union(FileOps::WRITE), FileOps::ALL);
    assert_eq!(FileOps::WRITE.union(FileOps::READ), FileOps::ALL);
    assert_eq!(FileOps::READ.union(FileOps::NONE), FileOps::READ);
    assert_eq!(FileOps::NONE.union(FileOps::NONE), FileOps::NONE);
    for a in all {
        assert_eq!(a.union(FileOps::ALL), FileOps::ALL);
        assert_eq!(a.union(a), a);
        assert!(a.contains(FileOps::NONE));
        assert!(a.contains(a));
        assert!(FileOps::ALL.contains(a));
        for b in all {
            assert!(a.union(b).contains(a) && a.union(b).contains(b));
        }
    }
    assert!(!FileOps::READ.contains(FileOps::WRITE));
    assert!(!FileOps::READ.contains(FileOps::ALL));
    assert!(!FileOps::NONE.contains(FileOps::READ));
}

// ---- files

#[test]
fn files_run_out_and_destroying_one_does_not_make_room() {
    let mut store = Store::new();
    let mut files = Vec::new();
    for _ in 0..MAX_FILES {
        files.push(store.create().unwrap());
    }
    for (i, a) in files.iter().enumerate() {
        for b in &files[i + 1..] {
            assert_ne!(a, b);
        }
    }
    assert_eq!(store.create(), Err(StoreError::NotEnoughCapacity));
    store.destroy(files[4]).unwrap();
    assert_eq!(store.create(), Err(StoreError::NotEnoughCapacity));
}

#[test]
fn a_file_of_another_store_does_not_exist_here() {
    let mut other = Store::new();
    let foreign = other.create().unwrap();
    let mut store = Store::new();
    assert_eq!(store.destroy(foreign), Err(StoreError::NoSuchFile));
    assert_eq!(
        store.record_grant(foreign, FileOps::ALL, Ok(1)),
        Err(StoreError::NoSuchFile)
    );
}

#[test]
fn destroying_twice_succeeds() {
    let mut f = setup();
    let file = f.store.create().unwrap();
    assert_eq!(f.store.destroy(file), Ok(()));
    assert_eq!(f.store.destroy(file), Ok(()));
}

#[test]
fn a_destroyed_file_has_no_content_left() {
    let mut f = setup();
    let file = f.store.create().unwrap();
    let badge = grant_access(&mut f, file, FileOps::ALL, SCRATCH_SLOT);
    f.store.write(&mut f.cipher, badge, file, b"gone").unwrap();
    f.store.destroy(file).unwrap();
    let mut buf = [0u8; 32];
    assert_eq!(f.store.read(&mut f.cipher, badge, file, &mut buf), Err(StoreError::FileDestroyed));
    assert_eq!(buf, [0u8; 32]);
    assert_eq!(f.cipher.decryptions, 0);
}

#[test]
fn a_destroyed_file_cannot_be_written() {
    let mut f = setup();
    let file = f.store.create().unwrap();
    let badge = grant_access(&mut f, file, FileOps::ALL, SCRATCH_SLOT);
    f.store.destroy(file).unwrap();
    assert_eq!(
        f.store.write(&mut f.cipher, badge, file, b"nope"),
        Err(StoreError::FileDestroyed)
    );
    assert_eq!(f.store.live_blocks(), 0);
    assert_eq!(f.cipher.encryptions, 0);
    // Before the size of the content is looked at.
    let oversized = [0u8; MAX_BLOCK_LEN + 1];
    assert_eq!(
        f.store.write(&mut f.cipher, badge, file, &oversized),
        Err(StoreError::FileDestroyed)
    );
    // What the badge was not granted is refused first.
    let other = f.store.create().unwrap();
    let reader = grant_access(&mut f, other, FileOps::READ, SCRATCH_SLOT + 1);
    f.store.destroy(other).unwrap();
    assert_eq!(
        f.store.write(&mut f.cipher, reader, other, b"nope"),
        Err(StoreError::OpNotGranted)
    );
    let mut buf = [0u8; 4];
    assert_eq!(
        f.store.read(&mut f.cipher, reader, other, &mut buf),
        Err(StoreError::FileDestroyed)
    );
}

#[test]
fn a_destroyed_file_does_not_share_a_block_that_others_hold() {
    let mut f = setup();
    let kept = f.store.create().unwrap();
    let gone = f.store.create().unwrap();
    let badge_kept = grant_access(&mut f, kept, FileOps::ALL, SCRATCH_SLOT);
    let badge_gone = grant_access(&mut f, gone, FileOps::ALL, SCRATCH_SLOT + 1);
    f.store.write(&mut f.cipher, badge_kept, kept, b"shared").unwrap();
    f.store.destroy(gone).unwrap();
    assert_eq!(
        f.store.write(&mut f.cipher, badge_gone, gone, b"shared"),
        Err(StoreError::FileDestroyed)
    );
    f.store.destroy(kept).unwrap();
    assert_eq!(f.store.live_blocks(), 0);
}

// ---- grants

#[test]
fn no_badge_is_minted_for_a_destroyed_file() {
    let mut f = setup();
    let file = f.store.create().unwrap();
    f.store.destroy(file).unwrap();
    let mut asked = false;
    let granted = f.store.request_file_access(
        |_, _, _| {
            asked = true;
            Ok(1)
        },
        file,
        FileOps::ALL,
        SOURCE_SLOT,
        SCRATCH_SLOT,
    );
    assert_eq!(granted, Err(StoreError::FileDestroyed));
    assert!(!asked);
}

#[test]
fn nothing_is_minted_for_a_file_that_does_not_exist_or_when_grants_run_out() {
    let mut elsewhere = Store::new();
    elsewhere.create().unwrap();
    let foreign = elsewhere.create().unwrap();
    let mut store = Store::new();
    let file = store.create().unwrap();
    let mut asked = 0;
    let refused = store.request_file_access(
        |_, _, _| {
            asked += 1;
            Ok(1)
        },
        foreign,
        FileOps::ALL,
        SOURCE_SLOT,
        SCRATCH_SLOT,
    );
    assert_eq!(refused, Err(StoreError::NoSuchFile));
    for badge in 0..MAX_GRANTS as u64 {
        store.record_grant(file, FileOps::READ, Ok(badge)).unwrap();
    }
    let refused = store.request_file_access(
        |_, _, _| {
            asked += 1;
            Ok(1000)
        },
        file,
        FileOps::ALL,
        SOURCE_SLOT,
        SCRATCH_SLOT,
    );
    assert_eq!(refused, Err(StoreError::NotEnoughCapacity));
    assert_eq!(asked, 0);
    assert_eq!(store.file_for_badge(1000), None);
}

#[test]
fn the_kernel_is_asked_for_a_capability_to_call_through_and_pass_on() {
    let mut f = setup();
    let file = f.store.create().unwrap();
    let mut asked = None;
    let granted = f.store.request_file_access(
        |source, scratch, rights| {
            asked = Some((source, scratch, rights));
            Ok(77)
        },
        file,
        FileOps::READ,
        SOURCE_SLOT,
        SCRATCH_SLOT,
    );
    assert_eq!(granted, Ok(77));
    let rights = Rights { read: false, write: true, grant: true };
    assert_eq!(asked, Some((SOURCE_SLOT, SCRATCH_SLOT, rights)));
    assert_eq!(f.store.file_for_badge(77), Some(file));
}

#[test]
fn a_kernel_that_refuses_to_mint_leaves_no_grant() {
    let mut f = setup();
    let file = f.store.create().unwrap();
    let granted = f.store.request_file_access(
        |_, _, _| Err(SyscallError::IllegalOperation),
        file,
        FileOps::ALL,
        SOURCE_SLOT,
        SCRATCH_SLOT,
    );
    assert_eq!(granted, Err(StoreError::Kernel(SyscallError::IllegalOperation)));
    assert_eq!(
        f.store.record_grant(file, FileOps::ALL, Err(SyscallError::Other(9))),
        Err(StoreError::Kernel(SyscallError::Other(9)))
    );
    assert_eq!(f.store.file_for_badge(0), None);
}

#[test]
fn grants_run_out() {
    let mut store = Store::new();
    let file = store.create().unwrap();
    for badge in 0..MAX_GRANTS as u64 {
        assert_eq!(store.record_grant(file, FileOps::READ, Ok(badge)), Ok(badge));
    }
    assert_eq!(
        store.record_grant(file, FileOps::READ, Ok(1000)),
        Err(StoreError::NotEnoughCapacity)
    );
}

#[test]
fn delivery_reports_what_the_kernel_answers() {
    let store = Store::new();
    let mut seen = None;
    let sent = store.deliver_grant(
        |endpoint, scratch, payload| {
            seen = Some((endpoint, scratch, payload));
            Ok(())
        },
        1,
        SCRATCH_SLOT,
        (7, 8),
    );
    assert_eq!(sent, Ok(()));
    assert_eq!(seen, Some((1, SCRATCH_SLOT, (7, 8))));
    let refused = store.deliver_grant(|_, _, _| Err(SyscallError::Other(3)), 1, 2, (0, 0));
    assert_eq!(refused, Err(StoreError::Kernel(SyscallError::Other(3))));

    let mut seen = None;
    let sent = store.deliver_grant_via_reply(
        |scratch, payload| {
            seen = Some((scratch, payload));
            Ok(())
        },
        SCRATCH_SLOT,
        (7, 8),
    );
    assert_eq!(sent, Ok(()));
    assert_eq!(seen, Some((SCRATCH_SLOT, (7, 8))));
    let refused =
        store.deliver_grant_via_reply(|_, _| Err(SyscallError::IllegalOperation), 2, (0, 0));
    assert_eq!(refused, Err(StoreError::Kernel(SyscallError::IllegalOperation)));
}

// ---- access

#[test]
fn an_unknown_badge_is_refused() {
    let mut f = setup();
    let file = f.store.create().unwrap();
    let mut buf = [7u8; 8];
    assert_eq!(
        f.store.write(&mut f.cipher, 99, file, b"nope"),
        Err(StoreError::UnknownBadge)
    );
    assert_eq!(
        f.store.read(&mut f.cipher, 99, file, &mut buf),
        Err(StoreError::UnknownBadge)
    );
    assert_eq!(buf, [7u8; 8]);
    assert_eq!(f.cipher.encryptions + f.cipher.decryptions, 0);
}

#[test]
fn badge_scoped_to_write_cannot_read() {
    let mut f = setup();
    let file = f.store.create().unwrap();
    let badge = grant_access(&mut f, file, FileOps::WRITE, SCRATCH_SLOT);
    f.store.write(&mut f.cipher, badge, file, b"secret").unwrap();
    let mut buf = [0u8; 32];
    assert_eq!(
        f.store.read(&mut f.cipher, badge, file, &mut buf),
        Err(StoreError::OpNotGranted)
    );
    assert_eq!(buf, [0u8; 32]);
}

#[test]
fn a_revoked_badge_stays_revoked() {
    let mut f = setup();
    let file = f.store.create().unwrap();
    let badge = grant_access(&mut f, file, FileOps::ALL, SCRATCH_SLOT);
    f.store.write(&mut f.cipher, badge, file, b"before").unwrap();
    f.store.revoke_access(|_| Ok(()), badge).unwrap();
    let other = grant_access(&mut f, file, FileOps::ALL, SCRATCH_SLOT + 1);
    f.store.write(&mut f.cipher, other, file, b"after").unwrap();
    let mut buf = [0u8; 32];
    assert_eq!(
        f.store.read(&mut f.cipher, badge, file, &mut buf),
        Err(StoreError::BadgeRevoked)
    );
    assert_eq!(f.store.read(&mut f.cipher, other, file, &mut buf), Ok(5));
    assert_eq!(f.store.file_for_badge(badge), Some(file));
}

#[test]
fn a_failed_revocation_changes_nothing() {
    let mut f = setup();
    let file = f.store.create().unwrap();
    let badge = grant_access(&mut f, file, FileOps::ALL, SCRATCH_SLOT);
    assert_eq!(
        f.store.revoke_access(|_| Err(SyscallError::Other(4)), badge),
        Err(StoreError::Kernel(SyscallError::Other(4)))
    );
    assert_eq!(f.store.write(&mut f.cipher, badge, file, b"still here"), Ok(()));
    assert_eq!(f.store.record_revocation(badge, Ok(())), Ok(()));
    assert_eq!(
        f.store.write(&mut f.cipher, badge, file, b"no more"),
        Err(StoreError::BadgeRevoked)
    );
}

// ---- sealing and opening

#[test]
fn shared_content_is_sealed_once() {
    let mut f = setup();
    let file_a = f.store.create().unwrap();
    let file_b = f.store.create().unwrap();
    let a = grant_access(&mut f, file_a, FileOps::ALL, SCRATCH_SLOT);
    let b = grant_access(&mut f, file_b, FileOps::ALL, SCRATCH_SLOT + 1);
    f.store.write(&mut f.cipher, a, file_a, b"shared").unwrap();
    assert_eq!(f.cipher.encryptions, 1);
    f.store.write(&mut f.cipher, b, file_b, b"shared").unwrap();
    f.store.write(&mut f.cipher, a, file_a, b"shared").unwrap();
    assert_eq!(f.cipher.encryptions, 1);

    // A cipher that refuses everything is no obstacle to content already held.
    let mut broken = TestCipher::refusing(StoreError::CryptoFailure(KeystoreError(7)));
    assert_eq!(f.store.write(&mut broken, b, file_b, b"shared"), Ok(()));
    assert_eq!(broken.encryptions, 0);
}

#[test]
fn a_write_that_cannot_be_sealed_keeps_the_old_content() {
    let mut f = setup();
    let file = f.store.create().unwrap();
    let badge = grant_access(&mut f, file, FileOps::ALL, SCRATCH_SLOT);
    f.store.write(&mut f.cipher, badge, file, b"old").unwrap();
    let err = StoreError::CryptoFailure(KeystoreError(7));
    let mut broken = TestCipher::refusing(err);
    assert_eq!(f.store.write(&mut broken, badge, file, b"new"), Err(err));
    assert_eq!(broken.encryptions, 1);
    assert_eq!(f.store.live_blocks(), 1);
    let mut buf = [0u8; 32];
    assert_eq!(f.store.read(&mut f.cipher, badge, file, &mut buf), Ok(3));
    assert_eq!(&buf[..3], b"old");
}

#[test]
fn a_block_opens_only_under_the_key_it_was_sealed_with() {
    let mut f = setup();
    let file = f.store.create().unwrap();
    let badge = grant_access(&mut f, file, FileOps::ALL, SCRATCH_SLOT);
    f.store.write(&mut f.cipher, badge, file, b"keyed").unwrap();
    let mut other = TestCipher::new(4);
    let mut buf = [0u8; 32];
    assert_eq!(
        f.store.read(&mut other, badge, file, &mut buf),
        Err(StoreError::CryptoFailure(KeystoreError(2)))
    );
    assert_eq!(&buf[5..], &[0u8; 27][..]);
    // A second cipher with the same key will do.
    let mut same = TestCipher::new(3);
    assert_eq!(f.store.read(&mut same, badge, file, &mut buf), Ok(5));
    assert_eq!(&buf[..5], b"keyed");
}

#[test]
fn a_read_fills_only_the_front_of_the_buffer() {
    let mut f = setup();
    let file = f.store.create().unwrap();
    let badge = grant_access(&mut f, file, FileOps::ALL, SCRATCH_SLOT);
    f.store.write(&mut f.cipher, badge, file, b"front").unwrap();
    let mut buf = [0xAAu8; 8];
    assert_eq!(f.store.read(&mut f.cipher, badge, file, &mut buf), Ok(5));
    assert_eq!(&buf, b"front\xAA\xAA\xAA");
}

#[test]
fn a_buffer_that_is_too_small_is_left_alone() {
    let mut f = setup();
    let file = f.store.create().unwrap();
    let badge = grant_access(&mut f, file, FileOps::ALL, SCRATCH_SLOT);
    f.store.write(&mut f.cipher, badge, file, b"six by").unwrap();
    let mut small = [1u8; 5];
    assert_eq!(
        f.store.read(&mut f.cipher, badge, file, &mut small),
        Err(StoreError::ContentTooLarge)
    );
    assert_eq!(small, [1u8; 5]);
    let mut exact = [0u8; 6];
    assert_eq!(f.store.read(&mut f.cipher, badge, file, &mut exact), Ok(6));
    assert_eq!(&exact, b"six by");
}

#[test]
fn the_largest_and_the_smallest_content_round_trip() {
    let mut f = setup();
    let file = f.store.create().unwrap();
    let badge = grant_access(&mut f, file, FileOps::ALL, SCRATCH_SLOT);
    let mut buf = [9u8; MAX_BLOCK_LEN];
    f.store.write(&mut f.cipher, badge, file, &[5u8; MAX_BLOCK_LEN]).unwrap();
    assert_eq!(f.store.read(&mut f.cipher, badge, file, &mut buf), Ok(MAX_BLOCK_LEN));
    assert_eq!(buf, [5u8; MAX_BLOCK_LEN]);
    f.store.write(&mut f.cipher, badge, file, b"").unwrap();
    assert_eq!(f.store.read(&mut f.cipher, badge, file, &mut buf), Ok(0));
    assert_eq!(f.store.live_blocks(), 1);
}

#[test]
fn every_file_can_hold_its_own_content_and_be_rewritten() {
    let mut f = setup();
    let mut files = Vec::new();
    for i in 0..MAX_FILES {
        let file = f.store.create().unwrap();
        let badge = grant_access(&mut f, file, FileOps::ALL, SCRATCH_SLOT + i);
        f.store.write(&mut f.cipher, badge, file, &[i as u8; 3]).unwrap();
        files.push((file, badge));
    }
    assert_eq!(f.store.live_blocks(), MAX_FILES);
    for (i, (file, badge)) in files.iter().enumerate() {
        f.store.write(&mut f.cipher, *badge, *file, &[100 + i as u8; 4]).unwrap();
    }
    assert_eq!(f.store.live_blocks(), MAX_FILES);
    for (i, (file, badge)) in files.iter().enumerate() {
        let mut buf = [0u8; 8];
        assert_eq!(f.store.read(&mut f.cipher, *badge, *file, &mut buf), Ok(4));
        assert_eq!(&buf[..4], &[100 + i as u8; 4]);
    }
}

#[test]
fn content_survives_what_happens_to_other_files() {
    let mut f = setup();
    let kept = f.store.create().unwrap();
    let other = f.store.create().unwrap();
    let kept_badge = grant_access(&mut f, kept, FileOps::ALL, SCRATCH_SLOT);
    let other_badge = grant_access(&mut f, other, FileOps::ALL, SCRATCH_SLOT + 1);
    f.store.write(&mut f.cipher, kept_badge, kept, b"kept").unwrap();
    f.store.write(&mut f.cipher, other_badge, other, b"kept").unwrap();
    f.store.write(&mut f.cipher, other_badge, other, b"moved on").unwrap();
    f.store.destroy(other).unwrap();
    f.store.revoke_access(|_| Ok(()), other_badge).unwrap();
    f.store.create().unwrap();
    let mut buf = [0u8; 16];
    assert_eq!(f.store.read(&mut f.cipher, kept_badge, kept, &mut buf), Ok(4));
    assert_eq!(&buf[..4], b"kept");
}

#[test]
fn a_sealed_write_goes_by_the_address_and_the_outcome_it_is_given() {
    let mut store = Store::new();
    let a = store.create().unwrap();
    let b = store.create().unwrap();
    store.record_grant(a, FileOps::ALL, Ok(1)).unwrap();
    store.record_grant(b, FileOps::ALL, Ok(2)).unwrap();
    let err = StoreError::RemoteCryptoDenied(3);
    assert_eq!(store.write_sealed(1, a, b"x", &[1; 32], Err(err)), Err(err));
    assert_eq!(store.live_blocks(), 0);
    let sealed = Sealed { ciphertext: [8; MAX_BLOCK_LEN], tag: [9; TAG_LEN] };
    assert_eq!(store.write_sealed(1, a, b"x", &[1; 32], Ok(sealed)), Ok(()));
    assert_eq!(store.live_blocks(), 1);
    // The address is held: the outcome of the sealing does not count.
    assert_eq!(store.write_sealed(2, b, b"x", &[1; 32], Err(err)), Ok(()));
    assert_eq!(store.live_blocks(), 1);
    assert_eq!(store.write_sealed(2, a, b"x", &[1; 32], Err(err)), Err(StoreError::WrongFile));
    let long = [0u8; MAX_BLOCK_LEN + 1];
    assert_eq!(
        store.write_sealed(1, a, &long, &[1; 32], Err(err)),
        Err(StoreError::ContentTooLarge)
    );
}

#[test]
fn a_read_returns_the_outcome_of_the_opening() {
    let mut f = setup();
    let file = f.store.create().unwrap();
    let badge = grant_access(&mut f, file, FileOps::ALL, SCRATCH_SLOT);
    let err = StoreError::RemoteCryptoDenied(1);
    assert_eq!(f.store.read_opened(badge, file, 32, Ok(())), Err(StoreError::FileEmpty));
    f.store.write(&mut f.cipher, badge, file, b"four").unwrap();
    assert_eq!(f.store.read_opened(badge, file, 32, Ok(())), Ok(4));
    assert_eq!(f.store.read_opened(badge, file, 32, Err(err)), Err(err));
    assert_eq!(f.store.read_opened(badge, file, 3, Ok(())), Err(StoreError::ContentTooLarge));
    assert_eq!(f.store.read_opened(99, file, 32, Ok(())), Err(StoreError::UnknownBadge));
}

#[test]
fn what_is_read_hashes_to_the_address_of_what_was_written() {
    let mut f = setup();
    let file = f.store.create().unwrap();
    let badge = grant_access(&mut f, file, FileOps::ALL, SCRATCH_SLOT);
    let address = content_hash(b"named by its hash");
    f.store.write(&mut f.cipher, badge, file, b"named by its hash").unwrap();
    let mut buf = [0u8; 32];
    let n = f.store.read(&mut f.cipher, badge, file, &mut buf).unwrap();
    assert_eq!(content_hash(&buf[..n]), address);
}

#[test]
fn the_cipher_decides_which_error_a_failed_sealing_or_opening_is() {
    let mut f = setup();
    let file = f.store.create().unwrap();
    let badge = grant_access(&mut f, file, FileOps::ALL, SCRATCH_SLOT);
    let mut refusing = TestCipher::refusing(StoreError::RemoteCryptoDenied(3));
    assert_eq!(
        f.store.write(&mut refusing, badge, file, b"refused"),
        Err(StoreError::RemoteCryptoDenied(3))
    );
    assert_eq!(refusing.encryptions, 1);

    f.store.write(&mut f.cipher, badge, file, b"sealed").unwrap();
    let mut buf = [0u8; 32];
    assert_eq!(
        f.store.read(&mut refusing, badge, file, &mut buf),
        Err(StoreError::RemoteCryptoDenied(3))
    );
    assert_eq!(refusing.decryptions, 1);
}

#[test]
fn a_wrong_file_is_reported_whatever_was_granted() {
    for ops in [FileOps::NONE, FileOps::READ, FileOps::WRITE, FileOps::ALL] {
        let mut f = setup();
        let granted = f.store.create().unwrap();
        let other = f.store.create().unwrap();
        let badge = grant_access(&mut f, granted, ops, SCRATCH_SLOT);
        let mut buf = [0u8; 4];
        assert_eq!(
            f.store.write(&mut f.cipher, badge, other, b"nope"),
            Err(StoreError::WrongFile)
        );
        assert_eq!(
            f.store.read(&mut f.cipher, badge, other, &mut buf),
            Err(StoreError::WrongFile)
        );
    }
}

#[test]
fn a_joint_grant_allows_both_operations_and_a_single_one_only_its_own() {
    let mut f = setup();
    let file = f.store.create().unwrap();
    let both = grant_access(&mut f, file, FileOps::READ.union(FileOps::WRITE), SCRATCH_SLOT);
    let one = grant_access(&mut f, file, FileOps::WRITE, SCRATCH_SLOT + 1);
    let mut buf = [0u8; 4];
    f.store.write(&mut f.cipher, both, file, b"abcd").unwrap();
    assert_eq!(f.store.read(&mut f.cipher, both, file, &mut buf), Ok(4));
    f.store.write(&mut f.cipher, one, file, b"efgh").unwrap();
    assert_eq!(
        f.store.read(&mut f.cipher, one, file, &mut buf),
        Err(StoreError::OpNotGranted)
    );
}

#[test]
fn a_file_is_empty_only_before_its_first_write() {
    let mut f = setup();
    let file = f.store.create().unwrap();
    let badge = grant_access(&mut f, file, FileOps::ALL, SCRATCH_SLOT);
    let mut buf = [0u8; 4];
    let mut refusing = TestCipher::refusing(StoreError::CryptoFailure(KeystoreError(7)));
    assert!(f.store.write(&mut refusing, badge, file, b"no").is_err());
    assert_eq!(f.store.read(&mut f.cipher, badge, file, &mut buf), Err(StoreError::FileEmpty));
    f.store.write(&mut f.cipher, badge, file, b"").unwrap();
    assert_eq!(f.store.read(&mut f.cipher, badge, file, &mut buf), Ok(0));
    f.store.destroy(file).unwrap();
    assert_eq!(
        f.store.read(&mut f.cipher, badge, file, &mut buf),
        Err(StoreError::FileDestroyed)
    );
}

/// Writes a file while another is left alone, or written and destroyed before,
/// between and after with the same contents, and reads the file.
fn read_amid(busy: bool) -> (Result<usize, StoreError>, [u8; 16]) {
    let mut f = setup();
    let file = f.store.create().unwrap();
    let other = f.store.create().unwrap();
    let badge = grant_access(&mut f, file, FileOps::ALL, SCRATCH_SLOT);
    let busy_badge = grant_access(&mut f, other, FileOps::ALL, SCRATCH_SLOT + 1);
    if busy {
        f.store.write(&mut f.cipher, busy_badge, other, b"second").unwrap();
    }
    f.store.write(&mut f.cipher, badge, file, b"first").unwrap();
    if busy {
        f.store.write(&mut f.cipher, busy_badge, other, b"first").unwrap();
    }
    f.store.write(&mut f.cipher, badge, file, b"second").unwrap();
    if busy {
        f.store.write(&mut f.cipher, busy_badge, other, b"second").unwrap();
        f.store.destroy(other).unwrap();
    }
    let mut buf = [0u8; 16];
    (f.store.read(&mut f.cipher, badge, file, &mut buf), buf)
}

#[test]
fn what_happens_to_other_files_never_shows_in_a_read() {
    let quiet = read_amid(false);
    assert_eq!(quiet.0, Ok(6));
    assert_eq!(&quiet.1[..6], b"second");
    assert_eq!(read_amid(true), quiet);
}

#[test]
fn a_refused_write_spares_the_content_and_a_later_grant_reads_it() {
    let mut f = setup();
    let file = f.store.create().unwrap();
    let writer = grant_access(&mut f, file, FileOps::WRITE, SCRATCH_SLOT);
    f.store.write(&mut f.cipher, writer, file, b"kept").unwrap();

    let oversized = [0u8; MAX_BLOCK_LEN + 1];
    assert_eq!(
        f.store.write(&mut f.cipher, writer, file, &oversized),
        Err(StoreError::ContentTooLarge)
    );
    let mut refusing = TestCipher::refusing(StoreError::CryptoFailure(KeystoreError(7)));
    assert_eq!(
        f.store.write(&mut refusing, writer, file, b"not sealed"),
        Err(StoreError::CryptoFailure(KeystoreError(7)))
    );
    f.store.revoke_access(|_| Ok(()), writer).unwrap();
    assert_eq!(
        f.store.write(&mut f.cipher, writer, file, b"revoked"),
        Err(StoreError::BadgeRevoked)
    );

    let reader = grant_access(&mut f, file, FileOps::READ, SCRATCH_SLOT + 1);
    let mut buf = [0u8; 4];
    assert_eq!(f.store.read(&mut f.cipher, reader, file, &mut buf), Ok(4));
    assert_eq!(&buf, b"kept");
}

#[test]
fn revoking_a_badge_that_was_granted_nothing_records_nothing() {
    let mut f = setup();
    let file = f.store.create().unwrap();
    assert_eq!(f.store.revoke_access(|_| Ok(()), 1), Ok(()));
    assert_eq!(
        f.store.write(&mut f.cipher, 1, file, b"nope"),
        Err(StoreError::UnknownBadge)
    );
    let badge = grant_access(&mut f, file, FileOps::ALL, SCRATCH_SLOT);
    assert_eq!(badge, 1);
    assert_eq!(f.store.write(&mut f.cipher, badge, file, b"stands"), Ok(()));
}
