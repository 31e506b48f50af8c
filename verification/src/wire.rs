//! The store's half of the call protocol of confined services.
//!
//! A request is an operation code and a payload, sent by a badge; a reply is a
//! status and a payload. Neither operation frames its payload further: the
//! payload of a READ request is ignored and its reply is the file's bytes, that
//! of a WRITE request is the file's bytes and its reply is empty. Reassembling a
//! request and sending the reply is the transport's work.
use vstd::prelude::*;

use crate::address::{blake3_digest, nonce_of, NONCE_LEN, TAG_LEN};
use crate::cipher::Cipher;
use crate::error::StoreError;
use crate::model::{is_opening, is_sealing, sealed_by, FileId, StoreView};
use crate::store::Store;

pub mod status;

verus! {

/// Operation code of a read.
pub const OP_READ: u16 = 1;

/// Operation code of a write.
pub const OP_WRITE: u16 = 2;

/// The status that reports `err`.
pub open spec fn status_of(err: StoreError) -> u16 {
    match err {
        StoreError::UnknownBadge
        | StoreError::BadgeRevoked
        | StoreError::OpNotGranted
        | StoreError::WrongFile
        | StoreError::NoSuchFile
        | StoreError::FileDestroyed => status::ACCESS,
        StoreError::ContentTooLarge => status::INVALID,
        StoreError::FileEmpty => status::OK,
        _ => status::FAILED,
    }
}

/// The reply to a read that returned `read`: only a success has a payload.
pub open spec fn reply_to_read(read: Result<usize, StoreError>) -> (u16, usize) {
    match read {
        Ok(len) => (status::OK, len),
        Err(e) => (status_of(e), 0),
    }
}

/// The reply to a write that returned `written`: it has no payload.
pub open spec fn reply_to_write(written: Result<(), StoreError>) -> (u16, usize) {
    match written {
        Ok(_) => (status::OK, 0),
        Err(e) => (status_of(e), 0),
    }
}

/// The reply to a request, given what sealing or opening a block comes to where
/// the request calls for it.
pub open spec fn reply_to(
    store: StoreView,
    badge: u64,
    op: u16,
    request: Seq<u8>,
    capacity: int,
    sealed: Result<(Seq<u8>, Seq<u8>), StoreError>,
    opened: Result<(), StoreError>,
) -> (u16, usize) {
    match store.grant_of(badge) {
        None => (status::ACCESS, 0),
        Some(grant) => if op == OP_READ {
            reply_to_read(store.read_result(badge, grant.file, capacity, opened))
        } else if op == OP_WRITE {
            reply_to_write(
                store.write_result(badge, grant.file, request, blake3_digest(request), sealed),
            )
        } else {
            (status::INVALID, 0)
        },
    }
}

/// The store after a request: only a write by a granted badge changes it.
pub open spec fn after_request(
    store: StoreView,
    badge: u64,
    op: u16,
    request: Seq<u8>,
    sealed: Result<(Seq<u8>, Seq<u8>), StoreError>,
) -> StoreView {
    match store.grant_of(badge) {
        Some(grant) if op == OP_WRITE => store.after_write(
            badge,
            grant.file,
            request,
            blake3_digest(request),
            sealed,
        ),
        _ => store,
    }
}

/// The address that a request reads from, if it is a read that can be carried
/// out.
pub open spec fn request_target(store: StoreView, badge: u64, op: u16, capacity: int) -> Result<
    Seq<u8>,
    StoreError,
> {
    match store.grant_of(badge) {
        Some(grant) if op == OP_READ => store.readable(badge, grant.file, capacity),
        _ => Err(StoreError::UnknownBadge),
    }
}

/// Whether a request calls for sealing a new block.
pub open spec fn request_seals(store: StoreView, badge: u64, op: u16, request: Seq<u8>) -> bool {
    match store.grant_of(badge) {
        Some(grant) => op == OP_WRITE && store.needs_sealing(
            badge,
            grant.file,
            request,
            blake3_digest(request),
        ),
        None => false,
    }
}

/// The status that reports `err`. [`StoreError::FileEmpty`] is the one error
/// that means success to a caller: a file that was never written reads as no bytes.
pub fn status_for(err: StoreError) -> (code: u16)
    ensures
        code == status_of(err),
{
    match err {
        StoreError::UnknownBadge
        | StoreError::BadgeRevoked
        | StoreError::OpNotGranted
        | StoreError::WrongFile
        | StoreError::NoSuchFile
        | StoreError::FileDestroyed => status::ACCESS,
        StoreError::ContentTooLarge => status::INVALID,
        StoreError::NotEnoughCapacity
        | StoreError::CryptoFailure(_)
        | StoreError::Channel(_)
        | StoreError::RemoteCryptoDenied(_)
        | StoreError::Kernel(_) => status::FAILED,
        StoreError::FileEmpty => status::OK,
    }
}

/// The reply to a read that returned `read`.
pub fn read_reply(read: Result<usize, StoreError>) -> (reply: (u16, usize))
    ensures
        reply == reply_to_read(read),
{
    match read {
        Ok(len) => (status::OK, len),
        Err(e) => (status_for(e), 0),
    }
}

/// The reply to a write that returned `written`.
pub fn write_reply(written: Result<(), StoreError>) -> (reply: (u16, usize))
    ensures
        reply == reply_to_write(written),
{
    match written {
        Ok(_) => (status::OK, 0),
        Err(e) => (status_for(e), 0),
    }
}

/// Handles one reassembled request against `store` on behalf of `badge`, the
/// sender's identity as the kernel delivers it. Returns the reply's status and
/// the length of its payload, which stands in the front of `reply_buf`.
///
/// The badge is looked up before anything else: a request by a badge that the
/// store never granted is refused before any operation runs.
pub fn handle_request<C: Cipher>(
    store: &mut Store,
    cipher: &mut C,
    badge: u64,
    op: u16,
    request: &[u8],
    reply_buf: &mut [u8],
) -> (reply: (u16, usize))
    requires
        old(store).wf(),
    ensures
        final(store).wf(),
        final(cipher).key() == old(cipher).key(),
        final(reply_buf)@.len() == old(reply_buf)@.len(),
        exists|sealed: Result<(Seq<u8>, Seq<u8>), StoreError>, opened: Result<(), StoreError>|
            {
                &&& #[trigger] is_sealing(sealed, old(cipher).key(), request@)
                &&& #[trigger] is_opening(
                    opened,
                    old(cipher).key(),
                    old(store)@,
                    request_target(old(store)@, badge, op, old(reply_buf)@.len() as int),
                    final(reply_buf)@,
                )
                &&& reply == reply_to(
                    old(store)@,
                    badge,
                    op,
                    request@,
                    old(reply_buf)@.len() as int,
                    sealed,
                    opened,
                )
                &&& final(store)@ == after_request(old(store)@, badge, op, request@, sealed)
            },
        reply.1 <= old(reply_buf)@.len(),
        reply.0 != status::OK ==> reply.1 == 0,
        request_seals(old(store)@, badge, op, request@) ==> exists|
            c: &mut C,
            nonce: &[u8; NONCE_LEN],
            aad: &[u8],
            buffer: &mut [u8],
            outcome: Result<[u8; TAG_LEN], StoreError>,
        |
            {
                &&& #[trigger] call_ensures(C::encrypt, (c, nonce, aad, buffer), outcome)
                &&& *c == *old(cipher)
                &&& *final(c) == *final(cipher)
                &&& nonce@ == nonce_of(blake3_digest(request@))
                &&& aad@ == blake3_digest(request@)
                &&& buffer@ == request@
                &&& reply == reply_to_write(
                    old(store)@.write_result(
                        badge,
                        old(store)@.grant_of(badge)->0.file,
                        request@,
                        blake3_digest(request@),
                        sealed_by(outcome, final(buffer)@),
                    ),
                )
                &&& final(store)@ == old(store)@.after_write(
                    badge,
                    old(store)@.grant_of(badge)->0.file,
                    request@,
                    blake3_digest(request@),
                    sealed_by(outcome, final(buffer)@),
                )
            },
        match request_target(old(store)@, badge, op, old(reply_buf)@.len() as int) {
            Ok(hash) => exists|
                c: &mut C,
                nonce: &[u8; NONCE_LEN],
                aad: &[u8],
                front: &mut [u8],
                tag: &[u8; TAG_LEN],
                opened: Result<(), StoreError>,
            |
                {
                    let n = old(store)@.blocks[hash].ciphertext.len() as int;
                    &&& #[trigger] call_ensures(C::decrypt, (c, nonce, aad, front, tag), opened)
                    &&& *c == *old(cipher)
                    &&& *final(c) == *final(cipher)
                    &&& nonce@ == nonce_of(hash)
                    &&& aad@ == hash
                    &&& front@ == old(store)@.blocks[hash].ciphertext
                    &&& tag@ == old(store)@.blocks[hash].tag
                    &&& final(front)@ == final(reply_buf)@.take(n)
                    &&& final(reply_buf)@.skip(n) == old(reply_buf)@.skip(n)
                    &&& reply == reply_to_read(
                        old(store)@.read_result(
                            badge,
                            old(store)@.grant_of(badge)->0.file,
                            old(reply_buf)@.len() as int,
                            opened,
                        ),
                    )
                },
            Err(_) => final(reply_buf)@ == old(reply_buf)@,
        },
        request_target(old(store)@, badge, op, old(reply_buf)@.len() as int) is Err
            && !request_seals(old(store)@, badge, op, request@) ==> *final(cipher) == *old(cipher),
        old(store)@.sound(old(cipher).key()) ==> final(store)@.sound(old(cipher).key()),
{
    let file = match store.file_for_badge(badge) {
        Some(file) => file,
        None => {
            assert(is_sealing(Err(StoreError::UnknownBadge), old(cipher).key(), request@));
            assert(is_opening(
                Err(StoreError::UnknownBadge),
                old(cipher).key(),
                old(store)@,
                request_target(old(store)@, badge, op, old(reply_buf)@.len() as int),
                reply_buf@,
            ));
            return (status::ACCESS, 0);
        },
    };
    if op == OP_READ {
        assert(is_sealing(Err(StoreError::UnknownBadge), old(cipher).key(), request@));
        handle_read(store, cipher, badge, file, reply_buf)
    } else if op == OP_WRITE {
        assert(is_opening(
            Err(StoreError::UnknownBadge),
            old(cipher).key(),
            old(store)@,
            request_target(old(store)@, badge, op, old(reply_buf)@.len() as int),
            reply_buf@,
        ));
        handle_write(store, cipher, badge, file, request)
    } else {
        assert(is_sealing(Err(StoreError::UnknownBadge), old(cipher).key(), request@));
        assert(is_opening(
            Err(StoreError::UnknownBadge),
            old(cipher).key(),
            old(store)@,
            request_target(old(store)@, badge, op, old(reply_buf)@.len() as int),
            reply_buf@,
        ));
        (status::INVALID, 0)
    }
}

/// A read: replies with the file's content, or, for a file that was never written,
/// with success and no payload.
fn handle_read<C: Cipher>(
    store: &Store,
    cipher: &mut C,
    badge: u64,
    file: FileId,
    reply_buf: &mut [u8],
) -> (reply: (u16, usize))
    requires
        store.wf(),
    ensures
        final(cipher).key() == old(cipher).key(),
        final(reply_buf)@.len() == old(reply_buf)@.len(),
        reply.1 <= old(reply_buf)@.len(),
        exists|opened: Result<(), StoreError>|
            {
                &&& #[trigger] is_opening(
                    opened,
                    old(cipher).key(),
                    store@,
                    store@.readable(badge, file, old(reply_buf)@.len() as int),
                    final(reply_buf)@,
                )
                &&& reply == reply_to_read(
                    store@.read_result(badge, file, old(reply_buf)@.len() as int, opened),
                )
            },
        match store@.readable(badge, file, old(reply_buf)@.len() as int) {
            Ok(hash) => exists|
                c: &mut C,
                nonce: &[u8; NONCE_LEN],
                aad: &[u8],
                front: &mut [u8],
                tag: &[u8; TAG_LEN],
                opened: Result<(), StoreError>,
            |
                {
                    let n = store@.blocks[hash].ciphertext.len() as int;
                    &&& #[trigger] call_ensures(C::decrypt, (c, nonce, aad, front, tag), opened)
                    &&& *c == *old(cipher)
                    &&& *final(c) == *final(cipher)
                    &&& nonce@ == nonce_of(hash)
                    &&& aad@ == hash
                    &&& front@ == store@.blocks[hash].ciphertext
                    &&& tag@ == store@.blocks[hash].tag
                    &&& final(front)@ == final(reply_buf)@.take(n)
                    &&& final(reply_buf)@.skip(n) == old(reply_buf)@.skip(n)
                    &&& reply == reply_to_read(
                        store@.read_result(badge, file, old(reply_buf)@.len() as int, opened),
                    )
                },
            Err(_) => final(reply_buf)@ == old(reply_buf)@ && *final(cipher) == *old(cipher),
        },
{
    read_reply(store.read(cipher, badge, file, reply_buf))
}

/// A write: the request is the file's new content in full.
fn handle_write<C: Cipher>(
    store: &mut Store,
    cipher: &mut C,
    badge: u64,
    file: FileId,
    request: &[u8],
) -> (reply: (u16, usize))
    requires
        old(store).wf(),
    ensures
        final(store).wf(),
        final(cipher).key() == old(cipher).key(),
        exists|sealed: Result<(Seq<u8>, Seq<u8>), StoreError>|
            {
                &&& #[trigger] is_sealing(sealed, old(cipher).key(), request@)
                &&& reply == reply_to_write(
                    old(store)@.write_result(
                        badge,
                        file,
                        request@,
                        blake3_digest(request@),
                        sealed,
                    ),
                )
                &&& final(store)@ == old(store)@.after_write(
                    badge,
                    file,
                    request@,
                    blake3_digest(request@),
                    sealed,
                )
            },
        old(store)@.needs_sealing(badge, file, request@, blake3_digest(request@)) ==> exists|
            c: &mut C,
            nonce: &[u8; NONCE_LEN],
            aad: &[u8],
            buffer: &mut [u8],
            outcome: Result<[u8; TAG_LEN], StoreError>,
        |
            {
                &&& #[trigger] call_ensures(C::encrypt, (c, nonce, aad, buffer), outcome)
                &&& *c == *old(cipher)
                &&& *final(c) == *final(cipher)
                &&& nonce@ == nonce_of(blake3_digest(request@))
                &&& aad@ == blake3_digest(request@)
                &&& buffer@ == request@
                &&& reply == reply_to_write(
                    old(store)@.write_result(
                        badge,
                        file,
                        request@,
                        blake3_digest(request@),
                        sealed_by(outcome, final(buffer)@),
                    ),
                )
                &&& final(store)@ == old(store)@.after_write(
                    badge,
                    file,
                    request@,
                    blake3_digest(request@),
                    sealed_by(outcome, final(buffer)@),
                )
            },
        !old(store)@.needs_sealing(badge, file, request@, blake3_digest(request@)) ==> *final(
            cipher) == *old(cipher),
        old(store)@.sound(old(cipher).key()) ==> final(store)@.sound(old(cipher).key()),
{
    write_reply(store.write(cipher, badge, file, request))
}

} // verus!
