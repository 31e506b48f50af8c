//! What each operation is for: when it succeeds, which error it gives otherwise,
//! what it changes and what it leaves as it was.
//!
//! These laws speak of the tables of a store, slot by slot, and of bytes, and of
//! how calls relate. They ask nothing of the store but what each of them says.
use vstd::prelude::*;

use crate::address::{blake3_digest, nonce_of, NONCE_LEN, TAG_LEN};
use crate::cipher::{
    decrypt_outcome, encrypt_outcome, replied_ciphertext, EncryptReply, Exchange, Key,
};
use crate::counting::{lemma_count_has_witness, lemma_count_witness};
use crate::error::{kernel_outcome, ChannelError, StoreError, SyscallError};
use crate::laws::{
    law_a_written_file_is_readable, law_every_step_keeps_a_store_sound, lemma_first_free,
    lemma_unknown_badge, Step,
};
use crate::model::{
    is_first_free, is_full, is_grant_of, is_opening, is_sealing, points_at, retained,
    sealed_by, BlockView, FileId, FileView, GrantRecord, StoreView, MAX_BLOCKS, MAX_BLOCK_LEN,
    MAX_FILES, MAX_GRANTS,
};
use crate::ops::{FileOps, Rights};
use crate::store::{sealed_seen, Sealed};
use crate::wire::{
    after_request, reply_to, reply_to_read, reply_to_write, request_seals, request_target, status,
    status_of, OP_READ, OP_WRITE,
};

verus! {

// ---- what a badge may do

/// **The first grant to a badge decides.** It says whether the badge may do
/// something to a file, and which error it is told otherwise: that it was revoked,
/// then that the file is another, then that the operation was not granted.
pub proof fn law_the_first_grant_to_a_badge_decides(
    s: StoreView,
    i: int,
    badge: u64,
    file: FileId,
    op: FileOps,
)
    requires
        0 <= i < s.grants.len(),
        s.grants[i] is Some,
        s.grants[i]->0.badge == badge,
        forall|j: int|
            0 <= j < i ==> !(#[trigger] s.grants[j] matches Some(g) && g.badge == badge),
    ensures
        ({
            let g = s.grants[i]->0;
            let granted = (op == FileOps::READ || op == FileOps::ALL ==> g.ops == FileOps::READ
                || g.ops == FileOps::ALL) && (op == FileOps::WRITE || op == FileOps::ALL ==> g.ops
                == FileOps::WRITE || g.ops == FileOps::ALL);
            let answer = s.access(badge, file, op);
            &&& s.grant_of(badge) == Some(g)
            &&& answer is Ok <==> !g.revoked && g.file == file && granted
            &&& g.revoked ==> answer == Err::<(), _>(StoreError::BadgeRevoked)
            &&& !g.revoked && g.file != file ==> answer == Err::<(), _>(StoreError::WrongFile)
            &&& !g.revoked && g.file == file && !granted ==> answer == Err::<(), _>(
                StoreError::OpNotGranted,
            )
        }),
{
    assert(is_grant_of(s.grants, badge, i));
    let k = choose|k: int| is_grant_of(s.grants, badge, k);
    assert(k == i);
}

/// **No grant, no access.** A badge that no grant names is unknown.
pub proof fn law_a_badge_without_a_grant_is_unknown(
    s: StoreView,
    badge: u64,
    file: FileId,
    op: FileOps,
)
    requires
        forall|j: int|
            0 <= j < s.grants.len() ==> !(#[trigger] s.grants[j] matches Some(g) && g.badge
                == badge),
    ensures
        s.grant_of(badge) is None,
        s.access(badge, file, op) == Err::<(), _>(StoreError::UnknownBadge),
{
}

/// **A live file is within reach, a destroyed one is not.** Where a badge may do
/// something to a file, it can exactly if the file was not destroyed; where it may
/// not, it is told why.
pub proof fn law_a_live_file_is_within_reach(
    s: StoreView,
    badge: u64,
    file: FileId,
    op: FileOps,
    live: FileView,
)
    requires
        0 <= file.index() < s.files.len(),
        s.files[file.index()] == Some(live),
    ensures
        s.permits(badge, file, op) is Ok <==> s.access(badge, file, op) is Ok && !live.destroyed,
        s.access(badge, file, op) is Ok && live.destroyed ==> s.permits(badge, file, op) == Err::<
            (),
            _,
        >(StoreError::FileDestroyed),
        s.access(badge, file, op) is Err ==> s.permits(badge, file, op) == s.access(
            badge,
            file,
            op,
        ),
{
}

/// **Operations are sets.** The union of two sets has reading, or writing, exactly
/// if one of them does, and is determined by that.
pub proof fn law_operations_join_as_sets(both: FileOps, other: FileOps, a: FileOps, b: FileOps)
    requires
        both.joins(a, b),
    ensures
        (both == FileOps::READ || both == FileOps::ALL) <==> (a == FileOps::READ || a
            == FileOps::ALL || b == FileOps::READ || b == FileOps::ALL),
        (both == FileOps::WRITE || both == FileOps::ALL) <==> (a == FileOps::WRITE || a
            == FileOps::ALL || b == FileOps::WRITE || b == FileOps::ALL),
        other.joins(a, b) <==> other == both,
{
}

/// **Inclusion of operations.** One set includes another exactly if it reads where
/// the other reads and writes where the other writes.
pub proof fn law_operations_include_as_sets(a: FileOps, b: FileOps)
    ensures
        a.includes(b) <==> (b == FileOps::READ || b == FileOps::ALL ==> a == FileOps::READ || a
            == FileOps::ALL) && (b == FileOps::WRITE || b == FileOps::ALL ==> a == FileOps::WRITE
            || a == FileOps::ALL),
{
}

// ---- lemmas about grants

/// Stores that agree on every grant that names a badge have granted it the same.
proof fn lemma_same_grant(s: StoreView, t: StoreView, badge: u64)
    requires
        s.grants.len() == t.grants.len(),
        forall|j: int|
            #![trigger s.grants[j]]
            #![trigger t.grants[j]]
            0 <= j < s.grants.len() && ((s.grants[j] matches Some(g) && g.badge == badge) || (
            t.grants[j] matches Some(g) && g.badge == badge)) ==> s.grants[j] == t.grants[j],
    ensures
        s.grant_of(badge) == t.grant_of(badge),
{
    if s.grant_of(badge) is Some {
        let i = lemma_first_grant(s, badge);
        assert forall|j: int| 0 <= j < i implies !(#[trigger] t.grants[j] matches Some(g)
            && g.badge == badge) by {
            assert(!(s.grants[j] matches Some(g) && g.badge == badge));
        }
        assert(is_grant_of(t.grants, badge, i));
        let k = choose|k: int| is_grant_of(t.grants, badge, k);
        assert(k == i);
    } else if t.grant_of(badge) is Some {
        let i = lemma_first_grant(t, badge);
        lemma_unknown_badge(s, badge, i);
    }
}

/// Where the first grant to a badge stands.
proof fn lemma_first_grant(s: StoreView, badge: u64) -> (i: int)
    requires
        s.grant_of(badge) is Some,
    ensures
        is_grant_of(s.grants, badge, i),
        s.grant_of(badge) == s.grants[i],
{
    choose|i: int| is_grant_of(s.grants, badge, i)
}

/// Where the first free slot of a table stands that is not full.
proof fn lemma_free_slot(s: StoreView) -> (slot: int)
    requires
        !is_full(s.grants),
    ensures
        is_first_free(s.grants, slot),
        slot == choose|i: int| is_first_free(s.grants, i),
{
    lemma_first_free(s.grants);
    choose|i: int| is_first_free(s.grants, i)
}

// ---- granting

/// **A request for access is refused exactly where it should be**: for a file that
/// does not exist, then for one that was destroyed, then where every grant slot is
/// taken. Otherwise the kernel's answer is the answer.
pub proof fn law_a_request_for_access_succeeds_whenever_it_should(
    s: StoreView,
    file: FileId,
    minted: Result<u64, SyscallError>,
)
    ensures
        ({
            let i = file.index();
            let exists_ = 0 <= i < s.files.len() && s.files[i] is Some;
            let full = forall|k: int| 0 <= k < s.grants.len() ==> s.grants[k] is Some;
            let answer = s.mint_result(file, minted);
            &&& s.admits(file) is Ok <==> exists_ && !s.files[i]->0.destroyed && !full
            &&& !exists_ ==> s.admits(file) == Err::<(), _>(StoreError::NoSuchFile) && answer
                == Err::<u64, _>(StoreError::NoSuchFile)
            &&& exists_ && s.files[i]->0.destroyed ==> s.admits(file) == Err::<(), _>(
                StoreError::FileDestroyed,
            ) && answer == Err::<u64, _>(StoreError::FileDestroyed)
            &&& exists_ && !s.files[i]->0.destroyed && full ==> s.admits(file) == Err::<(), _>(
                StoreError::NotEnoughCapacity,
            ) && answer == Err::<u64, _>(StoreError::NotEnoughCapacity)
            &&& exists_ && !s.files[i]->0.destroyed && !full ==> match minted {
                Ok(badge) => answer == Ok::<_, StoreError>(badge),
                Err(e) => answer == Err::<u64, _>(StoreError::Kernel(e)),
            }
        }),
{
}

/// **A grant fills one free slot.** A granted request puts a live grant of exactly
/// what was asked for into the first free slot, and leaves every other slot, all
/// files and all blocks as they were; a refused one leaves everything.
pub proof fn law_a_grant_fills_one_free_slot(
    s: StoreView,
    file: FileId,
    ops: FileOps,
    minted: Result<u64, SyscallError>,
)
    ensures
        ({
            let t = s.after_mint(file, ops, minted);
            match s.mint_result(file, minted) {
                Ok(badge) => {
                    &&& t.files == s.files
                    &&& t.blocks == s.blocks
                    &&& t.grants.len() == s.grants.len()
                    &&& exists|i: int|
                        {
                            &&& 0 <= i < s.grants.len()
                            &&& s.grants[i] is None
                            &&& #[trigger] t.grants[i] == Some(
                                GrantRecord { badge, file, ops, revoked: false },
                            )
                            &&& forall|j: int| 0 <= j < i ==> s.grants[j] is Some
                            &&& forall|j: int|
                                0 <= j < s.grants.len() && j != i ==> #[trigger] t.grants[j]
                                    == s.grants[j]
                        }
                },
                Err(_) => t == s,
            }
        }),
{
    if s.mint_result(file, minted) is Ok {
        let t = s.after_mint(file, ops, minted);
        let slot = lemma_free_slot(s);
        assert(t.grants[slot] == Some(
            GrantRecord { badge: minted->Ok_0, file, ops, revoked: false },
        ));
    }
}

/// **A grant takes nothing from anyone.** Whatever comes of a request for access,
/// every other badge may do afterwards exactly what it might before, and so may
/// the badge itself if it was granted something already.
pub proof fn law_a_grant_takes_nothing_from_anyone(
    s: StoreView,
    file: FileId,
    ops: FileOps,
    minted: Result<u64, SyscallError>,
    badge: u64,
    f: FileId,
    op: FileOps,
)
    requires
        minted == Ok::<u64, SyscallError>(badge) ==> s.grant_of(badge) is Some && forall|
            j: int,
            k: int,
        |
            0 <= j < k < s.grants.len() && #[trigger] s.grants[k] is Some ==> #[trigger] s.grants[j]
                is Some,
    ensures
        s.after_mint(file, ops, minted).grant_of(badge) == s.grant_of(badge),
        s.after_mint(file, ops, minted).access(badge, f, op) == s.access(badge, f, op),
        s.after_mint(file, ops, minted).permits(badge, f, op) == s.permits(badge, f, op),
{
    let t = s.after_mint(file, ops, minted);
    if s.mint_result(file, minted) is Ok {
        let slot = lemma_free_slot(s);
        if minted == Ok::<u64, SyscallError>(badge) {
            let i = lemma_first_grant(s, badge);
            assert(s.grants[i] is Some && s.grants[slot] is None);
            assert(i < slot);
            assert(is_grant_of(t.grants, badge, i));
            let k = choose|k: int| is_grant_of(t.grants, badge, k);
            assert(k == i);
        } else {
            lemma_same_grant(s, t, badge);
        }
    }
}

// ---- revoking

/// **Revocation reaches the badge it names.** From then on the badge is told, for
/// every file and operation, that it was revoked; and for that the grant keeps its
/// file and its operations.
pub proof fn law_revocation_reaches_the_badge_it_names(
    s: StoreView,
    badge: u64,
    f: FileId,
    op: FileOps,
)
    requires
        s.grant_of(badge) is Some,
    ensures
        s.after_revoke(badge).access(badge, f, op) == Err::<(), _>(StoreError::BadgeRevoked),
        s.after_revoke(badge).permits(badge, f, op) == Err::<(), _>(StoreError::BadgeRevoked),
        s.after_revoke(badge).grant_of(badge) == Some(
            GrantRecord { revoked: true, ..s.grant_of(badge)->0 },
        ),
{
    let t = s.after_revoke(badge);
    let i = lemma_first_grant(s, badge);
    assert forall|j: int| 0 <= j < i implies !(#[trigger] t.grants[j] matches Some(g) && g.badge
        == badge) by {
        assert(!(s.grants[j] matches Some(g) && g.badge == badge));
    }
    assert(is_grant_of(t.grants, badge, i));
    let k = choose|k: int| is_grant_of(t.grants, badge, k);
    assert(k == i);
}

/// **Revocation reaches no other badge.** Every other badge may do afterwards
/// exactly what it might before; files and blocks stay as they were, and so does
/// everything if the badge was granted nothing.
pub proof fn law_revocation_reaches_no_other_badge(
    s: StoreView,
    badge: u64,
    other: u64,
    f: FileId,
    op: FileOps,
)
    requires
        other != badge,
    ensures
        s.after_revoke(badge).grant_of(other) == s.grant_of(other),
        s.after_revoke(badge).access(other, f, op) == s.access(other, f, op),
        s.after_revoke(badge).permits(other, f, op) == s.permits(other, f, op),
        s.after_revoke(badge).files == s.files,
        s.after_revoke(badge).blocks == s.blocks,
        s.after_revoke(badge).grants.len() == s.grants.len(),
        forall|j: int|
            0 <= j < s.grants.len() && !(s.grants[j] matches Some(g) && g.badge == badge)
                ==> #[trigger] s.after_revoke(badge).grants[j] == s.grants[j],
        forall|j: int|
            0 <= j < s.grants.len() && s.grants[j] is Some ==> {
                &&& (#[trigger] s.after_revoke(badge).grants[j]) is Some
                &&& s.after_revoke(badge).grants[j]->0.badge == s.grants[j]->0.badge
                &&& s.after_revoke(badge).grants[j]->0.file == s.grants[j]->0.file
                &&& s.after_revoke(badge).grants[j]->0.ops == s.grants[j]->0.ops
            },
        s.grant_of(badge) is None ==> s.after_revoke(badge) == s,
{
    if s.grant_of(badge) is Some {
        let i = lemma_first_grant(s, badge);
        let k = choose|k: int| is_grant_of(s.grants, badge, k);
        assert(k == i);
    }
    lemma_same_grant(s, s.after_revoke(badge), other);
}

/// **A step takes access only from a badge that it revokes.** Unless it is the
/// revocation of that very badge, whatever a badge with a grant might do before a
/// step it may do after it, and nothing more; and a badge without one gets one only
/// by being granted it.
pub proof fn law_a_step_takes_access_only_by_revoking(
    s: StoreView,
    step: Step,
    badge: u64,
    f: FileId,
    op: FileOps,
)
    requires
        step != (Step::Revoke { badge }),
        forall|j: int, k: int|
            0 <= j < k < s.grants.len() && #[trigger] s.grants[k] is Some ==> #[trigger] s.grants[j]
                is Some,
        s.grant_of(badge) is None ==> !(step matches Step::Mint { minted, .. } && minted == Ok::<
            u64,
            SyscallError,
        >(badge)),
    ensures
        s.after(step).grant_of(badge) == s.grant_of(badge),
        s.after(step).access(badge, f, op) == s.access(badge, f, op),
{
    match step {
        Step::Mint { file, ops, minted } => {
            law_a_grant_takes_nothing_from_anyone(s, file, ops, minted, badge, f, op);
        },
        Step::Revoke { badge: b } => {
            law_revocation_reaches_no_other_badge(s, b, badge, f, op);
        },
        _ => {
            lemma_same_grant(s, s.after(step), badge);
        },
    }
}

/// **A badge loses access only by its own revocation.** However many steps are
/// taken, a badge that was granted something and that none of them revokes may do
/// afterwards exactly what it might before.
pub proof fn law_a_badge_loses_access_only_by_its_own_revocation(
    s: StoreView,
    key: Key,
    steps: Seq<Step>,
    badge: u64,
    f: FileId,
    op: FileOps,
)
    requires
        s.sound(key),
        s.allows_all(key, steps),
        s.grant_of(badge) is Some,
        forall|k: int| 0 <= k < steps.len() ==> #[trigger] steps[k] != (Step::Revoke { badge }),
    ensures
        s.after_all(steps).grant_of(badge) == s.grant_of(badge),
        s.after_all(steps).access(badge, f, op) == s.access(badge, f, op),
    decreases steps.len(),
{
    if steps.len() > 0 {
        let rest = steps.drop_first();
        assert(steps[0] != (Step::Revoke { badge }));
        assert forall|k: int| 0 <= k < rest.len() implies #[trigger] rest[k] != (Step::Revoke {
            badge,
        }) by {
            assert(rest[k] == steps[k + 1]);
        }
        law_a_step_takes_access_only_by_revoking(s, steps.first(), badge, f, op);
        law_every_step_keeps_a_store_sound(s, key, steps.first());
        law_a_badge_loses_access_only_by_its_own_revocation(
            s.after(steps.first()),
            key,
            rest,
            badge,
            f,
            op,
        );
    }
}

// ---- creating and destroying

/// **A table is full only when every slot is taken**, and its first free slot is
/// free and has none before it.
pub proof fn law_a_table_is_full_only_when_every_slot_is_taken<A>(
    table: Seq<Option<A>>,
    i: int,
)
    ensures
        is_full(table) <==> forall|k: int| 0 <= k < table.len() ==> table[k] is Some,
        is_first_free(table, i) <==> 0 <= i < table.len() && table[i] is None && forall|k: int|
            0 <= k < i ==> table[k] is Some,
{
}

/// **A file exists exactly if its slot is taken**, by a live file or a destroyed one.
pub proof fn law_a_file_exists_if_its_slot_is_taken(s: StoreView, file: FileId)
    ensures
        s.has_file(file) <==> 0 <= file.index() < s.files.len() && s.files[file.index()] is Some,
{
}

/// **A created file is live and empty**, and nothing else changes.
pub proof fn law_a_created_file_is_live_and_empty(s: StoreView, i: int)
    requires
        0 <= i < s.files.len(),
    ensures
        s.after_create(i).files.len() == s.files.len(),
        s.after_create(i).files[i] is Some,
        s.after_create(i).files[i]->0.address is None,
        !s.after_create(i).files[i]->0.destroyed,
        forall|j: int|
            0 <= j < s.files.len() && j != i ==> #[trigger] s.after_create(i).files[j]
                == s.files[j],
        s.after_create(i).blocks == s.blocks,
        s.after_create(i).grants == s.grants,
{
}

/// **A destroyed file is destroyed**, written or not: it has no content, no badge
/// is minted for it any more, and none reaches it. No other file, and no grant,
/// changes.
pub proof fn law_a_destroyed_file_is_destroyed(
    s: StoreView,
    file: FileId,
    badge: u64,
    op: FileOps,
    ops: FileOps,
    minted: Result<u64, SyscallError>,
)
    requires
        0 <= file.index() < s.files.len(),
        s.files[file.index()] is Some,
    ensures
        ({
            let t = s.after_destroy(file);
            &&& t.files.len() == s.files.len()
            &&& t.files[file.index()] is Some
            &&& t.files[file.index()]->0.destroyed
            &&& t.files[file.index()]->0.address is None
            &&& forall|j: int|
                0 <= j < s.files.len() && j != file.index() ==> #[trigger] t.files[j] == s.files[j]
            &&& t.grants == s.grants
            &&& t.admits(file) == Err::<(), _>(StoreError::FileDestroyed)
            &&& t.mint_result(file, minted) == Err::<u64, _>(StoreError::FileDestroyed)
            &&& t.after_mint(file, ops, minted) == t
            &&& t.permits(badge, file, op) is Err
            &&& t.access(badge, file, op) == s.access(badge, file, op)
        }),
{
    lemma_same_grant(s, s.after_destroy(file), badge);
}

/// **A block outlives a destruction exactly if another file needs it**, and then
/// with the ciphertext, the tag and the content it had.
pub proof fn law_a_block_outlives_a_destruction_if_needed(
    s: StoreView,
    file: FileId,
    hash: Seq<u8>,
)
    requires
        0 <= file.index() < s.files.len(),
    ensures
        s.after_destroy(file).blocks.contains_key(hash) <==> s.blocks.contains_key(hash)
            && exists|j: int|
            0 <= j < s.files.len() && j != file.index() && #[trigger] s.files[j] is Some
                && s.files[j]->0.address == Some(hash),
        s.after_destroy(file).blocks.contains_key(hash) ==> {
            &&& s.after_destroy(file).blocks[hash].ciphertext == s.blocks[hash].ciphertext
            &&& s.after_destroy(file).blocks[hash].tag == s.blocks[hash].tag
            &&& s.after_destroy(file).blocks[hash].content == s.blocks[hash].content
        },
{
    let t = s.after_destroy(file);
    lemma_retained_iff_pointed_at(t.files, s.blocks, hash);
    if exists|j: int|
        0 <= j < s.files.len() && j != file.index() && #[trigger] s.files[j] is Some
            && s.files[j]->0.address == Some(hash) {
        let j = choose|j: int|
            0 <= j < s.files.len() && j != file.index() && #[trigger] s.files[j] is Some
                && s.files[j]->0.address == Some(hash);
        assert(t.files[j] == s.files[j]);
    }
    if t.blocks.contains_key(hash) {
        let j = choose|j: int|
            0 <= j < t.files.len() && #[trigger] t.files[j] is Some && t.files[j]->0.address
                == Some(hash);
        assert(t.files[j] == s.files[j]);
    }
}

/// What is retained is what files point at.
proof fn lemma_retained_iff_pointed_at(
    files: Seq<Option<FileView>>,
    pool: Map<Seq<u8>, BlockView>,
    hash: Seq<u8>,
)
    ensures
        retained(files, pool).contains_key(hash) <==> pool.contains_key(hash) && exists|j: int|
            0 <= j < files.len() && #[trigger] files[j] is Some && files[j]->0.address == Some(
                hash,
            ),
        retained(files, pool).contains_key(hash) ==> {
            &&& retained(files, pool)[hash].ciphertext == pool[hash].ciphertext
            &&& retained(files, pool)[hash].tag == pool[hash].tag
            &&& retained(files, pool)[hash].content == pool[hash].content
        },
{
    if retained(files, pool).contains_key(hash) {
        let j = lemma_count_has_witness(files, points_at(hash));
        assert(files[j] is Some);
    }
    if exists|j: int|
        0 <= j < files.len() && #[trigger] files[j] is Some && files[j]->0.address == Some(hash) {
        let j = choose|j: int|
            0 <= j < files.len() && #[trigger] files[j] is Some && files[j]->0.address == Some(
                hash,
            );
        lemma_count_witness(files, points_at(hash), j);
    }
}

/// **Destroying twice is destroying once.**
pub proof fn law_destroying_twice_is_destroying_once(s: StoreView, file: FileId)
    requires
        s.consistent(),
        0 <= file.index() < s.files.len(),
        s.files[file.index()] is Some,
    ensures
        s.after_destroy(file).after_destroy(file) == s.after_destroy(file),
{
    let t = s.after_destroy(file);
    let u = t.after_destroy(file);
    assert(u.files =~= t.files);
    assert forall|h: Seq<u8>| #![auto] u.blocks.dom().contains(h) == t.blocks.dom().contains(h) by {
        assert(u.blocks.contains_key(h) == t.blocks.contains_key(h));
    }
    assert forall|h: Seq<u8>| #![auto] t.blocks.dom().contains(h) implies u.blocks[h]
        == t.blocks[h] by {
        assert(t.blocks.contains_key(h));
    }
    assert(u.blocks =~= t.blocks);
}

// ---- writing

/// **A write succeeds whenever it should.** If the badge may write the file as it
/// stands, the content fits a block, and the store holds it already or the cipher
/// sealed it, the write succeeds; otherwise it gives, in this order, the reason the
/// badge may not, that the content is too large, or the cipher's own error.
pub proof fn law_a_write_succeeds_whenever_it_should(
    s: StoreView,
    badge: u64,
    file: FileId,
    data: Seq<u8>,
    hash: Seq<u8>,
    sealed: Result<(Seq<u8>, Seq<u8>), StoreError>,
)
    ensures
        ({
            let may = s.permits(badge, file, FileOps::WRITE);
            let held = s.blocks.contains_key(hash);
            let written = s.write_result(badge, file, data, hash, sealed);
            &&& written is Ok <==> may is Ok && data.len() <= MAX_BLOCK_LEN && (held || sealed
                is Ok)
            &&& may is Err ==> written == may
            &&& may is Ok && data.len() > MAX_BLOCK_LEN ==> written == Err::<(), _>(
                StoreError::ContentTooLarge,
            )
            &&& may is Ok && data.len() <= MAX_BLOCK_LEN && !held ==> match sealed {
                Ok(_) => written is Ok,
                Err(e) => written == Err::<(), _>(e),
            }
            &&& may is Ok && written == Err::<(), _>(StoreError::ContentTooLarge) ==> data.len()
                > MAX_BLOCK_LEN || sealed == Err::<(Seq<u8>, Seq<u8>), _>(
                StoreError::ContentTooLarge,
            )
            &&& s.needs_sealing(badge, file, data, hash) <==> may is Ok && data.len()
                <= MAX_BLOCK_LEN && !held
        }),
{
}

/// **Only what is sealed anew depends on the cipher.** Where nothing needs sealing,
/// neither the answer to a write nor the store after it depends on what a cipher
/// would have made of the content.
pub proof fn law_only_what_is_sealed_anew_depends_on_the_cipher(
    s: StoreView,
    badge: u64,
    file: FileId,
    data: Seq<u8>,
    hash: Seq<u8>,
    a: Result<(Seq<u8>, Seq<u8>), StoreError>,
    b: Result<(Seq<u8>, Seq<u8>), StoreError>,
)
    requires
        !s.needs_sealing(badge, file, data, hash),
    ensures
        s.write_result(badge, file, data, hash, a) == s.write_result(badge, file, data, hash, b),
        s.after_write(badge, file, data, hash, a) == s.after_write(badge, file, data, hash, b),
{
}

/// **A write changes the file it names and no other.** With success the file is at
/// the address of the content, as live as it was; a write that fails changes
/// nothing at all. Grants never change.
pub proof fn law_a_write_changes_the_file_it_names_and_no_other(
    s: StoreView,
    badge: u64,
    file: FileId,
    data: Seq<u8>,
    hash: Seq<u8>,
    sealed: Result<(Seq<u8>, Seq<u8>), StoreError>,
)
    requires
        0 <= file.index() < s.files.len(),
        s.files[file.index()] is Some,
    ensures
        ({
            let t = s.after_write(badge, file, data, hash, sealed);
            &&& t.grants == s.grants
            &&& t.files.len() == s.files.len()
            &&& forall|j: int|
                0 <= j < s.files.len() && j != file.index() ==> #[trigger] t.files[j] == s.files[j]
            &&& s.write_result(badge, file, data, hash, sealed) is Ok ==> {
                &&& t.files[file.index()] is Some
                &&& t.files[file.index()]->0.address == Some(hash)
                &&& t.files[file.index()]->0.destroyed == s.files[file.index()]->0.destroyed
            }
            &&& s.write_result(badge, file, data, hash, sealed) is Err ==> t == s
        }),
{
}

/// **A write keeps every block that files need, as it is, and adds at most its
/// own.** After a successful write the block at the written address is there; if it
/// was held before it is as it was, otherwise it keeps what the cipher sealed, for
/// the content written. Any other block is there exactly if it was and some file
/// still needs it, and is as it was.
pub proof fn law_a_write_adds_at_most_its_own_block(
    s: StoreView,
    badge: u64,
    file: FileId,
    data: Seq<u8>,
    hash: Seq<u8>,
    sealed: Result<(Seq<u8>, Seq<u8>), StoreError>,
    h: Seq<u8>,
)
    requires
        0 <= file.index() < s.files.len(),
        s.files[file.index()] is Some,
        s.write_result(badge, file, data, hash, sealed) is Ok,
    ensures
        ({
            let t = s.after_write(badge, file, data, hash, sealed);
            &&& t.blocks.contains_key(hash)
            &&& h != hash ==> (t.blocks.contains_key(h) <==> s.blocks.contains_key(h) && exists|
                j: int,
            |
                0 <= j < s.files.len() && j != file.index() && #[trigger] s.files[j] is Some
                    && s.files[j]->0.address == Some(h))
            &&& t.blocks.contains_key(h) && s.blocks.contains_key(h) ==> {
                &&& t.blocks[h].ciphertext == s.blocks[h].ciphertext
                &&& t.blocks[h].tag == s.blocks[h].tag
                &&& t.blocks[h].content == s.blocks[h].content
            }
            &&& !s.blocks.contains_key(hash) ==> {
                &&& sealed is Ok
                &&& t.blocks[hash].ciphertext == sealed->Ok_0.0
                &&& t.blocks[hash].tag == sealed->Ok_0.1
                &&& t.blocks[hash].content == data
            }
        }),
{
    let t = s.after_write(badge, file, data, hash, sealed);
    let pool = if s.blocks.contains_key(hash) {
        s.blocks
    } else {
        let (ciphertext, tag) = sealed->Ok_0;
        s.blocks.insert(hash, BlockView { ciphertext, tag, content: data, refcount: 1 })
    };
    assert(t.files[file.index()] is Some);
    lemma_retained_iff_pointed_at(t.files, pool, hash);
    lemma_retained_iff_pointed_at(t.files, pool, h);
    if h != hash {
        if exists|j: int|
            0 <= j < s.files.len() && j != file.index() && #[trigger] s.files[j] is Some
                && s.files[j]->0.address == Some(h) {
            let j = choose|j: int|
                0 <= j < s.files.len() && j != file.index() && #[trigger] s.files[j] is Some
                    && s.files[j]->0.address == Some(h);
            assert(t.files[j] == s.files[j]);
        }
        if t.blocks.contains_key(h) {
            let j = choose|j: int|
                0 <= j < t.files.len() && #[trigger] t.files[j] is Some && t.files[j]->0.address
                    == Some(h);
            assert(j != file.index());
            assert(t.files[j] == s.files[j]);
        }
    }
}

/// **What a cipher leaves is what is kept**: on success the buffer and the tag, and
/// its error otherwise.
pub proof fn law_what_a_cipher_leaves_is_kept(
    outcome: Result<[u8; TAG_LEN], StoreError>,
    left: Seq<u8>,
)
    ensures
        match outcome {
            Ok(tag) => sealed_by(outcome, left) == Ok::<_, StoreError>((left, tag@)),
            Err(e) => sealed_by(outcome, left) == Err::<(Seq<u8>, Seq<u8>), _>(e),
        },
{
}

/// **A sealed content is the front of its array**, as long as the content, and its
/// tag.
pub proof fn law_a_sealed_content_is_the_front_of_its_array(
    sealed: Result<Sealed, StoreError>,
    len: nat,
    i: int,
)
    requires
        len <= MAX_BLOCK_LEN,
    ensures
        match sealed {
            Ok(kept) => {
                &&& sealed_seen(sealed, len) matches Ok((ciphertext, tag))
                &&& ciphertext.len() == len
                &&& 0 <= i < len ==> ciphertext[i] == kept.ciphertext@[i]
                &&& tag == kept.tag@
            },
            Err(e) => sealed_seen(sealed, len) == Err::<(Seq<u8>, Seq<u8>), _>(e),
        },
{
}

/// **The nonce is the front of the hash**, byte for byte.
pub proof fn law_the_nonce_is_the_front_of_the_hash(hash: Seq<u8>, i: int)
    requires
        hash.len() >= NONCE_LEN,
    ensures
        nonce_of(hash).len() == NONCE_LEN,
        0 <= i < NONCE_LEN ==> nonce_of(hash)[i] == hash[i],
{
}

// ---- reading

/// **The content of a file is that of the block at its address.**
pub proof fn law_the_content_is_at_the_address(s: StoreView, file: FileId, f: FileView)
    requires
        0 <= file.index() < s.files.len(),
        s.files[file.index()] == Some(f),
    ensures
        s.has_file(file),
        s.file(file) == f,
        s.content(file) is Some <==> f.address is Some,
        f.address matches Some(hash) ==> s.content(file) == Some(s.blocks[hash].content),
{
}

/// **A read succeeds whenever it should.** If the badge may read the file as it
/// stands, the file has content, the content fits the buffer, and the cipher opens
/// the block, the read succeeds with the length of the content; otherwise it gives,
/// in this order, the reason the badge may not, that the file is empty, that the
/// content is too large for the buffer, or the cipher's own error.
pub proof fn law_a_read_succeeds_whenever_it_should(
    s: StoreView,
    badge: u64,
    file: FileId,
    capacity: int,
    opened: Result<(), StoreError>,
    f: FileView,
)
    requires
        0 <= capacity <= usize::MAX,
        0 <= file.index() < s.files.len(),
        s.files[file.index()] == Some(f),
    ensures
        ({
            let may = s.permits(badge, file, FileOps::READ);
            let target = s.readable(badge, file, capacity);
            let read = s.read_result(badge, file, capacity, opened);
            &&& may matches Err(e) ==> target == Err::<Seq<u8>, _>(e) && read == Err::<usize, _>(e)
            &&& may is Ok ==> match f.address {
                None => target == Err::<Seq<u8>, _>(StoreError::FileEmpty) && read == Err::<
                    usize,
                    _,
                >(StoreError::FileEmpty),
                Some(hash) => {
                    let n = s.blocks[hash].ciphertext.len();
                    if n > capacity {
                        &&& target == Err::<Seq<u8>, _>(StoreError::ContentTooLarge)
                        &&& read == Err::<usize, _>(StoreError::ContentTooLarge)
                    } else {
                        &&& target == Ok::<_, StoreError>(hash)
                        &&& match opened {
                            Ok(_) => read is Ok && read->Ok_0 == n,
                            Err(e) => read == Err::<usize, _>(e),
                        }
                    }
                },
            }
        }),
{
}

/// **A larger buffer never hurts.** What can be read into a buffer can be read, from
/// the same address and with the same result, into any larger one.
pub proof fn law_a_larger_buffer_never_hurts(
    s: StoreView,
    badge: u64,
    file: FileId,
    small: int,
    large: int,
    opened: Result<(), StoreError>,
)
    requires
        small <= large,
        s.readable(badge, file, small) is Ok,
    ensures
        s.readable(badge, file, large) == s.readable(badge, file, small),
        s.read_result(badge, file, large, opened) == s.read_result(badge, file, small, opened),
{
}

/// **What sealing a content means.** A success is a ciphertext as long as the
/// content and a tag, which the key opens to the content at the nonce and under the
/// address that its hash gives; a failure is possible for every content. A content
/// collides only with another one that is held at its address.
pub proof fn law_what_sealing_a_content_means(
    s: StoreView,
    key: Key,
    data: Seq<u8>,
    ciphertext: Seq<u8>,
    tag: Seq<u8>,
    err: StoreError,
)
    ensures
        is_sealing(Ok((ciphertext, tag)), key, data) <==> ciphertext.len() == data.len()
            && tag.len() == TAG_LEN && key.opens(
            nonce_of(blake3_digest(data)),
            blake3_digest(data),
            ciphertext,
            tag,
        ) == Some(data),
        is_sealing(Err(err), key, data),
        s.no_collision(blake3_digest(data), data) <==> !(s.blocks.contains_key(blake3_digest(data))
            && s.blocks[blake3_digest(data)].content != data),
{
}

/// **What opening a block means.** A success leaves in the front of the buffer what
/// the key opens the block's ciphertext and tag to, at the nonce and under the
/// address of the block.
pub proof fn law_what_opening_a_block_means(
    s: StoreView,
    key: Key,
    hash: Seq<u8>,
    buf: Seq<u8>,
)
    ensures
        is_opening(Ok(()), key, s, Ok(hash), buf) <==> key.opens(
            nonce_of(hash),
            hash,
            s.blocks[hash].ciphertext,
            s.blocks[hash].tag,
        ) == Some(buf.take(s.blocks[hash].ciphertext.len() as int)),
{
}

// ---- requests

/// **The status tells what went wrong.** An error is reported as a matter of access
/// exactly if it is about a badge or about a file that cannot be reached, as an
/// invalid request exactly if the content is too large, as success exactly if the
/// file was empty, and as a failure otherwise.
pub proof fn law_the_status_tells_what_went_wrong(err: StoreError)
    ensures
        status_of(err) == 0 <==> err == StoreError::FileEmpty,
        status_of(err) == 1 <==> (err == StoreError::UnknownBadge || err
            == StoreError::BadgeRevoked || err == StoreError::OpNotGranted || err
            == StoreError::WrongFile || err == StoreError::NoSuchFile || err
            == StoreError::FileDestroyed),
        status_of(err) == 2 <==> err == StoreError::ContentTooLarge,
        status_of(err) == 3 <==> (err == StoreError::NotEnoughCapacity || err is CryptoFailure
            || err is Channel || err is RemoteCryptoDenied || err is Kernel),
{
}

/// **A request is answered with what came of it.** A read that succeeds is answered
/// with success and its whole length, a write that succeeds with success and no
/// payload, and a read or write that fails with the status of its error and no
/// payload; an operation that is neither is invalid.
pub proof fn law_a_request_is_answered_with_what_came_of_it(
    s: StoreView,
    badge: u64,
    op: u16,
    request: Seq<u8>,
    capacity: int,
    sealed: Result<(Seq<u8>, Seq<u8>), StoreError>,
    opened: Result<(), StoreError>,
    grant: GrantRecord,
)
    requires
        s.grant_of(badge) == Some(grant),
    ensures
        ({
            let reply = reply_to(s, badge, op, request, capacity, sealed, opened);
            &&& op == 1 ==> match s.read_result(badge, grant.file, capacity, opened) {
                Ok(n) => reply == (0u16, n),
                Err(e) => reply == (status_of(e), 0usize),
            }
            &&& op == 2 ==> match s.write_result(
                badge,
                grant.file,
                request,
                blake3_digest(request),
                sealed,
            ) {
                Ok(_) => reply == (0u16, 0usize),
                Err(e) => reply == (status_of(e), 0usize),
            }
            &&& op != 1 && op != 2 ==> reply == (2u16, 0usize)
        }),
{
}

/// **A reply tells the outcome.** What came of a read or a write is answered with
/// success and its length, if any, and with its error's status otherwise.
pub proof fn law_a_reply_tells_the_outcome(
    read: Result<usize, StoreError>,
    written: Result<(), StoreError>,
)
    ensures
        match read {
            Ok(n) => reply_to_read(read) == (0u16, n),
            Err(e) => reply_to_read(read) == (status_of(e), 0usize),
        },
        match written {
            Ok(_) => reply_to_write(written) == (0u16, 0usize),
            Err(e) => reply_to_write(written) == (status_of(e), 0usize),
        },
{
}

/// **A request changes only what it writes.** Only a write request by a badge with a
/// grant changes a store, and it does so as a write of the payload to the file that
/// was granted; a request calls for the cipher exactly where that write, or a read
/// of that file, does.
pub proof fn law_a_request_changes_only_what_it_writes(
    s: StoreView,
    badge: u64,
    op: u16,
    request: Seq<u8>,
    capacity: int,
    sealed: Result<(Seq<u8>, Seq<u8>), StoreError>,
)
    ensures
        s.grant_of(badge) is None || op != 2 ==> {
            &&& after_request(s, badge, op, request, sealed) == s
            &&& !request_seals(s, badge, op, request)
        },
        s.grant_of(badge) is None || op != 1 ==> request_target(s, badge, op, capacity) is Err,
        s.grant_of(badge) matches Some(grant) ==> {
            let hash = blake3_digest(request);
            &&& op == 1 ==> request_target(s, badge, op, capacity) == s.readable(
                badge,
                grant.file,
                capacity,
            )
            &&& op == 2 ==> after_request(s, badge, op, request, sealed) == s.after_write(
                badge,
                grant.file,
                request,
                hash,
                sealed,
            )
            &&& op == 2 ==> request_seals(s, badge, op, request) == s.needs_sealing(
                badge,
                grant.file,
                request,
                hash,
            )
        },
{
}

/// **A write request succeeds whenever it should**: if the badge may write the file
/// it was granted, the payload fits a block, and it is held already or was sealed.
pub proof fn law_a_write_request_succeeds_whenever_it_should(
    s: StoreView,
    badge: u64,
    request: Seq<u8>,
    capacity: int,
    sealed: Result<(Seq<u8>, Seq<u8>), StoreError>,
    opened: Result<(), StoreError>,
    grant: GrantRecord,
)
    requires
        s.grant_of(badge) == Some(grant),
        s.permits(badge, grant.file, FileOps::WRITE) is Ok,
        request.len() <= MAX_BLOCK_LEN,
        s.blocks.contains_key(blake3_digest(request)) || sealed is Ok,
    ensures
        reply_to(s, badge, OP_WRITE, request, capacity, sealed, opened) == (status::OK, 0usize),
{
}

/// **What a write request wrote, a read request is answered with.** After a write
/// request that was answered with success, and any steps that spare the file, a
/// read request by a badge that then has read access to the file, with a large
/// enough buffer and a block that opens, is answered with success and the length
/// written. Left out: a content whose hash the store holds for another content, and
/// a cipher that reports its failure as an empty file, which a reply does not tell
/// from success.
pub proof fn law_a_written_request_is_answered_in_full(
    s: StoreView,
    key: Key,
    writer: u64,
    request: Seq<u8>,
    sealed: Result<(Seq<u8>, Seq<u8>), StoreError>,
    room: int,
    unopened: Result<(), StoreError>,
    steps: Seq<Step>,
    reader: u64,
    ignored: Seq<u8>,
    unsealed: Result<(Seq<u8>, Seq<u8>), StoreError>,
    capacity: int,
)
    requires
        s.sound(key),
        s.no_collision(blake3_digest(request), request),
        is_sealing(sealed, key, request),
        sealed != Err::<(Seq<u8>, Seq<u8>), StoreError>(StoreError::FileEmpty),
        reply_to(s, writer, OP_WRITE, request, room, sealed, unopened).0 == status::OK,
        after_request(s, writer, OP_WRITE, request, sealed).allows_all(key, steps),
        after_request(s, writer, OP_WRITE, request, sealed).spares_all(
            steps,
            s.grant_of(writer)->0.file,
        ),
        ({
            let t = after_request(s, writer, OP_WRITE, request, sealed).after_all(steps);
            &&& t.grant_of(reader) is Some
            &&& t.grant_of(reader)->0.file == s.grant_of(writer)->0.file
            &&& t.access(reader, t.grant_of(reader)->0.file, FileOps::READ) is Ok
        }),
        request.len() <= capacity,
    ensures
        reply_to(
            after_request(s, writer, OP_WRITE, request, sealed).after_all(steps),
            reader,
            OP_READ,
            ignored,
            capacity,
            unsealed,
            Ok(()),
        ) == (status::OK, request.len() as usize),
{
    let file = s.grant_of(writer)->0.file;
    assert(s.write_result(writer, file, request, blake3_digest(request), sealed) is Ok);
    law_a_written_file_is_readable(
        s,
        key,
        writer,
        file,
        request,
        sealed,
        steps,
        reader,
        capacity,
    );
}

// ---- exchanges and the kernel

/// **An encryption by exchange succeeds whenever it should**: if the service answers
/// with success and a reply that decodes to a ciphertext of the right length. Its
/// tag is then returned, and otherwise the first thing that went wrong.
pub proof fn law_an_encryption_by_exchange_succeeds_whenever_it_should(
    came: Exchange<EncryptReply>,
    len: nat,
)
    ensures
        match came {
            Exchange::TooLarge => encrypt_outcome(came, len) == Err::<[u8; TAG_LEN], _>(
                StoreError::ContentTooLarge,
            ),
            Exchange::Failed(e) => encrypt_outcome(came, len) == Err::<[u8; TAG_LEN], _>(
                StoreError::Channel(e),
            ),
            Exchange::Replied { status, reply: Some((tag, ciphertext)) } => {
                &&& replied_ciphertext(came) == ciphertext@
                &&& status == 0 && ciphertext@.len() == len ==> encrypt_outcome(came, len) == Ok::<
                    _,
                    StoreError,
                >(tag)
                &&& status == 0 && ciphertext@.len() != len ==> encrypt_outcome(came, len)
                    == Err::<[u8; TAG_LEN], _>(StoreError::Channel(ChannelError::Malformed))
                &&& status != 0 ==> encrypt_outcome(came, len) == Err::<[u8; TAG_LEN], _>(
                    StoreError::RemoteCryptoDenied(status),
                )
            },
            Exchange::Replied { status, reply: None } => {
                &&& status == 0 ==> encrypt_outcome(came, len) == Err::<[u8; TAG_LEN], _>(
                    StoreError::Channel(ChannelError::Malformed),
                )
                &&& status != 0 ==> encrypt_outcome(came, len) == Err::<[u8; TAG_LEN], _>(
                    StoreError::RemoteCryptoDenied(status),
                )
            },
        },
{
}

/// **A decryption by exchange succeeds whenever it should**: if the service answers
/// with success and a plaintext of the right length. Otherwise the first thing that
/// went wrong is returned.
pub proof fn law_a_decryption_by_exchange_succeeds_whenever_it_should(
    came: Exchange<Vec<u8>>,
    len: nat,
)
    ensures
        match came {
            Exchange::TooLarge => decrypt_outcome(came, len) == Err::<(), _>(
                StoreError::ContentTooLarge,
            ),
            Exchange::Failed(e) => decrypt_outcome(came, len) == Err::<(), _>(
                StoreError::Channel(e),
            ),
            Exchange::Replied { status, reply } => {
                &&& status == 0 && reply@.len() == len ==> decrypt_outcome(came, len) is Ok
                &&& status == 0 && reply@.len() != len ==> decrypt_outcome(came, len) == Err::<
                    (),
                    _,
                >(StoreError::Channel(ChannelError::Malformed))
                &&& status != 0 ==> decrypt_outcome(came, len) == Err::<(), _>(
                    StoreError::RemoteCryptoDenied(status),
                )
            },
        },
{
}

/// **The kernel's answer is handed on**, success as success and each error as
/// itself.
pub proof fn law_the_answer_of_the_kernel_is_handed_on(answer: Result<(), SyscallError>)
    ensures
        kernel_outcome(answer) is Ok <==> answer is Ok,
        answer matches Err(e) ==> kernel_outcome(answer) == Err::<(), _>(StoreError::Kernel(e)),
{
}

/// **A minted capability can be called through and passed on**, and nothing more.
pub proof fn law_a_minted_capability_can_be_called_and_passed_on()
    ensures
        Rights::call_and_grant().write,
        Rights::call_and_grant().grant,
        !Rights::call_and_grant().read,
{
}

/// **A new store is empty**, with room for sixteen files, thirty-two blocks of 256
/// bytes and thirty-two grants.
pub proof fn law_a_new_store_is_empty(i: int, hash: Seq<u8>)
    ensures
        MAX_FILES == 16 && MAX_BLOCKS == 32 && MAX_GRANTS == 32 && MAX_BLOCK_LEN == 256,
        StoreView::empty().files.len() == MAX_FILES,
        StoreView::empty().grants.len() == MAX_GRANTS,
        0 <= i < MAX_FILES ==> StoreView::empty().files[i] is None,
        0 <= i < MAX_GRANTS ==> StoreView::empty().grants[i] is None,
        !StoreView::empty().blocks.contains_key(hash),
{
}

} // verus!
