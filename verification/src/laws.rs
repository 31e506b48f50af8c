//! What holds of a store across operations.
use vstd::prelude::*;

use crate::address::{blake3_digest, nonce_of, TAG_LEN};
use crate::cipher::Key;
use crate::counting::{lemma_count_has_witness, lemma_count_update, lemma_count_witness};
use crate::error::{StoreError, SyscallError};
use crate::model::{
    is_first_free, is_full, is_grant_of, is_opening, is_sealing, lemma_file_id_index, points_at,
    references, BlockView, FileId, FileView, StoreView, MAX_BLOCKS, MAX_BLOCK_LEN, MAX_FILES,
};
use crate::ops::FileOps;
use crate::wire::{after_request, reply_to, request_target, status, OP_READ, OP_WRITE};

verus! {

/// One operation that changes a store, with the outside answers it got.
pub enum Step {
    /// A file was created in this slot.
    Create { slot: int },
    /// The kernel answered the mint for a grant.
    Mint { file: FileId, ops: FileOps, minted: Result<u64, SyscallError> },
    /// The broker revoked a badge.
    Revoke { badge: u64 },
    /// A content was written, or refused.
    Write {
        badge: u64,
        file: FileId,
        data: Seq<u8>,
        sealed: Result<(Seq<u8>, Seq<u8>), StoreError>,
    },
    /// A file was destroyed.
    Destroy { file: FileId },
}

impl StoreView {
    /// Whether `step` can be taken, with ciphers that are bound to `key`.
    pub open spec fn allows(self, key: Key, step: Step) -> bool {
        match step {
            Step::Create { slot } => is_first_free(self.files, slot),
            Step::Mint { .. } => true,
            Step::Revoke { .. } => true,
            Step::Write { data, sealed, .. } => is_sealing(sealed, key, data),
            Step::Destroy { file } => self.has_file(file),
        }
    }

    /// The store after `step`.
    pub open spec fn after(self, step: Step) -> StoreView {
        match step {
            Step::Create { slot } => self.after_create(slot),
            Step::Mint { file, ops, minted } => self.after_mint(file, ops, minted),
            Step::Revoke { badge } => self.after_revoke(badge),
            Step::Write { badge, file, data, sealed } => self.after_write(
                badge,
                file,
                data,
                blake3_digest(data),
                sealed,
            ),
            Step::Destroy { file } => self.after_destroy(file),
        }
    }

    /// Whether `steps` can be taken one after the other.
    pub open spec fn allows_all(self, key: Key, steps: Seq<Step>) -> bool
        decreases steps.len(),
    {
        steps.len() == 0 || {
            &&& self.allows(key, steps.first())
            &&& self.after(steps.first()).allows_all(key, steps.drop_first())
        }
    }

    /// The store after `steps`.
    pub open spec fn after_all(self, steps: Seq<Step>) -> StoreView
        decreases steps.len(),
    {
        if steps.len() == 0 {
            self
        } else {
            self.after(steps.first()).after_all(steps.drop_first())
        }
    }

    /// Whether `step` spares `file`: it leaves the file alone, or is a write to it
    /// that is refused or fails.
    pub open spec fn spares(self, step: Step, file: FileId) -> bool {
        leaves_alone(step, file) || match step {
            Step::Write { badge, file: f, data, sealed } => self.write_result(
                badge,
                f,
                data,
                blake3_digest(data),
                sealed,
            ) is Err,
            _ => false,
        }
    }

    /// Whether `steps`, taken one after the other, spare `file`.
    pub open spec fn spares_all(self, steps: Seq<Step>, file: FileId) -> bool
        decreases steps.len(),
    {
        steps.len() == 0 || {
            &&& self.spares(steps.first(), file)
            &&& self.after(steps.first()).spares_all(steps.drop_first(), file)
        }
    }

    /// What holds of every store in use with ciphers bound to `key`.
    pub open spec fn sound(self, key: Key) -> bool {
        &&& self.consistent()
        &&& self.sealed_under(key)
        &&& self.content_addressed()
    }
}

/// Whether `step` leaves `file` alone: it is neither a write to it nor its
/// destruction.
pub open spec fn leaves_alone(step: Step, file: FileId) -> bool {
    match step {
        Step::Write { file: f, .. } => f != file,
        Step::Destroy { file: f } => f != file,
        _ => true,
    }
}

/// Whether `step` writes to or destroys a file other than `file`.
pub open spec fn happens_elsewhere(step: Step, file: FileId) -> bool {
    match step {
        Step::Write { file: f, .. } => f != file,
        Step::Destroy { file: f } => f != file,
        _ => false,
    }
}

// ---- lemmas

/// A file that is given a new state moves the references accordingly.
proof fn lemma_references_update(
    files: Seq<Option<FileView>>,
    i: int,
    new: FileView,
    hash: Seq<u8>,
)
    requires
        0 <= i < files.len(),
        files[i] is Some,
    ensures
        references(files.update(i, Some(new)), hash) + (if files[i]->0.address == Some(hash) {
            1nat
        } else {
            0nat
        }) == references(files, hash) + (if new.address == Some(hash) {
            1nat
        } else {
            0nat
        }),
{
    lemma_count_update(files, i, Some(new), points_at(hash));
}

/// Giving a file a new state keeps a store consistent, if the pool has what the
/// file needs.
proof fn lemma_relinked_consistent(
    s: StoreView,
    file: FileId,
    new: FileView,
    pool: Map<Seq<u8>, BlockView>,
)
    requires
        s.consistent(),
        s.has_file(file),
        new.address matches Some(hash) ==> pool.contains_key(hash),
        new.destroyed ==> new.address is None,
        forall|hash: Seq<u8>| #[trigger] s.blocks.contains_key(hash) ==> pool.contains_key(hash),
        forall|hash: Seq<u8>| #[trigger]
            pool.contains_key(hash) ==> {
                &&& pool[hash].ciphertext.len() == pool[hash].content.len() <= MAX_BLOCK_LEN
                &&& pool[hash].tag.len() == TAG_LEN
            },
    ensures
        s.relinked(file, new, pool).consistent(),
{
    let t = s.relinked(file, new, pool);
    assert forall|hash: Seq<u8>| #[trigger]
        t.blocks.contains_key(hash) <==> references(t.files, hash) > 0 by {
        if references(t.files, hash) > 0 {
            lemma_references_update(s.files, file.index(), new, hash);
            assert(s.blocks.contains_key(hash) <==> references(s.files, hash) > 0);
        }
    }
    assert forall|i: int|
        0 <= i < t.grants.len() && #[trigger] t.grants[i] is Some implies t.has_file(
        t.grants[i]->0.file,
    ) by {
        assert(s.has_file(s.grants[i]->0.file));
    }
}

/// An access that is allowed is to a file that exists.
pub(crate) proof fn lemma_access_has_file(s: StoreView, badge: u64, file: FileId, op: FileOps)
    requires
        s.consistent(),
        s.access(badge, file, op) is Ok,
    ensures
        s.has_file(file),
{
    let i = choose|i: int| is_grant_of(s.grants, badge, i);
    assert(s.grants[i] is Some);
}

/// A file's address is in use.
pub(crate) proof fn lemma_address_in_use(s: StoreView, file: FileId)
    requires
        s.consistent(),
        s.has_file(file),
        s.file(file).address is Some,
    ensures
        s.blocks.contains_key(s.file(file).address->0),
        references(s.files, s.file(file).address->0) > 0,
{
    let hash = s.file(file).address->0;
    lemma_count_witness(s.files, points_at(hash), file.index());
    assert(s.blocks.contains_key(hash) <==> references(s.files, hash) > 0);
}

/// Every step keeps a store sound.
pub proof fn law_every_step_keeps_a_store_sound(s: StoreView, key: Key, step: Step)
    requires
        s.sound(key),
        s.allows(key, step),
    ensures
        s.after(step).sound(key),
{
    let t = s.after(step);
    match step {
        Step::Create { slot } => {
            assert forall|hash: Seq<u8>| references(t.files, hash) == references(s.files, hash) by {
                lemma_count_update(s.files, slot, t.files[slot], points_at(hash));
            }
            assert forall|i: int|
                0 <= i < t.grants.len() && #[trigger] t.grants[i] is Some implies t.has_file(
                t.grants[i]->0.file,
            ) by {
                assert(s.has_file(s.grants[i]->0.file));
            }
        },
        Step::Mint { file, ops, minted } => {
            if s.admits(file) is Ok && minted is Ok {
                lemma_first_free(s.grants);
            }
            assert forall|i: int|
                0 <= i < t.grants.len() && #[trigger] t.grants[i] is Some implies t.has_file(
                t.grants[i]->0.file,
            ) by {
                if s.grants[i] is Some {
                    assert(s.has_file(s.grants[i]->0.file));
                }
            }
        },
        Step::Revoke { badge } => {
            assert forall|i: int|
                0 <= i < t.grants.len() && #[trigger] t.grants[i] is Some implies t.has_file(
                t.grants[i]->0.file,
            ) by {
                if s.grants[i] is Some {
                    assert(s.has_file(s.grants[i]->0.file));
                }
            }
        },
        Step::Write { badge, file, data, sealed } => {
            let hash = blake3_digest(data);
            if s.write_result(badge, file, data, hash, sealed) is Ok {
                lemma_access_has_file(s, badge, file, FileOps::WRITE);
                let new = FileView { address: Some(hash), ..s.file(file) };
                let pool = if s.blocks.contains_key(hash) {
                    s.blocks
                } else {
                    let (ciphertext, tag) = sealed->Ok_0;
                    s.blocks.insert(
                        hash,
                        BlockView { ciphertext, tag, content: data, refcount: 1 },
                    )
                };
                lemma_relinked_consistent(s, file, new, pool);
            }
        },
        Step::Destroy { file } => {
            lemma_relinked_consistent(
                s,
                file,
                FileView { address: None, destroyed: true },
                s.blocks,
            );
        },
    }
}

/// A table that is not full has a first free slot.
pub(crate) proof fn lemma_first_free<A>(table: Seq<Option<A>>)
    requires
        !is_full(table),
    ensures
        exists|i: int| is_first_free(table, i),
    decreases table.len(),
{
    if is_full(table.drop_last()) {
        assert forall|j: int| 0 <= j < table.len() - 1 implies table[j] is Some by {
            assert(table.drop_last()[j] is Some);
        }
        assert(is_first_free(table, table.len() - 1));
    } else {
        lemma_first_free(table.drop_last());
        let i = choose|i: int| is_first_free(table.drop_last(), i);
        assert forall|j: int| 0 <= j < i implies table[j] is Some by {
            assert(table.drop_last()[j] is Some);
        }
        assert(is_first_free(table, i));
    }
}

/// However many steps a store takes, it stays sound.
pub proof fn law_a_store_stays_sound(s: StoreView, key: Key, steps: Seq<Step>)
    requires
        s.sound(key),
        s.allows_all(key, steps),
    ensures
        s.after_all(steps).sound(key),
    decreases steps.len(),
{
    if steps.len() > 0 {
        law_every_step_keeps_a_store_sound(s, key, steps.first());
        law_a_store_stays_sound(s.after(steps.first()), key, steps.drop_first());
    }
}

/// The empty store is sound, under any key.
pub proof fn law_the_empty_store_is_sound(key: Key)
    ensures
        StoreView::empty().sound(key),
{
    let s = StoreView::empty();
    assert forall|hash: Seq<u8>| references(s.files, hash) == 0 by {
        if references(s.files, hash) > 0 {
            let i = lemma_count_has_witness(s.files, points_at(hash));
        }
    }
}

// ---- reading and writing

/// A successful write makes `data` the content of the file, unless the store
/// holds another content with the same hash.
pub proof fn law_write_sets_the_content(
    s: StoreView,
    badge: u64,
    file: FileId,
    data: Seq<u8>,
    sealed: Result<(Seq<u8>, Seq<u8>), StoreError>,
)
    requires
        s.consistent(),
        s.no_collision(blake3_digest(data), data),
        s.write_result(badge, file, data, blake3_digest(data), sealed) is Ok,
    ensures
        s.after_write(badge, file, data, blake3_digest(data), sealed).has_file(file),
        s.after_write(badge, file, data, blake3_digest(data), sealed).content(file) == Some(data),
{
    let hash = blake3_digest(data);
    let t = s.after_write(badge, file, data, hash, sealed);
    lemma_access_has_file(s, badge, file, FileOps::WRITE);
    lemma_count_witness(t.files, points_at(hash), file.index());
}

/// A successful read yields the content of the file, whole.
pub proof fn law_read_yields_the_content(
    s: StoreView,
    key: Key,
    badge: u64,
    file: FileId,
    capacity: int,
    opened: Result<(), StoreError>,
    buf: Seq<u8>,
    n: usize,
)
    requires
        s.consistent(),
        s.sealed_under(key),
        is_opening(opened, key, s, s.readable(badge, file, capacity), buf),
        s.read_result(badge, file, capacity, opened) == Ok::<usize, StoreError>(n),
    ensures
        s.content(file) == Some(buf.take(n as int)),
        s.content(file)->0.len() == n,
{
    lemma_access_has_file(s, badge, file, FileOps::READ);
    lemma_address_in_use(s, file);
}

/// **What is read is what the address names.** The bytes of a successful read hash
/// to the address of the file.
pub proof fn law_what_is_read_has_the_address_of_the_file(
    s: StoreView,
    key: Key,
    badge: u64,
    file: FileId,
    capacity: int,
    opened: Result<(), StoreError>,
    buf: Seq<u8>,
    n: usize,
)
    requires
        s.sound(key),
        is_opening(opened, key, s, s.readable(badge, file, capacity), buf),
        s.read_result(badge, file, capacity, opened) == Ok::<usize, StoreError>(n),
    ensures
        s.file(file).address == Some(blake3_digest(buf.take(n as int))),
{
    law_read_yields_the_content(s, key, badge, file, capacity, opened, buf, n);
    lemma_access_has_file(s, badge, file, FileOps::READ);
    lemma_address_in_use(s, file);
}

/// A step that spares a file keeps its content.
pub(crate) proof fn lemma_step_keeps_content(s: StoreView, key: Key, step: Step, file: FileId)
    requires
        s.sound(key),
        s.allows(key, step),
        s.has_file(file),
        s.spares(step, file),
    ensures
        s.after(step).has_file(file),
        s.after(step).file(file) == s.file(file),
        s.after(step).content(file) == s.content(file),
{
    broadcast use lemma_file_id_index;

    let t = s.after(step);
    if s.file(file).address is Some {
        lemma_address_in_use(s, file);
    }
    match step {
        Step::Write { badge, file: f, data, sealed } => {
            if s.write_result(badge, f, data, blake3_digest(data), sealed) is Ok {
                assert(f.index() != file.index());
                lemma_access_has_file(s, badge, f, FileOps::WRITE);
                assert(t.files[file.index()] == s.files[file.index()]);
                if s.file(file).address is Some {
                    lemma_count_witness(
                        t.files,
                        points_at(s.file(file).address->0),
                        file.index(),
                    );
                }
            }
        },
        Step::Destroy { file: f } => {
            assert(f.index() != file.index());
            assert(t.files[file.index()] == s.files[file.index()]);
            if s.file(file).address is Some {
                lemma_count_witness(t.files, points_at(s.file(file).address->0), file.index());
            }
        },
        _ => {},
    }
}

/// Steps of which each leaves a file alone spare it, from any store.
pub proof fn law_steps_that_leave_a_file_alone_spare_it(
    s: StoreView,
    steps: Seq<Step>,
    file: FileId,
)
    requires
        forall|k: int| 0 <= k < steps.len() ==> leaves_alone(#[trigger] steps[k], file),
    ensures
        s.spares_all(steps, file),
    decreases steps.len(),
{
    if steps.len() > 0 {
        let rest = steps.drop_first();
        assert(leaves_alone(steps[0], file));
        assert forall|k: int| 0 <= k < rest.len() implies leaves_alone(
            #[trigger] rest[k],
            file,
        ) by {
            assert(rest[k] == steps[k + 1]);
        }
        law_steps_that_leave_a_file_alone_spare_it(s.after(steps.first()), rest, file);
    }
}

/// Whatever happens to other files, to grants and to badges, a file that is
/// neither destroyed nor written with success keeps its address and its content.
pub proof fn law_content_survives_what_spares_the_file(
    s: StoreView,
    key: Key,
    steps: Seq<Step>,
    file: FileId,
)
    requires
        s.sound(key),
        s.allows_all(key, steps),
        s.has_file(file),
        s.spares_all(steps, file),
    ensures
        s.after_all(steps).has_file(file),
        s.after_all(steps).file(file) == s.file(file),
        s.after_all(steps).content(file) == s.content(file),
    decreases steps.len(),
{
    if steps.len() > 0 {
        law_every_step_keeps_a_store_sound(s, key, steps.first());
        lemma_step_keeps_content(s, key, steps.first(), file);
        law_content_survives_what_spares_the_file(
            s.after(steps.first()),
            key,
            steps.drop_first(),
            file,
        );
    }
}

/// **Other files do not change what a read sees.** Writes to and destructions of
/// other files, whatever their content, leave alone whether a file can be read,
/// the ciphertext and the tag that are opened for it, and what a read returns.
pub proof fn law_other_files_leave_a_read_alone(
    s: StoreView,
    key: Key,
    steps: Seq<Step>,
    badge: u64,
    file: FileId,
    capacity: int,
)
    requires
        s.sound(key),
        s.allows_all(key, steps),
        forall|k: int| 0 <= k < steps.len() ==> happens_elsewhere(#[trigger] steps[k], file),
    ensures
        s.after_all(steps).readable(badge, file, capacity) == s.readable(badge, file, capacity),
        s.readable(badge, file, capacity) matches Ok(hash) ==> {
            &&& s.after_all(steps).blocks[hash].ciphertext == s.blocks[hash].ciphertext
            &&& s.after_all(steps).blocks[hash].tag == s.blocks[hash].tag
        },
        forall|opened: Result<(), StoreError>|
            s.after_all(steps).read_result(badge, file, capacity, opened) == s.read_result(
                badge,
                file,
                capacity,
                opened,
            ),
    decreases steps.len(),
{
    if steps.len() > 0 {
        let (step, rest) = (steps.first(), steps.drop_first());
        let t = s.after(step);
        assert(happens_elsewhere(steps[0], file));
        assert forall|k: int| 0 <= k < rest.len() implies happens_elsewhere(
            #[trigger] rest[k],
            file,
        ) by {
            assert(rest[k] == steps[k + 1]);
        }
        law_every_step_keeps_a_store_sound(s, key, step);
        assert(t.grants == s.grants);
        if s.access(badge, file, FileOps::READ) is Ok {
            lemma_access_has_file(s, badge, file, FileOps::READ);
            lemma_step_keeps_content(s, key, step, file);
            if s.file(file).address is Some {
                lemma_address_in_use(s, file);
                lemma_address_in_use(t, file);
                law_blocks_are_immutable(s, key, step, s.file(file).address->0);
            }
        }
        law_other_files_leave_a_read_alone(t, key, rest, badge, file, capacity);
    }
}

/// **Read gives back what write wrote.** After a successful write, and any steps
/// that spare the file, refused writes to it among them, a successful read with a cipher bound to the same
/// key yields exactly the bytes written. Left out: a write of a content whose
/// hash the store holds for another content.
pub proof fn law_read_gives_back_what_write_wrote(
    s: StoreView,
    key: Key,
    writer: u64,
    file: FileId,
    data: Seq<u8>,
    sealed: Result<(Seq<u8>, Seq<u8>), StoreError>,
    steps: Seq<Step>,
    reader: u64,
    capacity: int,
    opened: Result<(), StoreError>,
    buf: Seq<u8>,
    n: usize,
)
    requires
        s.sound(key),
        s.no_collision(blake3_digest(data), data),
        is_sealing(sealed, key, data),
        s.write_result(writer, file, data, blake3_digest(data), sealed) is Ok,
        s.after(Step::Write { badge: writer, file, data, sealed }).allows_all(key, steps),
        s.after(Step::Write { badge: writer, file, data, sealed }).spares_all(steps, file),
        ({
            let t = s.after(Step::Write { badge: writer, file, data, sealed }).after_all(steps);
            &&& is_opening(opened, key, t, t.readable(reader, file, capacity), buf)
            &&& t.read_result(reader, file, capacity, opened) == Ok::<usize, StoreError>(n)
        }),
    ensures
        n == data.len(),
        buf.take(n as int) == data,
{
    let step = Step::Write { badge: writer, file, data, sealed };
    let t = s.after(step);
    law_every_step_keeps_a_store_sound(s, key, step);
    law_write_sets_the_content(s, writer, file, data, sealed);
    law_content_survives_what_spares_the_file(t, key, steps, file);
    law_a_store_stays_sound(t, key, steps);
    law_read_yields_the_content(
        t.after_all(steps),
        key,
        reader,
        file,
        capacity,
        opened,
        buf,
        n,
    );
}

/// **A written file is readable.** After a successful write, and any steps that
/// spare the file, every badge that then has read access finds the file readable,
/// at the address of what was written, into any buffer that is large enough; and
/// if the cipher opens the block, the read succeeds with the length written. Left
/// out: a write of a content whose hash the store holds for another content.
pub proof fn law_a_written_file_is_readable(
    s: StoreView,
    key: Key,
    writer: u64,
    file: FileId,
    data: Seq<u8>,
    sealed: Result<(Seq<u8>, Seq<u8>), StoreError>,
    steps: Seq<Step>,
    reader: u64,
    capacity: int,
)
    requires
        s.sound(key),
        s.no_collision(blake3_digest(data), data),
        is_sealing(sealed, key, data),
        s.write_result(writer, file, data, blake3_digest(data), sealed) is Ok,
        s.after(Step::Write { badge: writer, file, data, sealed }).allows_all(key, steps),
        s.after(Step::Write { badge: writer, file, data, sealed }).spares_all(steps, file),
        s.after(Step::Write { badge: writer, file, data, sealed }).after_all(steps).access(
            reader,
            file,
            FileOps::READ,
        ) is Ok,
        data.len() <= capacity,
    ensures
        s.after(Step::Write { badge: writer, file, data, sealed }).after_all(steps).readable(
            reader,
            file,
            capacity,
        ) == Ok::<Seq<u8>, StoreError>(blake3_digest(data)),
        s.after(Step::Write { badge: writer, file, data, sealed }).after_all(steps).read_result(
            reader,
            file,
            capacity,
            Ok(()),
        ) == Ok::<usize, StoreError>(data.len() as usize),
{
    let step = Step::Write { badge: writer, file, data, sealed };
    let t = s.after(step);
    law_every_step_keeps_a_store_sound(s, key, step);
    law_write_sets_the_content(s, writer, file, data, sealed);
    lemma_access_has_file(s, writer, file, FileOps::WRITE);
    law_content_survives_what_spares_the_file(t, key, steps, file);
    law_a_store_stays_sound(t, key, steps);
    lemma_address_in_use(t.after_all(steps), file);
}

// ---- sharing and collection of blocks

/// **Deduplication.** Files with identical content share one block.
pub proof fn law_identical_content_shares_one_block(s: StoreView, a: FileId, b: FileId)
    requires
        s.consistent(),
        s.content_addressed(),
        s.has_file(a),
        s.has_file(b),
        s.content(a) is Some,
        s.content(a) == s.content(b),
    ensures
        s.file(a).address == s.file(b).address,
{
    lemma_address_in_use(s, a);
    lemma_address_in_use(s, b);
}

/// A block is never sealed again: while it lives, no step changes its
/// ciphertext, its tag or its content.
pub proof fn law_blocks_are_immutable(s: StoreView, key: Key, step: Step, hash: Seq<u8>)
    requires
        s.sound(key),
        s.allows(key, step),
        s.blocks.contains_key(hash),
        s.after(step).blocks.contains_key(hash),
    ensures
        s.after(step).blocks[hash].ciphertext == s.blocks[hash].ciphertext,
        s.after(step).blocks[hash].tag == s.blocks[hash].tag,
        s.after(step).blocks[hash].content == s.blocks[hash].content,
{
}

/// **Only sealed bytes are kept.** A block that a step adds was sealed from the
/// content that the step wrote: it is at that content's address, and keeps the
/// ciphertext and the tag that the cipher produced.
pub proof fn law_only_sealed_bytes_are_kept(s: StoreView, key: Key, step: Step, hash: Seq<u8>)
    requires
        s.sound(key),
        s.allows(key, step),
        !s.blocks.contains_key(hash),
        s.after(step).blocks.contains_key(hash),
    ensures
        step matches Step::Write { data, sealed: Ok((ciphertext, tag)), .. } && {
            let block = s.after(step).blocks[hash];
            &&& hash == blake3_digest(data)
            &&& block.content == data
            &&& block.ciphertext == ciphertext
            &&& block.tag == tag
            &&& key.opens(nonce_of(hash), hash, ciphertext, tag) == Some(data)
        },
{
}

/// **Room for every write.** There are never more blocks than files, so a store
/// always has a slot for one more.
pub proof fn law_blocks_never_outnumber_files(s: StoreView)
    requires
        s.consistent(),
    ensures
        s.blocks.dom().finite(),
        s.blocks.dom().len() <= MAX_FILES < MAX_BLOCKS,
{
    let address = |file: Option<FileView>|
        match file {
            Some(FileView { address: Some(hash), .. }) => hash,
            _ => Seq::empty(),
        };
    let addresses = s.files.map_values(address);
    assert(s.blocks.dom().subset_of(addresses.to_set())) by {
        assert forall|hash: Seq<u8>| #[trigger] s.blocks.dom().contains(
            hash,
        ) implies addresses.to_set().contains(hash) by {
            assert(s.blocks.contains_key(hash));
            let i = lemma_count_has_witness(s.files, points_at(hash));
            assert(addresses[i] == hash);
        }
    }
    addresses.lemma_cardinality_of_set();
    vstd::set_lib::lemma_len_subset(s.blocks.dom(), addresses.to_set());
}

/// **Immediate collection on destruction.** Destroying a file frees its block if
/// no other file shares it, and otherwise only takes one reference; every other
/// block stays as it is.
pub proof fn law_destroy_releases_one_reference(s: StoreView, file: FileId)
    requires
        s.consistent(),
        s.has_file(file),
    ensures
        forall|hash: Seq<u8>| #[trigger]
            s.after_destroy(file).blocks.contains_key(hash) <==> s.blocks.contains_key(hash) && (
            s.file(file).address == Some(hash) ==> s.blocks[hash].refcount > 1),
        forall|hash: Seq<u8>| #[trigger]
            s.after_destroy(file).blocks.contains_key(hash) ==> s.after_destroy(file).blocks[hash]
                == if s.file(file).address == Some(hash) {
                BlockView { refcount: (s.blocks[hash].refcount - 1) as nat, ..s.blocks[hash] }
            } else {
                s.blocks[hash]
            },
{
    let t = s.after_destroy(file);
    assert forall|hash: Seq<u8>| s.blocks.contains_key(hash) implies references(t.files, hash)
        + (if s.file(file).address == Some(hash) {
        1nat
    } else {
        0nat
    }) == s.blocks[hash].refcount by {
        lemma_references_update(
            s.files,
            file.index(),
            FileView { address: None, destroyed: true },
            hash,
        );
    }
}

/// **Immediate collection on rewriting.** Writing a different content frees the
/// file's previous block if no other file shares it, and otherwise keeps it.
pub proof fn law_rewrite_releases_the_previous_block(
    s: StoreView,
    badge: u64,
    file: FileId,
    data: Seq<u8>,
    sealed: Result<(Seq<u8>, Seq<u8>), StoreError>,
    previous: Seq<u8>,
)
    requires
        s.consistent(),
        s.write_result(badge, file, data, blake3_digest(data), sealed) is Ok,
        s.file(file).address == Some(previous),
        previous != blake3_digest(data),
    ensures
        s.after_write(badge, file, data, blake3_digest(data), sealed).blocks.contains_key(previous)
            <==> s.blocks[previous].refcount > 1,
{
    let hash = blake3_digest(data);
    lemma_access_has_file(s, badge, file, FileOps::WRITE);
    lemma_address_in_use(s, file);
    lemma_references_update(
        s.files,
        file.index(),
        FileView { address: Some(hash), ..s.file(file) },
        previous,
    );
}

/// Writing the content that a file already has changes nothing: no reference
/// count drifts.
pub proof fn law_rewriting_the_same_content_changes_nothing(
    s: StoreView,
    badge: u64,
    file: FileId,
    data: Seq<u8>,
    sealed: Result<(Seq<u8>, Seq<u8>), StoreError>,
)
    requires
        s.consistent(),
        s.write_result(badge, file, data, blake3_digest(data), sealed) is Ok,
        s.file(file).address == Some(blake3_digest(data)),
    ensures
        s.after_write(badge, file, data, blake3_digest(data), sealed) == s,
{
    let hash = blake3_digest(data);
    let t = s.after_write(badge, file, data, hash, sealed);
    lemma_access_has_file(s, badge, file, FileOps::WRITE);
    lemma_address_in_use(s, file);
    assert(t.files =~= s.files);
    assert(t.blocks =~= s.blocks) by {
        assert forall|h: Seq<u8>| #[trigger] s.blocks.dom().contains(h) implies t.blocks[h]
            == s.blocks[h] by {
            assert(s.blocks.contains_key(h));
        }
        assert forall|h: Seq<u8>| s.blocks.dom().contains(h) == t.blocks.dom().contains(h) by {
            assert(s.blocks.contains_key(h) <==> references(s.files, h) > 0);
        }
    }
}

// ---- names, grants and revocation

/// A step never frees a file's slot, nor brings a destroyed file back.
proof fn lemma_step_keeps_file(s: StoreView, key: Key, step: Step, file: FileId)
    requires
        s.sound(key),
        s.allows(key, step),
        s.has_file(file),
    ensures
        s.after(step).has_file(file),
        s.file(file).destroyed ==> s.after(step).file(file).destroyed,
        step matches Step::Create { slot } ==> slot != file.index(),
{
    broadcast use lemma_file_id_index;

    if let Step::Write { badge, file: f, data, sealed } = step {
        if s.write_result(badge, f, data, blake3_digest(data), sealed) is Ok {
            lemma_access_has_file(s, badge, f, FileOps::WRITE);
        }
    }
}

/// **File names are never reused.** Once a file exists, whatever happens, destroyed
/// or not, no later creation is given its place; and a destroyed file stays
/// destroyed.
pub proof fn law_file_names_are_never_reused(
    s: StoreView,
    key: Key,
    steps: Seq<Step>,
    file: FileId,
)
    requires
        s.sound(key),
        s.allows_all(key, steps),
        s.has_file(file),
    ensures
        s.after_all(steps).has_file(file),
        s.file(file).destroyed ==> s.after_all(steps).file(file).destroyed,
        forall|k: int|
            0 <= k < steps.len() ==> (#[trigger] steps[k] matches Step::Create { slot } ==> slot
                != file.index()),
    decreases steps.len(),
{
    if steps.len() > 0 {
        let rest = steps.drop_first();
        lemma_step_keeps_file(s, key, steps.first(), file);
        law_every_step_keeps_a_store_sound(s, key, steps.first());
        law_file_names_are_never_reused(s.after(steps.first()), key, rest, file);
        assert forall|k: int| 0 <= k < steps.len() implies (#[trigger] steps[k] matches
            Step::Create { slot } ==> slot != file.index()) by {
            if k > 0 {
                assert(rest[k - 1] == steps[k]);
            }
        }
    }
}

/// **A destroyed file is gone for good.** Whatever happens, it never has content
/// again. A badge that was granted an operation on it is told that it was
/// destroyed, nothing is sealed for it, and a request for it is refused and
/// changes nothing.
pub proof fn law_a_destroyed_file_is_gone_for_good(
    s: StoreView,
    key: Key,
    file: FileId,
    steps: Seq<Step>,
    badge: u64,
    op: FileOps,
    data: Seq<u8>,
    capacity: int,
    sealed: Result<(Seq<u8>, Seq<u8>), StoreError>,
    opened: Result<(), StoreError>,
)
    requires
        s.sound(key),
        s.has_file(file),
        s.file(file).destroyed,
        s.allows_all(key, steps),
    ensures
        ({
            let t = s.after_all(steps);
            let hash = blake3_digest(data);
            &&& t.has_file(file)
            &&& t.file(file).destroyed
            &&& t.content(file) is None
            &&& t.access(badge, file, op) is Ok ==> t.permits(badge, file, op) == Err::<
                (),
                StoreError,
            >(StoreError::FileDestroyed)
            &&& t.access(badge, file, FileOps::WRITE) is Ok ==> t.write_result(
                badge,
                file,
                data,
                hash,
                sealed,
            ) == Err::<(), StoreError>(StoreError::FileDestroyed)
            &&& t.access(badge, file, FileOps::READ) is Ok ==> t.read_result(
                badge,
                file,
                capacity,
                opened,
            ) == Err::<usize, StoreError>(StoreError::FileDestroyed)
            &&& !t.needs_sealing(badge, file, data, hash)
            &&& t.after_write(badge, file, data, hash, sealed) == t
            &&& t.grant_of(badge) is Some && t.grant_of(badge)->0.file == file ==> {
                &&& reply_to(t, badge, OP_READ, data, capacity, sealed, opened) == (
                    status::ACCESS,
                    0usize,
                )
                &&& reply_to(t, badge, OP_WRITE, data, capacity, sealed, opened) == (
                    status::ACCESS,
                    0usize,
                )
                &&& after_request(t, badge, OP_WRITE, data, sealed) == t
            }
        }),
{
    law_file_names_are_never_reused(s, key, steps, file);
    law_a_store_stays_sound(s, key, steps);
    let t = s.after_all(steps);
    assert(t.files[file.index()] is Some);
}

/// A step never takes the content from a file, unless it destroys it.
proof fn lemma_step_keeps_a_file_written(s: StoreView, key: Key, step: Step, file: FileId)
    requires
        s.sound(key),
        s.allows(key, step),
        s.has_file(file),
        s.file(file).address is Some || s.file(file).destroyed,
    ensures
        s.after(step).has_file(file),
        s.after(step).file(file).address is Some || s.after(step).file(file).destroyed,
{
    broadcast use lemma_file_id_index;

    lemma_step_keeps_file(s, key, step, file);
    if leaves_alone(step, file) {
        lemma_step_keeps_content(s, key, step, file);
    }
}

/// **A written file is not empty.** From the first successful write on, a file has
/// content until it is destroyed, and no read of it reports that it is empty.
pub proof fn law_a_written_file_is_never_empty(
    s: StoreView,
    key: Key,
    writer: u64,
    file: FileId,
    data: Seq<u8>,
    sealed: Result<(Seq<u8>, Seq<u8>), StoreError>,
    steps: Seq<Step>,
    reader: u64,
    capacity: int,
)
    requires
        s.sound(key),
        is_sealing(sealed, key, data),
        s.write_result(writer, file, data, blake3_digest(data), sealed) is Ok,
        s.after(Step::Write { badge: writer, file, data, sealed }).allows_all(key, steps),
    ensures
        ({
            let t = s.after(Step::Write { badge: writer, file, data, sealed }).after_all(steps);
            &&& t.content(file) is Some || t.file(file).destroyed
            &&& t.readable(reader, file, capacity) != Err::<Seq<u8>, StoreError>(
                StoreError::FileEmpty,
            )
        }),
{
    let step = Step::Write { badge: writer, file, data, sealed };
    law_every_step_keeps_a_store_sound(s, key, step);
    lemma_access_has_file(s, writer, file, FileOps::WRITE);
    lemma_steps_keep_a_file_written(s.after(step), key, steps, file);
}

/// No steps take the content from a file, unless one destroys it.
proof fn lemma_steps_keep_a_file_written(
    s: StoreView,
    key: Key,
    steps: Seq<Step>,
    file: FileId,
)
    requires
        s.sound(key),
        s.allows_all(key, steps),
        s.has_file(file),
        s.file(file).address is Some || s.file(file).destroyed,
    ensures
        s.after_all(steps).has_file(file),
        s.after_all(steps).file(file).address is Some || s.after_all(steps).file(file).destroyed,
    decreases steps.len(),
{
    if steps.len() > 0 {
        lemma_step_keeps_a_file_written(s, key, steps.first(), file);
        law_every_step_keeps_a_store_sound(s, key, steps.first());
        lemma_steps_keep_a_file_written(s.after(steps.first()), key, steps.drop_first(), file);
    }
}

/// A step never changes which file and operations a badge was granted, nor lifts
/// a revocation.
proof fn lemma_step_keeps_grant(s: StoreView, key: Key, step: Step, badge: u64)
    requires
        s.sound(key),
        s.allows(key, step),
        s.grant_of(badge) is Some,
    ensures
        s.after(step).grant_of(badge) is Some,
        s.after(step).grant_of(badge)->0.file == s.grant_of(badge)->0.file,
        s.after(step).grant_of(badge)->0.ops == s.grant_of(badge)->0.ops,
        s.grant_of(badge)->0.revoked ==> s.after(step).grant_of(badge)->0.revoked,
{
    let t = s.after(step);
    let i = choose|i: int| is_grant_of(s.grants, badge, i);
    assert(is_grant_of(s.grants, badge, i));
    if let Step::Mint { file, ops, minted } = step {
        if s.admits(file) is Ok && minted is Ok {
            lemma_first_free(s.grants);
            let slot = choose|k: int| is_first_free(s.grants, k);
            assert(s.grants[i] is Some && s.grants[slot] is None);
        }
    }
    assert forall|j: int| 0 <= j < i implies !(#[trigger] t.grants[j] matches Some(g) && g.badge
        == badge) by {
        assert(!(s.grants[j] matches Some(g) && g.badge == badge));
    }
    assert(t.grants[i] is Some);
    assert(is_grant_of(t.grants, badge, i));
    let k = choose|k: int| is_grant_of(t.grants, badge, k);
    assert(k == i);
}

/// **A badge keeps its scope.** Whatever happens, a granted badge never comes to
/// name another file or other operations, and once revoked it stays revoked.
pub proof fn law_a_badge_keeps_its_scope(s: StoreView, key: Key, steps: Seq<Step>, badge: u64)
    requires
        s.sound(key),
        s.allows_all(key, steps),
        s.grant_of(badge) is Some,
    ensures
        s.after_all(steps).grant_of(badge) is Some,
        s.after_all(steps).grant_of(badge)->0.file == s.grant_of(badge)->0.file,
        s.after_all(steps).grant_of(badge)->0.ops == s.grant_of(badge)->0.ops,
        s.grant_of(badge)->0.revoked ==> s.after_all(steps).grant_of(badge)->0.revoked,
    decreases steps.len(),
{
    if steps.len() > 0 {
        lemma_step_keeps_grant(s, key, steps.first(), badge);
        law_every_step_keeps_a_store_sound(s, key, steps.first());
        law_a_badge_keeps_its_scope(s.after(steps.first()), key, steps.drop_first(), badge);
    }
}

/// **Revocation is permanent.** From a revocation on, a granted badge is refused
/// every operation on every file, whatever happens afterwards.
pub proof fn law_revocation_is_permanent(
    s: StoreView,
    key: Key,
    badge: u64,
    steps: Seq<Step>,
    file: FileId,
    op: FileOps,
)
    requires
        s.sound(key),
        s.grant_of(badge) is Some,
        s.after_revoke(badge).allows_all(key, steps),
    ensures
        s.after_revoke(badge).after_all(steps).access(badge, file, op) == Err::<(), StoreError>(
            StoreError::BadgeRevoked,
        ),
{
    let step = Step::Revoke { badge };
    let t = s.after(step);
    let i = choose|i: int| is_grant_of(s.grants, badge, i);
    assert(is_grant_of(s.grants, badge, i));
    assert forall|j: int| 0 <= j < i implies !(#[trigger] t.grants[j] matches Some(g) && g.badge
        == badge) by {
        assert(!(s.grants[j] matches Some(g) && g.badge == badge));
    }
    assert(is_grant_of(t.grants, badge, i));
    let k = choose|k: int| is_grant_of(t.grants, badge, k);
    assert(k == i);
    law_every_step_keeps_a_store_sound(s, key, step);
    law_a_badge_keeps_its_scope(t, key, steps, badge);
}

/// A minted badge that was not in use is granted exactly the file and the
/// operations that were asked for.
pub proof fn law_a_minted_badge_is_scoped(
    s: StoreView,
    file: FileId,
    ops: FileOps,
    badge: u64,
    f: FileId,
    op: FileOps,
)
    requires
        s.consistent(),
        s.admits(file) is Ok,
        s.grant_of(badge) is None,
    ensures
        s.after_mint(file, ops, Ok(badge)).access(badge, f, op) is Ok <==> f == file
            && ops.includes(op),
{
    let t = s.after_mint(file, ops, Ok(badge));
    lemma_first_free(s.grants);
    let slot = choose|k: int| is_first_free(s.grants, k);
    assert(is_first_free(s.grants, slot));
    assert forall|j: int| 0 <= j < slot implies !(#[trigger] t.grants[j] matches Some(g) && g.badge
        == badge) by {
        lemma_unknown_badge(s, badge, j);
    }
    assert(is_grant_of(t.grants, badge, slot));
    let k = choose|k: int| is_grant_of(t.grants, badge, k);
    assert(k == slot);
}

/// No grant is to a badge that was granted nothing.
pub(crate) proof fn lemma_unknown_badge(s: StoreView, badge: u64, i: int)
    requires
        s.grant_of(badge) is None,
        0 <= i < s.grants.len(),
    ensures
        !(s.grants[i] matches Some(g) && g.badge == badge),
    decreases i,
{
    if s.grants[i] matches Some(g) && g.badge == badge {
        assert forall|j: int| 0 <= j < i implies !(#[trigger] s.grants[j] matches Some(g)
            && g.badge == badge) by {
            lemma_unknown_badge(s, badge, j);
        }
        assert(is_grant_of(s.grants, badge, i));
    }
}

/// **Every operation asked for must be granted.** A badge is allowed two sets of
/// operations together exactly if it is allowed each of them; holding one of two
/// is not enough.
pub proof fn law_every_operation_asked_for_must_be_granted(
    s: StoreView,
    badge: u64,
    file: FileId,
    a: FileOps,
    b: FileOps,
    both: FileOps,
)
    requires
        both.joins(a, b),
    ensures
        s.access(badge, file, both) is Ok <==> s.access(badge, file, a) is Ok && s.access(
            badge,
            file,
            b,
        ) is Ok,
{
}

/// **A wrong file reveals nothing.** A badge that was not revoked and was granted
/// another file is told, for every operation, only that the file is the wrong
/// one: the answer depends neither on which file it was granted nor on the
/// operations.
pub proof fn law_a_wrong_file_reveals_nothing(
    s: StoreView,
    t: StoreView,
    badge: u64,
    file: FileId,
    op: FileOps,
)
    requires
        s.grant_of(badge) matches Some(grant) && !grant.revoked && grant.file != file,
        t.grant_of(badge) matches Some(grant) && !grant.revoked && grant.file != file,
    ensures
        s.access(badge, file, op) == Err::<(), StoreError>(StoreError::WrongFile),
        t.access(badge, file, op) == s.access(badge, file, op),
        s.permits(badge, file, op) == Err::<(), StoreError>(StoreError::WrongFile),
        t.permits(badge, file, op) == s.permits(badge, file, op),
{
}

/// **Only a granted badge succeeds.** A read or a write that succeeds was made by
/// a badge that was granted that operation on that file and not revoked, and the
/// file was not destroyed; a write that fails changes nothing.
pub proof fn law_only_a_granted_badge_succeeds(
    s: StoreView,
    badge: u64,
    file: FileId,
    data: Seq<u8>,
    sealed: Result<(Seq<u8>, Seq<u8>), StoreError>,
    capacity: int,
    opened: Result<(), StoreError>,
)
    ensures
        s.read_result(badge, file, capacity, opened) is Ok ==> {
            &&& s.grant_of(badge) is Some
            &&& s.grant_of(badge)->0.file == file
            &&& s.grant_of(badge)->0.ops.reads()
            &&& !s.grant_of(badge)->0.revoked
            &&& !s.file(file).destroyed
        },
        s.write_result(badge, file, data, blake3_digest(data), sealed) is Ok ==> {
            &&& s.grant_of(badge) is Some
            &&& s.grant_of(badge)->0.file == file
            &&& s.grant_of(badge)->0.ops.writes()
            &&& !s.grant_of(badge)->0.revoked
            &&& !s.file(file).destroyed
        },
        s.write_result(badge, file, data, blake3_digest(data), sealed) is Err ==> s.after_write(
            badge,
            file,
            data,
            blake3_digest(data),
            sealed,
        ) == s,
{
}

/// **Deny by default.** A badge that was granted nothing is refused everything:
/// every access, and every request, which changes nothing.
pub proof fn law_an_unknown_badge_is_refused(
    s: StoreView,
    badge: u64,
    file: FileId,
    op: FileOps,
    code: u16,
    request: Seq<u8>,
    capacity: int,
    sealed: Result<(Seq<u8>, Seq<u8>), StoreError>,
    opened: Result<(), StoreError>,
)
    requires
        s.grant_of(badge) is None,
    ensures
        s.access(badge, file, op) == Err::<(), StoreError>(StoreError::UnknownBadge),
        reply_to(s, badge, code, request, capacity, sealed, opened) == (status::ACCESS, 0usize),
        after_request(s, badge, code, request, sealed) == s,
{
}

// ---- requests

/// **A write request is read back.** If a write request is answered with success
/// and, after any steps that spare the file, so is a read request by a badge
/// granted the same file, the reply is the bytes written. Left out: a content whose
/// hash the store holds for another content, and a cipher that reports its failure
/// as an empty file, which a reply does not tell from success.
pub proof fn law_a_write_request_is_read_back(
    s: StoreView,
    key: Key,
    writer: u64,
    request: Seq<u8>,
    sealed: Result<(Seq<u8>, Seq<u8>), StoreError>,
    room: int,
    unopened: Result<(), StoreError>,
    written: (u16, usize),
    steps: Seq<Step>,
    reader: u64,
    ignored: Seq<u8>,
    unsealed: Result<(Seq<u8>, Seq<u8>), StoreError>,
    capacity: int,
    opened: Result<(), StoreError>,
    buf: Seq<u8>,
    read: (u16, usize),
)
    requires
        s.sound(key),
        s.no_collision(blake3_digest(request), request),
        is_sealing(sealed, key, request),
        sealed != Err::<(Seq<u8>, Seq<u8>), StoreError>(StoreError::FileEmpty),
        opened != Err::<(), StoreError>(StoreError::FileEmpty),
        written == reply_to(s, writer, OP_WRITE, request, room, sealed, unopened),
        written.0 == status::OK,
        after_request(s, writer, OP_WRITE, request, sealed).allows_all(key, steps),
        after_request(s, writer, OP_WRITE, request, sealed).spares_all(
            steps,
            s.grant_of(writer)->0.file,
        ),
        ({
            let t = after_request(s, writer, OP_WRITE, request, sealed).after_all(steps);
            &&& t.grant_of(reader) matches Some(grant) && grant.file == s.grant_of(writer)->0.file
            &&& is_opening(opened, key, t, request_target(t, reader, OP_READ, capacity), buf)
            &&& read == reply_to(t, reader, OP_READ, ignored, capacity, unsealed, opened)
        }),
        read.0 == status::OK,
    ensures
        written.1 == 0,
        read.1 == request.len(),
        buf.take(read.1 as int) == request,
{
    let file = s.grant_of(writer)->0.file;
    let step = Step::Write { badge: writer, file, data: request, sealed };
    let t = s.after(step).after_all(steps);
    assert(s.write_result(writer, file, request, blake3_digest(request), sealed) is Ok);
    law_every_step_keeps_a_store_sound(s, key, step);
    law_write_sets_the_content(s, writer, file, request, sealed);
    law_content_survives_what_spares_the_file(s.after(step), key, steps, file);
    assert(t.read_result(reader, file, capacity, opened) is Ok);
    law_read_gives_back_what_write_wrote(
        s,
        key,
        writer,
        file,
        request,
        sealed,
        steps,
        reader,
        capacity,
        opened,
        buf,
        read.1,
    );
}

/// A request changes no file but the one its badge was granted.
pub proof fn law_a_request_reaches_only_its_file(
    s: StoreView,
    key: Key,
    badge: u64,
    op: u16,
    request: Seq<u8>,
    sealed: Result<(Seq<u8>, Seq<u8>), StoreError>,
    file: FileId,
)
    requires
        s.sound(key),
        is_sealing(sealed, key, request),
        s.has_file(file),
        s.grant_of(badge) matches Some(grant) ==> grant.file != file,
    ensures
        after_request(s, badge, op, request, sealed).file(file) == s.file(file),
        after_request(s, badge, op, request, sealed).content(file) == s.content(file),
{
    if s.grant_of(badge) is Some && op == OP_WRITE {
        let granted = s.grant_of(badge)->0.file;
        let step = Step::Write { badge, file: granted, data: request, sealed };
        lemma_step_keeps_content(s, key, step, file);
    }
}

/// A file without content that was not destroyed, which is one that was never
/// written, reads, over a request, as success with no payload.
pub proof fn law_a_file_without_content_reads_as_empty(
    s: StoreView,
    badge: u64,
    request: Seq<u8>,
    capacity: int,
    sealed: Result<(Seq<u8>, Seq<u8>), StoreError>,
    opened: Result<(), StoreError>,
)
    requires
        s.grant_of(badge) is Some,
        s.permits(badge, s.grant_of(badge)->0.file, FileOps::READ) is Ok,
        s.content(s.grant_of(badge)->0.file) is None,
    ensures
        reply_to(s, badge, OP_READ, request, capacity, sealed, opened) == (status::OK, 0usize),
{
}

/// A reply that is not a success has no payload.
pub proof fn law_only_success_has_a_payload(
    s: StoreView,
    badge: u64,
    op: u16,
    request: Seq<u8>,
    capacity: int,
    sealed: Result<(Seq<u8>, Seq<u8>), StoreError>,
    opened: Result<(), StoreError>,
)
    ensures
        reply_to(s, badge, op, request, capacity, sealed, opened).0 != status::OK ==> reply_to(
            s,
            badge,
            op,
            request,
            capacity,
            sealed,
            opened,
        ).1 == 0,
{
}

} // verus!
