//! The store: files, blocks and grants in tables of fixed size.
use vstd::prelude::*;

use crate::address::{
    blake3_digest, content_hash, nonce_from_hash, nonce_of, HASH_LEN, NONCE_LEN, TAG_LEN,
};
use crate::cipher::Cipher;
use crate::counting::{
    lemma_count_bound, lemma_count_is_cardinality, lemma_count_update, lemma_count_witness,
};
use crate::error::{kernel_outcome, StoreError, SyscallError};
use crate::laws::{
    law_every_step_keeps_a_store_sound, law_read_yields_the_content, law_write_sets_the_content,
    Step,
};
use crate::model::{
    count, is_first_free, is_full, is_grant_of, is_opening, is_packed, is_sealing, points_at, references,
    sealed_by, BlockView, FileId, FileView, GrantRecord, StoreView, MAX_BLOCKS, MAX_BLOCK_LEN, MAX_FILES,
    MAX_GRANTS,
};
use crate::ops::{CPtr, FileOps, Rights};
use crate::tables::{
    addressed, blocks_seen, buried, collected, counted, files_seen, first_free, holds, lemma_block_seen,
    lemma_block_to_spare, lemma_collected, lemma_no_references, lemma_one_holder,
    lemma_references, lemma_retained_ignores_counts, lemma_taken, linked, released, same_hash,
    uses, Block, FileRecord,
};

verus! {

/// A content-addressed store of encrypted, reference-counted blocks, named by
/// files that only badges reach.
pub struct Store {
    files: [Option<FileRecord>; MAX_FILES],
    blocks: [Option<Block>; MAX_BLOCKS],
    grants: [Option<GrantRecord>; MAX_GRANTS],
}

impl View for Store {
    type V = StoreView;

    closed spec fn view(&self) -> StoreView {
        StoreView {
            files: files_seen(self.files@, self.blocks@),
            blocks: blocks_seen(self.blocks@),
            grants: self.grants@,
        }
    }
}

impl Store {
    /// The store's invariant.
    pub closed spec fn wf(&self) -> bool {
        &&& linked(self.files@, self.blocks@)
        &&& buried(self.files@)
        &&& addressed(self.blocks@)
        &&& counted(self.files@, self.blocks@)
        &&& self.grants_wf()
    }

    /// Grants fill their table from the front, and every one is on a file that
    /// exists.
    spec fn grants_wf(&self) -> bool {
        &&& is_packed(self.grants@)
        &&& forall|i: int|
            0 <= i < MAX_GRANTS && #[trigger] self.grants@[i] is Some ==> {
                let f = self.grants@[i]->0.file.index();
                0 <= f < MAX_FILES && self.files@[f] is Some
            }
    }

    /// **Exact reference counting.** In a well-formed store a block exists exactly
    /// while some file needs it, and its reference count is the number of files
    /// that share it; every grant is on a file that exists, and a destroyed file
    /// has no content.
    pub proof fn law_exact_reference_counts(&self)
        requires
            self.wf(),
        ensures
            self@.consistent(),
    {
        let (files, blocks) = (self.files@, self.blocks@);
        assert forall|hash: Seq<u8>| #[trigger]
            self@.blocks.contains_key(hash) <==> references(self@.files, hash) > 0 by {
            if self@.blocks.contains_key(hash) {
                let s = choose|s: int| holds(blocks, s, hash);
                assert(blocks[s] is Some);
                lemma_references(files, blocks, s);
            } else {
                lemma_no_references(files, blocks, hash);
            }
        }
        assert forall|hash: Seq<u8>| #[trigger] self@.blocks.contains_key(hash) implies {
            let block = self@.blocks[hash];
            &&& block.refcount == references(self@.files, hash)
            &&& block.ciphertext.len() == block.content.len() <= MAX_BLOCK_LEN
            &&& block.tag.len() == TAG_LEN
        } by {
            let s = choose|s: int| holds(blocks, s, hash);
            assert(blocks[s] is Some);
            lemma_references(files, blocks, s);
            lemma_block_seen(blocks, s);
        }
    }

    /// **What a store always is.** Its tables have room for all it can hold, and
    /// grants fill theirs from the front. Every grant is on a file that exists, and
    /// a destroyed file has no content. A block is held exactly while some file is
    /// at its address; its reference count is the number of such files, and its
    /// ciphertext is as long as its content, which fits a block.
    pub proof fn law_what_a_store_always_is(&self, hash: Seq<u8>, users: Set<int>)
        requires
            self.wf(),
            forall|i: int| #[trigger]
                users.contains(i) <==> 0 <= i < MAX_FILES && self@.files[i] is Some
                    && self@.files[i]->0.address == Some(hash),
        ensures
            self@.files.len() == MAX_FILES,
            self@.grants.len() == MAX_GRANTS,
            forall|j: int, k: int|
                0 <= j < k < MAX_GRANTS && #[trigger] self@.grants[k] is Some
                    ==> #[trigger] self@.grants[j] is Some,
            forall|j: int|
                0 <= j < MAX_GRANTS && #[trigger] self@.grants[j] is Some ==> {
                    let f = self@.grants[j]->0.file.index();
                    0 <= f < MAX_FILES && self@.files[f] is Some
                },
            forall|i: int|
                0 <= i < MAX_FILES && #[trigger] self@.files[i] is Some
                    && self@.files[i]->0.destroyed ==> self@.files[i]->0.address is None,
            users.finite(),
            self@.blocks.contains_key(hash) <==> users.len() > 0,
            self@.blocks.contains_key(hash) ==> {
                &&& self@.blocks[hash].refcount == users.len()
                &&& self@.blocks[hash].ciphertext.len() == self@.blocks[hash].content.len()
                &&& self@.blocks[hash].content.len() <= MAX_BLOCK_LEN
                &&& self@.blocks[hash].tag.len() == TAG_LEN
            },
    {
        self.law_exact_reference_counts();
        lemma_count_is_cardinality(self@.files, points_at(hash), users);
    }

    /// A store with no files, blocks or grants.
    pub fn new() -> (store: Store)
        ensures
            store.wf(),
            store@ == StoreView::empty(),
    {
        let store = Store {
            files: [None; MAX_FILES],
            blocks: [None; MAX_BLOCKS],
            grants: [None; MAX_GRANTS],
        };
        assert(store@ =~= StoreView::empty());
        store
    }

    /// Allocates a new, empty file. Its name is never reused, not even after
    /// [`Store::destroy`].
    pub fn create(&mut self) -> (created: Result<FileId, StoreError>)
        requires
            old(self).wf(),
        ensures
            final(self).wf(),
            match created {
                Ok(file) => {
                    &&& is_first_free(old(self)@.files, file.index())
                    &&& final(self)@ == old(self)@.after_create(file.index())
                },
                Err(e) => {
                    &&& e == StoreError::NotEnoughCapacity
                    &&& is_full(old(self)@.files)
                    &&& final(self)@ == old(self)@
                },
            },
    {
        match first_free(&self.files) {
            None => Err(StoreError::NotEnoughCapacity),
            Some(i) => {
                self.files[i] = Some(FileRecord { block: None, destroyed: false });
                proof {
                    let (files0, files1, blocks) = (old(self).files@, self.files@, self.blocks@);
                    assert forall|s: int| count(files1, #[trigger] uses(s)) == count(
                        files0,
                        uses(s),
                    ) by {
                        lemma_count_update(files0, i as int, files1[i as int], uses(s));
                    }
                    assert(self@ =~= old(self)@.after_create(i as int));
                }
                Ok(FileId::from_index(i))
            },
        }
    }

    /// The slot of what `badge` was granted.
    fn find_grant(&self, badge: u64) -> (found: Option<usize>)
        ensures
            match found {
                Some(i) => is_grant_of(self@.grants, badge, i as int) && self@.grant_of(badge)
                    == self@.grants[i as int],
                None => self@.grant_of(badge) is None,
            },
    {
        let mut i: usize = 0;
        while i < MAX_GRANTS
            invariant
                i <= MAX_GRANTS,
                self@.grants == self.grants@,
                forall|j: int|
                    0 <= j < i ==> !(#[trigger] self.grants@[j] matches Some(g) && g.badge
                        == badge),
            decreases MAX_GRANTS - i,
        {
            if let Some(grant) = self.grants[i] {
                if grant.badge == badge {
                    assert(is_grant_of(self@.grants, badge, i as int));
                    return Some(i);
                }
            }
            i = i + 1;
        }
        None
    }

    /// The file that `badge` was granted, whatever the operations and whether or
    /// not it was revoked since.
    pub fn file_for_badge(&self, badge: u64) -> (file: Option<FileId>)
        ensures
            file == match self@.grant_of(badge) {
                Some(grant) => Some(grant.file),
                None => None,
            },
    {
        match self.find_grant(badge) {
            Some(i) => match self.grants[i] {
                Some(grant) => Some(grant.file),
                None => None,
            },
            None => None,
        }
    }

    /// Whether `badge` may perform `op` on `file`: deny by default.
    fn check_access(&self, badge: u64, file: FileId, op: FileOps) -> (allowed: Result<
        (),
        StoreError,
    >)
        ensures
            allowed == self@.access(badge, file, op),
    {
        let found = match self.find_grant(badge) {
            Some(i) => self.grants[i],
            None => None,
        };
        match found {
            None => Err(StoreError::UnknownBadge),
            Some(grant) => {
                if grant.revoked {
                    return Err(StoreError::BadgeRevoked);
                }
                if grant.file != file {
                    return Err(StoreError::WrongFile);
                }
                if !grant.ops.contains(op) {
                    return Err(StoreError::OpNotGranted);
                }
                Ok(())
            },
        }
    }

    /// Whether `badge` may perform `op` on `file`, and the file was not destroyed.
    fn check_permitted(&self, badge: u64, file: FileId, op: FileOps) -> (permitted: Result<
        (),
        StoreError,
    >)
        requires
            self.grants_wf(),
        ensures
            permitted == self@.permits(badge, file, op),
            permitted is Ok ==> self@.has_file(file),
    {
        if let Err(e) = self.check_access(badge, file, op) {
            return Err(e);
        }
        assert(self@.has_file(file));
        match self.file_record(file) {
            Err(e) => Err(e),
            Ok(record) => if record.destroyed {
                Err(StoreError::FileDestroyed)
            } else {
                Ok(())
            },
        }
    }

    /// The record of `file`.
    fn file_record(&self, file: FileId) -> (record: Result<FileRecord, StoreError>)
        ensures
            match record {
                Ok(r) => self@.has_file(file) && self.files@[file.index()] == Some(r),
                Err(e) => e == StoreError::NoSuchFile && !self@.has_file(file),
            },
    {
        let i = file.to_index();
        if i < MAX_FILES {
            match self.files[i] {
                Some(record) => Ok(record),
                None => Err(StoreError::NoSuchFile),
            }
        } else {
            Err(StoreError::NoSuchFile)
        }
    }

    /// The slot of the block at address `target`.
    fn find_block(&self, target: &[u8; HASH_LEN]) -> (found: Option<usize>)
        ensures
            match found {
                Some(s) => holds(self.blocks@, s as int, target@),
                None => forall|s: int| !holds(self.blocks@, s, target@),
            },
    {
        let mut s: usize = 0;
        while s < MAX_BLOCKS
            invariant
                s <= MAX_BLOCKS,
                forall|t: int| 0 <= t < s ==> !holds(self.blocks@, t, target@),
            decreases MAX_BLOCKS - s,
        {
            if let Some(block) = &self.blocks[s] {
                if same_hash(&block.hash, target) {
                    return Some(s);
                }
            }
            s = s + 1;
        }
        None
    }

    /// Takes one reference from the block in slot `s`, and frees the slot the
    /// instant none is left.
    fn release_block(&mut self, s: usize)
        requires
            s < MAX_BLOCKS,
            old(self).blocks@[s as int] matches Some(b) && b.refcount > 0,
        ensures
            final(self).files == old(self).files,
            final(self).grants == old(self).grants,
            final(self).blocks@ == old(self).blocks@.update(
                s as int,
                released(old(self).blocks@[s as int]->0),
            ),
    {
        if let Some(block) = self.blocks[s] {
            self.blocks[s] = if block.refcount == 1 {
                None
            } else {
                Some(Block { refcount: block.refcount - 1, ..block })
            };
        }
    }

    /// Makes the block in slot `block`, which already counts the reference,
    /// `file`'s block, and releases the one it had.
    fn relink(&mut self, file: FileId, block: usize)
        requires
            linked(old(self).files@, old(self).blocks@),
            buried(old(self).files@),
            addressed(old(self).blocks@),
            old(self).grants_wf(),
            old(self)@.has_file(file),
            !old(self)@.file(file).destroyed,
            block < MAX_BLOCKS,
            old(self).blocks@[block as int] is Some,
            forall|s: int|
                0 <= s < MAX_BLOCKS && #[trigger] old(self).blocks@[s] is Some ==> {
                    let b = old(self).blocks@[s]->0;
                    &&& b.refcount > 0
                    &&& b.refcount == count(old(self).files@, uses(s)) + (if s == block {
                        1nat
                    } else {
                        0nat
                    })
                },
        ensures
            final(self).wf(),
            final(self)@ == old(self)@.relinked(
                file,
                (FileView {
                    address: Some(old(self).blocks@[block as int]->0.hash@),
                    ..old(self)@.file(file)
                }),
                old(self)@.blocks,
            ),
    {
        let i = file.to_index();
        let ghost (files0, pool) = (self.files@, self.blocks@);
        if let Some(record) = self.files[i] {
            self.files[i] = Some(FileRecord { block: Some(block), ..record });
            proof {
                assert forall|s: int| 0 <= s < MAX_BLOCKS implies count(
                    files0,
                    #[trigger] uses(s),
                ) + (if s == block {
                    1nat
                } else {
                    0nat
                }) == count(self.files@, uses(s)) + (if record.block == Some(s as usize) {
                    1nat
                } else {
                    0nat
                }) by {
                    lemma_count_update(files0, i as int, self.files@[i as int], uses(s));
                }
                if record.block is Some {
                    assert(files0[i as int] is Some);
                    lemma_count_witness(files0, uses(record.block->0 as int), i as int);
                }
            }
            if let Some(previous) = record.block {
                self.release_block(previous);
            }
        }
        proof {
            let files1 = self.files@;
            assert(linked(files1, pool));
            assert(collected(files1, pool, self.blocks@));
            lemma_collected(files1, pool, self.blocks@);
            assert(files_seen(files1, pool) =~= files_seen(files0, pool).update(
                i as int,
                files_seen(files1, pool)[i as int],
            ));
        }
    }

    /// Tombstones `file`, whose name is never reused, and releases its block. The
    /// file is out of reach from then on.
    pub fn destroy(&mut self, file: FileId) -> (destroyed: Result<(), StoreError>)
        requires
            old(self).wf(),
        ensures
            final(self).wf(),
            match destroyed {
                Ok(_) => {
                    &&& old(self)@.has_file(file)
                    &&& final(self)@ == old(self)@.after_destroy(file)
                },
                Err(e) => {
                    &&& e == StoreError::NoSuchFile
                    &&& !old(self)@.has_file(file)
                    &&& final(self)@ == old(self)@
                },
            },
    {
        let record = match self.file_record(file) {
            Ok(record) => record,
            Err(e) => return Err(e),
        };
        let i = file.to_index();
        let ghost (files0, pool) = (self.files@, self.blocks@);
        proof {
            assert(files0[i as int] is Some);
            if record.block is Some {
                lemma_count_witness(files0, uses(record.block->0 as int), i as int);
            }
        }
        if let Some(block) = record.block {
            self.release_block(block);
        }
        self.files[i] = Some(FileRecord { block: None, destroyed: true });
        proof {
            let files1 = self.files@;
            assert forall|s: int| 0 <= s < MAX_BLOCKS implies count(
                files0,
                #[trigger] uses(s),
            ) == count(files1, uses(s)) + (if record.block == Some(s as usize) {
                1nat
            } else {
                0nat
            }) by {
                lemma_count_update(files0, i as int, files1[i as int], uses(s));
            }
            assert(linked(files1, pool));
            assert(collected(files1, pool, self.blocks@));
            lemma_collected(files1, pool, self.blocks@);
            assert(files_seen(files1, pool) =~= files_seen(files0, pool).update(
                i as int,
                files_seen(files1, pool)[i as int],
            ));
            assert(self@ =~= old(self)@.after_destroy(file));
        }
        Ok(())
    }

    /// What [`Store::write`] does once the content's address is known, and the
    /// outcome of sealing it where that is called for.
    ///
    /// A content whose address the store holds already is not sealed again:
    /// `file` shares the block. Otherwise the sealed content becomes a block of
    /// its own. Either way `file`'s previous block is released.
    pub fn write_sealed(
        &mut self,
        badge: u64,
        file: FileId,
        data: &[u8],
        hash: &[u8; HASH_LEN],
        sealed: Result<Sealed, StoreError>,
    ) -> (written: Result<(), StoreError>)
        requires
            old(self).wf(),
        ensures
            final(self).wf(),
            written == old(self)@.write_result(
                badge,
                file,
                data@,
                hash@,
                sealed_seen(sealed, data@.len()),
            ),
            final(self)@ == old(self)@.after_write(
                badge,
                file,
                data@,
                hash@,
                sealed_seen(sealed, data@.len()),
            ),
    {
        if let Err(e) = self.check_permitted(badge, file, FileOps::WRITE) {
            return Err(e);
        }
        if data.len() > MAX_BLOCK_LEN {
            return Err(StoreError::ContentTooLarge);
        }
        let ghost outcome = sealed_seen(sealed, data@.len());
        let ghost (files0, blocks0) = (self.files@, self.blocks@);
        let found = self.find_block(hash);
        assert(self@.blocks.contains_key(hash@) == (found is Some));
        let block = match found {
            Some(s) => {
                if let Some(held) = self.blocks[s] {
                    proof {
                        lemma_count_bound(files0, uses(s as int));
                    }
                    self.blocks[s] = Some(Block { refcount: held.refcount + 1, ..held });
                }
                s
            },
            None => {
                let sealed = match sealed {
                    Ok(sealed) => sealed,
                    Err(e) => return Err(e),
                };
                let slot = match first_free(&self.blocks) {
                    Some(slot) => slot,
                    None => {
                        proof {
                            lemma_block_to_spare(files0, blocks0);
                        }
                        return Err(StoreError::NotEnoughCapacity);
                    },
                };
                self.blocks[slot] = Some(
                    Block {
                        hash: *hash,
                        ciphertext: sealed.ciphertext,
                        len: data.len(),
                        tag: sealed.tag,
                        refcount: 1,
                        content: Ghost(data@),
                    },
                );
                slot
            },
        };
        let ghost mid = *self;
        proof {
            lemma_taken(files0, blocks0, mid.blocks@, block as int);
        }
        self.relink(file, block);
        proof {
            let new = FileView { address: Some(hash@), ..old(self)@.file(file) };
            assert(mid@.files =~= old(self)@.files);
            let files1 = old(self)@.files.update(file.index(), Some(new));
            let pool = if found is Some {
                old(self)@.blocks
            } else {
                let (ciphertext, tag) = outcome->Ok_0;
                old(self)@.blocks.insert(
                    hash@,
                    BlockView { ciphertext, tag, content: data@, refcount: 1 },
                )
            };
            lemma_retained_ignores_counts(files1, mid@.blocks, pool);
            assert(self@ =~= old(self)@.after_write(badge, file, data@, hash@, outcome));
        }
        Ok(())
    }

    /// Makes `data` the content of `file`, if `badge` was granted
    /// [`FileOps::WRITE`] on it and the file was not destroyed.
    ///
    /// The cipher is called only for a content that the store does not hold yet;
    /// one that it holds is shared and never sealed again.
    pub fn write<C: Cipher>(
        &mut self,
        cipher: &mut C,
        badge: u64,
        file: FileId,
        data: &[u8],
    ) -> (written: Result<(), StoreError>)
        requires
            old(self).wf(),
        ensures
            final(self).wf(),
            final(cipher).key() == old(cipher).key(),
            exists|sealed: Result<(Seq<u8>, Seq<u8>), StoreError>|
                {
                    &&& #[trigger] is_sealing(sealed, old(cipher).key(), data@)
                    &&& written == old(self)@.write_result(
                        badge,
                        file,
                        data@,
                        blake3_digest(data@),
                        sealed,
                    )
                    &&& final(self)@ == old(self)@.after_write(
                        badge,
                        file,
                        data@,
                        blake3_digest(data@),
                        sealed,
                    )
                },
            old(self)@.needs_sealing(badge, file, data@, blake3_digest(data@)) ==> exists|
                c: &mut C,
                nonce: &[u8; NONCE_LEN],
                aad: &[u8],
                buffer: &mut [u8],
                outcome: Result<[u8; TAG_LEN], StoreError>,
            |
                {
                    &&& #[trigger] call_ensures(C::encrypt, (c, nonce, aad, buffer), outcome)
                    &&& *c == *old(cipher)
                    &&& *final(c) == *final(cipher)
                    &&& nonce@ == nonce_of(blake3_digest(data@))
                    &&& aad@ == blake3_digest(data@)
                    &&& buffer@ == data@
                    &&& written == old(self)@.write_result(
                        badge,
                        file,
                        data@,
                        blake3_digest(data@),
                        sealed_by(outcome, final(buffer)@),
                    )
                    &&& final(self)@ == old(self)@.after_write(
                        badge,
                        file,
                        data@,
                        blake3_digest(data@),
                        sealed_by(outcome, final(buffer)@),
                    )
                },
            !old(self)@.needs_sealing(badge, file, data@, blake3_digest(data@)) ==> *final(cipher)
                == *old(cipher),
            written is Ok && old(self)@.no_collision(blake3_digest(data@), data@) ==> final(
                self)@.content(file) == Some(data@),
            old(self)@.sound(old(cipher).key()) ==> final(self)@.sound(old(cipher).key()),
    {
        let hash = content_hash(data);
        let sealing = match self.find_block(&hash) {
            Some(_) => false,
            None => data.len() <= MAX_BLOCK_LEN && self.check_permitted(
                badge,
                file,
                FileOps::WRITE,
            ).is_ok(),
        };
        assert(sealing == self@.needs_sealing(badge, file, data@, hash@));
        let sealed = if sealing {
            seal(cipher, data, &hash)
        } else {
            // Not looked at: there is nothing to seal.
            Err(StoreError::ContentTooLarge)
        };
        let ghost outcome = sealed_seen(sealed, data@.len());
        assert(is_sealing(outcome, old(cipher).key(), data@));
        proof {
            self.law_exact_reference_counts();
            if self@.write_result(badge, file, data@, hash@, outcome) is Ok && self@.no_collision(
                hash@,
                data@,
            ) {
                law_write_sets_the_content(self@, badge, file, data@, outcome);
            }
            if self@.sound(old(cipher).key()) {
                law_every_step_keeps_a_store_sound(
                    self@,
                    old(cipher).key(),
                    Step::Write { badge, file, data: data@, sealed: outcome },
                );
            }
        }
        self.write_sealed(badge, file, data, &hash, sealed)
    }

    /// The slot of the block to read `file` from into a buffer of `capacity`
    /// bytes.
    fn locate(&self, badge: u64, file: FileId, capacity: usize) -> (located: Result<
        usize,
        StoreError,
    >)
        requires
            self.wf(),
        ensures
            match located {
                Ok(s) => {
                    &&& s < MAX_BLOCKS
                    &&& self.blocks@[s as int] matches Some(b)
                    &&& self@.readable(badge, file, capacity as int) == Ok::<_, StoreError>(b.hash@)
                    &&& self@.blocks[b.hash@] == b.seen()
                    &&& b.len <= MAX_BLOCK_LEN
                    &&& b.len <= capacity
                },
                Err(e) => self@.readable(badge, file, capacity as int) == Err::<Seq<u8>, _>(e),
            },
    {
        if let Err(e) = self.check_permitted(badge, file, FileOps::READ) {
            return Err(e);
        }
        let record = match self.file_record(file) {
            Ok(record) => record,
            Err(e) => return Err(e),
        };
        match record.block {
            None => Err(StoreError::FileEmpty),
            Some(s) => {
                assert(self.files@[file.index()] is Some);
                proof {
                    lemma_block_seen(self.blocks@, s as int);
                }
                match &self.blocks[s] {
                    Some(block) => if block.len > capacity {
                        Err(StoreError::ContentTooLarge)
                    } else {
                        Ok(s)
                    },
                    None => Err(StoreError::FileEmpty),
                }
            },
        }
    }

    /// What [`Store::read`] into a buffer of `capacity` bytes returns once the
    /// outcome of opening the file's block is known.
    pub fn read_opened(
        &self,
        badge: u64,
        file: FileId,
        capacity: usize,
        opened: Result<(), StoreError>,
    ) -> (read: Result<usize, StoreError>)
        requires
            self.wf(),
        ensures
            read == self@.read_result(badge, file, capacity as int, opened),
    {
        match self.locate(badge, file, capacity) {
            Err(e) => Err(e),
            Ok(s) => match (opened, &self.blocks[s]) {
                (Err(e), _) => Err(e),
                (Ok(_), Some(block)) => Ok(block.len),
                (Ok(_), None) => Err(StoreError::FileEmpty),
            },
        }
    }

    /// Reads the content of `file` into the front of `buf`, if `badge` was
    /// granted [`FileOps::READ`] on it and the file was not destroyed, and returns
    /// its length.
    ///
    /// The block is opened in the front of `buf`: where that fails, the front
    /// holds what the cipher left there.
    pub fn read<C: Cipher>(
        &self,
        cipher: &mut C,
        badge: u64,
        file: FileId,
        buf: &mut [u8],
    ) -> (read: Result<usize, StoreError>)
        requires
            self.wf(),
        ensures
            final(cipher).key() == old(cipher).key(),
            final(buf)@.len() == old(buf)@.len(),
            exists|opened: Result<(), StoreError>|
                {
                    &&& #[trigger] is_opening(
                        opened,
                        old(cipher).key(),
                        self@,
                        self@.readable(badge, file, old(buf)@.len() as int),
                        final(buf)@,
                    )
                    &&& read == self@.read_result(badge, file, old(buf)@.len() as int, opened)
                },
            match self@.readable(badge, file, old(buf)@.len() as int) {
                Ok(hash) => exists|
                    c: &mut C,
                    nonce: &[u8; NONCE_LEN],
                    aad: &[u8],
                    front: &mut [u8],
                    tag: &[u8; TAG_LEN],
                    opened: Result<(), StoreError>,
                |
                    {
                        let n = self@.blocks[hash].ciphertext.len() as int;
                        &&& #[trigger] call_ensures(C::decrypt, (c, nonce, aad, front, tag), opened)
                        &&& *c == *old(cipher)
                        &&& *final(c) == *final(cipher)
                        &&& nonce@ == nonce_of(hash)
                        &&& aad@ == hash
                        &&& front@ == self@.blocks[hash].ciphertext
                        &&& tag@ == self@.blocks[hash].tag
                        &&& final(front)@ == final(buf)@.take(n)
                        &&& final(buf)@.skip(n) == old(buf)@.skip(n)
                        &&& read == self@.read_result(badge, file, old(buf)@.len() as int, opened)
                    },
                Err(_) => final(buf)@ == old(buf)@ && *final(cipher) == *old(cipher),
            },
            self@.sealed_under(old(cipher).key()) ==> (read matches Ok(n) ==> self@.content(file)
                == Some(final(buf)@.take(n as int))),
    {
        let capacity = buf.len();
        let s = match self.locate(badge, file, capacity) {
            Ok(s) => s,
            Err(e) => {
                assert(is_opening(
                    Err(e),
                    old(cipher).key(),
                    self@,
                    self@.readable(badge, file, capacity as int),
                    buf@,
                ));
                return Err(e);
            },
        };
        match &self.blocks[s] {
            None => Err(StoreError::FileEmpty),
            Some(block) => {
                let n = block.len;
                let ghost before = buf@;
                let nonce = nonce_from_hash(&block.hash);
                let (front, _) = buf.split_at_mut(n);
                let mut i: usize = 0;
                while i < n
                    invariant
                        i <= n <= MAX_BLOCK_LEN,
                        front@.len() == n,
                        forall|j: int| 0 <= j < i ==> front@[j] == block.ciphertext@[j],
                    decreases n - i,
                {
                    front[i] = block.ciphertext[i];
                    i = i + 1;
                }
                assert(front@ =~= block.seen().ciphertext);
                let opened = cipher.decrypt(&nonce, &block.hash, front, &block.tag);
                let ghost decrypted = front@;
                assert(buf@.take(n as int) =~= decrypted);
                assert(is_opening(
                    opened,
                    old(cipher).key(),
                    self@,
                    self@.readable(badge, file, capacity as int),
                    buf@,
                ));
                assert(buf@.skip(n as int) =~= before.skip(n as int));
                let read = self.read_opened(badge, file, capacity, opened);
                proof {
                    self.law_exact_reference_counts();
                    let key = old(cipher).key();
                    if read is Ok && self@.sealed_under(key) {
                        law_read_yields_the_content(
                            self@,
                            key,
                            badge,
                            file,
                            capacity as int,
                            opened,
                            buf@,
                            read->Ok_0,
                        );
                    }
                }
                read
            },
        }
    }

    /// Whether a badge for `file` may be minted.
    fn check_grantable(&self, file: FileId) -> (admitted: Result<(), StoreError>)
        ensures
            admitted == self@.admits(file),
    {
        let record = match self.file_record(file) {
            Ok(record) => record,
            Err(e) => return Err(e),
        };
        if record.destroyed {
            return Err(StoreError::FileDestroyed);
        }
        match first_free(&self.grants) {
            Some(i) => {
                assert(self@.grants[i as int] is None);
                Ok(())
            },
            None => Err(StoreError::NotEnoughCapacity),
        }
    }

    /// What [`Store::request_file_access`] does once the kernel has answered the
    /// mint: records that the minted badge may perform `ops` on `file`.
    pub fn record_grant(
        &mut self,
        file: FileId,
        ops: FileOps,
        minted: Result<u64, SyscallError>,
    ) -> (granted: Result<u64, StoreError>)
        requires
            old(self).wf(),
        ensures
            final(self).wf(),
            granted == old(self)@.mint_result(file, minted),
            final(self)@ == old(self)@.after_mint(file, ops, minted),
    {
        if let Err(e) = self.check_grantable(file) {
            return Err(e);
        }
        match minted {
            Err(e) => Err(StoreError::Kernel(e)),
            Ok(badge) => {
                if let Some(i) = first_free(&self.grants) {
                    assert(is_first_free(old(self)@.grants, i as int));
                    self.grants[i] = Some(GrantRecord { badge, file, ops, revoked: false });
                    assert(self@ =~= old(self)@.granted(file, ops, badge));
                }
                Ok(badge)
            },
        }
    }

    /// Mints a badge scoped to `file` and `ops`: first of two steps, the second
    /// being [`Store::deliver_grant`] or [`Store::deliver_grant_via_reply`].
    ///
    /// `mint` has the kernel derive, from the capability in the first slot it is
    /// given, a badged one with the given rights in the second, and hands back
    /// the badge. It is asked for the rights to call and to pass the capability
    /// on, and only if the file exists, was not destroyed, and there is room for
    /// a grant.
    pub fn request_file_access<M: FnOnce(CPtr, CPtr, Rights) -> Result<u64, SyscallError>>(
        &mut self,
        mint: M,
        file: FileId,
        ops: FileOps,
        source_slot: CPtr,
        scratch_slot: CPtr,
    ) -> (granted: Result<u64, StoreError>)
        requires
            old(self).wf(),
            old(self)@.admits(file) is Ok ==> call_requires(
                mint,
                (source_slot, scratch_slot, Rights::call_and_grant()),
            ),
        ensures
            final(self).wf(),
            match old(self)@.admits(file) {
                Err(e) => granted == Err::<u64, _>(e) && final(self)@ == old(self)@,
                Ok(_) => exists|minted: Result<u64, SyscallError>|
                    {
                        &&& #[trigger] call_ensures(
                            mint,
                            (source_slot, scratch_slot, Rights::call_and_grant()),
                            minted,
                        )
                        &&& granted == old(self)@.mint_result(file, minted)
                        &&& final(self)@ == old(self)@.after_mint(file, ops, minted)
                    },
            },
    {
        if let Err(e) = self.check_grantable(file) {
            return Err(e);
        }
        let rights = Rights { read: false, write: true, grant: true };
        let minted = mint(source_slot, scratch_slot, rights);
        self.record_grant(file, ops, minted)
    }

    /// Hands a minted capability on over an endpoint. `grant` has the kernel send
    /// the capability in the scratch slot, with the payload, to the endpoint.
    pub fn deliver_grant<G: FnOnce(CPtr, CPtr, (usize, usize)) -> Result<(), SyscallError>>(
        &self,
        grant: G,
        endpoint_cptr: CPtr,
        scratch_slot: CPtr,
        payload: (usize, usize),
    ) -> (delivered: Result<(), StoreError>)
        requires
            call_requires(grant, (endpoint_cptr, scratch_slot, payload)),
        ensures
            exists|sent: Result<(), SyscallError>|
                {
                    &&& #[trigger] call_ensures(grant, (endpoint_cptr, scratch_slot, payload), sent)
                    &&& delivered == kernel_outcome(sent)
                },
    {
        from_kernel(grant(endpoint_cptr, scratch_slot, payload))
    }

    /// Hands a minted capability on in a reply. `grant` has the kernel reply with
    /// the capability in the scratch slot and the payload.
    pub fn deliver_grant_via_reply<G: FnOnce(CPtr, (usize, usize)) -> Result<(), SyscallError>>(
        &self,
        grant: G,
        scratch_slot: CPtr,
        payload: (usize, usize),
    ) -> (delivered: Result<(), StoreError>)
        requires
            call_requires(grant, (scratch_slot, payload)),
        ensures
            exists|sent: Result<(), SyscallError>|
                {
                    &&& #[trigger] call_ensures(grant, (scratch_slot, payload), sent)
                    &&& delivered == kernel_outcome(sent)
                },
    {
        from_kernel(grant(scratch_slot, payload))
    }

    /// What [`Store::revoke_access`] does once the broker has answered: from a
    /// success on, a badge that was granted something is refused. For one that was
    /// not there is nothing to withdraw and nothing is recorded; a grant made to it
    /// later stands.
    pub fn record_revocation(
        &mut self,
        badge: u64,
        revoked: Result<(), SyscallError>,
    ) -> (outcome: Result<(), StoreError>)
        requires
            old(self).wf(),
        ensures
            final(self).wf(),
            outcome == kernel_outcome(revoked),
            final(self)@ == match revoked {
                Ok(_) => old(self)@.after_revoke(badge),
                Err(_) => old(self)@,
            },
    {
        if revoked.is_ok() {
            if let Some(i) = self.find_grant(badge) {
                if let Some(grant) = self.grants[i] {
                    self.grants[i] = Some(GrantRecord { revoked: true, ..grant });
                }
            }
            assert(self@ =~= old(self)@.after_revoke(badge));
        }
        from_kernel(revoked)
    }

    /// Withdraws what `badge` was granted, if anything. `revoke` has the broker
    /// that minted the badge revoke it.
    pub fn revoke_access<R: FnOnce(u64) -> Result<(), SyscallError>>(
        &mut self,
        revoke: R,
        badge: u64,
    ) -> (outcome: Result<(), StoreError>)
        requires
            old(self).wf(),
            call_requires(revoke, (badge,)),
        ensures
            final(self).wf(),
            exists|revoked: Result<(), SyscallError>|
                {
                    &&& #[trigger] call_ensures(revoke, (badge,), revoked)
                    &&& outcome == kernel_outcome(revoked)
                    &&& final(self)@ == match revoked {
                        Ok(_) => old(self)@.after_revoke(badge),
                        Err(_) => old(self)@,
                    }
                },
    {
        let revoked = revoke(badge);
        self.record_revocation(badge, revoked)
    }

    /// How many distinct blocks the store holds.
    pub fn live_blocks(&self) -> (n: usize)
        requires
            self.wf(),
        ensures
            self@.blocks.dom().finite(),
            n == self@.blocks.dom().len(),
    {
        let mut n: usize = 0;
        let mut s: usize = 0;
        let ghost mut seen: Set<Seq<u8>> = Set::empty();
        while s < MAX_BLOCKS
            invariant
                self.wf(),
                n <= s <= MAX_BLOCKS,
                seen.finite(),
                n == seen.len(),
                forall|hash: Seq<u8>| #[trigger]
                    seen.contains(hash) <==> exists|t: int|
                        t < s && holds(self.blocks@, t, hash),
            decreases MAX_BLOCKS - s,
        {
            if let Some(block) = &self.blocks[s] {
                proof {
                    let hash = block.hash@;
                    assert(holds(self.blocks@, s as int, hash));
                    if seen.contains(hash) {
                        let t = choose|t: int| t < s && holds(self.blocks@, t, hash);
                        lemma_one_holder(self.blocks@, t, s as int, hash);
                    }
                    seen = seen.insert(hash);
                }
                n = n + 1;
            }
            s = s + 1;
        }
        assert(self@.blocks.dom() =~= seen);
        n
    }
}

/// A content as it is kept: the ciphertext, in the front of the array, and the
/// tag.
pub struct Sealed {
    pub ciphertext: [u8; MAX_BLOCK_LEN],
    pub tag: [u8; TAG_LEN],
}

/// The ciphertext and tag of a sealed content of `len` bytes.
pub open spec fn sealed_seen(sealed: Result<Sealed, StoreError>, len: nat) -> Result<
    (Seq<u8>, Seq<u8>),
    StoreError,
> {
    match sealed {
        Ok(s) => Ok((s.ciphertext@.take(len as int), s.tag@)),
        Err(e) => Err(e),
    }
}

/// Reports what the kernel answered as the store's own outcome.
fn from_kernel(answer: Result<(), SyscallError>) -> (outcome: Result<(), StoreError>)
    ensures
        outcome == kernel_outcome(answer),
{
    match answer {
        Ok(_) => Ok(()),
        Err(e) => Err(StoreError::Kernel(e)),
    }
}

/// Seals `data`, whose address is `hash`.
fn seal<C: Cipher>(cipher: &mut C, data: &[u8], hash: &[u8; HASH_LEN]) -> (sealed: Result<
    Sealed,
    StoreError,
>)
    requires
        data@.len() <= MAX_BLOCK_LEN,
        hash@ == blake3_digest(data@),
    ensures
        final(cipher).key() == old(cipher).key(),
        is_sealing(sealed_seen(sealed, data@.len()), old(cipher).key(), data@),
        exists|
            c: &mut C,
            nonce: &[u8; NONCE_LEN],
            aad: &[u8],
            buffer: &mut [u8],
            outcome: Result<[u8; TAG_LEN], StoreError>,
        |
            {
                &&& #[trigger] call_ensures(C::encrypt, (c, nonce, aad, buffer), outcome)
                &&& *c == *old(cipher)
                &&& *final(c) == *final(cipher)
                &&& nonce@ == nonce_of(hash@)
                &&& aad@ == hash@
                &&& buffer@ == data@
                &&& sealed_seen(sealed, data@.len()) == sealed_by(outcome, final(buffer)@)
            },
{
    let mut ciphertext = [0u8; MAX_BLOCK_LEN];
    let n = data.len();
    let mut i: usize = 0;
    while i < n
        invariant
            i <= n <= MAX_BLOCK_LEN,
            n == data@.len(),
            forall|j: int| 0 <= j < i ==> ciphertext@[j] == data@[j],
        decreases n - i,
    {
        ciphertext[i] = data[i];
        i = i + 1;
    }
    let nonce = nonce_from_hash(hash);
    let whole: &mut [u8] = &mut ciphertext;
    let (front, _) = whole.split_at_mut(n);
    assert(front@ =~= data@);
    let outcome = cipher.encrypt(&nonce, hash, front);
    let ghost encrypted = front@;
    assert(ciphertext@.take(n as int) =~= encrypted);
    match outcome {
        Ok(tag) => Ok(Sealed { ciphertext, tag }),
        Err(e) => Err(e),
    }
}

} // verus!
