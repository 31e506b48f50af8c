//! What a store is, mathematically, and what each operation makes of it.
use vstd::prelude::*;

use crate::address::{blake3_digest, nonce_of, TAG_LEN};
use crate::cipher::Key;
use crate::error::{StoreError, SyscallError};
use crate::ops::FileOps;

verus! {

/// Files a store can ever create.
pub const MAX_FILES: usize = 16;

/// Distinct blocks a store can hold at once.
pub const MAX_BLOCKS: usize = 32;

/// Bytes a file can hold: a file is one block.
pub const MAX_BLOCK_LEN: usize = 256;

/// Grants a store can ever make.
pub const MAX_GRANTS: usize = 32;

/// Names a file of a store. Only [`crate::Store::create`] makes one.
#[derive(Clone, Copy, PartialEq, Eq, Debug, Structural)]
pub struct FileId(u16);

impl FileId {
    /// The file's place in the store's table.
    pub closed spec fn index(self) -> int {
        self.0 as int
    }

    /// The name of the file at `index`.
    pub(crate) fn from_index(index: usize) -> (id: FileId)
        requires
            index < MAX_FILES,
        ensures
            id.index() == index,
    {
        FileId(index as u16)
    }

    /// The file's place in the store's table.
    pub(crate) fn to_index(self) -> (index: usize)
        ensures
            index == self.index(),
    {
        self.0 as usize
    }
}

/// A file's place in the table is all there is to its name.
pub broadcast proof fn lemma_file_id_index(a: FileId, b: FileId)
    ensures
        #[trigger] a.index() == #[trigger] b.index() <==> a == b,
        a.index() >= 0,
{
}

/// What a badge was granted: some operations on one file.
#[derive(Clone, Copy)]
pub struct GrantRecord {
    pub badge: u64,
    pub file: FileId,
    pub ops: FileOps,
    /// Whether the grant was withdrawn.
    pub revoked: bool,
}

/// A file: the address of its content, if it has any, and whether it was
/// destroyed.
pub struct FileView {
    pub address: Option<Seq<u8>>,
    pub destroyed: bool,
}

/// A block: what is at rest, the content it was sealed from, and how many files
/// share it.
pub struct BlockView {
    pub ciphertext: Seq<u8>,
    pub tag: Seq<u8>,
    pub content: Seq<u8>,
    pub refcount: nat,
}

/// The state of a store: its tables of files and grants, and its blocks by
/// content address.
#[verifier::ext_equal]
pub struct StoreView {
    pub files: Seq<Option<FileView>>,
    pub blocks: Map<Seq<u8>, BlockView>,
    pub grants: Seq<Option<GrantRecord>>,
}

/// How many elements of `s` satisfy `p`.
pub open spec fn count<A>(s: Seq<A>, p: spec_fn(A) -> bool) -> nat
    decreases s.len(),
{
    if s.len() == 0 {
        0
    } else {
        count(s.drop_last(), p) + if p(s.last()) {
            1nat
        } else {
            0nat
        }
    }
}

/// Whether `i` is the first free slot of a table.
pub open spec fn is_first_free<A>(table: Seq<Option<A>>, i: int) -> bool {
    &&& 0 <= i < table.len()
    &&& table[i] is None
    &&& forall|j: int| 0 <= j < i ==> table[j] is Some
}

/// Whether a table has no free slot.
pub open spec fn is_full<A>(table: Seq<Option<A>>) -> bool {
    forall|i: int| 0 <= i < table.len() ==> table[i] is Some
}

/// Whether a table is filled from the front.
pub open spec fn is_packed<A>(table: Seq<Option<A>>) -> bool {
    forall|i: int, j: int|
        0 <= i < j < table.len() && #[trigger] table[j] is Some ==> #[trigger] table[i] is Some
}

/// Whether a table slot holds a file whose content is at address `hash`.
pub open spec fn points_at(hash: Seq<u8>) -> spec_fn(Option<FileView>) -> bool {
    |file: Option<FileView>| file matches Some(f) && f.address == Some(hash)
}

/// How many files have their content at address `hash`.
pub open spec fn references(files: Seq<Option<FileView>>, hash: Seq<u8>) -> nat {
    count(files, points_at(hash))
}

/// The blocks of `pool` that some file still needs, each with the number of
/// files that share it.
pub open spec fn retained(
    files: Seq<Option<FileView>>,
    pool: Map<Seq<u8>, BlockView>,
) -> Map<Seq<u8>, BlockView> {
    Map::new(
        |hash: Seq<u8>| pool.contains_key(hash) && references(files, hash) > 0,
        |hash: Seq<u8>| BlockView { refcount: references(files, hash), ..pool[hash] },
    )
}

/// What a cipher that left `ciphertext` in the buffer and returned `outcome`
/// sealed.
pub open spec fn sealed_by(outcome: Result<[u8; TAG_LEN], StoreError>, ciphertext: Seq<u8>) -> Result<
    (Seq<u8>, Seq<u8>),
    StoreError,
> {
    match outcome {
        Ok(tag) => Ok((ciphertext, tag@)),
        Err(e) => Err(e),
    }
}

/// Whether `sealed` is what sealing `data` under `key`, at the address that its
/// hash gives it, may come to: failure, or a ciphertext of the same length and a
/// tag that the key opens to `data`.
pub open spec fn is_sealing(
    sealed: Result<(Seq<u8>, Seq<u8>), StoreError>,
    key: Key,
    data: Seq<u8>,
) -> bool {
    let hash = blake3_digest(data);
    sealed matches Ok((ciphertext, tag)) ==> {
        &&& ciphertext.len() == data.len()
        &&& tag.len() == TAG_LEN
        &&& key.opens(nonce_of(hash), hash, ciphertext, tag) == Some(data)
    }
}

/// Whether `opened` is what opening the block at address `target` under `key`
/// into the front of a buffer that then holds `buf` may come to: failure, or
/// what the key opens the block's ciphertext and tag to.
pub open spec fn is_opening(
    opened: Result<(), StoreError>,
    key: Key,
    store: StoreView,
    target: Result<Seq<u8>, StoreError>,
    buf: Seq<u8>,
) -> bool {
    opened is Ok && target is Ok ==> {
        let hash = target->Ok_0;
        let block = store.blocks[hash];
        key.opens(nonce_of(hash), hash, block.ciphertext, block.tag) == Some(
            buf.take(block.ciphertext.len() as int),
        )
    }
}

/// Whether the grant at `i` is the first one made to `badge`.
pub open spec fn is_grant_of(grants: Seq<Option<GrantRecord>>, badge: u64, i: int) -> bool {
    &&& 0 <= i < grants.len()
    &&& grants[i] matches Some(g) && g.badge == badge
    &&& forall|j: int| 0 <= j < i ==> !(#[trigger] grants[j] matches Some(g) && g.badge == badge)
}

impl StoreView {
    // ---- files and their content

    pub open spec fn has_file(self, file: FileId) -> bool {
        0 <= file.index() < self.files.len() && self.files[file.index()] is Some
    }

    pub open spec fn file(self, file: FileId) -> FileView {
        self.files[file.index()]->0
    }

    /// The content of `file`, if it has any.
    pub open spec fn content(self, file: FileId) -> Option<Seq<u8>> {
        match self.file(file).address {
            Some(hash) => Some(self.blocks[hash].content),
            None => None,
        }
    }

    // ---- what badges may do

    /// What `badge` was granted, if anything.
    pub open spec fn grant_of(self, badge: u64) -> Option<GrantRecord> {
        if exists|i: int| is_grant_of(self.grants, badge, i) {
            self.grants[choose|i: int| is_grant_of(self.grants, badge, i)]
        } else {
            None
        }
    }

    /// Whether `badge` may perform `op` on `file`, and if not, why.
    pub open spec fn access(self, badge: u64, file: FileId, op: FileOps) -> Result<
        (),
        StoreError,
    > {
        match self.grant_of(badge) {
            None => Err(StoreError::UnknownBadge),
            Some(grant) => if grant.revoked {
                Err(StoreError::BadgeRevoked)
            } else if grant.file != file {
                Err(StoreError::WrongFile)
            } else if !grant.ops.includes(op) {
                Err(StoreError::OpNotGranted)
            } else {
                Ok(())
            },
        }
    }

    /// Whether `badge` may perform `op` on `file` as the file now stands: one that
    /// was destroyed is out of reach of every badge.
    pub open spec fn permits(self, badge: u64, file: FileId, op: FileOps) -> Result<
        (),
        StoreError,
    > {
        match self.access(badge, file, op) {
            Err(e) => Err(e),
            Ok(_) => if self.file(file).destroyed {
                Err(StoreError::FileDestroyed)
            } else {
                Ok(())
            },
        }
    }

    // ---- invariants

    /// The tables have their sizes, grants fill theirs from the front, every
    /// file's block and every grant's file exists, a destroyed file has no content,
    /// and the blocks are exactly those that files need, with exact reference
    /// counts.
    pub open spec fn consistent(self) -> bool {
        &&& self.files.len() == MAX_FILES
        &&& self.grants.len() == MAX_GRANTS
        &&& is_packed(self.grants)
        &&& forall|i: int|
            0 <= i < self.grants.len() && #[trigger] self.grants[i] is Some ==> self.has_file(
                self.grants[i]->0.file,
            )
        &&& forall|i: int|
            0 <= i < self.files.len() && #[trigger] self.files[i] is Some
                && self.files[i]->0.destroyed ==> self.files[i]->0.address is None
        &&& forall|hash: Seq<u8>| #[trigger]
            self.blocks.contains_key(hash) <==> references(self.files, hash) > 0
        &&& forall|hash: Seq<u8>| #[trigger]
            self.blocks.contains_key(hash) ==> {
                let block = self.blocks[hash];
                &&& block.refcount == references(self.files, hash)
                &&& block.ciphertext.len() == block.content.len() <= MAX_BLOCK_LEN
                &&& block.tag.len() == TAG_LEN
            }
    }

    /// Every block opens, under `key`, to the content it was sealed from.
    pub open spec fn sealed_under(self, key: Key) -> bool {
        forall|hash: Seq<u8>| #[trigger]
            self.blocks.contains_key(hash) ==> key.opens(
                nonce_of(hash),
                hash,
                self.blocks[hash].ciphertext,
                self.blocks[hash].tag,
            ) == Some(self.blocks[hash].content)
    }

    /// Every block is at the address that the hash of its content gives it.
    pub open spec fn content_addressed(self) -> bool {
        forall|hash: Seq<u8>| #[trigger]
            self.blocks.contains_key(hash) ==> blake3_digest(self.blocks[hash].content) == hash
    }

    /// No block at address `hash` holds anything but `data`.
    pub open spec fn no_collision(self, hash: Seq<u8>, data: Seq<u8>) -> bool {
        self.blocks.contains_key(hash) ==> self.blocks[hash].content == data
    }

    // ---- the empty store, and what each operation makes of a store

    pub open spec fn empty() -> StoreView {
        StoreView {
            files: Seq::new(MAX_FILES as nat, |i: int| None),
            blocks: Map::empty(),
            grants: Seq::new(MAX_GRANTS as nat, |i: int| None),
        }
    }

    /// With a new, empty file in slot `i`.
    pub open spec fn after_create(self, i: int) -> StoreView {
        StoreView {
            files: self.files.update(i, Some(FileView { address: None, destroyed: false })),
            ..self
        }
    }

    /// With `file` in state `new`, and the blocks of `pool` that are then needed.
    pub open spec fn relinked(
        self,
        file: FileId,
        new: FileView,
        pool: Map<Seq<u8>, BlockView>,
    ) -> StoreView {
        let files = self.files.update(file.index(), Some(new));
        StoreView { files, blocks: retained(files, pool), ..self }
    }

    pub open spec fn after_destroy(self, file: FileId) -> StoreView {
        self.relinked(file, FileView { address: None, destroyed: true }, self.blocks)
    }

    /// Whether a badge for `file` may be minted, and if not, why.
    pub open spec fn admits(self, file: FileId) -> Result<(), StoreError> {
        if !self.has_file(file) {
            Err(StoreError::NoSuchFile)
        } else if self.file(file).destroyed {
            Err(StoreError::FileDestroyed)
        } else if is_full(self.grants) {
            Err(StoreError::NotEnoughCapacity)
        } else {
            Ok(())
        }
    }

    /// With a grant of `ops` on `file` to `badge` in the first free slot.
    pub open spec fn granted(self, file: FileId, ops: FileOps, badge: u64) -> StoreView {
        let slot = choose|i: int| is_first_free(self.grants, i);
        StoreView {
            grants: self.grants.update(
                slot,
                Some(GrantRecord { badge, file, ops, revoked: false }),
            ),
            ..self
        }
    }

    /// After the kernel's answer to the mint for a grant of `ops` on `file`.
    pub open spec fn after_mint(
        self,
        file: FileId,
        ops: FileOps,
        minted: Result<u64, SyscallError>,
    ) -> StoreView {
        match (self.admits(file), minted) {
            (Ok(_), Ok(badge)) => self.granted(file, ops, badge),
            _ => self,
        }
    }

    /// What a request for a grant on `file` returns, given the kernel's answer.
    pub open spec fn mint_result(
        self,
        file: FileId,
        minted: Result<u64, SyscallError>,
    ) -> Result<u64, StoreError> {
        match (self.admits(file), minted) {
            (Err(e), _) => Err(e),
            (Ok(_), Err(e)) => Err(StoreError::Kernel(e)),
            (Ok(_), Ok(badge)) => Ok(badge),
        }
    }

    /// With what `badge` was granted, if anything, withdrawn.
    pub open spec fn after_revoke(self, badge: u64) -> StoreView {
        match self.grant_of(badge) {
            None => self,
            Some(grant) => {
                let slot = choose|i: int| is_grant_of(self.grants, badge, i);
                StoreView {
                    grants: self.grants.update(slot, Some(GrantRecord { revoked: true, ..grant })),
                    ..self
                }
            },
        }
    }

    /// Whether writing `data` of address `hash` calls for sealing a new block.
    pub open spec fn needs_sealing(
        self,
        badge: u64,
        file: FileId,
        data: Seq<u8>,
        hash: Seq<u8>,
    ) -> bool {
        &&& self.permits(badge, file, FileOps::WRITE) is Ok
        &&& data.len() <= MAX_BLOCK_LEN
        &&& !self.blocks.contains_key(hash)
    }

    /// What writing `data` of address `hash` returns. `sealed` is the outcome of
    /// sealing it, which counts only where that is called for.
    pub open spec fn write_result(
        self,
        badge: u64,
        file: FileId,
        data: Seq<u8>,
        hash: Seq<u8>,
        sealed: Result<(Seq<u8>, Seq<u8>), StoreError>,
    ) -> Result<(), StoreError> {
        match self.permits(badge, file, FileOps::WRITE) {
            Err(e) => Err(e),
            Ok(_) => if data.len() > MAX_BLOCK_LEN {
                Err(StoreError::ContentTooLarge)
            } else if self.blocks.contains_key(hash) {
                Ok(())
            } else {
                match sealed {
                    Err(e) => Err(e),
                    Ok(_) => Ok(()),
                }
            },
        }
    }

    /// After writing `data` of address `hash`. A refused write changes nothing.
    /// One whose address the store holds already shares that block as it is;
    /// otherwise the ciphertext and tag of `sealed` become a new block.
    pub open spec fn after_write(
        self,
        badge: u64,
        file: FileId,
        data: Seq<u8>,
        hash: Seq<u8>,
        sealed: Result<(Seq<u8>, Seq<u8>), StoreError>,
    ) -> StoreView {
        let new = FileView { address: Some(hash), ..self.file(file) };
        if self.write_result(badge, file, data, hash, sealed) is Err {
            self
        } else if self.blocks.contains_key(hash) {
            self.relinked(file, new, self.blocks)
        } else {
            let (ciphertext, tag) = sealed->Ok_0;
            let block = BlockView { ciphertext, tag, content: data, refcount: 1 };
            self.relinked(file, new, self.blocks.insert(hash, block))
        }
    }

    /// The address to read `file` from into a buffer of `capacity` bytes, or why
    /// there is none.
    pub open spec fn readable(self, badge: u64, file: FileId, capacity: int) -> Result<
        Seq<u8>,
        StoreError,
    > {
        match self.permits(badge, file, FileOps::READ) {
            Err(e) => Err(e),
            Ok(_) => match self.file(file).address {
                None => Err(StoreError::FileEmpty),
                Some(hash) => if self.blocks[hash].ciphertext.len() > capacity {
                    Err(StoreError::ContentTooLarge)
                } else {
                    Ok(hash)
                },
            },
        }
    }

    /// What reading `file` into a buffer of `capacity` bytes returns. `opened` is
    /// the outcome of opening its block, which counts only where there is one.
    pub open spec fn read_result(
        self,
        badge: u64,
        file: FileId,
        capacity: int,
        opened: Result<(), StoreError>,
    ) -> Result<usize, StoreError> {
        match (self.readable(badge, file, capacity), opened) {
            (Err(e), _) => Err(e),
            (Ok(_), Err(e)) => Err(e),
            (Ok(hash), Ok(_)) => Ok(self.blocks[hash].ciphertext.len() as usize),
        }
    }
}

} // verus!
