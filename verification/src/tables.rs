//! The tables a store is kept in, and how they show in its view.
use vstd::prelude::*;

use crate::address::{HASH_LEN, TAG_LEN};
use crate::counting::{
    lemma_count_agrees, lemma_count_bound, lemma_count_has_witness, lemma_count_witness,
    lemma_pigeonhole, takes,
};
use crate::model::{
    count, is_first_free, is_full, points_at, references, retained, BlockView, FileView,
    MAX_BLOCKS, MAX_BLOCK_LEN, MAX_FILES,
};

verus! {

/// One block: `hash` is taken over the plaintext, `ciphertext` and `tag` are
/// what is at rest.
#[derive(Clone, Copy)]
pub struct Block {
    pub hash: [u8; HASH_LEN],
    pub ciphertext: [u8; MAX_BLOCK_LEN],
    pub len: usize,
    pub tag: [u8; TAG_LEN],
    /// How many files point at this block.
    pub refcount: u32,
    /// The plaintext the block was sealed from.
    pub content: Ghost<Seq<u8>>,
}

#[derive(Clone, Copy)]
pub struct FileRecord {
    /// The slot of the file's block, once it has content.
    pub block: Option<usize>,
    pub destroyed: bool,
}

impl Block {
    pub open spec fn seen(self) -> BlockView {
        BlockView {
            ciphertext: self.ciphertext@.take(self.len as int),
            tag: self.tag@,
            content: self.content@,
            refcount: self.refcount as nat,
        }
    }
}

/// Whether slot `s` holds the block at address `hash`.
pub open spec fn holds(blocks: Seq<Option<Block>>, s: int, hash: Seq<u8>) -> bool {
    0 <= s < blocks.len() && (blocks[s] matches Some(b) && b.hash@ == hash)
}

pub open spec fn files_seen(files: Seq<Option<FileRecord>>, blocks: Seq<Option<Block>>) -> Seq<
    Option<FileView>,
> {
    Seq::new(
        files.len(),
        |i: int|
            match files[i] {
                None => None,
                Some(r) => Some(
                    FileView {
                        address: match r.block {
                            None => None,
                            Some(s) => Some(blocks[s as int]->0.hash@),
                        },
                        destroyed: r.destroyed,
                    },
                ),
            },
    )
}

pub open spec fn blocks_seen(blocks: Seq<Option<Block>>) -> Map<Seq<u8>, BlockView> {
    Map::new(
        |hash: Seq<u8>| exists|s: int| holds(blocks, s, hash),
        |hash: Seq<u8>| blocks[choose|s: int| holds(blocks, s, hash)]->0.seen(),
    )
}

/// What is left of a block that loses one reference.
pub open spec fn released(block: Block) -> Option<Block> {
    if block.refcount == 1 {
        None
    } else {
        Some(Block { refcount: (block.refcount - 1) as u32, ..block })
    }
}

/// Whether a table slot holds a file whose block is in slot `s`.
pub open spec fn uses(s: int) -> spec_fn(Option<FileRecord>) -> bool {
    |file: Option<FileRecord>| file matches Some(r) && r.block == Some(s as usize)
}

/// Every file's block exists.
pub open spec fn linked(files: Seq<Option<FileRecord>>, blocks: Seq<Option<Block>>) -> bool {
    forall|i: int|
        0 <= i < files.len() && #[trigger] files[i] is Some && files[i]->0.block is Some ==> {
            let s = files[i]->0.block->0 as int;
            s < blocks.len() && blocks[s] is Some
        }
}

/// A destroyed file has no block.
pub open spec fn buried(files: Seq<Option<FileRecord>>) -> bool {
    forall|i: int|
        0 <= i < files.len() && #[trigger] files[i] is Some && files[i]->0.destroyed
            ==> files[i]->0.block is None
}

/// No two blocks have the same address, and each has the lengths it should.
pub open spec fn addressed(blocks: Seq<Option<Block>>) -> bool {
    &&& forall|s: int, t: int|
        0 <= s < t < blocks.len() && #[trigger] blocks[s] is Some && #[trigger] blocks[t] is Some
            ==> blocks[s]->0.hash@ != blocks[t]->0.hash@
    &&& forall|s: int|
        0 <= s < blocks.len() && #[trigger] blocks[s] is Some ==> {
            &&& blocks[s]->0.len <= MAX_BLOCK_LEN
            &&& blocks[s]->0.content@.len() == blocks[s]->0.len
        }
}

/// Every block's reference count is the number of files that use it, and none
/// is unused.
pub open spec fn counted(files: Seq<Option<FileRecord>>, blocks: Seq<Option<Block>>) -> bool {
    forall|s: int|
        0 <= s < blocks.len() && #[trigger] blocks[s] is Some ==> {
            &&& blocks[s]->0.refcount == count(files, uses(s))
            &&& blocks[s]->0.refcount > 0
        }
}

// ---- how the tables show in the view

/// An address is held in one slot at most.
pub proof fn lemma_one_holder(blocks: Seq<Option<Block>>, s: int, t: int, hash: Seq<u8>)
    requires
        addressed(blocks),
        holds(blocks, s, hash),
        holds(blocks, t, hash),
    ensures
        s == t,
{
}

/// The block in slot `s` is what the view has at its address.
pub proof fn lemma_block_seen(blocks: Seq<Option<Block>>, s: int)
    requires
        addressed(blocks),
        0 <= s < blocks.len(),
        blocks[s] is Some,
    ensures
        blocks_seen(blocks).contains_key(blocks[s]->0.hash@),
        blocks_seen(blocks)[blocks[s]->0.hash@] == blocks[s]->0.seen(),
{
    let hash = blocks[s]->0.hash@;
    assert(holds(blocks, s, hash));
    let t = choose|t: int| holds(blocks, t, hash);
    lemma_one_holder(blocks, s, t, hash);
}

/// The files that point at a block's address are those that use its slot.
pub proof fn lemma_references(files: Seq<Option<FileRecord>>, blocks: Seq<Option<Block>>, s: int)
    requires
        addressed(blocks),
        linked(files, blocks),
        0 <= s < blocks.len() <= MAX_BLOCKS,
        blocks[s] is Some,
    ensures
        references(files_seen(files, blocks), blocks[s]->0.hash@) == count(files, uses(s)),
{
    let hash = blocks[s]->0.hash@;
    let seen = files_seen(files, blocks);
    assert forall|i: int|
        #![trigger seen[i]]
        #![trigger files[i]]
        0 <= i < seen.len() implies points_at(hash)(seen[i]) == uses(s)(files[i]) by {
        if files[i] is Some && files[i]->0.block is Some {
            let t = files[i]->0.block->0 as int;
            if t != s {
                assert(blocks[t] is Some && blocks[s] is Some);
            }
        }
    }
    lemma_count_agrees(seen, points_at(hash), files, uses(s));
}

/// No file points at an address that no slot holds.
pub proof fn lemma_no_references(
    files: Seq<Option<FileRecord>>,
    blocks: Seq<Option<Block>>,
    hash: Seq<u8>,
)
    requires
        linked(files, blocks),
        !exists|s: int| holds(blocks, s, hash),
    ensures
        references(files_seen(files, blocks), hash) == 0,
{
    let seen = files_seen(files, blocks);
    if references(seen, hash) > 0 {
        let i = lemma_count_has_witness(seen, points_at(hash));
        assert(files[i] is Some);
        assert(holds(blocks, files[i]->0.block->0 as int, hash));
    }
}

/// Whether `post` is what is left of `pool` when the blocks that no file uses
/// are dropped and the others counted.
pub open spec fn collected(
    files: Seq<Option<FileRecord>>,
    pool: Seq<Option<Block>>,
    post: Seq<Option<Block>>,
) -> bool {
    &&& post.len() == pool.len()
    &&& forall|s: int|
        #![trigger pool[s]]
        #![trigger post[s]]
        0 <= s < pool.len() ==> match (pool[s], post[s]) {
            (None, _) => post[s] is None,
            (Some(_), None) => count(files, uses(s)) == 0,
            (Some(b), Some(c)) => {
                &&& count(files, uses(s)) > 0
                &&& c == Block { refcount: c.refcount, ..b }
                &&& c.refcount == count(files, uses(s))
            },
        }
}

/// What collection leaves is well-formed, and is what the view retains.
pub proof fn lemma_collected(
    files: Seq<Option<FileRecord>>,
    pool: Seq<Option<Block>>,
    post: Seq<Option<Block>>,
)
    requires
        pool.len() == MAX_BLOCKS,
        addressed(pool),
        linked(files, pool),
        collected(files, pool, post),
    ensures
        addressed(post),
        linked(files, post),
        counted(files, post),
        files_seen(files, post) == files_seen(files, pool),
        blocks_seen(post) == retained(files_seen(files, pool), blocks_seen(pool)),
{
    assert forall|i: int|
        0 <= i < files.len() && #[trigger] files[i] is Some && files[i]->0.block is Some implies {
        let s = files[i]->0.block->0 as int;
        s < post.len() && post[s] is Some && post[s]->0.hash == pool[s]->0.hash
    } by {
        let s = files[i]->0.block->0 as int;
        assert(pool[s] is Some);
        lemma_count_witness(files, uses(s), i);
    }
    let seen = files_seen(files, pool);
    assert(files_seen(files, post) =~= seen);
    assert forall|s: int, t: int|
        0 <= s < t < post.len() && #[trigger] post[s] is Some && #[trigger] post[t] is Some implies
        post[s]->0.hash@ != post[t]->0.hash@ by {
        assert(pool[s] is Some && pool[t] is Some);
    }
    let left = retained(seen, blocks_seen(pool));
    assert forall|hash: Seq<u8>|
        #![trigger blocks_seen(post).dom().contains(hash)]
        #![trigger left.dom().contains(hash)]
        blocks_seen(post).dom().contains(hash) == left.dom().contains(hash) by {
        if blocks_seen(post).contains_key(hash) {
            let s = choose|s: int| holds(post, s, hash);
            assert(holds(pool, s, hash));
            lemma_references(files, pool, s);
        }
        if left.contains_key(hash) {
            let s = choose|s: int| holds(pool, s, hash);
            lemma_references(files, pool, s);
            assert(holds(post, s, hash));
        }
    }
    assert(blocks_seen(post).dom() =~= left.dom());
    assert forall|hash: Seq<u8>| #[trigger]
        left.dom().contains(hash) implies blocks_seen(post)[hash] == left[hash] by {
        assert(blocks_seen(post).dom().contains(hash));
        let s = choose|s: int| holds(post, s, hash);
        assert(holds(pool, s, hash));
        lemma_references(files, pool, s);
        lemma_block_seen(pool, s);
        lemma_block_seen(post, s);
    }
    assert(blocks_seen(post) =~= left);
}

/// There is always a slot to spare: a block in every slot would take more files
/// than there can be.
pub proof fn lemma_block_to_spare(files: Seq<Option<FileRecord>>, blocks: Seq<Option<Block>>)
    requires
        files.len() == MAX_FILES,
        blocks.len() == MAX_BLOCKS,
        counted(files, blocks),
    ensures
        !is_full(blocks),
{
    if is_full(blocks) {
        let slot = |file: Option<FileRecord>|
            match file {
                Some(FileRecord { block: Some(s), .. }) => Some(s as int),
                _ => None,
            };
        assert forall|s: int| 0 <= s < MAX_BLOCKS implies #[trigger] takes(files, slot, s) by {
            assert(blocks[s] is Some);
            let i = lemma_count_has_witness(files, uses(s));
            assert(slot(files[i]) == Some(s));
        }
        lemma_pigeonhole(files, slot, MAX_BLOCKS as nat);
    }
}

/// Whether `b` is `a` with one more reference to slot `s`, where there may have
/// been no block before.
pub open spec fn taken(a: Seq<Option<Block>>, b: Seq<Option<Block>>, s: int) -> bool {
    &&& a.len() == b.len()
    &&& 0 <= s < a.len()
    &&& forall|t: int|
        #![trigger a[t]]
        #![trigger b[t]]
        0 <= t < a.len() && t != s ==> a[t] == b[t]
    &&& b[s] matches Some(c) && match a[s] {
        Some(held) => c == Block { refcount: (held.refcount + 1) as u32, ..held },
        None => c.refcount == 1 && c.len <= MAX_BLOCK_LEN && c.content@.len() == c.len && forall|
            t: int,
        | !holds(a, t, c.hash@),
    }
}

/// Taking a reference keeps addresses apart and files linked, and shows as the
/// block in the view.
pub proof fn lemma_taken(
    files: Seq<Option<FileRecord>>,
    a: Seq<Option<Block>>,
    b: Seq<Option<Block>>,
    s: int,
)
    requires
        a.len() == MAX_BLOCKS,
        linked(files, a),
        addressed(a),
        counted(files, a),
        files.len() == MAX_FILES,
        taken(a, b, s),
    ensures
        linked(files, b),
        addressed(b),
        files_seen(files, b) == files_seen(files, a),
        forall|t: int|
            0 <= t < MAX_BLOCKS && #[trigger] b[t] is Some ==> {
                &&& b[t]->0.refcount > 0
                &&& b[t]->0.refcount == count(files, uses(t)) + (if t == s {
                    1nat
                } else {
                    0nat
                })
            },
        forall|hash: Seq<u8>| #[trigger]
            blocks_seen(b).contains_key(hash) <==> (blocks_seen(a).contains_key(hash) || hash
                == b[s]->0.hash@),
        forall|hash: Seq<u8>| #[trigger]
            blocks_seen(b).contains_key(hash) ==> {
                let c = blocks_seen(b)[hash];
                if blocks_seen(a).contains_key(hash) {
                    c == BlockView { refcount: c.refcount, ..blocks_seen(a)[hash] }
                } else {
                    c == b[s]->0.seen()
                }
            },
{
    lemma_count_bound(files, uses(s));
    if a[s] is None && count(files, uses(s)) > 0 {
        let i = lemma_count_has_witness(files, uses(s));
        assert(files[i] is Some);
    }
    assert forall|t: int, u: int|
        0 <= t < u < b.len() && #[trigger] b[t] is Some && #[trigger] b[u] is Some implies
        b[t]->0.hash@ != b[u]->0.hash@ by {
        if a[s] is None && t == s {
            assert(!holds(a, u, b[s]->0.hash@));
        } else if a[s] is None && u == s {
            assert(!holds(a, t, b[s]->0.hash@));
        } else {
            assert(a[t] is Some && a[u] is Some);
        }
    }
    assert forall|i: int|
        0 <= i < files.len() && #[trigger] files[i] is Some && files[i]->0.block is Some implies {
        let t = files[i]->0.block->0 as int;
        t < b.len() && b[t] is Some && a[t] is Some && b[t]->0.hash == a[t]->0.hash
    } by {
        let t = files[i]->0.block->0 as int;
        assert(a[t] is Some);
    }
    assert(files_seen(files, b) =~= files_seen(files, a));
    assert forall|hash: Seq<u8>| #[trigger]
        blocks_seen(b).contains_key(hash) <==> (blocks_seen(a).contains_key(hash) || hash
            == b[s]->0.hash@) by {
        if blocks_seen(b).contains_key(hash) {
            let t = choose|t: int| holds(b, t, hash);
            if t != s {
                assert(holds(a, t, hash));
            }
        }
        if blocks_seen(a).contains_key(hash) {
            let t = choose|t: int| holds(a, t, hash);
            assert(holds(b, t, hash));
        }
        if hash == b[s]->0.hash@ {
            assert(holds(b, s, hash));
        }
    }
    assert forall|hash: Seq<u8>| #[trigger] blocks_seen(b).contains_key(hash) implies {
        let c = blocks_seen(b)[hash];
        if blocks_seen(a).contains_key(hash) {
            c == BlockView { refcount: c.refcount, ..blocks_seen(a)[hash] }
        } else {
            c == b[s]->0.seen()
        }
    } by {
        let t = choose|t: int| holds(b, t, hash);
        lemma_block_seen(b, t);
        if blocks_seen(a).contains_key(hash) {
            let u = choose|u: int| holds(a, u, hash);
            assert(holds(b, u, hash));
            lemma_one_holder(b, t, u, hash);
            lemma_block_seen(a, u);
        }
    }
}

/// What is retained of a pool does not depend on the counts it comes with.
pub proof fn lemma_retained_ignores_counts(
    files: Seq<Option<FileView>>,
    a: Map<Seq<u8>, BlockView>,
    b: Map<Seq<u8>, BlockView>,
)
    requires
        a.dom() =~= b.dom(),
        forall|hash: Seq<u8>| #[trigger]
            a.contains_key(hash) ==> a[hash] == (BlockView {
                refcount: a[hash].refcount,
                ..b[hash]
            }),
    ensures
        retained(files, a) == retained(files, b),
{
    assert(retained(files, a) =~= retained(files, b));
}

/// Whether two hashes are equal.
pub fn same_hash(a: &[u8; HASH_LEN], b: &[u8; HASH_LEN]) -> (same: bool)
    ensures
        same == (a@ == b@),
{
    let mut i: usize = 0;
    while i < HASH_LEN
        invariant
            i <= HASH_LEN,
            forall|j: int| 0 <= j < i ==> a@[j] == b@[j],
        decreases HASH_LEN - i,
    {
        if a[i] != b[i] {
            return false;
        }
        i = i + 1;
    }
    assert(a@ =~= b@);
    true
}

/// The first free slot of a table.
pub fn first_free<T, const N: usize>(table: &[Option<T>; N]) -> (free: Option<usize>)
    ensures
        match free {
            Some(i) => is_first_free(table@, i as int),
            None => is_full(table@),
        },
{
    let mut i: usize = 0;
    while i < N
        invariant
            i <= N,
            forall|j: int| 0 <= j < i ==> table@[j] is Some,
        decreases N - i,
    {
        if table[i].is_none() {
            return Some(i);
        }
        i = i + 1;
    }
    None
}

} // verus!
