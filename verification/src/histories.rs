//! Two histories of a store, compared: one with calls that the other lacks.
use vstd::prelude::*;

use crate::address::blake3_digest;
use crate::cipher::Key;
use crate::error::StoreError;
use crate::laws::{
    happens_elsewhere, law_every_step_keeps_a_store_sound, law_read_yields_the_content,
    law_write_sets_the_content, leaves_alone, lemma_access_has_file, lemma_address_in_use,
    lemma_step_keeps_content, Step,
};
use crate::model::{is_opening, lemma_file_id_index, FileId, StoreView};
use crate::ops::FileOps;

verus! {

/// A call in the longer of two histories. An `extra` one the shorter lacks.
pub struct Call {
    pub step: Step,
    pub extra: bool,
}

/// The longer history.
pub open spec fn with_extra(calls: Seq<Call>) -> Seq<Step>
    decreases calls.len(),
{
    if calls.len() == 0 {
        Seq::empty()
    } else {
        seq![calls.first().step] + with_extra(calls.drop_first())
    }
}

/// The shorter history.
pub open spec fn without_extra(calls: Seq<Call>) -> Seq<Step>
    decreases calls.len(),
{
    if calls.len() == 0 {
        Seq::empty()
    } else if calls.first().extra {
        without_extra(calls.drop_first())
    } else {
        seq![calls.first().step] + without_extra(calls.drop_first())
    }
}

/// Whether a call that both histories make is answered the same in both, as far
/// as it concerns `file` or grants; a content written to `file` collides with
/// none that either store holds.
pub open spec fn same_answer(a: StoreView, b: StoreView, step: Step, file: FileId) -> bool {
    match step {
        Step::Mint { file: f, minted, .. } => a.mint_result(f, minted) == b.mint_result(f, minted),
        Step::Write { badge, file: f, data, sealed } => f == file ==> {
            let hash = blake3_digest(data);
            &&& a.write_result(badge, f, data, hash, sealed) == b.write_result(
                badge,
                f,
                data,
                hash,
                sealed,
            )
            &&& a.write_result(badge, f, data, hash, sealed) is Ok ==> a.no_collision(hash, data)
                && b.no_collision(hash, data)
        },
        _ => true,
    }
}

/// Whether the shorter history can be taken from `a` and the longer from `b`, the
/// extra calls are writes to and destructions of files other than `file`, and the
/// common ones are answered the same.
pub open spec fn differ_elsewhere(
    a: StoreView,
    b: StoreView,
    key: Key,
    calls: Seq<Call>,
    file: FileId,
) -> bool
    decreases calls.len(),
{
    calls.len() == 0 || {
        let (call, rest) = (calls.first(), calls.drop_first());
        &&& b.allows(key, call.step)
        &&& if call.extra {
            &&& happens_elsewhere(call.step, file)
            &&& differ_elsewhere(a, b.after(call.step), key, rest, file)
        } else {
            &&& a.allows(key, call.step)
            &&& same_answer(a, b, call.step, file)
            &&& differ_elsewhere(a.after(call.step), b.after(call.step), key, rest, file)
        }
    }
}

/// Whether two stores have made the same grants and agree on `file`.
spec fn alike(a: StoreView, b: StoreView, file: FileId) -> bool {
    &&& a.grants == b.grants
    &&& a.has_file(file) == b.has_file(file)
    &&& a.has_file(file) ==> a.file(file) == b.file(file) && a.content(file) == b.content(file)
}

/// A call that happens elsewhere keeps stores alike.
proof fn lemma_extra_call(a: StoreView, b: StoreView, key: Key, step: Step, file: FileId)
    requires
        b.sound(key),
        b.allows(key, step),
        happens_elsewhere(step, file),
        alike(a, b, file),
    ensures
        alike(a, b.after(step), file),
{
    broadcast use lemma_file_id_index;

    if b.has_file(file) {
        lemma_step_keeps_content(b, key, step, file);
    }
}

/// A call that both histories make, and that is answered the same, keeps stores
/// alike.
proof fn lemma_common_call(a: StoreView, b: StoreView, key: Key, step: Step, file: FileId)
    requires
        a.sound(key),
        b.sound(key),
        a.allows(key, step),
        b.allows(key, step),
        same_answer(a, b, step, file),
        alike(a, b, file),
    ensures
        alike(a.after(step), b.after(step), file),
{
    broadcast use lemma_file_id_index;

    if leaves_alone(step, file) && a.has_file(file) {
        lemma_step_keeps_content(a, key, step, file);
        lemma_step_keeps_content(b, key, step, file);
    }
    if let Step::Write { badge, file: f, data, sealed } = step {
        if f == file && a.write_result(badge, f, data, blake3_digest(data), sealed) is Ok {
            lemma_access_has_file(a, badge, file, FileOps::WRITE);
            law_write_sets_the_content(a, badge, file, data, sealed);
            law_write_sets_the_content(b, badge, file, data, sealed);
        }
    }
}

/// Histories that differ elsewhere keep stores alike, and sound.
proof fn lemma_histories(a: StoreView, b: StoreView, key: Key, calls: Seq<Call>, file: FileId)
    requires
        a.sound(key),
        b.sound(key),
        alike(a, b, file),
        differ_elsewhere(a, b, key, calls, file),
    ensures
        a.after_all(without_extra(calls)).sound(key),
        b.after_all(with_extra(calls)).sound(key),
        alike(a.after_all(without_extra(calls)), b.after_all(with_extra(calls)), file),
    decreases calls.len(),
{
    if calls.len() > 0 {
        let (step, rest) = (calls.first().step, calls.drop_first());
        law_every_step_keeps_a_store_sound(b, key, step);
        assert(with_extra(calls).drop_first() =~= with_extra(rest));
        if calls.first().extra {
            lemma_extra_call(a, b, key, step, file);
            lemma_histories(a, b.after(step), key, rest, file);
        } else {
            law_every_step_keeps_a_store_sound(a, key, step);
            lemma_common_call(a, b, key, step, file);
            assert(without_extra(calls).drop_first() =~= without_extra(rest));
            lemma_histories(a.after(step), b.after(step), key, rest, file);
        }
    }
}

/// **What happens to other files never shows in a read.** Let one history of a
/// store differ from another in writes to and destructions of other files, made
/// at any point and with any content, shared or not. Then a file can be read in
/// the one exactly if it can in the other, from the same address, and refused
/// with the same error; and two reads that succeed return the same length and
/// the same bytes.
///
/// The common calls are the same calls with the same answers, where they concern
/// the file or grants. Left out: a content written to the file whose hash a store
/// holds for another content.
pub proof fn law_other_files_never_show_in_a_read(
    s: StoreView,
    key: Key,
    calls: Seq<Call>,
    file: FileId,
    badge: u64,
    capacity: int,
    opened_a: Result<(), StoreError>,
    buf_a: Seq<u8>,
    opened_b: Result<(), StoreError>,
    buf_b: Seq<u8>,
)
    requires
        s.sound(key),
        differ_elsewhere(s, s, key, calls, file),
    ensures
        ({
            let a = s.after_all(without_extra(calls));
            let b = s.after_all(with_extra(calls));
            let read_a = a.read_result(badge, file, capacity, opened_a);
            let read_b = b.read_result(badge, file, capacity, opened_b);
            &&& a.readable(badge, file, capacity) == b.readable(badge, file, capacity)
            &&& a.readable(badge, file, capacity) is Err || opened_a == opened_b ==> read_a
                == read_b
            &&& read_a is Ok && read_b is Ok && is_opening(
                opened_a,
                key,
                a,
                a.readable(badge, file, capacity),
                buf_a,
            ) && is_opening(opened_b, key, b, b.readable(badge, file, capacity), buf_b) ==> {
                &&& read_a == read_b
                &&& buf_a.take(read_a->Ok_0 as int) == buf_b.take(read_b->Ok_0 as int)
            }
        }),
{
    let a = s.after_all(without_extra(calls));
    let b = s.after_all(with_extra(calls));
    lemma_histories(s, s, key, calls, file);
    if a.access(badge, file, FileOps::READ) is Ok {
        lemma_access_has_file(a, badge, file, FileOps::READ);
        if a.file(file).address is Some {
            lemma_address_in_use(a, file);
            lemma_address_in_use(b, file);
        }
    }
    let target = a.readable(badge, file, capacity);
    let read_a = a.read_result(badge, file, capacity, opened_a);
    let read_b = b.read_result(badge, file, capacity, opened_b);
    if read_a is Ok && read_b is Ok && is_opening(opened_a, key, a, target, buf_a) && is_opening(
        opened_b,
        key,
        b,
        target,
        buf_b,
    ) {
        law_read_yields_the_content(a, key, badge, file, capacity, opened_a, buf_a, read_a->Ok_0);
        law_read_yields_the_content(b, key, badge, file, capacity, opened_b, buf_b, read_b->Ok_0);
    }
}

} // verus!
