//! What holds of the mempool whatever its entries are.

use vstd::prelude::*;

use crate::models::InstructionView;
use crate::services::mempool_model::{
    first_with_hash, holds_hash, is_first_with_hash, is_pending, is_reserved_under,
    lemma_first_with_hash_is, lemma_pending_prefix, lemma_pending_push, lemma_remove_push,
    pending_entries, pending_entry, released_entry, reserved_entry, spec_pending, spec_read_block,
    spec_release, spec_remove, spec_reserve, spec_reserve_all, spec_size, spec_submit,
    MempoolEntryView,
};

verus! {

/// One change to the mempool.
pub enum MempoolOp {
    Submit { instruction: InstructionView },
    Reserve { hash: Seq<u8>, block_hash: Seq<u8> },
    Release { block_hash: Seq<u8> },
    Remove { block_hash: Seq<u8> },
}

/// The entries after one change.
pub open spec fn spec_apply(entries: Seq<MempoolEntryView>, op: MempoolOp) -> Seq<MempoolEntryView> {
    match op {
        MempoolOp::Submit { instruction } => spec_submit(entries, instruction),
        MempoolOp::Reserve { hash, block_hash } => spec_reserve(entries, hash, block_hash),
        MempoolOp::Release { block_hash } => spec_release(entries, block_hash),
        MempoolOp::Remove { block_hash } => spec_remove(entries, block_hash),
    }
}

/// The entries after a run of changes.
pub open spec fn spec_apply_all(entries: Seq<MempoolEntryView>, ops: Seq<MempoolOp>) -> Seq<MempoolEntryView>
    decreases ops.len(),
{
    if ops.len() == 0 {
        entries
    } else {
        spec_apply(spec_apply_all(entries, ops.drop_last()), ops.last())
    }
}

/// The entries after submitting instructions in their order.
pub open spec fn spec_submit_all(entries: Seq<MempoolEntryView>, instructions: Seq<InstructionView>) -> Seq<
    MempoolEntryView,
>
    decreases instructions.len(),
{
    if instructions.len() == 0 {
        entries
    } else {
        spec_submit(spec_submit_all(entries, instructions.drop_last()), instructions.last())
    }
}

/// The number of entries that `block_hash` has taken.
pub open spec fn reserved_count(entries: Seq<MempoolEntryView>, block_hash: Seq<u8>) -> nat {
    entries.filter(|entry: MempoolEntryView| is_reserved_under(entry, block_hash)).len()
}

/// Whether reserving this hash takes an instruction out of the pending ones: the
/// oldest entry with the hash has no reservation yet.
pub open spec fn takes_pending(entries: Seq<MempoolEntryView>, hash: Seq<u8>) -> bool {
    holds_hash(entries, hash) && is_pending(entries[first_with_hash(entries, hash)])
}

/// No two entries hold an instruction with this hash.
pub open spec fn at_most_one_with_hash(entries: Seq<MempoolEntryView>, hash: Seq<u8>) -> bool {
    forall|i: int, j: int|
        0 <= i < entries.len() && 0 <= j < entries.len() && (#[trigger] entries[i]).instruction.hash == hash && (
        #[trigger] entries[j]).instruction.hash == hash ==> i == j
}

/// Every entry with this hash is taken by `block_hash`.
pub open spec fn hash_reserved_under(entries: Seq<MempoolEntryView>, hash: Seq<u8>, block_hash: Seq<u8>) -> bool {
    forall|i: int|
        0 <= i < entries.len() && (#[trigger] entries[i]).instruction.hash == hash ==> is_reserved_under(
            entries[i],
            block_hash,
        )
}

/// Whether a change leaves alone the reservation of `hash` under `block_hash`: it
/// neither releases that node, nor hands the hash to another node, nor submits the
/// hash once more.
pub open spec fn keeps_reservation(op: MempoolOp, hash: Seq<u8>, block_hash: Seq<u8>) -> bool {
    match op {
        MempoolOp::Submit { instruction } => instruction.hash != hash,
        MempoolOp::Reserve { hash: other_hash, block_hash: other_block } => other_hash != hash || other_block
            == block_hash,
        MempoolOp::Release { block_hash: other_block } => other_block != block_hash,
        MempoolOp::Remove { block_hash: other_block } => true,
    }
}

/// No two instructions of the sequence have one hash.
pub open spec fn distinct_hashes(instructions: Seq<InstructionView>) -> bool {
    forall|i: int, j: int|
        0 <= i < instructions.len() && 0 <= j < instructions.len() && i != j ==> (#[trigger] instructions[i]).hash
            != (#[trigger] instructions[j]).hash
}

/// Whether `chosen` picks instructions of `instructions` by their hashes, each
/// once.
pub open spec fn picks_among(chosen: Seq<Seq<u8>>, instructions: Seq<InstructionView>) -> bool {
    &&& forall|a: int, b: int|
        0 <= a < chosen.len() && 0 <= b < chosen.len() && a != b ==> #[trigger] chosen[a] != #[trigger] chosen[b]
    &&& forall|a: int|
        0 <= a < chosen.len() ==> exists|i: int|
            0 <= i < instructions.len() && (#[trigger] instructions[i]).hash == #[trigger] chosen[a]
}

/// Submitting adds one to the number of pending instructions.
pub proof fn law_submit_adds_one(entries: Seq<MempoolEntryView>, instruction: InstructionView)
    ensures
        spec_size(spec_submit(entries, instruction)) == spec_size(entries) + 1,
{
    lemma_pending_push(entries, pending_entry(instruction));
}

/// Where some entry has a hash, one of them is the oldest.
pub proof fn lemma_first_with_hash_exists(entries: Seq<MempoolEntryView>, hash: Seq<u8>)
    requires
        holds_hash(entries, hash),
    ensures
        is_first_with_hash(entries, hash, first_with_hash(entries, hash)),
{
    let some = choose|i: int| 0 <= i < entries.len() && entries[i].instruction.hash == hash;
    let first = lemma_oldest_before(entries, hash, some);
    lemma_first_with_hash_is(entries, hash, first);
}

proof fn lemma_oldest_before(entries: Seq<MempoolEntryView>, hash: Seq<u8>, i: int) -> (first: int)
    requires
        0 <= i < entries.len(),
        entries[i].instruction.hash == hash,
    ensures
        is_first_with_hash(entries, hash, first),
    decreases i,
{
    if exists|j: int| 0 <= j < i && entries[j].instruction.hash == hash {
        let j = choose|j: int| 0 <= j < i && entries[j].instruction.hash == hash;
        lemma_oldest_before(entries, hash, j)
    } else {
        i
    }
}

/// Reserving changes one marker and nothing else.
///
/// The mempool keeps its length and every instruction its place. Where an entry
/// has the hash, the oldest such entry is taken by the node afterwards and every
/// other entry is as before. Where none has it, nothing changes.
pub proof fn law_reserve_marks_the_oldest(entries: Seq<MempoolEntryView>, hash: Seq<u8>, block_hash: Seq<u8>)
    ensures
        spec_reserve(entries, hash, block_hash).len() == entries.len(),
        forall|i: int|
            0 <= i < entries.len() ==> (#[trigger] spec_reserve(entries, hash, block_hash)[i]).instruction
                == entries[i].instruction,
        !holds_hash(entries, hash) ==> spec_reserve(entries, hash, block_hash) == entries,
        holds_hash(entries, hash) ==> {
            let first = first_with_hash(entries, hash);
            &&& is_first_with_hash(entries, hash, first)
            &&& is_reserved_under(spec_reserve(entries, hash, block_hash)[first], block_hash)
            &&& forall|i: int|
                0 <= i < entries.len() && i != first ==> #[trigger] spec_reserve(entries, hash, block_hash)[i]
                    == entries[i]
        },
{
    if holds_hash(entries, hash) {
        lemma_first_with_hash_exists(entries, hash);
    }
}

/// What putting another entry in one place does to the number of pending
/// instructions.
pub proof fn lemma_update_size(entries: Seq<MempoolEntryView>, i: int, entry: MempoolEntryView)
    requires
        0 <= i < entries.len(),
    ensures
        spec_size(entries.update(i, entry)) + (if is_pending(entries[i]) {
            1nat
        } else {
            0nat
        }) == spec_size(entries) + (if is_pending(entry) {
            1nat
        } else {
            0nat
        }),
    decreases entries.len(),
{
    let shorter = entries.drop_last();
    let last = entries.last();
    assert(entries =~= shorter.push(last));
    lemma_pending_push(shorter, last);
    if i == entries.len() - 1 {
        assert(entries.update(i, entry) =~= shorter.push(entry));
        lemma_pending_push(shorter, entry);
    } else {
        lemma_update_size(shorter, i, entry);
        assert(entries.update(i, entry) =~= shorter.update(i, entry).push(last));
        lemma_pending_push(shorter.update(i, entry), last);
    }
}

/// Reserving takes one from the number of pending instructions where it marks an
/// entry that was pending, and leaves the number alone where it does not.
pub proof fn law_reserve_takes_one(entries: Seq<MempoolEntryView>, hash: Seq<u8>, block_hash: Seq<u8>)
    ensures
        spec_reserve(entries, hash, block_hash).len() == entries.len(),
        takes_pending(entries, hash) ==> spec_size(spec_reserve(entries, hash, block_hash)) + 1 == spec_size(
            entries,
        ),
        !takes_pending(entries, hash) ==> spec_size(spec_reserve(entries, hash, block_hash)) == spec_size(entries),
{
    if holds_hash(entries, hash) {
        lemma_first_with_hash_exists(entries, hash);
        let first = first_with_hash(entries, hash);
        lemma_update_size(entries, first, reserved_entry(entries[first], block_hash));
    }
}

/// Only a removal destroys instructions.
///
/// After a submission, a reservation or a release every instruction that the
/// mempool held is still there, in its place.
pub proof fn law_only_removal_destroys(entries: Seq<MempoolEntryView>, op: MempoolOp)
    requires
        !(op is Remove),
    ensures
        spec_apply(entries, op).len() >= entries.len(),
        forall|i: int|
            0 <= i < entries.len() ==> (#[trigger] spec_apply(entries, op)[i]).instruction == entries[i].instruction,
{
    match op {
        MempoolOp::Reserve { hash, block_hash } => {
            law_reserve_marks_the_oldest(entries, hash, block_hash);
        },
        _ => {},
    }
}

/// What one more entry at the end adds to the number that a node has taken.
pub proof fn lemma_reserved_count_push(entries: Seq<MempoolEntryView>, entry: MempoolEntryView, block_hash: Seq<u8>)
    ensures
        reserved_count(entries.push(entry), block_hash) == reserved_count(entries, block_hash) + if is_reserved_under(
            entry,
            block_hash,
        ) {
            1nat
        } else {
            0nat
        },
{
    entries.lemma_filter_push(entry, |entry: MempoolEntryView| is_reserved_under(entry, block_hash));
}

/// Every entry that a removal keeps was there before.
pub proof fn lemma_remove_keeps_old(entries: Seq<MempoolEntryView>, block_hash: Seq<u8>, i: int)
    requires
        0 <= i < spec_remove(entries, block_hash).len(),
    ensures
        entries.contains(spec_remove(entries, block_hash)[i]),
        !is_reserved_under(spec_remove(entries, block_hash)[i], block_hash),
{
    let keep = |entry: MempoolEntryView| !is_reserved_under(entry, block_hash);
    let kept = entries.filter(keep);
    entries.lemma_filter_pred(keep, i);
    entries.lemma_filter_contains_rev(keep, kept[i]);
}

/// A commit destroys what the node had taken and nothing else.
///
/// After `block_hash` is removed the pending instructions are the same, no entry is
/// taken by `block_hash`, and the mempool is shorter by the number of entries that
/// it had taken.
pub proof fn law_remove_destroys_reserved(entries: Seq<MempoolEntryView>, block_hash: Seq<u8>)
    ensures
        spec_pending(spec_remove(entries, block_hash)) == spec_pending(entries),
        spec_size(spec_remove(entries, block_hash)) == spec_size(entries),
        reserved_count(spec_remove(entries, block_hash), block_hash) == 0,
        forall|i: int|
            0 <= i < spec_remove(entries, block_hash).len() ==> !is_reserved_under(
                #[trigger] spec_remove(entries, block_hash)[i],
                block_hash,
            ),
        forall|i: int|
            0 <= i < entries.len() && !is_reserved_under(entries[i], block_hash) ==> spec_remove(
                entries,
                block_hash,
            ).contains(#[trigger] entries[i]),
        spec_remove(entries, block_hash).len() + reserved_count(entries, block_hash) == entries.len(),
    decreases entries.len(),
{
    assert forall|i: int| 0 <= i < entries.len() && !is_reserved_under(entries[i], block_hash) implies spec_remove(
        entries,
        block_hash,
    ).contains(#[trigger] entries[i]) by {
        entries.lemma_filter_contains(|entry: MempoolEntryView| !is_reserved_under(entry, block_hash), i);
    }
    if entries.len() == 0 {
        reveal_with_fuel(Seq::filter, 1);
    } else {
        let shorter = entries.drop_last();
        let last = entries.last();
        assert(entries =~= shorter.push(last));
        law_remove_destroys_reserved(shorter, block_hash);
        lemma_remove_push(shorter, last, block_hash);
        lemma_pending_push(shorter, last);
        lemma_reserved_count_push(shorter, last, block_hash);
        if !is_reserved_under(last, block_hash) {
            lemma_pending_push(spec_remove(shorter, block_hash), last);
            lemma_reserved_count_push(spec_remove(shorter, block_hash), last, block_hash);
        }
    }
    assert forall|i: int| 0 <= i < spec_remove(entries, block_hash).len() implies !is_reserved_under(
        #[trigger] spec_remove(entries, block_hash)[i],
        block_hash,
    ) by {
        lemma_remove_keeps_old(entries, block_hash, i);
    }
}

/// A release restores what the node had taken.
///
/// After `block_hash` is released the mempool has the same instructions in the
/// same places, those that it had taken are pending, the other entries are as
/// before, and the number of pending instructions has grown by the number that it
/// had taken.
pub proof fn law_release_restores_reserved(entries: Seq<MempoolEntryView>, block_hash: Seq<u8>)
    ensures
        spec_release(entries, block_hash).len() == entries.len(),
        forall|i: int|
            0 <= i < entries.len() ==> (#[trigger] spec_release(entries, block_hash)[i]).instruction
                == entries[i].instruction,
        forall|i: int|
            0 <= i < entries.len() && is_reserved_under(entries[i], block_hash) ==> is_pending(
                #[trigger] spec_release(entries, block_hash)[i],
            ),
        forall|i: int|
            0 <= i < entries.len() && !is_reserved_under(entries[i], block_hash) ==> #[trigger] spec_release(
                entries,
                block_hash,
            )[i] == entries[i],
        reserved_count(spec_release(entries, block_hash), block_hash) == 0,
        spec_size(spec_release(entries, block_hash)) == spec_size(entries) + reserved_count(entries, block_hash),
    decreases entries.len(),
{
    if entries.len() == 0 {
        reveal_with_fuel(Seq::filter, 1);
    } else {
        let shorter = entries.drop_last();
        let last = entries.last();
        assert(entries =~= shorter.push(last));
        law_release_restores_reserved(shorter, block_hash);
        assert(spec_release(entries, block_hash) =~= spec_release(shorter, block_hash).push(
            released_entry(last, block_hash),
        ));
        lemma_pending_push(shorter, last);
        lemma_pending_push(spec_release(shorter, block_hash), released_entry(last, block_hash));
        lemma_reserved_count_push(shorter, last, block_hash);
        lemma_reserved_count_push(spec_release(shorter, block_hash), released_entry(last, block_hash), block_hash);
    }
}

/// Removing a node twice is removing it once.
pub proof fn law_remove_is_idempotent(entries: Seq<MempoolEntryView>, block_hash: Seq<u8>)
    ensures
        spec_remove(spec_remove(entries, block_hash), block_hash) == spec_remove(entries, block_hash),
    decreases entries.len(),
{
    if entries.len() == 0 {
        reveal_with_fuel(Seq::filter, 1);
    } else {
        let shorter = entries.drop_last();
        let last = entries.last();
        assert(entries =~= shorter.push(last));
        law_remove_is_idempotent(shorter, block_hash);
        lemma_remove_push(shorter, last, block_hash);
        if !is_reserved_under(last, block_hash) {
            lemma_remove_push(spec_remove(shorter, block_hash), last, block_hash);
        }
    }
}

/// Releasing a node twice is releasing it once.
pub proof fn law_release_is_idempotent(entries: Seq<MempoolEntryView>, block_hash: Seq<u8>)
    ensures
        spec_release(spec_release(entries, block_hash), block_hash) == spec_release(entries, block_hash),
{
}

/// Every pending instruction stands in an entry without a reservation.
pub proof fn lemma_pending_is_entry(entries: Seq<MempoolEntryView>, i: int)
    requires
        0 <= i < spec_pending(entries).len(),
    ensures
        exists|j: int|
            0 <= j < entries.len() && is_pending(#[trigger] entries[j]) && entries[j].instruction == spec_pending(
                entries,
            )[i],
{
    let keep = |entry: MempoolEntryView| is_pending(entry);
    let kept = pending_entries(entries);
    entries.lemma_filter_pred(keep, i);
    entries.lemma_filter_contains_rev(keep, kept[i]);
    let j = choose|j: int| 0 <= j < entries.len() && entries[j] == kept[i];
    assert(is_pending(entries[j]) && entries[j].instruction == spec_pending(entries)[i]);
}

/// Reserving a hash that at most one entry has leaves every entry with that hash
/// taken by the node.
pub proof fn lemma_reserve_marks(entries: Seq<MempoolEntryView>, hash: Seq<u8>, block_hash: Seq<u8>)
    requires
        at_most_one_with_hash(entries, hash),
    ensures
        hash_reserved_under(spec_reserve(entries, hash, block_hash), hash, block_hash),
{
    law_reserve_marks_the_oldest(entries, hash, block_hash);
    let after = spec_reserve(entries, hash, block_hash);
    assert forall|i: int| 0 <= i < after.len() && (#[trigger] after[i]).instruction.hash == hash implies is_reserved_under(
        after[i],
        block_hash,
    ) by {
        assert(entries[i].instruction.hash == hash);
    }
}

/// A change that leaves the reservation alone keeps every entry with the hash
/// taken by the node.
pub proof fn lemma_op_keeps_reservation(
    entries: Seq<MempoolEntryView>,
    op: MempoolOp,
    hash: Seq<u8>,
    block_hash: Seq<u8>,
)
    requires
        hash_reserved_under(entries, hash, block_hash),
        keeps_reservation(op, hash, block_hash),
    ensures
        hash_reserved_under(spec_apply(entries, op), hash, block_hash),
{
    let after = spec_apply(entries, op);
    assert forall|i: int| 0 <= i < after.len() && (#[trigger] after[i]).instruction.hash == hash implies is_reserved_under(
        after[i],
        block_hash,
    ) by {
        match op {
            MempoolOp::Submit { instruction } => {},
            MempoolOp::Reserve { hash: other_hash, block_hash: other_block } => {
                law_reserve_marks_the_oldest(entries, other_hash, other_block);
            },
            MempoolOp::Release { block_hash: other_block } => {},
            MempoolOp::Remove { block_hash: other_block } => {
                lemma_remove_keeps_old(entries, other_block, i);
                let j = choose|j: int| 0 <= j < entries.len() && entries[j] == after[i];
                assert(is_reserved_under(entries[j], block_hash));
            },
        }
    }
}

/// While every entry with a hash is taken by a node, no pending instruction has
/// that hash.
pub proof fn lemma_reserved_is_not_pending(entries: Seq<MempoolEntryView>, hash: Seq<u8>, block_hash: Seq<u8>)
    requires
        hash_reserved_under(entries, hash, block_hash),
    ensures
        forall|i: int| 0 <= i < spec_pending(entries).len() ==> (#[trigger] spec_pending(entries)[i]).hash != hash,
{
    assert forall|i: int| 0 <= i < spec_pending(entries).len() implies (#[trigger] spec_pending(entries)[i]).hash
        != hash by {
        lemma_pending_is_entry(entries, i);
    }
}

/// A reservation holds until it is released or its entry is removed.
///
/// Take a mempool in which at most one entry has the hash `hash`, reserve that hash
/// under `block_hash`, and let any run of changes follow that leave the
/// reservation alone (see `keeps_reservation`). Then no read of the mempool,
/// whatever its limit, hands out an instruction with that hash.
pub proof fn law_reservation_is_exclusive(
    entries: Seq<MempoolEntryView>,
    hash: Seq<u8>,
    block_hash: Seq<u8>,
    ops: Seq<MempoolOp>,
    limit: nat,
)
    requires
        at_most_one_with_hash(entries, hash),
        forall|k: int| 0 <= k < ops.len() ==> keeps_reservation(#[trigger] ops[k], hash, block_hash),
    ensures
        hash_reserved_under(spec_apply_all(spec_reserve(entries, hash, block_hash), ops), hash, block_hash),
        forall|i: int|
            0 <= i < spec_read_block(spec_apply_all(spec_reserve(entries, hash, block_hash), ops), limit).len()
                ==> (#[trigger] spec_read_block(
                spec_apply_all(spec_reserve(entries, hash, block_hash), ops),
                limit,
            )[i]).hash != hash,
    decreases ops.len(),
{
    let reserved = spec_reserve(entries, hash, block_hash);
    if ops.len() == 0 {
        lemma_reserve_marks(entries, hash, block_hash);
    } else {
        assert forall|k: int| 0 <= k < ops.drop_last().len() implies keeps_reservation(
            #[trigger] ops.drop_last()[k],
            hash,
            block_hash,
        ) by {
            assert(ops.drop_last()[k] == ops[k]);
        }
        law_reservation_is_exclusive(entries, hash, block_hash, ops.drop_last(), limit);
        lemma_op_keeps_reservation(spec_apply_all(reserved, ops.drop_last()), ops.last(), hash, block_hash);
    }
    let after = spec_apply_all(reserved, ops);
    lemma_reserved_is_not_pending(after, hash, block_hash);
    assert forall|i: int| 0 <= i < spec_read_block(after, limit).len() implies (#[trigger] spec_read_block(
        after,
        limit,
    )[i]).hash != hash by {
        assert(spec_read_block(after, limit)[i] == spec_pending(after)[i]);
    }
}

/// Reserving a run of hashes under one node leaves each of them taken by that
/// node, where no hash of the run stands in two entries.
pub proof fn law_reserve_all_marks_each(entries: Seq<MempoolEntryView>, hashes: Seq<Seq<u8>>, block_hash: Seq<u8>)
    requires
        forall|k: int| 0 <= k < hashes.len() ==> at_most_one_with_hash(entries, #[trigger] hashes[k]),
    ensures
        spec_reserve_all(entries, hashes, block_hash).len() == entries.len(),
        forall|i: int|
            0 <= i < entries.len() ==> (#[trigger] spec_reserve_all(entries, hashes, block_hash)[i]).instruction
                == entries[i].instruction,
        forall|k: int|
            0 <= k < hashes.len() ==> hash_reserved_under(
                spec_reserve_all(entries, hashes, block_hash),
                #[trigger] hashes[k],
                block_hash,
            ),
    decreases hashes.len(),
{
    if hashes.len() > 0 {
        let earlier = hashes.drop_last();
        let hash = hashes.last();
        assert forall|k: int| 0 <= k < earlier.len() implies at_most_one_with_hash(entries, #[trigger] earlier[k]) by {
        }
        law_reserve_all_marks_each(entries, earlier, block_hash);
        let before = spec_reserve_all(entries, earlier, block_hash);
        let after = spec_reserve_all(entries, hashes, block_hash);
        law_reserve_marks_the_oldest(before, hash, block_hash);
        assert(at_most_one_with_hash(before, hash)) by {
            assert(at_most_one_with_hash(entries, hashes[hashes.len() - 1]));
            assert forall|i: int, j: int|
                0 <= i < before.len() && 0 <= j < before.len() && (#[trigger] before[i]).instruction.hash == hash && (
                #[trigger] before[j]).instruction.hash == hash implies i == j by {
                assert(entries[i].instruction.hash == hash && entries[j].instruction.hash == hash);
            }
        }
        lemma_reserve_marks(before, hash, block_hash);
        assert forall|k: int| 0 <= k < hashes.len() implies hash_reserved_under(
            after,
            #[trigger] hashes[k],
            block_hash,
        ) by {
            if k < hashes.len() - 1 {
                assert(earlier[k] == hashes[k]);
                lemma_op_keeps_reservation(
                    before,
                    MempoolOp::Reserve { hash, block_hash },
                    hashes[k],
                    block_hash,
                );
            }
        }
    }
}

/// Abandoning a proposal puts the mempool back.
///
/// Let no entry be taken by the node, and let every entry with one of the hashes be
/// pending. Reserve the hashes under the node and then release the node: the
/// mempool is as it was before.
pub proof fn law_release_undoes_reservations(
    entries: Seq<MempoolEntryView>,
    hashes: Seq<Seq<u8>>,
    block_hash: Seq<u8>,
)
    requires
        forall|i: int| 0 <= i < entries.len() ==> !is_reserved_under(#[trigger] entries[i], block_hash),
        forall|k: int, i: int|
            0 <= k < hashes.len() && 0 <= i < entries.len() && (#[trigger] entries[i]).instruction.hash
                == #[trigger] hashes[k] ==> is_pending(entries[i]),
    ensures
        spec_reserve_all(entries, hashes, block_hash).len() == entries.len(),
        forall|i: int|
            0 <= i < entries.len() ==> (#[trigger] spec_reserve_all(entries, hashes, block_hash)[i]).instruction
                == entries[i].instruction,
        spec_release(spec_reserve_all(entries, hashes, block_hash), block_hash) == entries,
    decreases hashes.len(),
{
    if hashes.len() == 0 {
        assert(spec_release(entries, block_hash) =~= entries);
    } else {
        let earlier = hashes.drop_last();
        let hash = hashes.last();
        assert forall|k: int, i: int|
            0 <= k < earlier.len() && 0 <= i < entries.len() && (#[trigger] entries[i]).instruction.hash
                == #[trigger] earlier[k] implies is_pending(entries[i]) by {
            assert(earlier[k] == hashes[k]);
        }
        law_release_undoes_reservations(entries, earlier, block_hash);
        let before = spec_reserve_all(entries, earlier, block_hash);
        let after = spec_reserve_all(entries, hashes, block_hash);
        law_reserve_marks_the_oldest(before, hash, block_hash);
        assert forall|i: int| 0 <= i < entries.len() implies #[trigger] spec_release(after, block_hash)[i]
            == entries[i] by {
            assert(spec_release(before, block_hash)[i] == entries[i]);
            if holds_hash(before, hash) && i == first_with_hash(before, hash) {
                assert(entries[i].instruction.hash == hashes[hashes.len() - 1]);
            }
        }
        assert(spec_release(after, block_hash) =~= entries);
    }
}

/// What a node has reserved is not handed out again.
///
/// Reserve a run of hashes under one node, none of which stands in two entries.
/// Then no read of the mempool, whatever its limit, hands out an instruction with
/// one of these hashes.
pub proof fn law_reserved_run_is_not_read(
    entries: Seq<MempoolEntryView>,
    hashes: Seq<Seq<u8>>,
    block_hash: Seq<u8>,
    limit: nat,
)
    requires
        forall|k: int| 0 <= k < hashes.len() ==> at_most_one_with_hash(entries, #[trigger] hashes[k]),
    ensures
        forall|k: int, i: int|
            0 <= k < hashes.len() && 0 <= i < spec_read_block(
                spec_reserve_all(entries, hashes, block_hash),
                limit,
            ).len() ==> (#[trigger] spec_read_block(spec_reserve_all(entries, hashes, block_hash), limit)[i]).hash
                != #[trigger] hashes[k],
{
    let after = spec_reserve_all(entries, hashes, block_hash);
    law_reserve_all_marks_each(entries, hashes, block_hash);
    assert forall|k: int, i: int| 0 <= k < hashes.len() && 0 <= i < spec_read_block(after, limit).len() implies (
    #[trigger] spec_read_block(after, limit)[i]).hash != #[trigger] hashes[k] by {
        lemma_reserved_is_not_pending(after, hashes[k], block_hash);
        assert(spec_read_block(after, limit)[i] == spec_pending(after)[i]);
    }
}

/// Submitting appends one pending entry for each instruction.
pub proof fn lemma_submit_all(entries: Seq<MempoolEntryView>, instructions: Seq<InstructionView>)
    ensures
        spec_submit_all(entries, instructions).len() == entries.len() + instructions.len(),
        forall|i: int| 0 <= i < entries.len() ==> #[trigger] spec_submit_all(entries, instructions)[i] == entries[i],
        forall|i: int|
            0 <= i < instructions.len() ==> #[trigger] spec_submit_all(entries, instructions)[entries.len() + i]
                == pending_entry(instructions[i]),
        spec_size(spec_submit_all(entries, instructions)) == spec_size(entries) + instructions.len(),
    decreases instructions.len(),
{
    if instructions.len() > 0 {
        lemma_submit_all(entries, instructions.drop_last());
        law_submit_adds_one(spec_submit_all(entries, instructions.drop_last()), instructions.last());
        let after = spec_submit_all(entries, instructions);
        let shorter = spec_submit_all(entries, instructions.drop_last());
        assert forall|i: int| 0 <= i < instructions.len() implies #[trigger] after[entries.len() + i] == pending_entry(
            instructions[i],
        ) by {
            if i < instructions.len() - 1 {
                assert(after[entries.len() + i] == shorter[entries.len() + i]);
                assert(instructions.drop_last()[i] == instructions[i]);
            }
        }
    }
}

/// The mempool after instructions with distinct hashes, none of which it held, were
/// submitted and some of them reserved: what was there is as before, and of the new
/// entries exactly those that were not picked are pending.
proof fn lemma_reserved_picks(
    entries: Seq<MempoolEntryView>,
    instructions: Seq<InstructionView>,
    chosen: Seq<Seq<u8>>,
    block_hash: Seq<u8>,
)
    requires
        distinct_hashes(instructions),
        picks_among(chosen, instructions),
        forall|i: int, j: int|
            0 <= i < entries.len() && 0 <= j < instructions.len() ==> (#[trigger] entries[i]).instruction.hash != (
            #[trigger] instructions[j]).hash,
    ensures
        ({
            let submitted = spec_submit_all(entries, instructions);
            let after = spec_reserve_all(submitted, chosen, block_hash);
            &&& after.len() == submitted.len()
            &&& forall|i: int| 0 <= i < entries.len() ==> #[trigger] after[i] == entries[i]
            &&& forall|i: int| 0 <= i < after.len() ==> (#[trigger] after[i]).instruction == submitted[i].instruction
            &&& forall|i: int|
                entries.len() <= i < after.len() ==> (is_pending(#[trigger] after[i]) <==> !chosen.contains(
                    after[i].instruction.hash,
                ))
            &&& spec_size(after) + chosen.len() == spec_size(submitted)
        }),
    decreases chosen.len(),
{
    let submitted = spec_submit_all(entries, instructions);
    lemma_submit_all(entries, instructions);
    if chosen.len() == 0 {
        assert forall|i: int| entries.len() <= i < submitted.len() implies (is_pending(#[trigger] submitted[i])
            <==> !chosen.contains(submitted[i].instruction.hash)) by {
            assert(submitted[entries.len() + (i - entries.len())] == pending_entry(
                instructions[i - entries.len()],
            ));
        }
    } else {
        let earlier = chosen.drop_last();
        let hash = chosen.last();
        // The earlier picks are picks of the same kind.
        assert forall|a: int| 0 <= a < earlier.len() implies exists|i: int|
            0 <= i < instructions.len() && (#[trigger] instructions[i]).hash == #[trigger] earlier[a] by {
            assert(earlier[a] == chosen[a]);
        }
        assert forall|a: int, b: int| 0 <= a < earlier.len() && 0 <= b < earlier.len() && a != b implies #[trigger] earlier[a]
            != #[trigger] earlier[b] by {
            assert(earlier[a] == chosen[a] && earlier[b] == chosen[b]);
        }
        lemma_reserved_picks(entries, instructions, earlier, block_hash);
        let before = spec_reserve_all(submitted, earlier, block_hash);
        let after = spec_reserve_all(submitted, chosen, block_hash);
        // The last pick names one new entry, and no entry before it has that hash.
        let picked = choose|i: int| 0 <= i < instructions.len() && (#[trigger] instructions[i]).hash == hash;
        let place = entries.len() + picked;
        assert(submitted[place] == pending_entry(instructions[picked]));
        assert forall|j: int| 0 <= j < place implies before[j].instruction.hash != hash by {
            if j >= entries.len() {
                assert(submitted[entries.len() + (j - entries.len())] == pending_entry(
                    instructions[j - entries.len()],
                ));
            }
        }
        lemma_first_with_hash_is(before, hash, place);
        // It was pending, since the earlier picks do not name it.
        assert(!earlier.contains(hash)) by {
            if earlier.contains(hash) {
                let a = choose|a: int| 0 <= a < earlier.len() && earlier[a] == hash;
                assert(chosen[a] == chosen[chosen.len() - 1]);
            }
        }
        assert(after == before.update(place, reserved_entry(before[place], block_hash)));
        lemma_update_size(before, place, reserved_entry(before[place], block_hash));
        assert forall|i: int| entries.len() <= i < after.len() implies (is_pending(#[trigger] after[i])
            <==> !chosen.contains(after[i].instruction.hash)) by {
            let own = after[i].instruction.hash;
            if i == place {
                assert(chosen[chosen.len() - 1] == own);
            } else {
                assert(submitted[entries.len() + (i - entries.len())] == pending_entry(
                    instructions[i - entries.len()],
                ));
                if earlier.contains(own) {
                    let a = choose|a: int| 0 <= a < earlier.len() && earlier[a] == own;
                    assert(chosen[a] == own);
                }
                if chosen.contains(own) {
                    let a = choose|a: int| 0 <= a < chosen.len() && chosen[a] == own;
                    assert(earlier[a] == own);
                }
            }
        }
    }
}

/// The queue depth is the number of instructions that came in less the number that
/// were reserved.
///
/// Submit `instructions`, whose hashes differ from one another and from those that
/// the mempool holds, and then reserve the hashes `chosen`, each the hash of one of
/// them and none named twice. The number of pending instructions has then grown by
/// the number submitted less the number reserved.
pub proof fn law_queue_depth(
    entries: Seq<MempoolEntryView>,
    instructions: Seq<InstructionView>,
    chosen: Seq<Seq<u8>>,
    block_hash: Seq<u8>,
)
    requires
        distinct_hashes(instructions),
        picks_among(chosen, instructions),
        forall|i: int, j: int|
            0 <= i < entries.len() && 0 <= j < instructions.len() ==> (#[trigger] entries[i]).instruction.hash != (
            #[trigger] instructions[j]).hash,
    ensures
        chosen.len() <= instructions.len(),
        spec_size(spec_reserve_all(spec_submit_all(entries, instructions), chosen, block_hash)) == spec_size(entries)
            + instructions.len() - chosen.len(),
{
    lemma_submit_all(entries, instructions);
    lemma_reserved_picks(entries, instructions, chosen, block_hash);
    let submitted = spec_submit_all(entries, instructions);
    let after = spec_reserve_all(submitted, chosen, block_hash);
    assert(spec_size(entries) <= spec_size(after)) by {
        assert(after.take(entries.len() as int) =~= entries);
        lemma_pending_prefix(after, entries.len() as int);
    }
}

} // verus!
