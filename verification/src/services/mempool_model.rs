//! The mempool as a sequence of entries in submission order, and what each of its
//! operations does to that sequence.

use vstd::prelude::*;

use crate::models::InstructionView;

verus! {

/// One entry of the mempool: an instruction, and the node that it is reserved
/// under, if any.
pub struct MempoolEntryView {
    pub instruction: InstructionView,
    pub reservation: Option<Seq<u8>>,
}

/// The mempool as the contracts see it: its entries in submission order.
pub type MempoolView = Seq<MempoolEntryView>;

/// An entry that a new payload may take.
pub open spec fn is_pending(entry: MempoolEntryView) -> bool {
    entry.reservation is None
}

/// An entry that the proposal `block_hash` has taken.
pub open spec fn is_reserved_under(entry: MempoolEntryView, block_hash: Seq<u8>) -> bool {
    entry.reservation == Some(block_hash)
}

/// The entry of an instruction that has just come in.
pub open spec fn pending_entry(instruction: InstructionView) -> MempoolEntryView {
    MempoolEntryView { instruction, reservation: None }
}

/// The entry `entry` once `block_hash` has taken it.
pub open spec fn reserved_entry(entry: MempoolEntryView, block_hash: Seq<u8>) -> MempoolEntryView {
    MempoolEntryView { instruction: entry.instruction, reservation: Some(block_hash) }
}

/// The entry `entry` once `block_hash` has given up its reservations.
pub open spec fn released_entry(entry: MempoolEntryView, block_hash: Seq<u8>) -> MempoolEntryView {
    if is_reserved_under(entry, block_hash) {
        pending_entry(entry.instruction)
    } else {
        entry
    }
}

/// Submitting appends an entry without a reservation.
pub open spec fn spec_submit(entries: Seq<MempoolEntryView>, instruction: InstructionView) -> Seq<
    MempoolEntryView,
> {
    entries.push(pending_entry(instruction))
}

/// The entries without a reservation, oldest first.
pub open spec fn pending_entries(entries: Seq<MempoolEntryView>) -> Seq<MempoolEntryView> {
    entries.filter(|entry: MempoolEntryView| is_pending(entry))
}

/// The instructions without a reservation, oldest first.
pub open spec fn spec_pending(entries: Seq<MempoolEntryView>) -> Seq<InstructionView> {
    pending_entries(entries).map_values(|entry: MempoolEntryView| entry.instruction)
}

/// The first `limit` instructions without a reservation, or all of them where
/// there are fewer.
pub open spec fn spec_read_block(entries: Seq<MempoolEntryView>, limit: nat) -> Seq<InstructionView> {
    let pending = spec_pending(entries);
    if limit < pending.len() {
        pending.take(limit as int)
    } else {
        pending
    }
}

/// The number of entries without a reservation.
pub open spec fn spec_size(entries: Seq<MempoolEntryView>) -> nat {
    pending_entries(entries).len()
}

/// Whether some entry holds an instruction with this hash.
pub open spec fn holds_hash(entries: Seq<MempoolEntryView>, hash: Seq<u8>) -> bool {
    exists|i: int| 0 <= i < entries.len() && entries[i].instruction.hash == hash
}

/// Whether the entry at `i` is the oldest one with this hash.
pub open spec fn is_first_with_hash(entries: Seq<MempoolEntryView>, hash: Seq<u8>, i: int) -> bool {
    &&& 0 <= i < entries.len()
    &&& entries[i].instruction.hash == hash
    &&& forall|j: int| 0 <= j < i ==> entries[j].instruction.hash != hash
}

/// The place of the oldest entry with this hash, where there is one.
pub open spec fn first_with_hash(entries: Seq<MempoolEntryView>, hash: Seq<u8>) -> int {
    choose|i: int| is_first_with_hash(entries, hash, i)
}

/// Reserving marks the oldest entry with the hash as taken by `block_hash`,
/// whatever its marker was before, and changes nothing where no entry has the hash.
pub open spec fn spec_reserve(entries: Seq<MempoolEntryView>, hash: Seq<u8>, block_hash: Seq<u8>) -> Seq<
    MempoolEntryView,
> {
    if holds_hash(entries, hash) {
        let i = first_with_hash(entries, hash);
        entries.update(i, reserved_entry(entries[i], block_hash))
    } else {
        entries
    }
}

/// Releasing clears the marker of every entry that `block_hash` has taken.
pub open spec fn spec_release(entries: Seq<MempoolEntryView>, block_hash: Seq<u8>) -> Seq<MempoolEntryView> {
    entries.map_values(|entry: MempoolEntryView| released_entry(entry, block_hash))
}

/// Removing deletes every entry that `block_hash` has taken and keeps the others
/// in their order.
pub open spec fn spec_remove(entries: Seq<MempoolEntryView>, block_hash: Seq<u8>) -> Seq<MempoolEntryView> {
    entries.filter(|entry: MempoolEntryView| !is_reserved_under(entry, block_hash))
}

/// Reserving each hash of a sequence in turn, all under one node.
pub open spec fn spec_reserve_all(
    entries: Seq<MempoolEntryView>,
    hashes: Seq<Seq<u8>>,
    block_hash: Seq<u8>,
) -> Seq<MempoolEntryView>
    decreases hashes.len(),
{
    if hashes.len() == 0 {
        entries
    } else {
        spec_reserve(spec_reserve_all(entries, hashes.drop_last(), block_hash), hashes.last(), block_hash)
    }
}

/// Only one place can be the oldest with a hash.
pub proof fn lemma_first_with_hash_is(entries: Seq<MempoolEntryView>, hash: Seq<u8>, i: int)
    requires
        is_first_with_hash(entries, hash, i),
    ensures
        holds_hash(entries, hash),
        first_with_hash(entries, hash) == i,
{
    // The chosen place is an oldest one too, and of two oldest places neither
    // comes before the other.
    let chosen = first_with_hash(entries, hash);
    assert(is_first_with_hash(entries, hash, chosen));
    if chosen < i {
        assert(entries[chosen].instruction.hash != hash);
    } else if i < chosen {
        assert(entries[i].instruction.hash != hash);
    }
}

/// What one more entry at the end adds to the pending instructions.
pub proof fn lemma_pending_push(entries: Seq<MempoolEntryView>, entry: MempoolEntryView)
    ensures
        spec_pending(entries.push(entry)) == if is_pending(entry) {
            spec_pending(entries).push(entry.instruction)
        } else {
            spec_pending(entries)
        },
        spec_size(entries.push(entry)) == if is_pending(entry) {
            spec_size(entries) + 1
        } else {
            spec_size(entries)
        },
{
    let longer = entries.push(entry);
    assert(longer.drop_last() =~= entries);
    reveal_with_fuel(Seq::filter, 2);
    if is_pending(entry) {
        assert(spec_pending(longer) =~= spec_pending(entries).push(entry.instruction));
    }
}

/// What one more entry at the end adds to what a removal keeps.
pub proof fn lemma_remove_push(entries: Seq<MempoolEntryView>, entry: MempoolEntryView, block_hash: Seq<u8>)
    ensures
        spec_remove(entries.push(entry), block_hash) == if is_reserved_under(entry, block_hash) {
            spec_remove(entries, block_hash)
        } else {
            spec_remove(entries, block_hash).push(entry)
        },
{
    let longer = entries.push(entry);
    assert(longer.drop_last() =~= entries);
    reveal_with_fuel(Seq::filter, 2);
}

/// The pending instructions among the first `i` entries come first among all the
/// pending instructions.
pub proof fn lemma_pending_prefix(entries: Seq<MempoolEntryView>, i: int)
    requires
        0 <= i <= entries.len(),
    ensures
        spec_pending(entries.take(i)).len() <= spec_pending(entries).len(),
        spec_pending(entries.take(i)) == spec_pending(entries).take(spec_pending(entries.take(i)).len() as int),
    decreases entries.len(),
{
    if i == entries.len() {
        assert(entries.take(i) =~= entries);
    } else {
        let shorter = entries.drop_last();
        lemma_pending_prefix(shorter, i);
        assert(shorter.take(i) =~= entries.take(i));
        assert(entries =~= shorter.push(entries.last()));
        lemma_pending_push(shorter, entries.last());
    }
}

} // verus!
