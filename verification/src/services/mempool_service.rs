use vstd::prelude::*;

use crate::digital_assets_error::DigitalAssetError;
use crate::models::{bytes_equal, instruction_views, Instruction};
use crate::services::mempool_model::{
    lemma_first_with_hash_is, lemma_pending_prefix, lemma_pending_push, lemma_remove_push, released_entry,
    spec_pending, spec_read_block, spec_release, spec_remove, spec_reserve, spec_size, spec_submit,
    MempoolEntryView, MempoolView,
};

verus! {

/// The store of the instructions that wait for a proposal. Every operation is one
/// pass over the entries: it either takes effect as a whole or fails and leaves
/// them as they were.
pub trait MempoolService: Sized {
    /// The entries in submission order.
    spec fn entries(&self) -> MempoolView;

    /// Whether an operation of this kind of mempool can fail.
    spec fn may_fail() -> bool;

    /// Appends an instruction without a reservation. An instruction whose hash is
    /// already there is appended all the same.
    fn submit_instruction(&mut self, instruction: Instruction) -> (done: Result<(), DigitalAssetError>)
        ensures
            !Self::may_fail() ==> done is Ok,
            done is Ok ==> final(self).entries() == spec_submit(old(self).entries(), instruction@),
            done is Err ==> final(self).entries() == old(self).entries(),
    ;

    /// The oldest instructions without a reservation, `limit` at most. Nothing is
    /// reserved by reading.
    fn read_block(&self, limit: usize) -> (block: Result<Vec<Instruction>, DigitalAssetError>)
        ensures
            !Self::may_fail() ==> block is Ok,
            block is Ok ==> instruction_views(block->Ok_0@) == spec_read_block(self.entries(), limit as nat),
            block is Ok ==> block->Ok_0.len() <= limit,
    ;

    /// Marks the oldest entry with this hash as taken by `block_hash`. A marker
    /// that the entry had before is overwritten. Without such an entry nothing
    /// changes, and that is no error.
    fn reserve_instruction_in_block(&mut self, instruction_hash: &[u8], block_hash: Vec<u8>) -> (done: Result<
        (),
        DigitalAssetError,
    >)
        ensures
            !Self::may_fail() ==> done is Ok,
            done is Ok ==> final(self).entries() == spec_reserve(
                old(self).entries(),
                instruction_hash@,
                block_hash@,
            ),
            done is Err ==> final(self).entries() == old(self).entries(),
    ;

    /// Deletes every entry that `block_hash` has taken: its proposal is committed.
    /// Without such an entry nothing changes, and that is no error.
    fn remove_all_in_block(&mut self, block_hash: &[u8]) -> (done: Result<(), DigitalAssetError>)
        ensures
            !Self::may_fail() ==> done is Ok,
            done is Ok ==> final(self).entries() == spec_remove(old(self).entries(), block_hash@),
            done is Err ==> final(self).entries() == old(self).entries(),
    ;

    /// Clears the marker of every entry that `block_hash` has taken: its proposal
    /// is abandoned. Without such an entry nothing changes, and that is no error.
    fn release_reservations(&mut self, block_hash: &[u8]) -> (done: Result<(), DigitalAssetError>)
        ensures
            !Self::may_fail() ==> done is Ok,
            done is Ok ==> final(self).entries() == spec_release(old(self).entries(), block_hash@),
            done is Err ==> final(self).entries() == old(self).entries(),
    ;

    /// The number of entries without a reservation.
    fn size(&self) -> (size: usize)
        ensures
            size == spec_size(self.entries()),
    ;
}

/// The marker of an entry as the model has it.
pub open spec fn reservation_view(reservation: Option<Vec<u8>>) -> Option<Seq<u8>> {
    match reservation {
        Some(block_hash) => Some(block_hash@),
        None => None,
    }
}

/// An entry as the model has it.
pub open spec fn entry_view(entry: (Instruction, Option<Vec<u8>>)) -> MempoolEntryView {
    MempoolEntryView { instruction: entry.0@, reservation: reservation_view(entry.1) }
}

/// The entries of a vector as the model has them.
pub open spec fn entry_views(entries: Seq<(Instruction, Option<Vec<u8>>)>) -> Seq<MempoolEntryView> {
    entries.map_values(|entry: (Instruction, Option<Vec<u8>>)| entry_view(entry))
}

/// Whether a marker names `block_hash`.
fn reserved_under(reservation: &Option<Vec<u8>>, block_hash: &[u8]) -> (taken: bool)
    ensures
        taken == (reservation_view(*reservation) == Some(block_hash@)),
{
    match reservation {
        Some(owner) => bytes_equal(owner.as_slice(), block_hash),
        None => false,
    }
}

/// The mempool in memory: a vector of entries in submission order.
pub struct ConcreteMempoolService {
    instructions: Vec<(Instruction, Option<Vec<u8>>)>,
}

impl Default for ConcreteMempoolService {
    fn default() -> (mempool: Self)
        ensures
            mempool.entries() == Seq::<MempoolEntryView>::empty(),
    {
        let mempool = ConcreteMempoolService { instructions: Vec::new() };
        mempool
    }
}

impl ConcreteMempoolService {
    /// The entries as they are stored, oldest first.
    pub fn stored(&self) -> (stored: &Vec<(Instruction, Option<Vec<u8>>)>)
        ensures
            entry_views(stored@) == self.entries(),
    {
        &self.instructions
    }
}

impl MempoolService for ConcreteMempoolService {
    closed spec fn entries(&self) -> MempoolView {
        entry_views(self.instructions@)
    }

    open spec fn may_fail() -> bool {
        false
    }

    fn submit_instruction(&mut self, instruction: Instruction) -> (done: Result<(), DigitalAssetError>) {
        self.instructions.push((instruction, None));
        Ok(())
    }

    fn read_block(&self, limit: usize) -> (block: Result<Vec<Instruction>, DigitalAssetError>) {
        let ghost entries = self.entries();
        let mut result: Vec<Instruction> = Vec::new();
        let mut i: usize = 0;
        while i < self.instructions.len() && result.len() < limit
            invariant
                entries == self.entries(),
                i <= self.instructions.len(),
                result.len() <= limit,
                instruction_views(result@) == spec_pending(entries.take(i as int)),
            decreases self.instructions.len() - i,
        {
            proof {
                assert(entries.take(i + 1) =~= entries.take(i as int).push(entries[i as int]));
                lemma_pending_push(entries.take(i as int), entries[i as int]);
            }
            if self.instructions[i].1.is_none() {
                result.push(self.instructions[i].0.clone());
            }
            i += 1;
        }
        proof {
            lemma_pending_prefix(entries, i as int);
            if i == self.instructions.len() {
                assert(entries.take(i as int) =~= entries);
            }
        }
        Ok(result)
    }

    fn reserve_instruction_in_block(&mut self, instruction_hash: &[u8], block_hash: Vec<u8>) -> (done: Result<
        (),
        DigitalAssetError,
    >) {
        let ghost entries = self.entries();
        let mut i: usize = 0;
        while i < self.instructions.len()
            invariant
                entries == self.entries(),
                self.entries() == old(self).entries(),
                i <= self.instructions.len(),
                forall|j: int| 0 <= j < i ==> entries[j].instruction.hash != instruction_hash@,
            decreases self.instructions.len() - i,
        {
            if bytes_equal(self.instructions[i].0.hash(), instruction_hash) {
                proof {
                    lemma_first_with_hash_is(entries, instruction_hash@, i as int);
                }
                self.instructions[i].1 = Some(block_hash);
                return Ok(());
            }
            i += 1;
        }
        Ok(())
    }

    fn remove_all_in_block(&mut self, block_hash: &[u8]) -> (done: Result<(), DigitalAssetError>) {
        let ghost entries = self.entries();
        let mut all: Vec<(Instruction, Option<Vec<u8>>)> = Vec::new();
        std::mem::swap(&mut self.instructions, &mut all);
        let mut kept: Vec<(Instruction, Option<Vec<u8>>)> = Vec::with_capacity(all.len());
        for entry in it: all
            invariant
                entries == entry_views(it.seq()),
                entry_views(kept@) == spec_remove(entries.take(it.index() as int), block_hash@),
        {
            let ghost k = it.index() as int;
            proof {
                assert(entries.take(k + 1) =~= entries.take(k).push(entries[k]));
                lemma_remove_push(entries.take(k), entries[k], block_hash@);
            }
            if !reserved_under(&entry.1, block_hash) {
                kept.push(entry);
            }
        }
        assert(entries.take(entries.len() as int) =~= entries);
        self.instructions = kept;
        Ok(())
    }

    fn release_reservations(&mut self, block_hash: &[u8]) -> (done: Result<(), DigitalAssetError>) {
        let ghost entries = self.entries();
        let mut i: usize = 0;
        while i < self.instructions.len()
            invariant
                entries == old(self).entries(),
                self.instructions.len() == entries.len(),
                i <= self.instructions.len(),
                forall|j: int|
                    0 <= j < i ==> #[trigger] entry_view(self.instructions@[j]) == released_entry(
                        entries[j],
                        block_hash@,
                    ),
                forall|j: int| i <= j < entries.len() ==> #[trigger] entry_view(self.instructions@[j]) == entries[j],
            decreases self.instructions.len() - i,
        {
            assert(entry_view(self.instructions@[i as int]) == entries[i as int]);
            if reserved_under(&self.instructions[i].1, block_hash) {
                self.instructions[i].1 = None;
            }
            i += 1;
        }
        Ok(())
    }

    fn size(&self) -> (size: usize) {
        let ghost entries = self.entries();
        let mut count: usize = 0;
        let mut i: usize = 0;
        while i < self.instructions.len()
            invariant
                entries == self.entries(),
                i <= self.instructions.len(),
                count <= i,
                count == spec_size(entries.take(i as int)),
            decreases self.instructions.len() - i,
        {
            proof {
                assert(entries.take(i + 1) =~= entries.take(i as int).push(entries[i as int]));
                lemma_pending_push(entries.take(i as int), entries[i as int]);
            }
            if self.instructions[i].1.is_none() {
                count += 1;
            }
            i += 1;
        }
        assert(entries.take(i as int) =~= entries);
        count
    }
}

} // verus!
