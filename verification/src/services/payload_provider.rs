use vstd::prelude::*;

use crate::digital_assets_error::DigitalAssetError;
use crate::models::{InstructionSet, InstructionView, Payload, PayloadView, TariDanPayload};
use crate::services::mempool_model::{spec_read_block, spec_size, MempoolEntryView};
use crate::services::mempool_service::MempoolService;

verus! {

/// The number of instructions that a payload holds at most, unless the provider is
/// made with another.
pub const DEFAULT_BATCH_LIMIT: usize = 100;

/// Makes the payloads that a proposer proposes.
pub trait PayloadProvider<TPayload: Payload> {
    /// The entries of the mempool that the payloads are made from.
    spec fn mempool_entries(&self) -> Seq<MempoolEntryView>;

    /// The number of instructions that a payload holds at most.
    spec fn batch_limit(&self) -> nat;

    /// Whether reading the mempool can fail.
    spec fn mempool_may_fail(&self) -> bool;

    /// A payload of the instructions that wait, oldest first, up to the limit of
    /// the provider, and without a checkpoint. The mempool is left as it is.
    fn create_payload(&self) -> (payload: Result<TPayload, DigitalAssetError>)
        ensures
            !self.mempool_may_fail() ==> payload is Ok,
            payload is Ok ==> payload->Ok_0.contents() == (PayloadView {
                instructions: spec_read_block(self.mempool_entries(), self.batch_limit()),
                checkpoint: None,
            }),
            payload is Ok ==> payload->Ok_0.contents().instructions.len() <= self.batch_limit(),
    ;

    /// The payload that starts a chain: no instructions and no checkpoint, the
    /// same on every node and at every call.
    fn create_genesis_payload(&self) -> (payload: TPayload)
        ensures
            payload.contents() == (PayloadView { instructions: Seq::<InstructionView>::empty(), checkpoint: None }),
    ;

    /// The number of instructions that wait.
    fn get_payload_queue(&self) -> (depth: usize)
        ensures
            depth == spec_size(self.mempool_entries()),
    ;
}

/// Makes payloads out of the instructions of a mempool. It reserves nothing: two
/// proposers may be handed the same instructions, and the reservation made when a
/// payload is processed settles who has them.
pub struct TariDanPayloadProvider<TMempoolService: MempoolService> {
    mempool: TMempoolService,
    limit: usize,
}

impl<TMempoolService: MempoolService> TariDanPayloadProvider<TMempoolService> {
    /// The mempool that the payloads are made from.
    pub closed spec fn spec_mempool(&self) -> TMempoolService {
        self.mempool
    }

    /// The number of instructions that a payload holds at most.
    pub closed spec fn spec_limit(&self) -> usize {
        self.limit
    }

    pub fn new(mempool: TMempoolService) -> (provider: Self)
        ensures
            provider.spec_mempool() == mempool,
            provider.spec_limit() == DEFAULT_BATCH_LIMIT,
    {
        Self { mempool, limit: DEFAULT_BATCH_LIMIT }
    }

    /// A provider whose payloads hold `limit` instructions at most.
    pub fn with_limit(mempool: TMempoolService, limit: usize) -> (provider: Self)
        ensures
            provider.spec_mempool() == mempool,
            provider.spec_limit() == limit,
    {
        Self { mempool, limit }
    }

    pub fn mempool(&self) -> (mempool: &TMempoolService)
        ensures
            *mempool == self.spec_mempool(),
    {
        &self.mempool
    }

    /// Gives the mempool back.
    pub fn into_mempool(self) -> (mempool: TMempoolService)
        ensures
            mempool == self.spec_mempool(),
    {
        self.mempool
    }
}

impl<TMempoolService: MempoolService> PayloadProvider<TariDanPayload> for TariDanPayloadProvider<
    TMempoolService,
> {
    open spec fn mempool_entries(&self) -> Seq<MempoolEntryView> {
        self.spec_mempool().entries()
    }

    open spec fn batch_limit(&self) -> nat {
        self.spec_limit() as nat
    }

    open spec fn mempool_may_fail(&self) -> bool {
        TMempoolService::may_fail()
    }

    fn create_payload(&self) -> (payload: Result<TariDanPayload, DigitalAssetError>) {
        match self.mempool.read_block(self.limit) {
            Ok(instructions) => {
                let instruction_set = InstructionSet::from_slice(instructions.as_slice());
                Ok(TariDanPayload::new(instruction_set, None))
            },
            Err(error) => Err(error),
        }
    }

    fn create_genesis_payload(&self) -> (payload: TariDanPayload) {
        TariDanPayload::new(InstructionSet::empty(), None)
    }

    fn get_payload_queue(&self) -> (depth: usize) {
        self.mempool.size()
    }
}

} // verus!
