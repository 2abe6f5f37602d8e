use vstd::prelude::*;

use crate::digital_assets_error::DigitalAssetError;
use crate::models::{
    copy_bytes, instruction_hashes, instruction_views, AssetDefinition, Instruction, InstructionView,
    Payload, PayloadView, StateRoot, TariDanPayload, TemplateParameter, TreeNodeHash,
};
use crate::services::asset_processor::{step_matches, AssetProcessor};
use crate::services::mempool_model::{spec_remove, spec_reserve_all, MempoolEntryView};
use crate::services::mempool_service::MempoolService;
use crate::storage::{root_matches, StateDbUnitOfWork, StateView};

verus! {

/// The state after executing instructions in their order, each on the state that
/// the one before it left, or the error of the first that fails.
pub open spec fn spec_execute_all<A: AssetProcessor>(
    asset_processor: A,
    instructions: Seq<InstructionView>,
    state: StateView,
) -> Result<StateView, DigitalAssetError>
    decreases instructions.len(),
{
    if instructions.len() == 0 {
        Ok(state)
    } else {
        match asset_processor.spec_execute_instruction(instructions.first(), state) {
            Ok(next) => spec_execute_all::<A>(asset_processor, instructions.drop_first(), next),
            Err(error) => Err(error),
        }
    }
}

/// Whether processing a payload may end in `result` with the mempool as `after`.
///
/// Where an instruction fails, its error comes back and the mempool is as before.
/// Where all of them run, every one is reserved under the node and the root of the
/// state reached comes back, or the error of finding it. A mempool that can fail
/// may also stop the reserving at any instruction: then an error comes back and
/// the instructions before that one stay reserved.
pub open spec fn processed<A: AssetProcessor, U: StateDbUnitOfWork>(
    asset_processor: A,
    mempool_may_fail: bool,
    before: Seq<MempoolEntryView>,
    node_hash: Seq<u8>,
    payload: PayloadView,
    state: StateView,
    result: Result<StateRoot, DigitalAssetError>,
    after: Seq<MempoolEntryView>,
) -> bool {
    let hashes = instruction_hashes(payload.instructions);
    match spec_execute_all::<A>(asset_processor, payload.instructions, state) {
        Err(error) => result == Err::<StateRoot, DigitalAssetError>(error) && after == before,
        Ok(reached) => {
            ||| {
                &&& after == spec_reserve_all(before, hashes, node_hash)
                &&& root_matches(result, U::spec_root(reached))
            }
            ||| {
                &&& mempool_may_fail
                &&& result is Err
                &&& exists|k: int|
                    0 <= k < hashes.len() && after == spec_reserve_all(before, #[trigger] hashes.take(k), node_hash)
            }
        },
    }
}

/// Execution ends at the first instruction that fails.
///
/// Where the first `k` instructions run and lead to the state `reached`, and the
/// next one fails on that state, executing them all ends in the error of that one.
pub proof fn law_execution_stops_at_first_failure<A: AssetProcessor>(
    asset_processor: A,
    instructions: Seq<InstructionView>,
    state: StateView,
    k: int,
    reached: StateView,
)
    requires
        0 <= k < instructions.len(),
        spec_execute_all::<A>(asset_processor, instructions.take(k), state) == Ok::<
            StateView,
            DigitalAssetError,
        >(reached),
        asset_processor.spec_execute_instruction(instructions[k], reached) is Err,
    ensures
        spec_execute_all::<A>(asset_processor, instructions, state) == Err::<StateView, DigitalAssetError>(
            asset_processor.spec_execute_instruction(instructions[k], reached)->Err_0,
        ),
    decreases k,
{
    if k > 0 {
        // The first instruction runs, and the rest is the same question one place on.
        assert(instructions.take(k).first() == instructions.first());
        let next = asset_processor.spec_execute_instruction(instructions.first(), state)->Ok_0;
        assert(instructions.take(k).drop_first() =~= instructions.drop_first().take(k - 1));
        law_execution_stops_at_first_failure::<A>(
            asset_processor,
            instructions.drop_first(),
            next,
            k - 1,
            reached,
        );
    }
}

/// A payload is executed as a whole or not at all, as far as the mempool goes.
///
/// Where one of the instructions fails, processing ends in its error and the
/// mempool is as it was: nothing of the payload is reserved.
pub proof fn law_failed_execution_reserves_nothing<A: AssetProcessor, U: StateDbUnitOfWork>(
    asset_processor: A,
    mempool_may_fail: bool,
    before: Seq<MempoolEntryView>,
    node_hash: Seq<u8>,
    payload: PayloadView,
    state: StateView,
    result: Result<StateRoot, DigitalAssetError>,
    after: Seq<MempoolEntryView>,
)
    requires
        processed::<A, U>(asset_processor, mempool_may_fail, before, node_hash, payload, state, result, after),
        spec_execute_all::<A>(asset_processor, payload.instructions, state) is Err,
    ensures
        after == before,
        result == Err::<StateRoot, DigitalAssetError>(
            spec_execute_all::<A>(asset_processor, payload.instructions, state)->Err_0,
        ),
{
}

/// The root depends on the asset processor, the payload and the state alone.
///
/// Process one payload twice, each time from a unit of work with the same state:
/// forks of one tree. The mempools and the nodes may differ. Where both attempts
/// yield a root, the roots have the same bytes. With mempools that cannot fail,
/// both attempts end alike: in the same error, or in roots of the same bytes.
pub proof fn law_root_is_deterministic<A: AssetProcessor, U: StateDbUnitOfWork>(
    asset_processor: A,
    payload: PayloadView,
    state: StateView,
    first_may_fail: bool,
    first_before: Seq<MempoolEntryView>,
    first_node: Seq<u8>,
    first_result: Result<StateRoot, DigitalAssetError>,
    first_after: Seq<MempoolEntryView>,
    second_may_fail: bool,
    second_before: Seq<MempoolEntryView>,
    second_node: Seq<u8>,
    second_result: Result<StateRoot, DigitalAssetError>,
    second_after: Seq<MempoolEntryView>,
)
    requires
        processed::<A, U>(
            asset_processor,
            first_may_fail,
            first_before,
            first_node,
            payload,
            state,
            first_result,
            first_after,
        ),
        processed::<A, U>(
            asset_processor,
            second_may_fail,
            second_before,
            second_node,
            payload,
            state,
            second_result,
            second_after,
        ),
    ensures
        first_result is Ok && second_result is Ok ==> first_result->Ok_0@ == second_result->Ok_0@,
        !first_may_fail && !second_may_fail ==> (first_result is Ok <==> second_result is Ok),
        !first_may_fail && !second_may_fail && first_result is Err ==> first_result == second_result,
{
}

/// The state transition of the ledger layer, for a payload of type `TPayload`.
pub trait PayloadProcessor<TPayload: Payload> {
    /// The kind of asset processor that executes the instructions.
    type Executor: AssetProcessor;

    /// The asset processor that executes the instructions.
    spec fn executor(&self) -> Self::Executor;

    /// The entries of the mempool whose books the processor keeps.
    spec fn mempool_entries(&self) -> Seq<MempoolEntryView>;

    /// Whether an operation of the mempool can fail.
    spec fn mempool_may_fail(&self) -> bool;

    /// Prepares the initial state of a template inside a unit of work, before any
    /// instruction for it runs. It is the asset processor's work, and so is the
    /// outcome.
    fn init_template<TUnitOfWork: StateDbUnitOfWork>(
        &self,
        template_parameter: &TemplateParameter,
        asset_definition: &AssetDefinition,
        state_db: &mut TUnitOfWork,
    ) -> (done: Result<(), DigitalAssetError>)
        ensures
            step_matches(
                done,
                final(state_db).state(),
                self.executor().spec_init_template(
                    template_parameter@,
                    asset_definition@,
                    old(state_db).state(),
                ),
            ),
    ;

    /// Executes the instructions of a payload in their order against a unit of
    /// work, then reserves each of them under `node_hash`, then yields the root of
    /// the state reached. Where an instruction fails nothing is reserved. What
    /// was reserved stays so when the root cannot be found: the caller releases
    /// the node.
    fn process_payload<TUnitOfWork: StateDbUnitOfWork>(
        &mut self,
        node_hash: TreeNodeHash,
        payload: &TPayload,
        unit_of_work: TUnitOfWork,
    ) -> (root: Result<StateRoot, DigitalAssetError>)
        ensures
            final(self).executor() == old(self).executor(),
            final(self).mempool_may_fail() == old(self).mempool_may_fail(),
            processed::<Self::Executor, TUnitOfWork>(
                old(self).executor(),
                old(self).mempool_may_fail(),
                old(self).mempool_entries(),
                node_hash@,
                payload.contents(),
                unit_of_work.state(),
                root,
                final(self).mempool_entries(),
            ),
    ;

    /// Deletes what was reserved under a node that has committed.
    fn remove_payload_for_node(&mut self, node_hash: &TreeNodeHash) -> (done: Result<(), DigitalAssetError>)
        ensures
            final(self).executor() == old(self).executor(),
            final(self).mempool_may_fail() == old(self).mempool_may_fail(),
            !old(self).mempool_may_fail() ==> done is Ok,
            done is Ok ==> final(self).mempool_entries() == spec_remove(old(self).mempool_entries(), node_hash@),
            done is Err ==> final(self).mempool_entries() == old(self).mempool_entries(),
    ;
}

/// Executes instructions in their order against a unit of work and stops at the
/// first that fails.
pub fn execute_instructions<A: AssetProcessor, U: StateDbUnitOfWork>(
    asset_processor: &A,
    instructions: &[Instruction],
    state_tx: &mut U,
) -> (done: Result<(), DigitalAssetError>)
    ensures
        step_matches(
            done,
            final(state_tx).state(),
            spec_execute_all::<A>(*asset_processor, instruction_views(instructions@), old(state_tx).state()),
        ),
{
    let ghost all = instruction_views(instructions@);
    let ghost expected = spec_execute_all::<A>(*asset_processor, all, state_tx.state());
    let mut i: usize = 0;
    assert(all.skip(0) =~= all);
    while i < instructions.len()
        invariant
            all == instruction_views(instructions@),
            i <= instructions.len(),
            expected == spec_execute_all::<A>(*asset_processor, all, old(state_tx).state()),
            expected == spec_execute_all::<A>(*asset_processor, all.skip(i as int), state_tx.state()),
        decreases instructions.len() - i,
    {
        proof {
            assert(all.skip(i as int).drop_first() =~= all.skip(i + 1));
        }
        match asset_processor.execute_instruction(&instructions[i], state_tx) {
            Ok(()) => {},
            Err(error) => {
                return Err(error);
            },
        }
        i += 1;
    }
    Ok(())
}

/// Reserves the instructions in their order under a node and stops where the
/// mempool fails.
pub fn reserve_instructions<M: MempoolService>(
    mempool: &mut M,
    instructions: &[Instruction],
    node_hash: &TreeNodeHash,
) -> (done: Result<(), DigitalAssetError>)
    ensures
        !M::may_fail() ==> done is Ok,
        done is Ok ==> final(mempool).entries() == spec_reserve_all(
            old(mempool).entries(),
            instruction_hashes(instruction_views(instructions@)),
            node_hash@,
        ),
        done is Err ==> exists|k: int|
            0 <= k < instructions.len() && final(mempool).entries() == spec_reserve_all(
                old(mempool).entries(),
                #[trigger] instruction_hashes(instruction_views(instructions@)).take(k),
                node_hash@,
            ),
{
    let ghost before = mempool.entries();
    let ghost hashes = instruction_hashes(instruction_views(instructions@));
    let mut i: usize = 0;
    while i < instructions.len()
        invariant
            hashes == instruction_hashes(instruction_views(instructions@)),
            before == old(mempool).entries(),
            i <= instructions.len(),
            mempool.entries() == spec_reserve_all(before, hashes.take(i as int), node_hash@),
        decreases instructions.len() - i,
    {
        proof {
            assert(hashes.take(i + 1).drop_last() =~= hashes.take(i as int));
        }
        match mempool.reserve_instruction_in_block(instructions[i].hash(), copy_bytes(node_hash.as_bytes())) {
            Ok(()) => {},
            Err(error) => {
                return Err(error);
            },
        }
        i += 1;
    }
    assert(hashes.take(i as int) =~= hashes);
    Ok(())
}

/// The payload processor of the ledger layer: it runs the instructions through an
/// asset processor and keeps the books of the mempool.
pub struct TariDanPayloadProcessor<TAssetProcessor: AssetProcessor, TMempoolService: MempoolService> {
    mempool: TMempoolService,
    asset_processor: TAssetProcessor,
}

impl<TAssetProcessor: AssetProcessor, TMempoolService: MempoolService> TariDanPayloadProcessor<
    TAssetProcessor,
    TMempoolService,
> {
    /// The mempool whose books this processor keeps.
    pub closed spec fn spec_mempool(&self) -> TMempoolService {
        self.mempool
    }

    /// The asset processor that executes the instructions.
    pub closed spec fn spec_asset_processor(&self) -> TAssetProcessor {
        self.asset_processor
    }

    pub fn new(asset_processor: TAssetProcessor, mempool: TMempoolService) -> (processor: Self)
        ensures
            processor.spec_asset_processor() == asset_processor,
            processor.spec_mempool() == mempool,
    {
        Self { asset_processor, mempool }
    }

    pub fn mempool(&self) -> (mempool: &TMempoolService)
        ensures
            *mempool == self.spec_mempool(),
    {
        &self.mempool
    }

    /// Gives the asset processor and the mempool back.
    pub fn into_parts(self) -> (parts: (TAssetProcessor, TMempoolService))
        ensures
            parts.0 == self.spec_asset_processor(),
            parts.1 == self.spec_mempool(),
    {
        (self.asset_processor, self.mempool)
    }
}

impl<TAssetProcessor: AssetProcessor, TMempoolService: MempoolService> PayloadProcessor<
    TariDanPayload,
> for TariDanPayloadProcessor<TAssetProcessor, TMempoolService> {
    type Executor = TAssetProcessor;

    open spec fn executor(&self) -> TAssetProcessor {
        self.spec_asset_processor()
    }

    open spec fn mempool_entries(&self) -> Seq<MempoolEntryView> {
        self.spec_mempool().entries()
    }

    open spec fn mempool_may_fail(&self) -> bool {
        TMempoolService::may_fail()
    }

    fn init_template<TUnitOfWork: StateDbUnitOfWork>(
        &self,
        template_parameter: &TemplateParameter,
        asset_definition: &AssetDefinition,
        state_db: &mut TUnitOfWork,
    ) -> (done: Result<(), DigitalAssetError>) {
        self.asset_processor.init_template(template_parameter, asset_definition, state_db)
    }

    fn process_payload<TUnitOfWork: StateDbUnitOfWork>(
        &mut self,
        node_hash: TreeNodeHash,
        payload: &TariDanPayload,
        state_tx: TUnitOfWork,
    ) -> (root: Result<StateRoot, DigitalAssetError>) {
        let mut state_tx = state_tx;
        let instructions = payload.instructions();
        match execute_instructions(&self.asset_processor, instructions, &mut state_tx) {
            Ok(()) => {},
            Err(error) => {
                return Err(error);
            },
        }
        match reserve_instructions(&mut self.mempool, instructions, &node_hash) {
            Ok(()) => {},
            Err(error) => {
                return Err(error);
            },
        }
        state_tx.calculate_root()
    }

    fn remove_payload_for_node(&mut self, node_hash: &TreeNodeHash) -> (done: Result<(), DigitalAssetError>) {
        self.mempool.remove_all_in_block(node_hash.as_bytes())
    }
}

} // verus!
