use std::cell::RefCell;
use std::collections::BTreeMap;

use tari_dan_core::digital_assets_error::DigitalAssetError;
use tari_dan_core::models::{
    AssetDefinition, AssetDefinitionView, Instruction, InstructionSet, InstructionView, StateRoot,
    TariDanPayload, TemplateParameter, TemplateParameterView, TreeNodeHash,
};
use tari_dan_core::services::payload_processor::{execute_instructions, reserve_instructions};
use tari_dan_core::services::{
    AssetProcessor, ConcreteMempoolService, MempoolService, PayloadProcessor, PayloadProvider,
    TariDanPayloadProcessor, TariDanPayloadProvider,
};
use tari_dan_core::storage::{RootOutcome, StateDbUnitOfWork, StateView};

/// A unit of work that keeps its state in memory. Its root lists the keys and the
/// values in the order of the keys, each with its length before it. The trait's
/// two model functions are there for proofs and are never run.
#[derive(Clone)]
struct MemoryTree {
    values: BTreeMap<Vec<u8>, Vec<u8>>,
    broken: bool,
}

impl MemoryTree {
    fn empty() -> Self {
        MemoryTree { values: BTreeMap::new(), broken: false }
    }

    fn broken() -> Self {
        MemoryTree { values: BTreeMap::new(), broken: true }
    }
}

impl StateDbUnitOfWork for MemoryTree {
    fn state(&self) -> StateView {
        unreachable!()
    }

    fn spec_root(_state: StateView) -> RootOutcome {
        unreachable!()
    }

    fn set_value(&mut self, key: Vec<u8>, value: Vec<u8>) {
        self.values.insert(key, value);
    }

    fn get_value(&self, key: &[u8]) -> Option<Vec<u8>> {
        self.values.get(key).cloned()
    }

    fn calculate_root(&self) -> Result<StateRoot, DigitalAssetError> {
        if self.broken {
            return Err(DigitalAssetError::StateRootUnavailable);
        }
        let mut root: Vec<u8> = vec![];
        for (key, value) in &self.values {
            root.push(key.len() as u8);
            root.extend_from_slice(key);
            root.push(value.len() as u8);
            root.extend_from_slice(value);
        }
        Ok(StateRoot::new(root))
    }
}

/// An asset processor that writes the hash of each instruction it runs at the end
/// of the value under the key `log`, and rejects the instructions with the hashes
/// it was told. It also keeps a list of all that it was handed. The trait's two
/// model functions are there for proofs and are never run.
struct Journal {
    rejected: Vec<Vec<u8>>,
    templates: Result<(), DigitalAssetError>,
    handed: RefCell<Vec<Vec<u8>>>,
}

impl Journal {
    fn accepting() -> Self {
        Journal { rejected: vec![], templates: Ok(()), handed: RefCell::new(vec![]) }
    }

    fn rejecting(hash: Vec<u8>) -> Self {
        Journal { rejected: vec![hash], templates: Ok(()), handed: RefCell::new(vec![]) }
    }
}

impl AssetProcessor for Journal {
    fn spec_init_template(
        &self,
        _template_parameter: TemplateParameterView,
        _asset_definition: AssetDefinitionView,
        _state: StateView,
    ) -> Result<StateView, DigitalAssetError> {
        unreachable!()
    }

    fn spec_execute_instruction(
        &self,
        _instruction: InstructionView,
        _state: StateView,
    ) -> Result<StateView, DigitalAssetError> {
        unreachable!()
    }

    fn init_template<U: StateDbUnitOfWork>(
        &self,
        template_parameter: &TemplateParameter,
        _asset_definition: &AssetDefinition,
        state_db: &mut U,
    ) -> Result<(), DigitalAssetError> {
        self.templates?;
        state_db.set_value(
            template_parameter.template_id.to_be_bytes().to_vec(),
            template_parameter.template_data.clone(),
        );
        Ok(())
    }

    fn execute_instruction<U: StateDbUnitOfWork>(
        &self,
        instruction: &Instruction,
        db: &mut U,
    ) -> Result<(), DigitalAssetError> {
        self.handed.borrow_mut().push(instruction.hash().to_vec());
        if self.rejected.iter().any(|hash| hash.as_slice() == instruction.hash()) {
            return Err(DigitalAssetError::InstructionRejected);
        }
        let mut log: Vec<u8> = db.get_value(b"log").unwrap_or_default();
        log.extend_from_slice(instruction.hash());
        db.set_value(b"log".to_vec(), log);
        Ok(())
    }
}

/// The root of a tree that holds the log of these instructions and nothing else.
fn root_of_log(tags: &[u8]) -> StateRoot {
    let mut root: Vec<u8> = vec![3, b'l', b'o', b'g', tags.len() as u8];
    root.extend_from_slice(tags);
    StateRoot::new(root)
}

fn instruction(tag: u8) -> Instruction {
    Instruction::new(vec![tag], vec![0xC0, tag])
}

fn mempool_of(count: u8) -> ConcreteMempoolService {
    let mut mempool = ConcreteMempoolService::default();
    let mut tag: u8 = 1;
    while tag <= count {
        assert_eq!(mempool.submit_instruction(instruction(tag)), Ok(()));
        tag += 1;
    }
    mempool
}

fn payload_of(tags: &[u8]) -> TariDanPayload {
    let instructions: Vec<Instruction> = tags.iter().map(|tag| instruction(*tag)).collect();
    TariDanPayload::new(InstructionSet::from_slice(&instructions), None)
}

fn markers(mempool: &ConcreteMempoolService) -> Vec<Option<Vec<u8>>> {
    mempool.stored().iter().map(|entry| entry.1.clone()).collect()
}

fn hashes(mempool: &ConcreteMempoolService) -> Vec<Vec<u8>> {
    mempool.stored().iter().map(|entry| entry.0.hash().to_vec()).collect()
}

#[test]
fn submit_five_propose_three_process_and_commit() {
    let provider = TariDanPayloadProvider::with_limit(mempool_of(5), 3);
    let payload = provider.create_payload().unwrap();
    assert_eq!(payload.instructions(), &[instruction(1), instruction(2), instruction(3)]);

    let node = TreeNodeHash(vec![0xAB; 32]);
    let mut processor = TariDanPayloadProcessor::new(Journal::accepting(), provider.into_mempool());
    let root = processor.process_payload(node.clone(), &payload, MemoryTree::empty());
    assert_eq!(root, Ok(root_of_log(&[1, 2, 3])));

    let marker = Some(vec![0xAB; 32]);
    assert_eq!(markers(processor.mempool()), vec![marker.clone(), marker.clone(), marker, None, None]);
    assert_eq!(processor.mempool().size(), 2);

    assert_eq!(processor.remove_payload_for_node(&node), Ok(()));
    assert_eq!(hashes(processor.mempool()), vec![vec![4], vec![5]]);
    assert_eq!(markers(processor.mempool()), vec![None, None]);
    assert_eq!(processor.mempool().stored()[0].0, instruction(4));
    assert_eq!(processor.mempool().stored()[1].0, instruction(5));
}

#[test]
fn failure_of_the_second_of_three_reserves_nothing() {
    let mut processor = TariDanPayloadProcessor::new(Journal::rejecting(vec![2]), mempool_of(4));
    let root = processor.process_payload(TreeNodeHash(vec![1]), &payload_of(&[1, 2, 3]), MemoryTree::empty());
    assert_eq!(root, Err(DigitalAssetError::InstructionRejected));
    assert_eq!(markers(processor.mempool()), vec![None, None, None, None]);
    assert_eq!(processor.mempool().size(), 4);
}

#[test]
fn failure_of_the_first_or_the_last_reserves_nothing() {
    let mut first = TariDanPayloadProcessor::new(Journal::rejecting(vec![1]), mempool_of(3));
    assert_eq!(
        first.process_payload(TreeNodeHash(vec![1]), &payload_of(&[1, 2, 3]), MemoryTree::empty()),
        Err(DigitalAssetError::InstructionRejected)
    );
    assert_eq!(markers(first.mempool()), vec![None, None, None]);
    let mut last = TariDanPayloadProcessor::new(Journal::rejecting(vec![3]), mempool_of(3));
    assert_eq!(
        last.process_payload(TreeNodeHash(vec![1]), &payload_of(&[1, 2, 3]), MemoryTree::empty()),
        Err(DigitalAssetError::InstructionRejected)
    );
    assert_eq!(markers(last.mempool()), vec![None, None, None]);
}

#[test]
fn execution_stops_at_the_first_failure() {
    let processor = Journal::rejecting(vec![2]);
    let instructions = [instruction(1), instruction(2), instruction(3)];
    let mut tree = MemoryTree::empty();
    assert_eq!(
        execute_instructions(&processor, &instructions, &mut tree),
        Err(DigitalAssetError::InstructionRejected)
    );
    assert_eq!(processor.handed.into_inner(), vec![vec![1], vec![2]]);
}

#[test]
fn instructions_run_in_payload_order_each_on_the_state_of_the_one_before() {
    let processor = Journal::accepting();
    let instructions = [instruction(3), instruction(1), instruction(2), instruction(1)];
    let mut tree = MemoryTree::empty();
    assert_eq!(execute_instructions(&processor, &instructions, &mut tree), Ok(()));
    assert_eq!(tree.get_value(b"log"), Some(vec![3, 1, 2, 1]));
    assert_eq!(tree.calculate_root(), Ok(root_of_log(&[3, 1, 2, 1])));
    assert_eq!(processor.handed.into_inner(), vec![vec![3], vec![1], vec![2], vec![1]]);
}

#[test]
fn execution_of_no_instruction_leaves_the_state_alone() {
    let mut tree = MemoryTree::empty();
    tree.set_value(vec![1], vec![2]);
    assert_eq!(execute_instructions(&Journal::accepting(), &[], &mut tree), Ok(()));
    assert_eq!(tree.values.len(), 1);
    assert_eq!(tree.get_value(&[1]), Some(vec![2]));
}

#[test]
fn reserve_instructions_marks_each_under_the_node() {
    let mut mempool = mempool_of(4);
    let node = TreeNodeHash(vec![8, 9]);
    assert_eq!(reserve_instructions(&mut mempool, &[instruction(4), instruction(2)], &node), Ok(()));
    assert_eq!(markers(&mempool), vec![None, Some(vec![8, 9]), None, Some(vec![8, 9])]);
    assert_eq!(reserve_instructions(&mut mempool, &[], &TreeNodeHash(vec![1])), Ok(()));
    assert_eq!(markers(&mempool), vec![None, Some(vec![8, 9]), None, Some(vec![8, 9])]);
}

#[test]
fn process_payload_ignores_instructions_that_the_mempool_lacks() {
    let mut processor = TariDanPayloadProcessor::new(Journal::accepting(), mempool_of(2));
    let root = processor.process_payload(TreeNodeHash(vec![1]), &payload_of(&[2, 7]), MemoryTree::empty());
    assert_eq!(root, Ok(root_of_log(&[2, 7])));
    assert_eq!(markers(processor.mempool()), vec![None, Some(vec![1])]);
}

#[test]
fn process_of_an_empty_payload_yields_the_root_and_reserves_nothing() {
    let mut processor = TariDanPayloadProcessor::new(Journal::accepting(), mempool_of(2));
    let mut tree = MemoryTree::empty();
    tree.set_value(vec![5], vec![6, 7]);
    let root = processor.process_payload(TreeNodeHash(vec![1]), &payload_of(&[]), tree);
    assert_eq!(root, Ok(StateRoot::new(vec![1, 5, 2, 6, 7])));
    assert_eq!(markers(processor.mempool()), vec![None, None]);
}

#[test]
fn failure_of_the_root_comes_back_and_the_reservations_stay() {
    let mut processor = TariDanPayloadProcessor::new(Journal::accepting(), mempool_of(3));
    let root = processor.process_payload(TreeNodeHash(vec![6]), &payload_of(&[1, 3]), MemoryTree::broken());
    assert_eq!(root, Err(DigitalAssetError::StateRootUnavailable));
    assert_eq!(markers(processor.mempool()), vec![Some(vec![6]), None, Some(vec![6])]);
}

#[test]
fn forks_with_the_same_state_yield_the_same_root() {
    let payload = payload_of(&[1, 2]);
    let mut tree = MemoryTree::empty();
    tree.set_value(vec![0], vec![4, 2]);
    let fork = tree.clone();
    let mut one = TariDanPayloadProcessor::new(Journal::accepting(), mempool_of(2));
    let mut other = TariDanPayloadProcessor::new(Journal::accepting(), mempool_of(5));
    let first = one.process_payload(TreeNodeHash(vec![1]), &payload, tree);
    let second = other.process_payload(TreeNodeHash(vec![2]), &payload, fork);
    assert_eq!(first, Ok(StateRoot::new(vec![1, 0, 2, 4, 2, 3, b'l', b'o', b'g', 2, 1, 2])));
    assert_eq!(first, second);
}

#[test]
fn a_failed_attempt_leaves_the_fork_of_another_attempt_alone() {
    let tree = MemoryTree::empty();
    let fork = tree.clone();
    let mut failing = TariDanPayloadProcessor::new(Journal::rejecting(vec![2]), mempool_of(3));
    let mut passing = TariDanPayloadProcessor::new(Journal::accepting(), mempool_of(3));
    assert!(failing.process_payload(TreeNodeHash(vec![1]), &payload_of(&[1, 2]), tree).is_err());
    assert_eq!(
        passing.process_payload(TreeNodeHash(vec![1]), &payload_of(&[3]), fork),
        Ok(root_of_log(&[3]))
    );
}

#[test]
fn abandoned_payload_returns_to_the_pending_pool() {
    let mut processor = TariDanPayloadProcessor::new(Journal::accepting(), mempool_of(3));
    let node = TreeNodeHash(vec![3, 3]);
    assert!(processor.process_payload(node.clone(), &payload_of(&[1, 2]), MemoryTree::empty()).is_ok());
    assert_eq!(processor.mempool().size(), 1);
    let (_, mut mempool) = processor.into_parts();
    assert_eq!(mempool.release_reservations(node.as_bytes()), Ok(()));
    assert_eq!(markers(&mempool), vec![None, None, None]);
    let provider = TariDanPayloadProvider::new(mempool);
    assert_eq!(provider.get_payload_queue(), 3);
    assert_eq!(provider.create_payload().unwrap(), payload_of(&[1, 2, 3]));
}

#[test]
fn mempool_goes_from_provider_to_processor_and_back() {
    let provider = TariDanPayloadProvider::with_limit(mempool_of(4), 2);
    let first = provider.create_payload().unwrap();
    assert_eq!(first, payload_of(&[1, 2]));
    let mut processor = TariDanPayloadProcessor::new(Journal::accepting(), provider.into_mempool());
    assert!(processor.process_payload(TreeNodeHash(vec![1]), &first, MemoryTree::empty()).is_ok());
    let (asset_processor, mempool) = processor.into_parts();
    assert_eq!(asset_processor.handed.into_inner(), vec![vec![1], vec![2]]);
    let provider = TariDanPayloadProvider::with_limit(mempool, 2);
    assert_eq!(provider.get_payload_queue(), 2);
    assert_eq!(provider.create_payload().unwrap(), payload_of(&[3, 4]));
}

#[test]
fn remove_payload_for_node_twice_is_safe() {
    let mut processor = TariDanPayloadProcessor::new(Journal::accepting(), mempool_of(3));
    let node = TreeNodeHash(vec![9]);
    assert!(processor.process_payload(node.clone(), &payload_of(&[2]), MemoryTree::empty()).is_ok());
    assert_eq!(processor.remove_payload_for_node(&node), Ok(()));
    assert_eq!(processor.remove_payload_for_node(&node), Ok(()));
    assert_eq!(processor.remove_payload_for_node(&TreeNodeHash(vec![])), Ok(()));
    assert_eq!(hashes(processor.mempool()), vec![vec![1], vec![3]]);
}

#[test]
fn init_template_hands_back_what_the_asset_processor_says() {
    let parameter = TemplateParameter { template_id: 1, template_data_version: 1, template_data: vec![7, 7] };
    let asset = AssetDefinition { public_key: vec![1; 32], template_parameters: vec![] };
    let good = TariDanPayloadProcessor::new(Journal::accepting(), ConcreteMempoolService::default());
    let mut tree = MemoryTree::empty();
    assert_eq!(good.init_template(&parameter, &asset, &mut tree), Ok(()));
    assert_eq!(tree.get_value(&[0, 0, 0, 1]), Some(vec![7, 7]));
    let bad = TariDanPayloadProcessor::new(
        Journal { rejected: vec![], templates: Err(DigitalAssetError::TemplateInitFailed), handed: RefCell::new(vec![]) },
        ConcreteMempoolService::default(),
    );
    let mut untouched = MemoryTree::empty();
    assert_eq!(
        bad.init_template(&parameter, &asset, &mut untouched),
        Err(DigitalAssetError::TemplateInitFailed)
    );
    assert!(untouched.values.is_empty());
}
