use vstd::prelude::*;

verus! {

/// Whether two byte strings hold the same bytes.
pub fn bytes_equal(a: &[u8], b: &[u8]) -> (same: bool)
    ensures
        same == (a@ == b@),
{
    if a.len() != b.len() {
        return false;
    }
    let mut i: usize = 0;
    while i < a.len()
        invariant
            i <= a.len(),
            a.len() == b.len(),
            forall|j: int| 0 <= j < i ==> a@[j] == b@[j],
        decreases a.len() - i,
    {
        if a[i] != b[i] {
            return false;
        }
        i += 1;
    }
    assert(a@ =~= b@);
    true
}

/// A copy of a byte string.
pub fn copy_bytes(bytes: &[u8]) -> (copy: Vec<u8>)
    ensures
        copy@ == bytes@,
{
    let mut copy: Vec<u8> = Vec::with_capacity(bytes.len());
    let mut i: usize = 0;
    while i < bytes.len()
        invariant
            i <= bytes.len(),
            copy@ == bytes@.take(i as int),
        decreases bytes.len() - i,
    {
        copy.push(bytes[i]);
        i += 1;
    }
    copy
}

/// What an instruction is: its content hash, by which it is found again, and the
/// call that the asset processor interprets.
pub struct InstructionView {
    pub hash: Seq<u8>,
    pub payload: Seq<u8>,
}

/// A unit of work that a client submitted. It never changes once made.
#[derive(Debug, PartialEq, Eq)]
pub struct Instruction {
    hash: Vec<u8>,
    payload: Vec<u8>,
}

impl View for Instruction {
    type V = InstructionView;

    closed spec fn view(&self) -> InstructionView {
        InstructionView { hash: self.hash@, payload: self.payload@ }
    }
}

impl Instruction {
    pub fn new(hash: Vec<u8>, payload: Vec<u8>) -> (instruction: Self)
        ensures
            instruction@ == (InstructionView { hash: hash@, payload: payload@ }),
    {
        Instruction { hash, payload }
    }

    pub fn hash(&self) -> (hash: &[u8])
        ensures
            hash@ == self@.hash,
    {
        self.hash.as_slice()
    }

    pub fn payload(&self) -> (payload: &[u8])
        ensures
            payload@ == self@.payload,
    {
        self.payload.as_slice()
    }
}

impl Clone for Instruction {
    fn clone(&self) -> (copy: Self)
        ensures
            copy@ == self@,
    {
        Instruction { hash: copy_bytes(self.hash.as_slice()), payload: copy_bytes(self.payload.as_slice()) }
    }
}

/// The instructions of a sequence, each as what it is.
pub open spec fn instruction_views(instructions: Seq<Instruction>) -> Seq<InstructionView> {
    instructions.map_values(|instruction: Instruction| instruction@)
}

/// The content hashes of a sequence of instructions, in its order.
pub open spec fn instruction_hashes(instructions: Seq<InstructionView>) -> Seq<Seq<u8>> {
    instructions.map_values(|instruction: InstructionView| instruction.hash)
}

/// An ordered batch of instructions.
#[derive(Debug, PartialEq, Eq)]
pub struct InstructionSet {
    instructions: Vec<Instruction>,
}

impl View for InstructionSet {
    type V = Seq<InstructionView>;

    closed spec fn view(&self) -> Seq<InstructionView> {
        instruction_views(self.instructions@)
    }
}

impl InstructionSet {
    pub fn empty() -> (set: Self)
        ensures
            set@ == Seq::<InstructionView>::empty(),
    {
        let set = InstructionSet { instructions: Vec::new() };
        set
    }

    pub fn from_slice(instructions: &[Instruction]) -> (set: Self)
        ensures
            set@ == instruction_views(instructions@),
    {
        let mut copies: Vec<Instruction> = Vec::with_capacity(instructions.len());
        let mut i: usize = 0;
        while i < instructions.len()
            invariant
                i <= instructions.len(),
                copies.len() == i,
                forall|j: int| 0 <= j < i ==> copies@[j]@ == instructions@[j]@,
            decreases instructions.len() - i,
        {
            copies.push(instructions[i].clone());
            i += 1;
        }
        InstructionSet { instructions: copies }
    }

    pub fn instructions(&self) -> (instructions: &[Instruction])
        ensures
            instruction_views(instructions@) == self@,
    {
        self.instructions.as_slice()
    }
}

/// The root of the state tree after a payload.
#[derive(Debug, PartialEq, Eq)]
pub struct StateRoot {
    root: Vec<u8>,
}

impl View for StateRoot {
    type V = Seq<u8>;

    closed spec fn view(&self) -> Seq<u8> {
        self.root@
    }
}

impl StateRoot {
    pub fn new(root: Vec<u8>) -> (state_root: Self)
        ensures
            state_root@ == root@,
    {
        StateRoot { root }
    }

    pub fn as_bytes(&self) -> (bytes: &[u8])
        ensures
            bytes@ == self@,
    {
        self.root.as_slice()
    }
}

impl Clone for StateRoot {
    fn clone(&self) -> (copy: Self)
        ensures
            copy@ == self@,
    {
        StateRoot { root: copy_bytes(self.root.as_slice()) }
    }
}

/// The identifier of a proposed node of the state tree. The ledger layer uses it as
/// a tag on reservations and never looks inside.
#[derive(Debug, PartialEq, Eq)]
pub struct TreeNodeHash(pub Vec<u8>);

impl View for TreeNodeHash {
    type V = Seq<u8>;

    open spec fn view(&self) -> Seq<u8> {
        self.0@
    }
}

impl TreeNodeHash {
    pub fn as_bytes(&self) -> (bytes: &[u8])
        ensures
            bytes@ == self@,
    {
        self.0.as_slice()
    }
}

impl Clone for TreeNodeHash {
    fn clone(&self) -> (copy: Self)
        ensures
            copy@ == self@,
    {
        TreeNodeHash(copy_bytes(self.0.as_slice()))
    }
}

/// What a payload is: its instructions in order, and the state root that it builds
/// on, if it names one.
pub struct PayloadView {
    pub instructions: Seq<InstructionView>,
    pub checkpoint: Option<Seq<u8>>,
}

/// The types that a proposal can carry.
pub trait Payload: Sized {
    /// What the payload holds.
    spec fn contents(&self) -> PayloadView;
}

/// The batch of instructions that one proposal carries. It never changes once made.
#[derive(Debug, PartialEq, Eq)]
pub struct TariDanPayload {
    instruction_set: InstructionSet,
    checkpoint: Option<StateRoot>,
}

/// The bytes of a checkpoint, if there is one.
pub open spec fn checkpoint_view(checkpoint: Option<StateRoot>) -> Option<Seq<u8>> {
    match checkpoint {
        Some(root) => Some(root@),
        None => None,
    }
}

impl View for TariDanPayload {
    type V = PayloadView;

    closed spec fn view(&self) -> PayloadView {
        PayloadView { instructions: self.instruction_set@, checkpoint: checkpoint_view(self.checkpoint) }
    }
}

impl Payload for TariDanPayload {
    open spec fn contents(&self) -> PayloadView {
        self@
    }
}

impl TariDanPayload {
    pub fn new(instruction_set: InstructionSet, checkpoint: Option<StateRoot>) -> (payload: Self)
        ensures
            payload@ == (PayloadView { instructions: instruction_set@, checkpoint: checkpoint_view(checkpoint) }),
    {
        TariDanPayload { instruction_set, checkpoint }
    }

    pub fn instructions(&self) -> (instructions: &[Instruction])
        ensures
            instruction_views(instructions@) == self@.instructions,
    {
        self.instruction_set.instructions()
    }

    pub fn checkpoint(&self) -> (checkpoint: &Option<StateRoot>)
        ensures
            checkpoint_view(*checkpoint) == self@.checkpoint,
    {
        &self.checkpoint
    }
}

/// What a parameter block of a template is.
pub struct TemplateParameterView {
    pub template_id: u32,
    pub template_data_version: u32,
    pub template_data: Seq<u8>,
}

/// One parameter block of a template, as the base layer registered it.
#[derive(Debug, PartialEq, Eq)]
pub struct TemplateParameter {
    pub template_id: u32,
    pub template_data_version: u32,
    pub template_data: Vec<u8>,
}

impl View for TemplateParameter {
    type V = TemplateParameterView;

    open spec fn view(&self) -> TemplateParameterView {
        TemplateParameterView {
            template_id: self.template_id,
            template_data_version: self.template_data_version,
            template_data: self.template_data@,
        }
    }
}

/// What an asset definition is.
pub struct AssetDefinitionView {
    pub public_key: Seq<u8>,
    pub template_parameters: Seq<TemplateParameterView>,
}

/// The asset that a committee manages.
#[derive(Debug, PartialEq, Eq)]
pub struct AssetDefinition {
    pub public_key: Vec<u8>,
    pub template_parameters: Vec<TemplateParameter>,
}

impl View for AssetDefinition {
    type V = AssetDefinitionView;

    open spec fn view(&self) -> AssetDefinitionView {
        AssetDefinitionView {
            public_key: self.public_key@,
            template_parameters: self.template_parameters@.map_values(|parameter: TemplateParameter| parameter@),
        }
    }
}

} // verus!
