use vstd::prelude::*;

verus! {

/// Why an operation of the ledger layer failed.
#[derive(Clone, Copy, Debug, PartialEq, Eq, Structural)]
pub enum DigitalAssetError {
    /// The messaging layer could not deliver, authenticate or decode a message.
    TransportFailure,
    /// The asset processor rejected an instruction.
    InstructionRejected,
    /// The initial state of a template could not be prepared.
    TemplateInitFailed,
    /// The unit of work could not yield a state root.
    StateRootUnavailable,
    /// The mempool could not carry out an operation.
    MempoolUnavailable,
}

} // verus!
