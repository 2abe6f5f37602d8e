use vstd::prelude::*;

use crate::digital_assets_error::DigitalAssetError;
use crate::models::{
    AssetDefinition, AssetDefinitionView, Instruction, InstructionView, TemplateParameter, TemplateParameterView,
};
use crate::storage::{StateDbUnitOfWork, StateView};

verus! {

/// Whether a step that ended in `result` and left the state `reached` is the
/// outcome `expected`: the same error, or success with the same state.
pub open spec fn step_matches(
    result: Result<(), DigitalAssetError>,
    reached: StateView,
    expected: Result<StateView, DigitalAssetError>,
) -> bool {
    match expected {
        Ok(state) => result is Ok && reached == state,
        Err(error) => result == Err::<(), DigitalAssetError>(error),
    }
}

/// Executes single instructions against a unit of work. What one instruction does
/// is the business of the templates. The ledger layer asks one thing of it: the
/// outcome depends on the instruction and on the contents of the state alone, so
/// that every replica reaches the same state.
pub trait AssetProcessor: Sized {
    /// The state that preparing a template leads to, or why it fails.
    spec fn spec_init_template(
        &self,
        template_parameter: TemplateParameterView,
        asset_definition: AssetDefinitionView,
        state: StateView,
    ) -> Result<StateView, DigitalAssetError>;

    /// The state that an instruction leads to, or why it fails.
    spec fn spec_execute_instruction(&self, instruction: InstructionView, state: StateView) -> Result<
        StateView,
        DigitalAssetError,
    >;

    /// Prepares the initial state of a template, before any instruction for it
    /// runs. After a failure the state of the unit of work is not defined.
    fn init_template<U: StateDbUnitOfWork>(
        &self,
        template_parameter: &TemplateParameter,
        asset_definition: &AssetDefinition,
        state_db: &mut U,
    ) -> (done: Result<(), DigitalAssetError>)
        ensures
            step_matches(
                done,
                final(state_db).state(),
                self.spec_init_template(template_parameter@, asset_definition@, old(state_db).state()),
            ),
    ;

    /// Executes one instruction. After a failure the state of the unit of work is
    /// not defined, and the caller drops it.
    fn execute_instruction<U: StateDbUnitOfWork>(&self, instruction: &Instruction, db: &mut U) -> (done: Result<
        (),
        DigitalAssetError,
    >)
        ensures
            step_matches(
                done,
                final(db).state(),
                self.spec_execute_instruction(instruction@, old(db).state()),
            ),
    ;
}

} // verus!
