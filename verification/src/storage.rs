use vstd::prelude::*;

use crate::digital_assets_error::DigitalAssetError;
use crate::models::StateRoot;

verus! {

/// The contents of the state tree as a unit of work sees them: the value under
/// each key. Two units of work with the same contents are forks of one tree.
pub type StateView = Map<Seq<u8>, Seq<u8>>;

/// What asking for the root of a state leads to: the bytes of the root, or why
/// there is none.
pub type RootOutcome = Result<Seq<u8>, DigitalAssetError>;

/// Whether `result` is the outcome `expected`: the same error, or a root of the
/// same bytes.
pub open spec fn root_matches(result: Result<StateRoot, DigitalAssetError>, expected: RootOutcome) -> bool {
    match expected {
        Ok(root) => result is Ok && result->Ok_0@ == root,
        Err(error) => result == Err::<StateRoot, DigitalAssetError>(error),
    }
}

/// Whether `found` is what the state holds under `key`.
pub open spec fn value_matches(found: Option<Vec<u8>>, state: StateView, key: Seq<u8>) -> bool {
    match found {
        Some(value) => state.contains_key(key) && state[key] == value@,
        None => !state.contains_key(key),
    }
}

/// A transactional handle over the versioned state tree. Each attempt to process a
/// payload works on a handle of its own, and only the handle of an attempt that
/// commits is merged into the tree. The handle gathers the mutations of the
/// instructions in their order; what can go wrong with them comes out when the
/// root is asked for.
pub trait StateDbUnitOfWork: Sized {
    /// The state that this handle has reached.
    spec fn state(&self) -> StateView;

    /// The root of a state, or why it has none.
    spec fn spec_root(state: StateView) -> RootOutcome;

    /// Puts a value under a key, in place of the one that was there.
    fn set_value(&mut self, key: Vec<u8>, value: Vec<u8>)
        ensures
            final(self).state() == old(self).state().insert(key@, value@),
    ;

    /// The value under a key, with the mutations made so far.
    fn get_value(&self, key: &[u8]) -> (found: Option<Vec<u8>>)
        ensures
            value_matches(found, self.state(), key@),
    ;

    /// Finalizes the mutations made so far and yields the root of the state. The
    /// outcome depends on the state alone.
    fn calculate_root(&self) -> (root: Result<StateRoot, DigitalAssetError>)
        ensures
            root_matches(root, Self::spec_root(self.state())),
    ;
}

} // verus!
