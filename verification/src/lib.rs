//! Instruction ordering and state transition for a committee-run digital-asset ledger.
//!
//! Pending instructions wait in a mempool, a payload provider batches them into
//! payloads, and a payload processor executes a payload against a unit of work over
//! the state tree, marks the consumed instructions as reserved under the proposed
//! node, and yields the new state root. A reservation ends in one of two ways: the
//! node commits and its instructions are removed, or it is abandoned and they are
//! released.

pub mod digital_assets_error;
pub mod models;
pub mod services;
pub mod storage;
pub mod store_forward;
