//! State-transition core of a UTXO ledger: the unspent-output state, the
//! algebra of state deltas, transaction validation and delta application.
use vstd::prelude::*;

pub mod types;
pub mod utxo_map;
pub mod diff;
pub mod ledger;
pub mod config;

verus! {

} // verus!
