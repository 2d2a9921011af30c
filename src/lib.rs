//! Pooled-custody escrow: one pool of deposited funds per asset, carved into
//! packages that each promise a fixed amount to one beneficiary.
//!
//! The engine is a verified state machine. Time, authorization, the token
//! balance of the pool and the transfers themselves are supplied or carried
//! out by the host: operations take the current time, the identity whose
//! consent accompanies the call and (for creation) the pool's balance as plain
//! values, and hand back the transfer that the host must perform.

mod types;
mod model;
mod escrow;
mod laws;

pub use types::{Address, PackageStatus, Package, Error, Transfer, Call};
pub use model::{EscrowModel, committed, contribution, is_expired, pool_delta, locked_map, step};
pub use escrow::AidEscrow;
pub use laws::{
    lemma_solvency, lemma_unlock_on_terminal, lemma_settlement_is_final, lemma_claimed_stays_claimed,
    lemma_query_is_pure, outcome_flow, target, refunds_released, refund_covered, reads_balance, unlocked_exactly,
};
