//! A constant-product exchange of asset pairs, with crowdfunded pair launches.
//!
//! Each pair is disabled, in bootstrap, or trading. Trading pairs price swaps on the
//! constant-product curve with a 0.3% fee and issue shares to liquidity providers; a
//! bootstrap gathers both assets up to a capacity and, once it meets its targets by its
//! deadline, turns into a trading pair whose shares its contributors claim.
pub mod bootstrap;
pub mod ledger;
pub mod math;
pub mod pallet;
pub mod store;
pub mod swap;
pub mod types;
pub mod wide;

pub use ledger::{Ledger, LedgerOp};
pub use math::{calculate_liquidity, calculate_share_amount, calculate_share_amounts};
pub use pallet::Pallet;
pub use store::Store;
pub use types::{
    AccountId, AssetBalance, AssetId, BlockNumber, BootstrapParameter, Error, Event, PairMetadata,
    PairStatus,
};
