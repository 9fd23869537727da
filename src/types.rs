//! Identifiers, pair states and errors of the exchange.
use vstd::prelude::*;

verus! {

/// A token amount.
pub type AssetBalance = u128;

/// A block height.
pub type BlockNumber = u64;

/// The asset type of a chain's native currency.
pub const NATIVE: u8 = 0;

/// An asset: the chain it lives on, its kind, and its index there.
#[derive(Clone, Copy, Debug, PartialEq, Eq, Structural, Hash, PartialOrd, Ord)]
pub struct AssetId {
    pub chain_id: u32,
    pub asset_type: u8,
    pub asset_index: u64,
}

/// The total order on assets: by chain, then kind, then index.
pub open spec fn asset_lt(a: AssetId, b: AssetId) -> bool {
    a.chain_id < b.chain_id || (a.chain_id == b.chain_id && (a.asset_type < b.asset_type || (
    a.asset_type == b.asset_type && a.asset_index < b.asset_index)))
}

impl AssetId {
    pub fn less_than(&self, other: &AssetId) -> (r: bool)
        ensures
            r == asset_lt(*self, *other),
    {
        self.chain_id < other.chain_id || (self.chain_id == other.chain_id && (self.asset_type
            < other.asset_type || (self.asset_type == other.asset_type && self.asset_index
            < other.asset_index)))
    }

    pub open spec fn spec_is_native(&self, self_chain_id: u32) -> bool {
        self.chain_id == self_chain_id && self.asset_type == NATIVE && self.asset_index == 0
    }

    /// Whether this is the native currency of the chain `self_chain_id`.
    pub fn is_native(&self, self_chain_id: u32) -> (r: bool)
        ensures
            r == self.spec_is_native(self_chain_id),
    {
        self.chain_id == self_chain_id && self.asset_type == NATIVE && self.asset_index == 0
    }
}

/// An account of the asset ledger.
#[derive(Clone, Copy, Debug, PartialEq, Eq, Structural, Hash)]
pub enum AccountId {
    /// The exchange's own account: it holds bootstrap contributions and rewards.
    Pallet,
    /// The pot that collects the fee on swaps paid in the native currency.
    FeePot,
    /// The reserve account of a canonically ordered pair.
    Pair(AssetId, AssetId),
    /// Any other account.
    User(u128),
}

/// The parameters of a pair's crowdfunded launch.
#[derive(Clone, Copy, Debug, PartialEq, Eq)]
pub struct BootstrapParameter {
    pub target_supply: (AssetBalance, AssetBalance),
    pub capacity_supply: (AssetBalance, AssetBalance),
    pub accumulated_supply: (AssetBalance, AssetBalance),
    pub end_block_number: BlockNumber,
    pub pair_account: AccountId,
}

/// A trading pair: where its reserves are held and how many shares are out.
#[derive(Clone, Copy, Debug, PartialEq, Eq)]
pub struct PairMetadata {
    pub pair_account: AccountId,
    pub total_supply: AssetBalance,
}

/// The state of a pair.
#[derive(Clone, Copy, Debug, PartialEq, Eq)]
pub enum PairStatus {
    Trading(PairMetadata),
    Bootstrap(BootstrapParameter),
    Disable,
}

/// Why an operation failed; a failed operation changes nothing.
#[derive(Clone, Copy, Debug, PartialEq, Eq, Structural)]
pub enum Error {
    /// An arithmetic operation overflowed, underflowed or divided by zero.
    Overflow,
    /// A path is too short or one of its hops cannot be quoted.
    InvalidPath,
    /// A hop would decrease the product of its pair's reserves.
    InvariantCheckFailed,
    /// The output is below the caller's minimum.
    InsufficientTargetAmount,
    /// The input is above the caller's maximum.
    ExcessiveSoldAmount,
    /// The pair is not in the state the operation needs.
    InvalidStatus,
    /// The pair has no share asset.
    PairNotExists,
    /// The pair already trades, or its bootstrap is still live.
    PairAlreadyExists,
    /// An account holds less than it is asked to pay.
    InsufficientAssetBalance,
    /// The amounts of a deposit fall outside the caller's bounds.
    IncorrectAssetAmountRange,
    /// A deposit would mint no shares.
    ZeroLiquidity,
    /// More shares are burned than exist.
    InsufficientLiquidity,
    /// A pair holds less than a hop takes out of it.
    InsufficientPairReserve,
    /// Rewards are pledged to the bootstrap being reconfigured.
    ExistRewardsInBootstrap,
    /// The pair is not in a live bootstrap.
    NotInBootstrap,
    /// A contribution credits nothing.
    InvalidContributionAmount,
    /// The bootstrap has not reached its deadline or its targets.
    UnqualifiedBootstrap,
    /// The bootstrap failed, so it pays no shares.
    DisableBootstrap,
    /// The account has no contribution recorded.
    ZeroContribute,
    /// The bootstrap has not failed, so it refunds nothing.
    DenyRefund,
    /// The fee fraction is out of range.
    InvalidFeePoint,
}

} // verus!

verus! {

/// What a successful operation reports.
#[derive(Clone, Debug, PartialEq, Eq)]
pub enum Event {
    LiquidityAdded {
        who: AccountId,
        asset_0: AssetId,
        asset_1: AssetId,
        amount_0: AssetBalance,
        amount_1: AssetBalance,
        liquidity: AssetBalance,
    },
    LiquidityRemoved {
        who: AccountId,
        recipient: AccountId,
        asset_0: AssetId,
        asset_1: AssetId,
        amount_0: AssetBalance,
        amount_1: AssetBalance,
        liquidity: AssetBalance,
    },
    AssetSwap {
        who: AccountId,
        recipient: AccountId,
        path: Vec<AssetId>,
        amounts: Vec<AssetBalance>,
    },
    BootstrapContribute {
        who: AccountId,
        asset_0: AssetId,
        amount_0: AssetBalance,
        asset_1: AssetId,
        amount_1: AssetBalance,
    },
    BootstrapEnd {
        asset_0: AssetId,
        asset_1: AssetId,
        accumulated_0: AssetBalance,
        accumulated_1: AssetBalance,
        total_lp: AssetBalance,
    },
    BootstrapClaim {
        pair_account: AccountId,
        who: AccountId,
        recipient: AccountId,
        asset_0: AssetId,
        asset_1: AssetId,
        amount_0: AssetBalance,
        amount_1: AssetBalance,
        claimed_lp: AssetBalance,
    },
    BootstrapRefund {
        pair_account: AccountId,
        who: AccountId,
        asset_0: AssetId,
        asset_1: AssetId,
        amount_0: AssetBalance,
        amount_1: AssetBalance,
    },
    DistributeReward {
        asset_0: AssetId,
        asset_1: AssetId,
        reward_holder: AccountId,
        rewards: Vec<(AssetId, AssetBalance)>,
    },
}

} // verus!
