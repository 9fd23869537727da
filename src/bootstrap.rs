//! The crowdfunded launch of a pair: contribution, end, claim and refund.
use crate::ledger::{apply_ops, LedgerOp};
use crate::math::{calculate_claim_liquidity, calculate_liquidity, calculate_owner_reward, claim_share, isqrt, reward_share};
use crate::pallet::{pair_account, sorted, with_balances, Pallet};
use crate::types::{asset_lt, AccountId, AssetBalance, AssetId, BlockNumber, BootstrapParameter, Error, Event, PairMetadata, PairStatus};
use vstd::prelude::*;

verus! {

/// The map that a list of `(asset, amount)` entries stands for: a later entry for an asset
/// replaces an earlier one.
pub open spec fn entries_map(s: Seq<(AssetId, AssetBalance)>) -> Map<AssetId, AssetBalance>
    decreases s.len(),
{
    if s.len() == 0 {
        Map::empty()
    } else {
        entries_map(s.drop_last()).insert(s.last().0, s.last().1)
    }
}

/// No asset has two entries.
pub open spec fn unique_assets(s: Seq<(AssetId, AssetBalance)>) -> bool {
    forall|i: int, j: int| 0 <= i < j < s.len() ==> s[i].0 != s[j].0
}

pub proof fn lemma_entries_map_update(s: Seq<(AssetId, AssetBalance)>, k: int, v: AssetBalance)
    requires
        unique_assets(s),
        0 <= k < s.len(),
    ensures
        entries_map(s.update(k, (s[k].0, v))) == entries_map(s).insert(s[k].0, v),
    decreases s.len(),
{
    let a = s[k].0;
    let t = s.update(k, (a, v));
    if k == s.len() - 1 {
        assert(t.drop_last() =~= s.drop_last());
        assert(entries_map(t) =~= entries_map(s).insert(a, v));
    } else {
        assert(t.drop_last() =~= s.drop_last().update(k, (a, v)));
        lemma_entries_map_update(s.drop_last(), k, v);
        assert(s.last().0 != a);
        assert(entries_map(t) =~= entries_map(s).insert(a, v));
    }
}

/// Inserting an entry for an asset that has none adds it to the map, wherever it goes.
pub proof fn lemma_entries_map_insert(s: Seq<(AssetId, AssetBalance)>, k: int, e: (AssetId, AssetBalance))
    requires
        0 <= k <= s.len(),
        forall|i: int| 0 <= i < s.len() ==> s[i].0 != e.0,
    ensures
        entries_map(s.insert(k, e)) == entries_map(s).insert(e.0, e.1),
    decreases s.len(),
{
    let t = s.insert(k, e);
    if k == s.len() {
        assert(t.drop_last() =~= s);
    } else {
        assert(t.drop_last() =~= s.drop_last().insert(k, e));
        lemma_entries_map_insert(s.drop_last(), k, e);
        assert(t.last() == s.last());
        assert(entries_map(t) =~= entries_map(s).insert(e.0, e.1));
    }
}

/// The entries are in ascending order of asset, so no asset has two.
pub open spec fn ascending_assets(s: Seq<(AssetId, AssetBalance)>) -> bool {
    forall|i: int, j: int| 0 <= i < j < s.len() ==> asset_lt(#[trigger] s[i].0, #[trigger] s[j].0)
}

/// Ascending entries name each asset once.
pub proof fn lemma_ascending_unique(s: Seq<(AssetId, AssetBalance)>)
    requires
        ascending_assets(s),
    ensures
        unique_assets(s),
{
    assert forall|i: int, j: int| 0 <= i < j < s.len() implies s[i].0 != s[j].0 by {
        assert(asset_lt(s[i].0, s[j].0));
    }
}

/// Sets the entry of `asset` to `amount`, adding one in its place if there is none.
fn upsert(list: &mut Vec<(AssetId, AssetBalance)>, asset: AssetId, amount: AssetBalance)
    requires
        ascending_assets(old(list)@),
    ensures
        ascending_assets(final(list)@),
        entries_map(final(list)@) == entries_map(old(list)@).insert(asset, amount),
{
    let mut i: usize = 0;
    while i < list.len() && list[i].0.less_than(&asset)
        invariant
            i <= list@.len(),
            list@ == old(list)@,
            forall|j: int| 0 <= j < i ==> asset_lt(#[trigger] list@[j].0, asset),
        decreases list@.len() - i,
    {
        i = i + 1;
    }
    let ghost s = list@;
    if i < list.len() && list[i].0 == asset {
        proof {
            lemma_ascending_unique(s);
            lemma_entries_map_update(s, i as int, amount);
        }
        list.set(i, (asset, amount));
        assert(ascending_assets(list@)) by {
            assert forall|x: int, y: int| 0 <= x < y < list@.len() implies asset_lt(
                #[trigger] list@[x].0,
                #[trigger] list@[y].0,
            ) by {
                assert(list@[x].0 == s[x].0 && list@[y].0 == s[y].0);
            }
        }
        return;
    }
    proof {
        assert forall|j: int| 0 <= j < s.len() implies s[j].0 != asset by {
            if j >= i {
                assert(asset_lt(asset, s[i as int].0));
                if j > i {
                    assert(asset_lt(s[i as int].0, s[j].0));
                }
            }
        }
        lemma_entries_map_insert(s, i as int, (asset, amount));
    }
    list.insert(i, (asset, amount));
    assert(ascending_assets(list@)) by {
        assert forall|x: int, y: int| 0 <= x < y < list@.len() implies asset_lt(
            #[trigger] list@[x].0,
            #[trigger] list@[y].0,
        ) by {
            if y < i {
                assert(list@[x] == s[x] && list@[y] == s[y]);
            } else if y == i {
                assert(list@[x] == s[x]);
            } else if x == i {
                assert(list@[y] == s[y - 1]);
                assert(asset_lt(asset, s[i as int].0));
                if y - 1 > i {
                    assert(asset_lt(s[i as int].0, s[y - 1].0));
                }
            } else if x < i {
                assert(list@[x] == s[x] && list@[y] == s[y - 1]);
            } else {
                assert(list@[x] == s[x - 1] && list@[y] == s[y - 1]);
            }
        }
    }
}

/// Whether a bootstrap has failed: its deadline has passed with an axis below target.
pub open spec fn disabled(params: BootstrapParameter, now: BlockNumber) -> bool {
    now > params.end_block_number && (params.accumulated_supply.0 < params.target_supply.0
        || params.accumulated_supply.1 < params.target_supply.1)
}

impl Pallet {
    /// Whether the bootstrap with `params` has failed at block `now`.
    pub fn bootstrap_disable(params: &BootstrapParameter, now: BlockNumber) -> (r: bool)
        ensures
            r == disabled(*params, now),
    {
        now > params.end_block_number && (params.accumulated_supply.0 < params.target_supply.0
            || params.accumulated_supply.1 < params.target_supply.1)
    }
}

/// Rewards are pledged to the bootstrap of `pair`.
pub open spec fn pending_rewards(p: Pallet, pair: (AssetId, AssetId)) -> bool {
    p.bootstrap_rewards@.contains_key(pair) && exists|i: int|
        0 <= i < p.bootstrap_rewards@[pair]@.len() && #[trigger] p.bootstrap_rewards@[pair]@[i].1 != 0
}

/// The accumulated supply that (re)creating the bootstrap of `pair` keeps, or why it fails.
pub open spec fn create_outcome(p: Pallet, pair: (AssetId, AssetId), now: BlockNumber) -> Result<(AssetBalance, AssetBalance), Error> {
    match p.status_of(pair) {
        PairStatus::Trading(_) => Err(Error::PairAlreadyExists),
        PairStatus::Bootstrap(params) => if !disabled(params, now) {
            Err(Error::PairAlreadyExists)
        } else if pending_rewards(p, pair) {
            Err(Error::ExistRewardsInBootstrap)
        } else {
            Ok(params.accumulated_supply)
        },
        PairStatus::Disable => Ok((0, 0)),
    }
}

/// The accumulated supply that updating the bootstrap of `pair` keeps, or why it fails.
pub open spec fn update_outcome(p: Pallet, pair: (AssetId, AssetId)) -> Result<(AssetBalance, AssetBalance), Error> {
    match p.status_of(pair) {
        PairStatus::Trading(_) => Err(Error::PairAlreadyExists),
        PairStatus::Bootstrap(params) => if pending_rewards(p, pair) {
            Err(Error::ExistRewardsInBootstrap)
        } else {
            Ok(params.accumulated_supply)
        },
        PairStatus::Disable => Err(Error::NotInBootstrap),
    }
}

/// `q` is `p` with the bootstrap of `pair` set to `params`, no rewards pledged yet for
/// each asset of `rewards`, and the eligibility limits `limits`.
pub open spec fn bootstrap_installed(
    p: Pallet,
    q: Pallet,
    pair: (AssetId, AssetId),
    params: BootstrapParameter,
    rewards: Seq<AssetId>,
    limits: Seq<(AssetId, AssetBalance)>,
) -> bool {
    &&& q.pair_statuses@ == p.pair_statuses@.insert(pair, PairStatus::Bootstrap(params))
    &&& q.bootstrap_rewards@.contains_key(pair)
    &&& ascending_assets(q.bootstrap_rewards@[pair]@)
    &&& entries_map(q.bootstrap_rewards@[pair]@) == Map::new(|a: AssetId| rewards.contains(a), |a: AssetId| 0u128)
    &&& q.bootstrap_rewards@.remove(pair) == p.bootstrap_rewards@.remove(pair)
    &&& q.bootstrap_limits@.contains_key(pair)
    &&& ascending_assets(q.bootstrap_limits@[pair]@)
    &&& entries_map(q.bootstrap_limits@[pair]@) == entries_map(limits)
    &&& q.bootstrap_limits@.remove(pair) == p.bootstrap_limits@.remove(pair)
    &&& q == (Pallet {
        pair_statuses: q.pair_statuses,
        bootstrap_rewards: q.bootstrap_rewards,
        bootstrap_limits: q.bootstrap_limits,
        ..p
    })
}

/// One zero entry for each asset of `rewards`.
fn zero_rewards(rewards: &Vec<AssetId>) -> (r: Vec<(AssetId, AssetBalance)>)
    ensures
        ascending_assets(r@),
        entries_map(r@) == Map::new(|a: AssetId| rewards@.contains(a), |a: AssetId| 0u128),
{
    let mut r: Vec<(AssetId, AssetBalance)> = Vec::new();
    let mut i: usize = 0;
    assert(entries_map(r@) =~= Map::new(|a: AssetId| rewards@.subrange(0, 0).contains(a), |a: AssetId| 0u128));
    while i < rewards.len()
        invariant
            i <= rewards@.len(),
            ascending_assets(r@),
            entries_map(r@) == Map::new(|a: AssetId| rewards@.subrange(0, i as int).contains(a), |a: AssetId| 0u128),
        decreases rewards@.len() - i,
    {
        upsert(&mut r, rewards[i], 0);
        let ghost before = rewards@.subrange(0, i as int);
        let ghost after = rewards@.subrange(0, i + 1);
        let ghost x = rewards@[i as int];
        assert(after =~= before.push(x));
        assert forall|a: AssetId| #[trigger] after.contains(a) <==> (before.contains(a) || a == x) by {
            if after.contains(a) {
                let k = choose|k: int| 0 <= k < after.len() && after[k] == a;
                if k < before.len() {
                    assert(before[k] == a);
                }
            }
            if before.contains(a) {
                let k = choose|k: int| 0 <= k < before.len() && before[k] == a;
                assert(after[k] == a);
            }
            if a == x {
                assert(after[i as int] == a);
            }
        }
        i = i + 1;
        assert(entries_map(r@) =~= Map::new(|a: AssetId| rewards@.subrange(0, i as int).contains(a), |a: AssetId| 0u128));
    }
    assert(rewards@.subrange(0, rewards@.len() as int) =~= rewards@);
    r
}

/// The limits as a list with one entry per asset, a later limit replacing an earlier one.
fn collect_limits(limits: &Vec<(AssetId, AssetBalance)>) -> (r: Vec<(AssetId, AssetBalance)>)
    ensures
        ascending_assets(r@),
        entries_map(r@) == entries_map(limits@),
{
    let mut r: Vec<(AssetId, AssetBalance)> = Vec::new();
    let mut i: usize = 0;
    assert(limits@.subrange(0, 0) =~= Seq::<(AssetId, AssetBalance)>::empty());
    while i < limits.len()
        invariant
            i <= limits@.len(),
            ascending_assets(r@),
            entries_map(r@) == entries_map(limits@.subrange(0, i as int)),
        decreases limits@.len() - i,
    {
        let (asset, limit) = limits[i];
        upsert(&mut r, asset, limit);
        assert(limits@.subrange(0, i + 1).drop_last() =~= limits@.subrange(0, i as int));
        i = i + 1;
    }
    assert(limits@.subrange(0, limits@.len() as int) =~= limits@);
    r
}

impl Pallet {
    /// Whether rewards are pledged to the bootstrap of `pair`.
    fn has_pending_rewards(&self, pair: &(AssetId, AssetId)) -> (r: bool)
        ensures
            r == pending_rewards(*self, *pair),
    {
        match self.bootstrap_rewards.get(pair) {
            Some(list) => {
                let mut i: usize = 0;
                while i < list.len()
                    invariant
                        i <= list@.len(),
                        self.bootstrap_rewards@.contains_key(*pair),
                        *list == self.bootstrap_rewards@[*pair],
                        forall|j: int| 0 <= j < i ==> list@[j].1 == 0,
                    decreases list@.len() - i,
                {
                    if list[i].1 != 0 {
                        return true;
                    }
                    i = i + 1;
                }
                false
            },
            None => false,
        }
    }

    fn install_bootstrap(
        &mut self,
        pair: (AssetId, AssetId),
        params: BootstrapParameter,
        rewards: &Vec<AssetId>,
        limits: &Vec<(AssetId, AssetBalance)>,
    )
        ensures
            bootstrap_installed(*old(self), *final(self), pair, params, rewards@, limits@),
    {
        self.pair_statuses.set(pair, PairStatus::Bootstrap(params));
        let ghost r0 = self.bootstrap_rewards@;
        self.bootstrap_rewards.set(pair, zero_rewards(rewards));
        assert(self.bootstrap_rewards@.remove(pair) =~= r0.remove(pair));
        let ghost l0 = self.bootstrap_limits@;
        self.bootstrap_limits.set(pair, collect_limits(limits));
        assert(self.bootstrap_limits@.remove(pair) =~= l0.remove(pair));
    }

    /// Opens the bootstrap of the pair of `pair.0` and `pair.1`, or reopens one that failed;
    /// a failed bootstrap keeps what it accumulated.
    pub fn do_bootstrap_create(
        &mut self,
        pair: (AssetId, AssetId),
        target_supply_0: AssetBalance,
        target_supply_1: AssetBalance,
        capacity_supply_0: AssetBalance,
        capacity_supply_1: AssetBalance,
        end: BlockNumber,
        rewards: Vec<AssetId>,
        limits: Vec<(AssetId, AssetBalance)>,
        now: BlockNumber,
    ) -> (r: Result<(), Error>)
        ensures
            match create_outcome(*old(self), sorted(pair.0, pair.1), now) {
                Ok(accumulated) => r is Ok && bootstrap_installed(
                    *old(self),
                    *final(self),
                    sorted(pair.0, pair.1),
                    BootstrapParameter {
                        target_supply: (target_supply_0, target_supply_1),
                        capacity_supply: (capacity_supply_0, capacity_supply_1),
                        accumulated_supply: accumulated,
                        end_block_number: end,
                        pair_account: AccountId::Pallet,
                    },
                    rewards@,
                    limits@,
                ),
                Err(e) => r == Err::<(), Error>(e) && *final(self) == *old(self),
            },
    {
        let pair = Self::sort_asset_id(pair.0, pair.1);
        let accumulated_supply = match self.pair_statuses.get(&pair) {
            Some(PairStatus::Trading(_)) => return Err(Error::PairAlreadyExists),
            Some(PairStatus::Bootstrap(params)) => {
                if !Self::bootstrap_disable(params, now) {
                    return Err(Error::PairAlreadyExists);
                }
                if self.has_pending_rewards(&pair) {
                    return Err(Error::ExistRewardsInBootstrap);
                }
                params.accumulated_supply
            },
            Some(PairStatus::Disable) | None => (0, 0),
        };
        let params = BootstrapParameter {
            target_supply: (target_supply_0, target_supply_1),
            capacity_supply: (capacity_supply_0, capacity_supply_1),
            accumulated_supply,
            end_block_number: end,
            pair_account: Self::account_id(),
        };
        self.install_bootstrap(pair, params, &rewards, &limits);
        Ok(())
    }

    /// Reconfigures the live bootstrap of the pair of `pair.0` and `pair.1`, keeping what
    /// it accumulated.
    pub fn do_bootstrap_update(
        &mut self,
        pair: (AssetId, AssetId),
        target_supply_0: AssetBalance,
        target_supply_1: AssetBalance,
        capacity_supply_0: AssetBalance,
        capacity_supply_1: AssetBalance,
        end: BlockNumber,
        rewards: Vec<AssetId>,
        limits: Vec<(AssetId, AssetBalance)>,
    ) -> (r: Result<(), Error>)
        ensures
            match update_outcome(*old(self), sorted(pair.0, pair.1)) {
                Ok(accumulated) => r is Ok && bootstrap_installed(
                    *old(self),
                    *final(self),
                    sorted(pair.0, pair.1),
                    BootstrapParameter {
                        target_supply: (target_supply_0, target_supply_1),
                        capacity_supply: (capacity_supply_0, capacity_supply_1),
                        accumulated_supply: accumulated,
                        end_block_number: end,
                        pair_account: AccountId::Pallet,
                    },
                    rewards@,
                    limits@,
                ),
                Err(e) => r == Err::<(), Error>(e) && *final(self) == *old(self),
            },
    {
        let pair = Self::sort_asset_id(pair.0, pair.1);
        let accumulated_supply = match self.pair_statuses.get(&pair) {
            Some(PairStatus::Trading(_)) => return Err(Error::PairAlreadyExists),
            Some(PairStatus::Bootstrap(params)) => {
                if self.has_pending_rewards(&pair) {
                    return Err(Error::ExistRewardsInBootstrap);
                }
                params.accumulated_supply
            },
            Some(PairStatus::Disable) | None => return Err(Error::NotInBootstrap),
        };
        let params = BootstrapParameter {
            target_supply: (target_supply_0, target_supply_1),
            capacity_supply: (capacity_supply_0, capacity_supply_1),
            accumulated_supply,
            end_block_number: end,
            pair_account: Self::account_id(),
        };
        self.install_bootstrap(pair, params, &rewards, &limits);
        Ok(())
    }
}

/// What `who` has contributed to the bootstrap of `pair`, zero where nothing is recorded.
pub open spec fn contribution_of(p: Pallet, pair: (AssetId, AssetId), who: AccountId) -> (AssetBalance, AssetBalance) {
    if p.bootstrap_personal_supply@.contains_key((pair, who)) {
        p.bootstrap_personal_supply@[(pair, who)]
    } else {
        (0, 0)
    }
}

/// What a contribution of `amount` credits when `accumulated` of `capacity` is taken: all
/// of it if it fits, else what is left.
pub open spec fn clamped(amount: AssetBalance, accumulated: AssetBalance, capacity: AssetBalance) -> Result<AssetBalance, Error> {
    if amount + accumulated > u128::MAX {
        Err(Error::Overflow)
    } else if amount + accumulated > capacity {
        if capacity < accumulated {
            Err(Error::Overflow)
        } else {
            Ok((capacity - accumulated) as AssetBalance)
        }
    } else {
        Ok(amount)
    }
}

/// The credited amounts, in canonical order, the new parameters and the new contribution
/// record of a contribution, or why it fails before any balance moves.
pub open spec fn contribute_plan(
    p: Pallet,
    who: AccountId,
    asset_0: AssetId,
    asset_1: AssetId,
    amount_0: AssetBalance,
    amount_1: AssetBalance,
    now: BlockNumber,
) -> Result<((AssetBalance, AssetBalance), BootstrapParameter, (AssetBalance, AssetBalance)), Error> {
    let pair = sorted(asset_0, asset_1);
    match p.status_of(pair) {
        PairStatus::Bootstrap(params) => if now >= params.end_block_number {
            Err(Error::NotInBootstrap)
        } else {
            let (a0, a1) = if pair.0 == asset_0 {
                (amount_0, amount_1)
            } else {
                (amount_1, amount_0)
            };
            match clamped(a0, params.accumulated_supply.0, params.capacity_supply.0) {
                Ok(x0) => match clamped(a1, params.accumulated_supply.1, params.capacity_supply.1) {
                    Ok(x1) => if x0 < 1 && x1 < 1 {
                        Err(Error::InvalidContributionAmount)
                    } else {
                        let c = contribution_of(p, pair, who);
                        if c.0 + x0 > u128::MAX || c.1 + x1 > u128::MAX {
                            Err(Error::Overflow)
                        } else {
                            Ok((
                                (x0, x1),
                                BootstrapParameter {
                                    accumulated_supply: (
                                        (params.accumulated_supply.0 + x0) as AssetBalance,
                                        (params.accumulated_supply.1 + x1) as AssetBalance,
                                    ),
                                    ..params
                                },
                                ((c.0 + x0) as AssetBalance, (c.1 + x1) as AssetBalance),
                            ))
                        }
                    },
                    Err(e) => Err(e),
                },
                Err(e) => Err(e),
            }
        },
        _ => Err(Error::NotInBootstrap),
    }
}

/// The parameters and the number of shares of ending the bootstrap of `pair`, or why it
/// fails before any balance moves.
pub open spec fn end_plan(p: Pallet, pair: (AssetId, AssetId), now: BlockNumber) -> Result<(BootstrapParameter, AssetBalance), Error> {
    match p.status_of(pair) {
        PairStatus::Bootstrap(params) => if !(now >= params.end_block_number && params.accumulated_supply.0
            >= params.target_supply.0 && params.accumulated_supply.1 >= params.target_supply.1) {
            Err(Error::UnqualifiedBootstrap)
        } else if isqrt((params.accumulated_supply.0 * params.accumulated_supply.1) as nat) == 0 {
            Err(Error::Overflow)
        } else if !p.lp_pairs@.contains_key(pair) {
            Err(Error::PairNotExists)
        } else {
            Ok((params, isqrt((params.accumulated_supply.0 * params.accumulated_supply.1) as nat) as AssetBalance))
        },
        _ => Err(Error::NotInBootstrap),
    }
}

/// The transfers paying `owner` its part of each pledged reward, and the amounts paid.
pub open spec fn reward_ops(
    list: Seq<(AssetId, AssetBalance)>,
    owner: AccountId,
    holder: AccountId,
    share_lp: AssetBalance,
    total_lp: AssetBalance,
) -> Result<(Seq<LedgerOp>, Seq<(AssetId, AssetBalance)>), Error>
    decreases list.len(),
{
    if list.len() == 0 {
        Ok((Seq::empty(), Seq::empty()))
    } else {
        match reward_ops(list.drop_last(), owner, holder, share_lp, total_lp) {
            Ok((ops, paid)) => match reward_share(share_lp as nat, list.last().1 as nat, total_lp as nat) {
                Ok(x) => Ok((
                    ops.push(LedgerOp::Transfer { asset: list.last().0, from: holder, to: owner, amount: x }),
                    paid.push((list.last().0, x)),
                )),
                Err(e) => Err(e),
            },
            Err(e) => Err(e),
        }
    }
}

pub proof fn lemma_reward_ops_err(
    list: Seq<(AssetId, AssetBalance)>,
    owner: AccountId,
    holder: AccountId,
    share_lp: AssetBalance,
    total_lp: AssetBalance,
    n: nat,
)
    requires
        n <= list.len(),
        reward_ops(list.subrange(0, n as int), owner, holder, share_lp, total_lp) is Err,
    ensures
        reward_ops(list, owner, holder, share_lp, total_lp) == reward_ops(list.subrange(0, n as int), owner, holder, share_lp, total_lp),
    decreases list.len() - n,
{
    if n < list.len() {
        assert(list.subrange(0, (n + 1) as int).drop_last() =~= list.subrange(0, n as int));
        lemma_reward_ops_err(list, owner, holder, share_lp, total_lp, n + 1);
    } else {
        assert(list.subrange(0, n as int) =~= list);
    }
}

/// The rewards pledged to the bootstrap of `pair`.
pub open spec fn rewards_of(p: Pallet, pair: (AssetId, AssetId)) -> Seq<(AssetId, AssetBalance)> {
    if p.bootstrap_rewards@.contains_key(pair) {
        p.bootstrap_rewards@[pair]@
    } else {
        Seq::empty()
    }
}

/// The limits of the bootstrap of `pair`.
pub open spec fn limits_of(p: Pallet, pair: (AssetId, AssetId)) -> Seq<(AssetId, AssetBalance)> {
    if p.bootstrap_limits@.contains_key(pair) {
        p.bootstrap_limits@[pair]@
    } else {
        Seq::empty()
    }
}

/// The ledger operations, the contribution, the shares and the rewards of a claim, or why
/// it fails before any balance moves.
pub open spec fn claim_plan(
    p: Pallet,
    who: AccountId,
    recipient: AccountId,
    asset_0: AssetId,
    asset_1: AssetId,
    now: BlockNumber,
) -> Result<(Seq<LedgerOp>, (AssetBalance, AssetBalance), AssetBalance, Seq<(AssetId, AssetBalance)>), Error> {
    let pair = sorted(asset_0, asset_1);
    match p.status_of(pair) {
        PairStatus::Trading(_) => if !p.bootstrap_personal_supply@.contains_key((pair, who)) {
            Err(Error::ZeroContribute)
        } else if !p.bootstrap_end_status@.contains_key(pair) {
            Err(Error::NotInBootstrap)
        } else {
            let c = p.bootstrap_personal_supply@[(pair, who)];
            let params = p.bootstrap_end_status@[pair];
            if disabled(params, now) {
                Err(Error::DisableBootstrap)
            } else {
                match claim_share(c.0 as nat, c.1 as nat, params.accumulated_supply.0 as nat, params.accumulated_supply.1 as nat) {
                    Ok(lp_amount) => if !p.lp_pairs@.contains_key(pair) {
                        Err(Error::PairNotExists)
                    } else {
                        let total = isqrt((params.accumulated_supply.0 * params.accumulated_supply.1) as nat) as AssetBalance;
                        match reward_ops(rewards_of(p, pair), who, params.pair_account, lp_amount, total) {
                            Ok((ops, paid)) => Ok((
                                seq![LedgerOp::Transfer { asset: p.lp_pairs@[pair], from: pair_account(pair.0, pair.1), to: recipient, amount: lp_amount }] + ops,
                                c,
                                lp_amount,
                                paid,
                            )),
                            Err(e) => Err(e),
                        }
                    },
                    Err(e) => Err(e),
                }
            }
        },
        _ => Err(Error::NotInBootstrap),
    }
}

/// The contribution refunded by a refund, or why it fails before any balance moves.
pub open spec fn refund_plan(p: Pallet, who: AccountId, asset_0: AssetId, asset_1: AssetId, now: BlockNumber) -> Result<(AssetBalance, AssetBalance), Error> {
    let pair = sorted(asset_0, asset_1);
    let allowed = match p.status_of(pair) {
        PairStatus::Bootstrap(params) => disabled(params, now),
        _ => p.bootstrap_end_status@.contains_key(pair) && disabled(p.bootstrap_end_status@[pair], now),
    };
    if !allowed {
        Err(Error::DenyRefund)
    } else if !p.bootstrap_personal_supply@.contains_key((pair, who)) {
        Err(Error::ZeroContribute)
    } else {
        let c = p.bootstrap_personal_supply@[(pair, who)];
        match p.status_of(pair) {
            PairStatus::Bootstrap(params) => if params.accumulated_supply.0 < c.0 || params.accumulated_supply.1 < c.1 {
                Err(Error::Overflow)
            } else {
                Ok(c)
            },
            _ => Ok(c),
        }
    }
}

/// The pair record after `c` is refunded: a live bootstrap gives the amounts back to its
/// accumulated supply.
pub open spec fn status_after_refund(status: PairStatus, c: (AssetBalance, AssetBalance)) -> PairStatus {
    match status {
        PairStatus::Bootstrap(params) => PairStatus::Bootstrap(BootstrapParameter {
            accumulated_supply: (
                (params.accumulated_supply.0 - c.0) as AssetBalance,
                (params.accumulated_supply.1 - c.1) as AssetBalance,
            ),
            ..params
        }),
        s => s,
    }
}

/// `events` report a claim: the rewards paid, if any, then `claim`.
pub open spec fn claim_events(
    events: Seq<Event>,
    claim: Event,
    pair: (AssetId, AssetId),
    holder: AccountId,
    paid: Seq<(AssetId, AssetBalance)>,
) -> bool {
    if paid.len() > 0 {
        events.len() == 2 && events[1] == claim && match events[0] {
            Event::DistributeReward { asset_0, asset_1, reward_holder, rewards } => asset_0 == pair.0 && asset_1 == pair.1
                && reward_holder == holder && rewards@ == paid,
            _ => false,
        }
    } else {
        events.len() == 1 && events[0] == claim
    }
}

impl Pallet {
    /// Pledges `amount_0` of `asset_0` and `amount_1` of `asset_1` from `who` to a live
    /// bootstrap; what exceeds the capacity is not taken.
    pub fn do_bootstrap_contribute(
        &mut self,
        who: AccountId,
        asset_0: AssetId,
        asset_1: AssetId,
        amount_0_contribute: AssetBalance,
        amount_1_contribute: AssetBalance,
        now: BlockNumber,
    ) -> (r: Result<Event, Error>)
        ensures
            match contribute_plan(*old(self), who, asset_0, asset_1, amount_0_contribute, amount_1_contribute, now) {
                Ok(((x0, x1), params, c)) => {
                    let pair = sorted(asset_0, asset_1);
                    let ops = seq![
                        LedgerOp::Transfer { asset: pair.0, from: who, to: AccountId::Pallet, amount: x0 },
                        LedgerOp::Transfer { asset: pair.1, from: who, to: AccountId::Pallet, amount: x1 },
                    ];
                    match apply_ops(old(self).ledger@, ops) {
                        Ok(m) => r == Ok::<Event, Error>(Event::BootstrapContribute { who, asset_0: pair.0, amount_0: x0, asset_1: pair.1, amount_1: x1 })
                            && final(self).ledger@ == m
                            && final(self).pair_statuses@ == old(self).pair_statuses@.insert(pair, PairStatus::Bootstrap(params))
                            && final(self).bootstrap_personal_supply@ == old(self).bootstrap_personal_supply@.insert((pair, who), c)
                            && *final(self) == (Pallet {
                                ledger: final(self).ledger,
                                pair_statuses: final(self).pair_statuses,
                                bootstrap_personal_supply: final(self).bootstrap_personal_supply,
                                ..*old(self)
                            }),
                        Err(e) => r == Err::<Event, Error>(e) && with_balances(*old(self), *final(self), old(self).ledger@),
                    }
                },
                Err(e) => r == Err::<Event, Error>(e) && *final(self) == *old(self),
            },
            // a contribution never takes an axis past its capacity
            r is Ok ==> match final(self).status_of(sorted(asset_0, asset_1)) {
                PairStatus::Bootstrap(q) => q.accumulated_supply.0 <= q.capacity_supply.0
                    && q.accumulated_supply.1 <= q.capacity_supply.1,
                _ => false,
            },
            // nothing is taken once both axes are full
            (match old(self).status_of(sorted(asset_0, asset_1)) {
                PairStatus::Bootstrap(q) => q.accumulated_supply == q.capacity_supply,
                _ => false,
            }) ==> r is Err,
    {
        let pair = Self::sort_asset_id(asset_0, asset_1);
        let mut bootstrap_parameter = match self.pair_statuses.get(&pair) {
            Some(PairStatus::Bootstrap(params)) => {
                if !(now < params.end_block_number) {
                    return Err(Error::NotInBootstrap);
                }
                *params
            },
            _ => return Err(Error::NotInBootstrap),
        };
        let (mut amount_0_contribute, mut amount_1_contribute) = if pair.0 == asset_0 {
            (amount_0_contribute, amount_1_contribute)
        } else {
            (amount_1_contribute, amount_0_contribute)
        };
        let accumulated = bootstrap_parameter.accumulated_supply;
        let capacity = bootstrap_parameter.capacity_supply;
        if amount_0_contribute > u128::MAX - accumulated.0 {
            return Err(Error::Overflow);
        }
        if amount_0_contribute + accumulated.0 > capacity.0 {
            if capacity.0 < accumulated.0 {
                return Err(Error::Overflow);
            }
            amount_0_contribute = capacity.0 - accumulated.0;
        }
        if amount_1_contribute > u128::MAX - accumulated.1 {
            return Err(Error::Overflow);
        }
        if amount_1_contribute + accumulated.1 > capacity.1 {
            if capacity.1 < accumulated.1 {
                return Err(Error::Overflow);
            }
            amount_1_contribute = capacity.1 - accumulated.1;
        }
        if !(amount_0_contribute >= 1 || amount_1_contribute >= 1) {
            return Err(Error::InvalidContributionAmount);
        }
        let contribution = match self.bootstrap_personal_supply.get(&(pair, who)) {
            Some(c) => *c,
            None => (0, 0),
        };
        if contribution.0 > u128::MAX - amount_0_contribute || contribution.1 > u128::MAX - amount_1_contribute {
            return Err(Error::Overflow);
        }
        let pair_account = Self::account_id();
        let ops = vec![
            LedgerOp::Transfer { asset: pair.0, from: who, to: pair_account, amount: amount_0_contribute },
            LedgerOp::Transfer { asset: pair.1, from: who, to: pair_account, amount: amount_1_contribute },
        ];
        proof {
            let ghost spec_ops = seq![
                LedgerOp::Transfer { asset: pair.0, from: who, to: AccountId::Pallet, amount: amount_0_contribute },
                LedgerOp::Transfer { asset: pair.1, from: who, to: AccountId::Pallet, amount: amount_1_contribute },
            ];
            assert(ops@ =~= spec_ops);
        }
        match self.ledger.apply_all(&ops) {
            Ok(()) => {},
            Err(e) => return Err(e),
        }
        self.bootstrap_personal_supply.set(
            (pair, who),
            (contribution.0 + amount_0_contribute, contribution.1 + amount_1_contribute),
        );
        bootstrap_parameter.accumulated_supply = (accumulated.0 + amount_0_contribute, accumulated.1 + amount_1_contribute);
        self.pair_statuses.set(pair, PairStatus::Bootstrap(bootstrap_parameter));
        Ok(Event::BootstrapContribute {
            who,
            asset_0: pair.0,
            amount_0: amount_0_contribute,
            asset_1: pair.1,
            amount_1: amount_1_contribute,
        })
    }

    /// Turns a bootstrap that reached its deadline and both targets into a trading pair:
    /// the contributions become its reserves and `floor(sqrt(acc0 * acc1))` shares are minted
    /// to the pair's account.
    pub fn do_end_bootstrap(&mut self, asset_0: AssetId, asset_1: AssetId, now: BlockNumber) -> (r: Result<Event, Error>)
        ensures
            match end_plan(*old(self), sorted(asset_0, asset_1), now) {
                Ok((params, total_lp)) => {
                    let pair = sorted(asset_0, asset_1);
                    let account = pair_account(asset_0, asset_1);
                    let ops = seq![
                        LedgerOp::Transfer { asset: pair.0, from: params.pair_account, to: account, amount: params.accumulated_supply.0 },
                        LedgerOp::Transfer { asset: pair.1, from: params.pair_account, to: account, amount: params.accumulated_supply.1 },
                        LedgerOp::Deposit { asset: old(self).lp_pairs@[pair], to: account, amount: total_lp },
                    ];
                    match apply_ops(old(self).ledger@, ops) {
                        Ok(m) => r == Ok::<Event, Error>(Event::BootstrapEnd {
                            asset_0: pair.0,
                            asset_1: pair.1,
                            accumulated_0: params.accumulated_supply.0,
                            accumulated_1: params.accumulated_supply.1,
                            total_lp,
                        }) && final(self).ledger@ == m
                            && final(self).pair_statuses@ == old(self).pair_statuses@.insert(
                                pair,
                                PairStatus::Trading(PairMetadata { pair_account: account, total_supply: total_lp }),
                            )
                            && final(self).bootstrap_end_status@ == old(self).bootstrap_end_status@.insert(pair, params)
                            && *final(self) == (Pallet {
                                ledger: final(self).ledger,
                                pair_statuses: final(self).pair_statuses,
                                bootstrap_end_status: final(self).bootstrap_end_status,
                                ..*old(self)
                            }),
                        Err(e) => r == Err::<Event, Error>(e) && with_balances(*old(self), *final(self), old(self).ledger@),
                    }
                },
                Err(e) => r == Err::<Event, Error>(e) && *final(self) == *old(self),
            },
            // before the deadline, or below a target, a bootstrap cannot end
            (match old(self).status_of(sorted(asset_0, asset_1)) {
                PairStatus::Bootstrap(q) => now < q.end_block_number || q.accumulated_supply.0 < q.target_supply.0
                    || q.accumulated_supply.1 < q.target_supply.1,
                _ => false,
            }) ==> r == Err::<Event, Error>(Error::UnqualifiedBootstrap),
    {
        let pair = Self::sort_asset_id(asset_0, asset_1);
        let bootstrap_parameter = match self.pair_statuses.get(&pair) {
            Some(PairStatus::Bootstrap(params)) => *params,
            _ => return Err(Error::NotInBootstrap),
        };
        if !(now >= bootstrap_parameter.end_block_number && bootstrap_parameter.accumulated_supply.0
            >= bootstrap_parameter.target_supply.0 && bootstrap_parameter.accumulated_supply.1
            >= bootstrap_parameter.target_supply.1) {
            return Err(Error::UnqualifiedBootstrap);
        }
        let total_lp_supply = calculate_liquidity(
            bootstrap_parameter.accumulated_supply.0,
            bootstrap_parameter.accumulated_supply.1,
            0,
            0,
            0,
        );
        if total_lp_supply == 0 {
            return Err(Error::Overflow);
        }
        let pair_account = Self::pair_account_id(pair.0, pair.1);
        let lp_asset_id = match self.lp_pairs.get(&pair) {
            Some(lp) => *lp,
            None => return Err(Error::PairNotExists),
        };
        let ops = vec![
            LedgerOp::Transfer {
                asset: pair.0,
                from: bootstrap_parameter.pair_account,
                to: pair_account,
                amount: bootstrap_parameter.accumulated_supply.0,
            },
            LedgerOp::Transfer {
                asset: pair.1,
                from: bootstrap_parameter.pair_account,
                to: pair_account,
                amount: bootstrap_parameter.accumulated_supply.1,
            },
            LedgerOp::Deposit { asset: lp_asset_id, to: pair_account, amount: total_lp_supply },
        ];
        proof {
            assert(pair_account == crate::pallet::pair_account(asset_0, asset_1));
            let ghost spec_ops = seq![
                LedgerOp::Transfer { asset: pair.0, from: bootstrap_parameter.pair_account, to: pair_account, amount: bootstrap_parameter.accumulated_supply.0 },
                LedgerOp::Transfer { asset: pair.1, from: bootstrap_parameter.pair_account, to: pair_account, amount: bootstrap_parameter.accumulated_supply.1 },
                LedgerOp::Deposit { asset: lp_asset_id, to: pair_account, amount: total_lp_supply },
            ];
            assert(ops@ =~= spec_ops);
        }
        match self.ledger.apply_all(&ops) {
            Ok(()) => {},
            Err(e) => return Err(e),
        }
        self.pair_statuses.set(pair, PairStatus::Trading(PairMetadata { pair_account, total_supply: total_lp_supply }));
        self.bootstrap_end_status.set(pair, bootstrap_parameter);
        Ok(Event::BootstrapEnd {
            asset_0: pair.0,
            asset_1: pair.1,
            accumulated_0: bootstrap_parameter.accumulated_supply.0,
            accumulated_1: bootstrap_parameter.accumulated_supply.1,
            total_lp: total_lp_supply,
        })
    }

    /// Whether `account` holds every minimum balance that the bootstrap of the pair asks
    /// of a contributor.
    pub fn bootstrap_check_limits(&self, asset_0: AssetId, asset_1: AssetId, account: AccountId) -> (r: bool)
        ensures
            r == (forall|i: int| 0 <= i < limits_of(*self, sorted(asset_0, asset_1)).len()
                ==> self.balance(#[trigger] limits_of(*self, sorted(asset_0, asset_1))[i].0, account)
                >= limits_of(*self, sorted(asset_0, asset_1))[i].1),
    {
        let pair = Self::sort_asset_id(asset_0, asset_1);
        match self.bootstrap_limits.get(&pair) {
            Some(limits) => {
                let mut i: usize = 0;
                while i < limits.len()
                    invariant
                        i <= limits@.len(),
                        pair == sorted(asset_0, asset_1),
                        limits@ == limits_of(*self, pair),
                        forall|j: int| 0 <= j < i ==> self.balance(#[trigger] limits@[j].0, account) >= limits@[j].1,
                    decreases limits@.len() - i,
                {
                    let (asset_id, limit) = limits[i];
                    if self.ledger.balance_of(asset_id, account) < limit {
                        assert(limits_of(*self, pair)[i as int].0 == asset_id);
                        return false;
                    }
                    i = i + 1;
                }
                true
            },
            None => true,
        }
    }

    /// The transfers that pay `owner` its part of each reward pledged to the bootstrap of
    /// the pair, for `share_lp` of `total_lp` shares, and the amounts paid, in the order of
    /// the stored list: ascending by asset, as creation and update store it.
    pub fn bootstrap_distribute_reward(
        &self,
        owner: AccountId,
        reward_holder: AccountId,
        asset_0: AssetId,
        asset_1: AssetId,
        share_lp: AssetBalance,
        total_lp: AssetBalance,
    ) -> (r: Result<(Vec<LedgerOp>, Vec<(AssetId, AssetBalance)>), Error>)
        ensures
            match reward_ops(rewards_of(*self, sorted(asset_0, asset_1)), owner, reward_holder, share_lp, total_lp) {
                Ok((ops, paid)) => r is Ok && r->Ok_0.0@ == ops && r->Ok_0.1@ == paid,
                Err(e) => r == Err::<(Vec<LedgerOp>, Vec<(AssetId, AssetBalance)>), Error>(e),
            },
    {
        let pair = Self::sort_asset_id(asset_0, asset_1);
        let mut ops: Vec<LedgerOp> = Vec::new();
        let mut distribute_rewards: Vec<(AssetId, AssetBalance)> = Vec::new();
        match self.bootstrap_rewards.get(&pair) {
            Some(rewards) => {
                let mut i: usize = 0;
                assert(rewards@.subrange(0, 0) =~= Seq::<(AssetId, AssetBalance)>::empty());
                while i < rewards.len()
                    invariant
                        i <= rewards@.len(),
                        pair == sorted(asset_0, asset_1),
                        rewards@ == rewards_of(*self, pair),
                        reward_ops(rewards@.subrange(0, i as int), owner, reward_holder, share_lp, total_lp)
                            == Ok::<(Seq<LedgerOp>, Seq<(AssetId, AssetBalance)>), Error>((ops@, distribute_rewards@)),
                    decreases rewards@.len() - i,
                {
                    let (asset_id, reward_amount) = rewards[i];
                    assert(rewards@.subrange(0, i + 1).drop_last() =~= rewards@.subrange(0, i as int));
                    assert(rewards@.subrange(0, i + 1).last() == rewards@[i as int]);
                    let owner_reward = match calculate_owner_reward(share_lp, reward_amount, total_lp) {
                        Ok(x) => x,
                        Err(e) => {
                            proof {
                                lemma_reward_ops_err(rewards@, owner, reward_holder, share_lp, total_lp, (i + 1) as nat);
                            }
                            return Err(e);
                        },
                    };
                    ops.push(LedgerOp::Transfer { asset: asset_id, from: reward_holder, to: owner, amount: owner_reward });
                    distribute_rewards.push((asset_id, owner_reward));
                    i = i + 1;
                }
                assert(rewards@.subrange(0, rewards@.len() as int) =~= rewards@);
            },
            None => {},
        }
        Ok((ops, distribute_rewards))
    }

    /// Pays `who`'s share of a successful bootstrap to `recipient`, with its part of the
    /// pledged rewards, and clears its contribution.
    pub fn do_bootstrap_claim(
        &mut self,
        who: AccountId,
        recipient: AccountId,
        asset_0: AssetId,
        asset_1: AssetId,
        now: BlockNumber,
    ) -> (r: Result<Vec<Event>, Error>)
        ensures
            match claim_plan(*old(self), who, recipient, asset_0, asset_1, now) {
                Ok((ops, c, lp_amount, paid)) => {
                    let pair = sorted(asset_0, asset_1);
                    match apply_ops(old(self).ledger@, ops) {
                        Ok(m) => r is Ok && final(self).ledger@ == m
                            && final(self).bootstrap_personal_supply@ == old(self).bootstrap_personal_supply@.remove((pair, who))
                            && *final(self) == (Pallet {
                                ledger: final(self).ledger,
                                bootstrap_personal_supply: final(self).bootstrap_personal_supply,
                                ..*old(self)
                            })
                            && claim_events(
                                r->Ok_0@,
                                Event::BootstrapClaim {
                                    pair_account: pair_account(asset_0, asset_1),
                                    who,
                                    recipient,
                                    asset_0: pair.0,
                                    asset_1: pair.1,
                                    amount_0: c.0,
                                    amount_1: c.1,
                                    claimed_lp: lp_amount,
                                },
                                pair,
                                old(self).bootstrap_end_status@[pair].pair_account,
                                paid,
                            ),
                        Err(e) => r == Err::<Vec<Event>, Error>(e) && with_balances(*old(self), *final(self), old(self).ledger@),
                    }
                },
                Err(e) => r == Err::<Vec<Event>, Error>(e) && *final(self) == *old(self),
            },
    {
        let pair = Self::sort_asset_id(asset_0, asset_1);
        match self.pair_statuses.get(&pair) {
            Some(PairStatus::Trading(_)) => {},
            _ => return Err(Error::NotInBootstrap),
        }
        let (amount_0_contribute, amount_1_contribute) = match self.bootstrap_personal_supply.get(&(pair, who)) {
            Some(c) => *c,
            None => return Err(Error::ZeroContribute),
        };
        let bootstrap_parameter = match self.bootstrap_end_status.get(&pair) {
            Some(params) => *params,
            None => return Err(Error::NotInBootstrap),
        };
        if Self::bootstrap_disable(&bootstrap_parameter, now) {
            return Err(Error::DisableBootstrap);
        }
        let accumulated = bootstrap_parameter.accumulated_supply;
        let claim_liquidity = match calculate_claim_liquidity(amount_0_contribute, amount_1_contribute, accumulated.0, accumulated.1) {
            Ok(x) => x,
            Err(e) => return Err(e),
        };
        let pair_account = Self::pair_account_id(pair.0, pair.1);
        let lp_asset_id = match self.lp_pairs.get(&pair) {
            Some(lp) => *lp,
            None => return Err(Error::PairNotExists),
        };
        let bootstrap_total_liquidity = calculate_liquidity(accumulated.0, accumulated.1, 0, 0, 0);
        let (reward_transfers, distribute_rewards) = match self.bootstrap_distribute_reward(
            who,
            bootstrap_parameter.pair_account,
            pair.0,
            pair.1,
            claim_liquidity,
            bootstrap_total_liquidity,
        ) {
            Ok(x) => x,
            Err(e) => return Err(e),
        };
        let mut ops: Vec<LedgerOp> = Vec::new();
        ops.push(LedgerOp::Transfer { asset: lp_asset_id, from: pair_account, to: recipient, amount: claim_liquidity });
        let ghost first = ops@;
        let mut j: usize = 0;
        while j < reward_transfers.len()
            invariant
                j <= reward_transfers@.len(),
                ops@ == first + reward_transfers@.subrange(0, j as int),
            decreases reward_transfers@.len() - j,
        {
            ops.push(reward_transfers[j]);
            j = j + 1;
            assert(ops@ =~= first + reward_transfers@.subrange(0, j as int));
        }
        proof {
            assert(reward_transfers@.subrange(0, reward_transfers@.len() as int) =~= reward_transfers@);
            assert(pair_account == crate::pallet::pair_account(asset_0, asset_1));
            let plan = claim_plan(*self, who, recipient, asset_0, asset_1, now);
            assert(ops@ =~= plan->Ok_0.0);
        }
        match self.ledger.apply_all(&ops) {
            Ok(()) => {},
            Err(e) => return Err(e),
        }
        self.bootstrap_personal_supply.remove((pair, who));
        let mut events: Vec<Event> = Vec::new();
        if distribute_rewards.len() > 0 {
            events.push(Event::DistributeReward {
                asset_0: pair.0,
                asset_1: pair.1,
                reward_holder: bootstrap_parameter.pair_account,
                rewards: distribute_rewards,
            });
        }
        events.push(Event::BootstrapClaim {
            pair_account,
            who,
            recipient,
            asset_0: pair.0,
            asset_1: pair.1,
            amount_0: amount_0_contribute,
            amount_1: amount_1_contribute,
            claimed_lp: claim_liquidity,
        });
        Ok(events)
    }

    /// Gives `who` back its whole contribution to a failed bootstrap.
    pub fn do_bootstrap_refund(&mut self, who: AccountId, asset_0: AssetId, asset_1: AssetId, now: BlockNumber) -> (r: Result<Event, Error>)
        ensures
            match refund_plan(*old(self), who, asset_0, asset_1, now) {
                Ok(c) => {
                    let pair = sorted(asset_0, asset_1);
                    let ops = seq![
                        LedgerOp::Transfer { asset: pair.0, from: AccountId::Pallet, to: who, amount: c.0 },
                        LedgerOp::Transfer { asset: pair.1, from: AccountId::Pallet, to: who, amount: c.1 },
                    ];
                    match apply_ops(old(self).ledger@, ops) {
                        Ok(m) => r == Ok::<Event, Error>(Event::BootstrapRefund {
                            pair_account: AccountId::Pallet,
                            who,
                            asset_0: pair.0,
                            asset_1: pair.1,
                            amount_0: c.0,
                            amount_1: c.1,
                        }) && final(self).ledger@ == m
                            && final(self).bootstrap_personal_supply@ == old(self).bootstrap_personal_supply@.remove((pair, who))
                            && (if old(self).status_of(pair) is Bootstrap {
                                final(self).pair_statuses@ == old(self).pair_statuses@.insert(
                                    pair,
                                    status_after_refund(old(self).status_of(pair), c),
                                )
                            } else {
                                final(self).pair_statuses == old(self).pair_statuses
                            })
                            && *final(self) == (Pallet {
                                ledger: final(self).ledger,
                                pair_statuses: final(self).pair_statuses,
                                bootstrap_personal_supply: final(self).bootstrap_personal_supply,
                                ..*old(self)
                            }),
                        Err(e) => r == Err::<Event, Error>(e) && with_balances(*old(self), *final(self), old(self).ledger@),
                    }
                },
                Err(e) => r == Err::<Event, Error>(e) && *final(self) == *old(self),
            },
    {
        let pair = Self::sort_asset_id(asset_0, asset_1);
        let status = match self.pair_statuses.get(&pair) {
            Some(s) => *s,
            None => PairStatus::Disable,
        };
        match status {
            PairStatus::Bootstrap(params) => {
                if !Self::bootstrap_disable(&params, now) {
                    return Err(Error::DenyRefund);
                }
            },
            _ => match self.bootstrap_end_status.get(&pair) {
                Some(params) => {
                    if !Self::bootstrap_disable(params, now) {
                        return Err(Error::DenyRefund);
                    }
                },
                None => return Err(Error::DenyRefund),
            },
        }
        let (amount_0_contribute, amount_1_contribute) = match self.bootstrap_personal_supply.get(&(pair, who)) {
            Some(c) => *c,
            None => return Err(Error::ZeroContribute),
        };
        match status {
            PairStatus::Bootstrap(params) => {
                if params.accumulated_supply.0 < amount_0_contribute || params.accumulated_supply.1 < amount_1_contribute {
                    return Err(Error::Overflow);
                }
            },
            _ => {},
        }
        let pair_account = Self::account_id();
        let ops = vec![
            LedgerOp::Transfer { asset: pair.0, from: pair_account, to: who, amount: amount_0_contribute },
            LedgerOp::Transfer { asset: pair.1, from: pair_account, to: who, amount: amount_1_contribute },
        ];
        proof {
            let ghost spec_ops = seq![
                LedgerOp::Transfer { asset: pair.0, from: AccountId::Pallet, to: who, amount: amount_0_contribute },
                LedgerOp::Transfer { asset: pair.1, from: AccountId::Pallet, to: who, amount: amount_1_contribute },
            ];
            assert(ops@ =~= spec_ops);
        }
        match self.ledger.apply_all(&ops) {
            Ok(()) => {},
            Err(e) => return Err(e),
        }
        match status {
            PairStatus::Bootstrap(params) => {
                let mut parameter = params;
                parameter.accumulated_supply = (
                    params.accumulated_supply.0 - amount_0_contribute,
                    params.accumulated_supply.1 - amount_1_contribute,
                );
                self.pair_statuses.set(pair, PairStatus::Bootstrap(parameter));
            },
            _ => {},
        }
        self.bootstrap_personal_supply.remove((pair, who));
        Ok(Event::BootstrapRefund {
            pair_account,
            who,
            asset_0: pair.0,
            asset_1: pair.1,
            amount_0: amount_0_contribute,
            amount_1: amount_1_contribute,
        })
    }
}

} // verus!
