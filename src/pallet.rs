//! The exchange's state, pair identities, the protocol fee and path quoting.
use crate::ledger::{balance_in, Balances, Ledger};
use crate::math::{
    amount_in_result, amount_out_result, fee_share, mul_u128,
    protocol_fee_liquidity,
};
use crate::store::Store;
use crate::types::{asset_lt, AccountId, AssetBalance, AssetId, BootstrapParameter, Error, PairStatus, PairMetadata};
use crate::wide::{wide, wide_ge, wide_is_zero, wide_value};
use primitive_types::U256;
use vstd::prelude::*;

verus! {

/// The status recorded for `pair`: disabled where nothing was recorded.
pub open spec fn status_in(st: Map<(AssetId, AssetId), PairStatus>, pair: (AssetId, AssetId)) -> PairStatus {
    if st.contains_key(pair) {
        st[pair]
    } else {
        PairStatus::Disable
    }
}

/// `q` is `p` after the fee step of `pair`: with the fee switched off, a recorded reserve
/// product is cleared; otherwise nothing changes.
pub open spec fn k_reset(p: Pallet, q: Pallet, pair: (AssetId, AssetId)) -> bool {
    if p.fee_to is None && p.k_last_of(pair) != 0 {
        q.k_last@.contains_key(pair) && q.k_last_of(pair) == 0 && q.k_last@.remove(pair) == p.k_last@.remove(pair)
    } else {
        q.k_last@ == p.k_last@
    }
}

/// `b` is `a` with its ledger replaced by one that holds the balances `m`.
pub open spec fn with_balances(a: Pallet, b: Pallet, m: Balances) -> bool {
    b.ledger@ == m && b == (Pallet { ledger: b.ledger, ..a })
}

/// A pair of assets in canonical order: the smaller first.
pub open spec fn sorted(a: AssetId, b: AssetId) -> (AssetId, AssetId) {
    if asset_lt(a, b) {
        (a, b)
    } else {
        (b, a)
    }
}

/// The reserve account of the pair of `a` and `b`, in either order.
pub open spec fn pair_account(a: AssetId, b: AssetId) -> AccountId {
    AccountId::Pair(sorted(a, b).0, sorted(a, b).1)
}

/// The exchange: its configuration, the asset ledger and the per-pair records.
pub struct Pallet {
    /// The chain this exchange runs on; its native currency pays a fee on swaps.
    pub self_para_id: u32,
    /// Who receives the protocol fee, if it is switched on.
    pub fee_to: Option<AccountId>,
    /// The protocol's cut of the trading fee, in thirtieths.
    pub fee_point: u8,
    pub ledger: Ledger,
    pub pair_statuses: Store<(AssetId, AssetId), PairStatus>,
    /// The bootstrap parameters as they stood when the bootstrap ended.
    pub bootstrap_end_status: Store<(AssetId, AssetId), BootstrapParameter>,
    /// The share asset of each pair.
    pub lp_pairs: Store<(AssetId, AssetId), AssetId>,
    /// The product of the reserves after the last liquidity event, while the fee is on.
    pub k_last: Store<(AssetId, AssetId), U256>,
    /// What each account contributed to a pair's bootstrap.
    pub bootstrap_personal_supply: Store<((AssetId, AssetId), AccountId), (AssetBalance, AssetBalance)>,
    /// The rewards pledged to a pair's bootstrap, per reward asset.
    pub bootstrap_rewards: Store<(AssetId, AssetId), Vec<(AssetId, AssetBalance)>>,
    /// The balances an account must hold to take part in a pair's bootstrap.
    pub bootstrap_limits: Store<(AssetId, AssetId), Vec<(AssetId, AssetBalance)>>,
}

impl Pallet {
    pub open spec fn wf(&self) -> bool {
        self.fee_point <= 30
    }

    pub open spec fn status_of(&self, pair: (AssetId, AssetId)) -> PairStatus {
        status_in(self.pair_statuses@, pair)
    }

    pub open spec fn balance(&self, asset: AssetId, who: AccountId) -> nat {
        balance_in(self.ledger@, asset, who)
    }

    pub open spec fn k_last_of(&self, pair: (AssetId, AssetId)) -> nat {
        if self.k_last@.contains_key(pair) {
            wide_value(self.k_last@[pair])
        } else {
            0
        }
    }

    /// The protocol fee due on a liquidity event of `pair` with reserves `(r0, r1)`.
    pub open spec fn fee_due(&self, r0: nat, r1: nat, pair: (AssetId, AssetId), total: nat) -> Result<AssetBalance, Error> {
        if self.fee_to is Some && self.k_last_of(pair) != 0 && self.fee_point > 0 {
            fee_share(r0, r1, total, self.k_last_of(pair), self.fee_point as nat)
        } else {
            Ok(0)
        }
    }

    pub open spec fn amounts_out(&self, amount: AssetBalance, path: Seq<AssetId>, n: nat) -> Result<
        Seq<AssetBalance>,
        Error,
    > {
        quote_path_out(self.ledger@, amount, path, n)
    }

    pub open spec fn amounts_in(&self, amount: AssetBalance, path: Seq<AssetId>, n: nat) -> Result<
        Seq<AssetBalance>,
        Error,
    > {
        quote_path_in(self.ledger@, amount, path, n)
    }
}

/// The reserves `(of a_in, of a_out)` held for the pair of `a_in` and `a_out`.
pub open spec fn reserves_in(m: Balances, a_in: AssetId, a_out: AssetId) -> (nat, nat) {
    (balance_in(m, a_in, pair_account(a_in, a_out)), balance_in(m, a_out, pair_account(a_in, a_out)))
}

/// The amounts along `path` after its first `n` hops, quoting forward from `amount`.
pub open spec fn quote_path_out(m: Balances, amount: AssetBalance, path: Seq<AssetId>, n: nat) -> Result<
    Seq<AssetBalance>,
    Error,
>
    decreases n,
{
    if n == 0 {
        Ok(seq![amount])
    } else {
        match quote_path_out(m, amount, path, (n - 1) as nat) {
            Ok(s) => {
                let (r_in, r_out) = reserves_in(m, path[n - 1], path[n as int]);
                match hop_out(s.last() as nat, r_in, r_out) {
                    Ok(o) => Ok(s.push(o)),
                    Err(e) => Err(e),
                }
            },
            Err(e) => Err(e),
        }
    }
}

/// The amounts along `path` after its last `n` hops, quoting backward from `amount`;
/// the latest quote comes last.
pub open spec fn quote_path_in(m: Balances, amount: AssetBalance, path: Seq<AssetId>, n: nat) -> Result<
    Seq<AssetBalance>,
    Error,
>
    decreases n,
{
    if n == 0 {
        Ok(seq![amount])
    } else {
        match quote_path_in(m, amount, path, (n - 1) as nat) {
            Ok(s) => {
                let i = path.len() - n;
                let (r_in, r_out) = reserves_in(m, path[i - 1], path[i]);
                match hop_in(s.last() as nat, r_in, r_out) {
                    Ok(a) => Ok(s.push(a)),
                    Err(e) => Err(e),
                }
            },
            Err(e) => Err(e),
        }
    }
}

/// Hop `i` of `amounts` along `path` pays out less than its pair holds and leaves the
/// product of that pair's reserves, as `m` records them, no lower.
pub open spec fn hop_keeps_product(m: Balances, path: Seq<AssetId>, amounts: Seq<AssetBalance>, i: int) -> bool {
    let (x, y) = reserves_in(m, path[i], path[i + 1]);
    amounts[i + 1] < y && (x + amounts[i]) * (y - amounts[i + 1]) >= x * y
}

/// `hop_keeps_product` for hop `h` of a path of `n` assets whose amounts `s` are listed
/// last hop first.
pub open spec fn rev_hop_keeps_product(m: Balances, path: Seq<AssetId>, s: Seq<AssetBalance>, n: int, h: int) -> bool {
    let (x, y) = reserves_in(m, path[h], path[h + 1]);
    s[n - 2 - h] < y && (x + s[n - 1 - h]) * (y - s[n - 2 - h]) >= x * y
}

/// Every hop of `amounts` along `path` keeps the product of its pair's reserves.
pub open spec fn hops_keep_product(m: Balances, path: Seq<AssetId>, amounts: Seq<AssetBalance>) -> bool {
    forall|i: int| 0 <= i < path.len() - 1 ==> #[trigger] hop_keeps_product(m, path, amounts, i)
}

/// One hop of a forward quote: selling `amount` into reserves `(r_in, r_out)`.
pub open spec fn hop_out(amount: nat, r_in: nat, r_out: nat) -> Result<AssetBalance, Error> {
    if r_in == 0 || r_out == 0 {
        Err(Error::InvalidPath)
    } else {
        match amount_out_result(amount, r_in, r_out) {
            Ok(o) => if o == 0 {
                Err(Error::InvalidPath)
            } else if r_in + amount > u128::MAX {
                Err(Error::Overflow)
            } else {
                Ok(o)
            },
            Err(e) => Err(e),
        }
    }
}

/// One hop of a backward quote: buying `amount` out of reserves `(r_in, r_out)`.
pub open spec fn hop_in(amount: nat, r_in: nat, r_out: nat) -> Result<AssetBalance, Error> {
    if r_in == 0 || r_out == 0 {
        Err(Error::InvalidPath)
    } else {
        match amount_in_result(amount, r_in, r_out) {
            Ok(a) => if a <= 1 {
                Err(Error::InvalidPath)
            } else if r_in + a > u128::MAX {
                Err(Error::Overflow)
            } else {
                Ok(a)
            },
            Err(e) => Err(e),
        }
    }
}


/// Once a forward quote fails, every longer one fails the same way.
pub proof fn lemma_amounts_out_err(b: Balances, amount: AssetBalance, path: Seq<AssetId>, n: nat, m: nat)
    requires
        n <= m,
        quote_path_out(b, amount, path, n) is Err,
    ensures
        quote_path_out(b, amount, path, m) == quote_path_out(b, amount, path, n),
    decreases m - n,
{
    if n < m {
        lemma_amounts_out_err(b, amount, path, n, (m - 1) as nat);
    }
}

/// Once a backward quote fails, every longer one fails the same way.
pub proof fn lemma_amounts_in_err(b: Balances, amount: AssetBalance, path: Seq<AssetId>, n: nat, m: nat)
    requires
        n <= m,
        quote_path_in(b, amount, path, n) is Err,
    ensures
        quote_path_in(b, amount, path, m) == quote_path_in(b, amount, path, n),
    decreases m - n,
{
    if n < m {
        lemma_amounts_in_err(b, amount, path, n, (m - 1) as nat);
    }
}

/// The amounts of a forward quote: one per asset of the path, the first being `amount`.
pub proof fn lemma_amounts_out_len(b: Balances, amount: AssetBalance, path: Seq<AssetId>, n: nat)
    requires
        quote_path_out(b, amount, path, n) is Ok,
    ensures
        quote_path_out(b, amount, path, n)->Ok_0.len() == n + 1,
        quote_path_out(b, amount, path, n)->Ok_0[0] == amount,
    decreases n,
{
    if n > 0 {
        lemma_amounts_out_len(b, amount, path, (n - 1) as nat);
    }
}

/// The amounts of a backward quote: one per asset of the path, the first being `amount`.
pub proof fn lemma_amounts_in_len(b: Balances, amount: AssetBalance, path: Seq<AssetId>, n: nat)
    requires
        quote_path_in(b, amount, path, n) is Ok,
    ensures
        quote_path_in(b, amount, path, n)->Ok_0.len() == n + 1,
        quote_path_in(b, amount, path, n)->Ok_0[0] == amount,
    decreases n,
{
    if n > 0 {
        lemma_amounts_in_len(b, amount, path, (n - 1) as nat);
    }
}

impl Pallet {
    /// An exchange with no pairs, no balances and the protocol fee off.
    pub fn new(self_para_id: u32) -> (r: Self)
        ensures
            r.wf(),
            r.self_para_id == self_para_id,
            r.fee_to is None,
            r.ledger@ == Map::<(AssetId, AccountId), AssetBalance>::empty(),
            r.pair_statuses@ == Map::<(AssetId, AssetId), PairStatus>::empty(),
            r.lp_pairs@ == Map::<(AssetId, AssetId), AssetId>::empty(),
            r.bootstrap_personal_supply@ == Map::<((AssetId, AssetId), AccountId), (AssetBalance, AssetBalance)>::empty(),
            r.bootstrap_end_status@ == Map::<(AssetId, AssetId), BootstrapParameter>::empty(),
            r.k_last@ == Map::<(AssetId, AssetId), U256>::empty(),
            r.bootstrap_rewards@ == Map::<(AssetId, AssetId), Vec<(AssetId, AssetBalance)>>::empty(),
            r.bootstrap_limits@ == Map::<(AssetId, AssetId), Vec<(AssetId, AssetBalance)>>::empty(),
    {
        Pallet {
            self_para_id,
            fee_to: None,
            fee_point: 0,
            ledger: Ledger::new(),
            pair_statuses: Store::new(),
            bootstrap_end_status: Store::new(),
            lp_pairs: Store::new(),
            k_last: Store::new(),
            bootstrap_personal_supply: Store::new(),
            bootstrap_rewards: Store::new(),
            bootstrap_limits: Store::new(),
        }
    }

    /// Sets who receives the protocol fee and its size; a size above thirty is refused.
    pub fn set_fee_meta(&mut self, fee_to: Option<AccountId>, fee_point: u8) -> (r: Result<(), Error>)
        ensures
            r is Ok <==> fee_point <= 30,
            r is Ok ==> (*final(self) == Pallet { fee_to, fee_point, ..*old(self) }),
            r is Err ==> r == Err::<(), Error>(Error::InvalidFeePoint) && *final(self) == *old(self),
    {
        if fee_point > 30 {
            return Err(Error::InvalidFeePoint);
        }
        self.fee_to = fee_to;
        self.fee_point = fee_point;
        Ok(())
    }

    /// The exchange's own account.
    pub fn account_id() -> (r: AccountId)
        ensures
            r == AccountId::Pallet,
    {
        AccountId::Pallet
    }

    /// The reserve account of the pair of `asset_0` and `asset_1`, in either order.
    pub fn pair_account_id(asset_0: AssetId, asset_1: AssetId) -> (r: AccountId)
        ensures
            r == pair_account(asset_0, asset_1),
    {
        let (a0, a1) = Self::sort_asset_id(asset_0, asset_1);
        AccountId::Pair(a0, a1)
    }

    /// The two assets in canonical order.
    pub fn sort_asset_id(asset_0: AssetId, asset_1: AssetId) -> (r: (AssetId, AssetId))
        ensures
            r == sorted(asset_0, asset_1),
    {
        if asset_0.less_than(&asset_1) {
            (asset_0, asset_1)
        } else {
            (asset_1, asset_0)
        }
    }

    /// The share asset of the pair of `asset_0` and `asset_1`, in either order.
    pub fn lp_asset_id(&self, asset_0: &AssetId, asset_1: &AssetId) -> (r: Option<AssetId>)
        ensures
            r == (if self.lp_pairs@.contains_key(sorted(*asset_0, *asset_1)) {
                Some(self.lp_pairs@[sorted(*asset_0, *asset_1)])
            } else {
                None
            }),
    {
        match self.lp_pairs.get(&Self::sort_asset_id(*asset_0, *asset_1)) {
            Some(lp) => Some(*lp),
            None => None,
        }
    }

    /// Records `lp_asset` as the share asset of the pair of `asset_0` and `asset_1`.
    pub fn mutate_lp_pairs(&mut self, asset_0: AssetId, asset_1: AssetId, lp_asset: AssetId)
        ensures
            *final(self) == (Pallet {
                lp_pairs: final(self).lp_pairs,
                ..*old(self)
            }),
            final(self).lp_pairs@ == old(self).lp_pairs@.insert(sorted(asset_0, asset_1), lp_asset),
    {
        self.lp_pairs.set(Self::sort_asset_id(asset_0, asset_1), lp_asset);
    }

    /// Records `last` as the reserve product of the pair of `asset_0` and `asset_1`.
    pub fn mutate_k_last(&mut self, asset_0: AssetId, asset_1: AssetId, last: U256)
        ensures
            *final(self) == (Pallet {
                k_last: final(self).k_last,
                ..*old(self)
            }),
            final(self).k_last@ == old(self).k_last@.insert(sorted(asset_0, asset_1), last),
    {
        self.k_last.set(Self::sort_asset_id(asset_0, asset_1), last);
    }

    /// Opens trading on the pair of `asset_0` and `asset_1` with no shares out.
    pub fn create_pair(&mut self, asset_0: AssetId, asset_1: AssetId, lp_asset: AssetId) -> (r: Result<(), Error>)
        ensures
            r is Ok <==> old(self).status_of(sorted(asset_0, asset_1)) is Disable,
            r is Err ==> r == Err::<(), Error>(Error::PairAlreadyExists) && *final(self) == *old(self),
            r is Ok ==> final(self).pair_statuses@ == old(self).pair_statuses@.insert(
                sorted(asset_0, asset_1),
                PairStatus::Trading(PairMetadata { pair_account: pair_account(asset_0, asset_1), total_supply: 0 }),
            ) && final(self).lp_pairs@ == old(self).lp_pairs@.insert(sorted(asset_0, asset_1), lp_asset)
              && *final(self) == (Pallet {
                  pair_statuses: final(self).pair_statuses,
                  lp_pairs: final(self).lp_pairs,
                  ..*old(self)
              }),
    {
        let pair = Self::sort_asset_id(asset_0, asset_1);
        match self.pair_statuses.get(&pair) {
            Some(PairStatus::Disable) | None => {},
            _ => return Err(Error::PairAlreadyExists),
        }
        let pair_account = Self::pair_account_id(asset_0, asset_1);
        self.pair_statuses.set(pair, PairStatus::Trading(PairMetadata { pair_account, total_supply: 0 }));
        self.lp_pairs.set(pair, lp_asset);
        Ok(())
    }

    /// The shares due to the fee recipient before a liquidity event of the pair of
    /// `asset_0` and `asset_1`, with reserves `(reserve_0, reserve_1)` and
    /// `total_liquidity` shares out.
    pub fn protocol_fee_due(
        &self,
        reserve_0: AssetBalance,
        reserve_1: AssetBalance,
        asset_0: AssetId,
        asset_1: AssetId,
        total_liquidity: AssetBalance,
    ) -> (r: Result<AssetBalance, Error>)
        requires
            self.wf(),
        ensures
            r == self.fee_due(reserve_0 as nat, reserve_1 as nat, sorted(asset_0, asset_1), total_liquidity as nat),
    {
        if self.fee_to.is_none() || self.fee_point == 0 {
            return Ok(0);
        }
        let k = match self.k_last.get(&Self::sort_asset_id(asset_0, asset_1)) {
            Some(k) => *k,
            None => return Ok(0),
        };
        if wide_is_zero(&k) {
            return Ok(0);
        }
        protocol_fee_liquidity(reserve_0, reserve_1, total_liquidity, k, self.fee_point)
    }

    /// The fee step of a liquidity event: the shares due to the fee recipient, as
    /// `protocol_fee_due` gives them; with the fee switched off, a recorded reserve product
    /// is cleared.
    pub fn mint_protocol_fee(
        &mut self,
        reserve_0: AssetBalance,
        reserve_1: AssetBalance,
        asset_0: AssetId,
        asset_1: AssetId,
        total_liquidity: AssetBalance,
    ) -> (r: Result<AssetBalance, Error>)
        requires
            old(self).wf(),
        ensures
            r == old(self).fee_due(reserve_0 as nat, reserve_1 as nat, sorted(asset_0, asset_1), total_liquidity as nat),
            k_reset(*old(self), *final(self), sorted(asset_0, asset_1)),
            *final(self) == (Pallet { k_last: final(self).k_last, ..*old(self) }),
    {
        let fee = self.protocol_fee_due(reserve_0, reserve_1, asset_0, asset_1, total_liquidity);
        if self.fee_to.is_none() {
            let pair = Self::sort_asset_id(asset_0, asset_1);
            let stale = match self.k_last.get(&pair) {
                Some(k) => !wide_is_zero(k),
                None => false,
            };
            if stale {
                let ghost before = self.k_last@;
                self.mutate_k_last(asset_0, asset_1, wide(0));
                assert(self.k_last@.remove(pair) =~= before.remove(pair));
            }
        }
        fee
    }

    /// The amounts along `path` when `amount_in` of its first asset is sold through it.
    pub fn get_amount_out_by_path(&self, amount_in: AssetBalance, path: &[AssetId]) -> (r: Result<
        Vec<AssetBalance>,
        Error,
    >)
        ensures
            path@.len() < 2 ==> r == Err::<Vec<AssetBalance>, Error>(Error::InvalidPath),
            path@.len() >= 2 ==> match self.amounts_out(amount_in, path@, (path@.len() - 1) as nat) {
                Ok(s) => r is Ok && r->Ok_0@ == s,
                Err(e) => r == Err::<Vec<AssetBalance>, Error>(e),
            },
            r is Ok ==> hops_keep_product(self.ledger@, path@, r->Ok_0@),
    {
        if path.len() < 2 {
            return Err(Error::InvalidPath);
        }
        let len = path.len() - 1;
        let mut out_vec: Vec<AssetBalance> = vec![amount_in];
        let mut i: usize = 0;
        assert(out_vec@ =~= seq![amount_in]);
        while i < len
            invariant
                len == path@.len() - 1,
                i <= len,
                self.amounts_out(amount_in, path@, i as nat) == Ok::<Seq<AssetBalance>, Error>(out_vec@),
                out_vec@.len() == i + 1,
                forall|j: int| 0 <= j < i ==> #[trigger] hop_keeps_product(self.ledger@, path@, out_vec@, j),
            decreases len - i,
        {
            proof {
                lemma_amounts_out_len(self.ledger@, amount_in, path@, i as nat);
            }
            let pair_account = Self::pair_account_id(path[i], path[i + 1]);
            let reserve_0 = self.ledger.balance_of(path[i], pair_account);
            let reserve_1 = self.ledger.balance_of(path[i + 1], pair_account);
            let current = out_vec[i];
            assert(current == out_vec@.last());
            if reserve_1 == 0 || reserve_0 == 0 {
                proof {
                    lemma_amounts_out_err(self.ledger@, amount_in, path@, (i + 1) as nat, len as nat);
                }
                return Err(Error::InvalidPath);
            }
            let amount = match Self::get_amount_out(current, reserve_0, reserve_1) {
                Ok(a) => a,
                Err(e) => {
                    proof {
                        lemma_amounts_out_err(self.ledger@, amount_in, path@, (i + 1) as nat, len as nat);
                    }
                    return Err(e);
                },
            };
            if amount == 0 {
                proof {
                    lemma_amounts_out_err(self.ledger@, amount_in, path@, (i + 1) as nat, len as nat);
                }
                return Err(Error::InvalidPath);
            }
            let invariant_before_swap = mul_u128(reserve_0, reserve_1);
            if reserve_0 > u128::MAX - current {
                proof {
                    lemma_amounts_out_err(self.ledger@, amount_in, path@, (i + 1) as nat, len as nat);
                }
                return Err(Error::Overflow);
            }
            let reserve_0_after_swap = reserve_0 + current;
            proof {
                crate::math::lemma_sell_keeps_product(current as nat, reserve_0 as nat, reserve_1 as nat);
            }
            let reserve_1_after_swap = reserve_1 - amount;
            let invariant_after_swap = mul_u128(reserve_1_after_swap, reserve_0_after_swap);
            proof {
                assert(reserve_1_after_swap * reserve_0_after_swap == reserve_0_after_swap * reserve_1_after_swap) by (nonlinear_arith);
            }
            if !wide_ge(&invariant_after_swap, &invariant_before_swap) {
                return Err(Error::InvariantCheckFailed);
            }
            let ghost before = out_vec@;
            out_vec.push(amount);
            proof {
                crate::math::lemma_quote_out_below_reserve(current as nat, reserve_0 as nat, reserve_1 as nat);
                assert forall|j: int| 0 <= j < i + 1 implies #[trigger] hop_keeps_product(self.ledger@, path@, out_vec@, j) by {
                    if j < i {
                        assert(hop_keeps_product(self.ledger@, path@, before, j));
                        assert(out_vec@[j] == before[j] && out_vec@[j + 1] == before[j + 1]);
                    }
                }
            }
            i = i + 1;
        }
        Ok(out_vec)
    }

    /// The amounts along `path` when `amount_out` of its last asset is bought through it.
    pub fn get_amount_in_by_path(&self, amount_out: AssetBalance, path: &[AssetId]) -> (r: Result<
        Vec<AssetBalance>,
        Error,
    >)
        ensures
            path@.len() < 2 ==> r == Err::<Vec<AssetBalance>, Error>(Error::InvalidPath),
            path@.len() >= 2 ==> match self.amounts_in(amount_out, path@, (path@.len() - 1) as nat) {
                Ok(s) => r is Ok && r->Ok_0@ == s.reverse(),
                Err(e) => r == Err::<Vec<AssetBalance>, Error>(e),
            },
            r is Ok ==> hops_keep_product(self.ledger@, path@, r->Ok_0@),
    {
        let len = path.len();
        if len < 2 {
            return Err(Error::InvalidPath);
        }
        let mut i = len - 1;
        let mut out_vec: Vec<AssetBalance> = vec![amount_out];
        assert(out_vec@ =~= seq![amount_out]);
        while i > 0
            invariant
                len == path@.len(),
                i < len,
                self.amounts_in(amount_out, path@, (len - 1 - i) as nat) == Ok::<Seq<AssetBalance>, Error>(out_vec@),
                out_vec@.len() == len - i,
                forall|h: int| i <= h < len - 1 ==> #[trigger] rev_hop_keeps_product(self.ledger@, path@, out_vec@, len as int, h),
            decreases i,
        {
            let ghost n = (len - 1 - i) as nat;
            proof {
                lemma_amounts_in_len(self.ledger@, amount_out, path@, n);
            }
            let account = Self::pair_account_id(path[i], path[i - 1]);
            let reserve_0 = self.ledger.balance_of(path[i], account);
            let reserve_1 = self.ledger.balance_of(path[i - 1], account);
            let current = out_vec[len - 1 - i];
            assert(current == out_vec@.last());
            if reserve_1 == 0 || reserve_0 == 0 {
                proof {
                    lemma_pair_account_symmetric(path@[i as int], path@[i - 1]);
                    lemma_amounts_in_err(self.ledger@, amount_out, path@, n + 1, (len - 1) as nat);
                }
                return Err(Error::InvalidPath);
            }
            proof {
                lemma_pair_account_symmetric(path@[i as int], path@[i - 1]);
            }
            let amount = match Self::get_amount_in(current, reserve_1, reserve_0) {
                Ok(a) => a,
                Err(e) => {
                    proof {
                        lemma_amounts_in_err(self.ledger@, amount_out, path@, n + 1, (len - 1) as nat);
                    }
                    return Err(e);
                },
            };
            if amount <= 1 {
                proof {
                    lemma_amounts_in_err(self.ledger@, amount_out, path@, n + 1, (len - 1) as nat);
                }
                return Err(Error::InvalidPath);
            }
            let invariant_before_swap = mul_u128(reserve_0, reserve_1);
            if reserve_1 > u128::MAX - amount {
                proof {
                    lemma_amounts_in_err(self.ledger@, amount_out, path@, n + 1, (len - 1) as nat);
                }
                return Err(Error::Overflow);
            }
            let reserve_1_after_swap = reserve_1 + amount;
            let reserve_0_after_swap = reserve_0 - current;
            proof {
                crate::math::lemma_buy_keeps_product(current as nat, reserve_1 as nat, reserve_0 as nat);
                assert(reserve_0 * reserve_1 == reserve_1 * reserve_0) by (nonlinear_arith);
            }
            let invariant_after_swap = mul_u128(reserve_1_after_swap, reserve_0_after_swap);
            if !wide_ge(&invariant_after_swap, &invariant_before_swap) {
                return Err(Error::InvariantCheckFailed);
            }
            let ghost before = out_vec@;
            out_vec.push(amount);
            proof {
                assert forall|h: int| i - 1 <= h < len - 1 implies #[trigger] rev_hop_keeps_product(self.ledger@, path@, out_vec@, len as int, h) by {
                    if h >= i {
                        assert(rev_hop_keeps_product(self.ledger@, path@, before, len as int, h));
                        assert(out_vec@[len - 1 - h] == before[len - 1 - h] && out_vec@[len - 2 - h] == before[len - 2 - h]);
                    }
                }
            }
            i = i - 1;
        }
        proof {
            lemma_amounts_in_len(self.ledger@, amount_out, path@, (len - 1) as nat);
        }
        let reversed = reverse_amounts(&out_vec);
        proof {
            assert forall|h: int| 0 <= h < path@.len() - 1 implies #[trigger] hop_keeps_product(self.ledger@, path@, reversed@, h) by {
                assert(rev_hop_keeps_product(self.ledger@, path@, out_vec@, len as int, h));
                assert(reversed@[h] == out_vec@[len - 1 - h] && reversed@[h + 1] == out_vec@[len - 2 - h]);
            }
        }
        Ok(reversed)
    }
}


/// A hop that a forward quote accepts leaves its pair's reserve product no lower: the
/// input joins one reserve and the output leaves the other.
pub proof fn lemma_hop_out_keeps_product(amount: nat, r_in: nat, r_out: nat)
    requires
        r_out <= u128::MAX,
        hop_out(amount, r_in, r_out) is Ok,
    ensures
        ({
            let o = hop_out(amount, r_in, r_out)->Ok_0 as nat;
            o < r_out && (r_in + amount) * (r_out - o) >= r_in * r_out
        }),
{
    crate::math::lemma_quote_out_below_reserve(amount, r_in, r_out);
    crate::math::lemma_sell_keeps_product(amount, r_in, r_out);
}

/// A hop that a backward quote accepts leaves its pair's reserve product no lower.
pub proof fn lemma_hop_in_keeps_product(amount: nat, r_in: nat, r_out: nat)
    requires
        hop_in(amount, r_in, r_out) is Ok,
    ensures
        amount < r_out,
        (r_in + hop_in(amount, r_in, r_out)->Ok_0) * (r_out - amount) >= r_in * r_out,
{
    crate::math::lemma_buy_keeps_product(amount, r_in, r_out);
}

/// Quoting the path `[a, b, c]` forward gives the two single-hop quotes composed, each on
/// the reserves of its own pair.
pub proof fn lemma_two_hop_path(m: Balances, amount: AssetBalance, a: AssetId, b: AssetId, c: AssetId)
    ensures
        quote_path_out(m, amount, seq![a, b, c], 2) == match hop_out(amount as nat, reserves_in(m, a, b).0, reserves_in(m, a, b).1) {
            Ok(x) => match hop_out(x as nat, reserves_in(m, b, c).0, reserves_in(m, b, c).1) {
                Ok(y) => Ok(seq![amount, x, y]),
                Err(e) => Err(e),
            },
            Err(e) => Err(e),
        },
        quote_path_out(m, amount, seq![a, b, c], 2) is Ok ==> {
            let s = quote_path_out(m, amount, seq![a, b, c], 2)->Ok_0;
            &&& Ok::<AssetBalance, Error>(s[1]) == amount_out_result(amount as nat, reserves_in(m, a, b).0, reserves_in(m, a, b).1)
            &&& Ok::<AssetBalance, Error>(s[2]) == amount_out_result(s[1] as nat, reserves_in(m, b, c).0, reserves_in(m, b, c).1)
        },
{
    let path = seq![a, b, c];
    assert(path[0] == a && path[1] == b && path[2] == c);
    let one = quote_path_out(m, amount, path, 1);
    assert(quote_path_out(m, amount, path, 0) == Ok::<Seq<AssetBalance>, Error>(seq![amount]));
    assert(seq![amount].last() == amount);
    if one is Ok {
        let s1 = one->Ok_0;
        assert(s1 =~= seq![amount, s1[1]]);
        assert(s1.last() == s1[1]);
        let two = quote_path_out(m, amount, path, 2);
        if two is Ok {
            assert(two->Ok_0 =~= seq![amount, s1[1], two->Ok_0[2]]);
        }
    }
}

/// The pair account does not depend on the order of the two assets.
pub proof fn lemma_pair_account_symmetric(a: AssetId, b: AssetId)
    ensures
        pair_account(a, b) == pair_account(b, a),
{
}

/// The amounts in reverse order.
fn reverse_amounts(v: &Vec<AssetBalance>) -> (r: Vec<AssetBalance>)
    ensures
        r@ == v@.reverse(),
{
    let mut r: Vec<AssetBalance> = Vec::new();
    let mut i = v.len();
    while i > 0
        invariant
            i <= v@.len(),
            r@ == v@.subrange(i as int, v@.len() as int).reverse(),
        decreases i,
    {
        i = i - 1;
        r.push(v[i]);
        assert(r@ =~= v@.subrange(i as int, v@.len() as int).reverse());
    }
    assert(v@.subrange(0, v@.len() as int) =~= v@);
    r
}

} // verus!
