//! Liquidity provision and multi-hop swaps on trading pairs.
use crate::ledger::{apply_op, apply_ops, balance_in, Balances, Ledger, LedgerOp};
use crate::store::Store;
use crate::math::{added_amounts, calculate_liquidity, calculate_share_amounts, mint_amount, mul_u128, share_amount};
use crate::pallet::{k_reset, with_balances, pair_account, quote_path_in, quote_path_out, sorted, status_in, Pallet};
use crate::types::{AccountId, AssetBalance, AssetId, Error, Event, PairMetadata, PairStatus};
use vstd::prelude::*;

verus! {

/// The balances after one hop pays `(amount_0, amount_1)` out of `account` to `to`.
pub open spec fn pair_swap_result(
    st: Map<(AssetId, AssetId), PairStatus>,
    m: Balances,
    asset_0: AssetId,
    asset_1: AssetId,
    account: AccountId,
    amount_0: AssetBalance,
    amount_1: AssetBalance,
    to: AccountId,
) -> Result<Balances, Error> {
    if !(status_in(st, sorted(asset_0, asset_1)) is Trading) {
        Err(Error::InvalidStatus)
    } else if amount_0 > balance_in(m, asset_0, account) || amount_1 > balance_in(m, asset_1, account) {
        Err(Error::InsufficientPairReserve)
    } else {
        let first = if amount_0 > 0 {
            apply_op(m, LedgerOp::Transfer { asset: asset_0, from: account, to, amount: amount_0 })
        } else {
            Ok(m)
        };
        match first {
            Ok(m1) => if amount_1 > 0 {
                apply_op(m1, LedgerOp::Transfer { asset: asset_1, from: account, to, amount: amount_1 })
            } else {
                Ok(m1)
            },
            Err(e) => Err(e),
        }
    }
}

/// Hop `i` of a swap: what it pays out of which pair, and to whom.
pub open spec fn hop_payout(amounts: Seq<AssetBalance>, path: Seq<AssetId>, recipient: AccountId, i: int) -> (
    AssetId,
    AssetId,
    AssetBalance,
    AssetBalance,
    AccountId,
) {
    let (a0, a1) = sorted(path[i], path[i + 1]);
    let (x0, x1) = if path[i] != a0 {
        (amounts[i + 1], 0)
    } else {
        (0, amounts[i + 1])
    };
    let to = if i < amounts.len() - 2 {
        pair_account(path[i + 1], path[i + 2])
    } else {
        recipient
    };
    (a0, a1, x0 as AssetBalance, x1 as AssetBalance, to)
}

/// The balances after the first `n` hops of a swap along `path` paying out `amounts`.
pub open spec fn swap_result(
    st: Map<(AssetId, AssetId), PairStatus>,
    m: Balances,
    amounts: Seq<AssetBalance>,
    path: Seq<AssetId>,
    recipient: AccountId,
    n: nat,
) -> Result<Balances, Error>
    decreases n,
{
    if n == 0 {
        Ok(m)
    } else {
        match swap_result(st, m, amounts, path, recipient, (n - 1) as nat) {
            Ok(m1) => {
                let (a0, a1, x0, x1, to) = hop_payout(amounts, path, recipient, n - 1);
                pair_swap_result(st, m1, a0, a1, AccountId::Pair(a0, a1), x0, x1, to)
            },
            Err(e) => Err(e),
        }
    }
}

pub proof fn lemma_swap_result_err(
    st: Map<(AssetId, AssetId), PairStatus>,
    m: Balances,
    amounts: Seq<AssetBalance>,
    path: Seq<AssetId>,
    recipient: AccountId,
    n: nat,
    k: nat,
)
    requires
        n <= k,
        swap_result(st, m, amounts, path, recipient, n) is Err,
    ensures
        swap_result(st, m, amounts, path, recipient, k) == swap_result(st, m, amounts, path, recipient, n),
    decreases k - n,
{
    if n < k {
        lemma_swap_result_err(st, m, amounts, path, recipient, n, (k - 1) as nat);
    }
}

/// What selling `amount_in` along `path` does: the balances afterwards and the amounts
/// along the path, or why it fails.
pub open spec fn swap_exact_outcome(
    p: Pallet,
    who: AccountId,
    amount_in: AssetBalance,
    amount_out_min: AssetBalance,
    path: Seq<AssetId>,
    recipient: AccountId,
) -> Result<(Balances, Seq<AssetBalance>), Error> {
    if path.len() < 2 {
        Err(Error::InvalidPath)
    } else {
        let native = path[0].spec_is_native(p.self_para_id);
        let fee = if native {
            amount_in / 200
        } else {
            0
        };
        let new_in = (amount_in - fee) as AssetBalance;
        let charged = if native {
            apply_op(p.ledger@, LedgerOp::Transfer { asset: path[0], from: who, to: AccountId::FeePot, amount: fee })
        } else {
            Ok(p.ledger@)
        };
        match charged {
            Ok(m0) => match quote_path_out(m0, new_in, path, (path.len() - 1) as nat) {
                Ok(amounts) => if amounts.last() < amount_out_min {
                    Err(Error::InsufficientTargetAmount)
                } else {
                    match apply_op(m0, LedgerOp::Transfer { asset: path[0], from: who, to: pair_account(path[0], path[1]), amount: new_in }) {
                        Ok(m1) => match swap_result(p.pair_statuses@, m1, amounts, path, recipient, (path.len() - 1) as nat) {
                            Ok(m2) => Ok((m2, amounts)),
                            Err(e) => Err(e),
                        },
                        Err(e) => Err(e),
                    }
                },
                Err(e) => Err(e),
            },
            Err(e) => Err(e),
        }
    }
}

/// An executed one-hop sale leaves the product of its pair's reserves no lower, where
/// neither the seller nor the recipient is the pair's own account.
pub proof fn lemma_executed_sale_keeps_product(
    p: Pallet,
    who: AccountId,
    amount_in: AssetBalance,
    amount_out_min: AssetBalance,
    a: AssetId,
    b: AssetId,
    recipient: AccountId,
)
    requires
        a != b,
        who != pair_account(a, b),
        recipient != pair_account(a, b),
        swap_exact_outcome(p, who, amount_in, amount_out_min, seq![a, b], recipient) is Ok,
    ensures
        ({
            let m = swap_exact_outcome(p, who, amount_in, amount_out_min, seq![a, b], recipient)->Ok_0.0;
            let account = pair_account(a, b);
            balance_in(m, a, account) * balance_in(m, b, account) >= p.balance(a, account) * p.balance(b, account)
        }),
{
    let path = seq![a, b];
    let account = pair_account(a, b);
    assert(path[0] == a && path[1] == b);
    let native = a.spec_is_native(p.self_para_id);
    let fee: AssetBalance = if native { amount_in / 200 } else { 0 };
    let new_in = (amount_in - fee) as AssetBalance;
    let m0 = if native {
        apply_op(p.ledger@, LedgerOp::Transfer { asset: a, from: who, to: AccountId::FeePot, amount: fee })->Ok_0
    } else {
        p.ledger@
    };
    let x = p.balance(a, account);
    let y = p.balance(b, account);
    assert(balance_in(m0, a, account) == x && balance_in(m0, b, account) == y);
    let s = quote_path_out(m0, new_in, path, 1)->Ok_0;
    assert(quote_path_out(m0, new_in, path, 0) == Ok::<Seq<AssetBalance>, Error>(seq![new_in]));
    assert(seq![new_in].last() == new_in);
    let o = crate::pallet::hop_out(new_in as nat, x, y)->Ok_0;
    assert(s =~= seq![new_in, o]);
    assert(s.last() == o);
    crate::pallet::lemma_hop_out_keeps_product(new_in as nat, x, y);
    let m1 = apply_op(m0, LedgerOp::Transfer { asset: a, from: who, to: account, amount: new_in })->Ok_0;
    assert(balance_in(m1, a, account) == x + new_in);
    assert(balance_in(m1, b, account) == y);
    let m = swap_exact_outcome(p, who, amount_in, amount_out_min, path, recipient)->Ok_0.0;
    let (a0, a1, x0, x1, to) = hop_payout(s, path, recipient, 0);
    assert(to == recipient);
    assert(AccountId::Pair(a0, a1) == account);
    assert(swap_result(p.pair_statuses@, m1, s, path, recipient, 0) == Ok::<Balances, Error>(m1));
    assert(swap_result(p.pair_statuses@, m1, s, path, recipient, 1) == pair_swap_result(p.pair_statuses@, m1, a0, a1, account, x0, x1, recipient));
    assert(balance_in(m, a, account) == x + new_in);
    assert(balance_in(m, b, account) == y - o);
}

/// What buying `amount_out` along `path` does: the balances afterwards and the amounts
/// along the path, or why it fails.
pub open spec fn swap_for_exact_outcome(
    p: Pallet,
    who: AccountId,
    amount_out: AssetBalance,
    amount_in_max: AssetBalance,
    path: Seq<AssetId>,
    recipient: AccountId,
) -> Result<(Balances, Seq<AssetBalance>), Error> {
    if path.len() < 2 {
        Err(Error::InvalidPath)
    } else {
        match quote_path_in(p.ledger@, amount_out, path, (path.len() - 1) as nat) {
            Ok(rev) => {
                let amounts = rev.reverse();
                if amounts[0] > amount_in_max {
                    Err(Error::ExcessiveSoldAmount)
                } else {
                    match apply_op(p.ledger@, LedgerOp::Transfer { asset: path[0], from: who, to: pair_account(path[0], path[1]), amount: amounts[0] }) {
                        Ok(m1) => match swap_result(p.pair_statuses@, m1, amounts, path, recipient, (path.len() - 1) as nat) {
                            Ok(m2) => Ok((m2, amounts)),
                            Err(e) => Err(e),
                        },
                        Err(e) => Err(e),
                    }
                }
            },
            Err(e) => Err(e),
        }
    }
}

/// An executed one-hop purchase leaves the product of its pair's reserves no lower, where
/// neither the buyer nor the recipient is the pair's own account.
pub proof fn lemma_executed_purchase_keeps_product(
    p: Pallet,
    who: AccountId,
    amount_out: AssetBalance,
    amount_in_max: AssetBalance,
    a: AssetId,
    b: AssetId,
    recipient: AccountId,
)
    requires
        a != b,
        who != pair_account(a, b),
        recipient != pair_account(a, b),
        swap_for_exact_outcome(p, who, amount_out, amount_in_max, seq![a, b], recipient) is Ok,
    ensures
        ({
            let m = swap_for_exact_outcome(p, who, amount_out, amount_in_max, seq![a, b], recipient)->Ok_0.0;
            let account = pair_account(a, b);
            balance_in(m, a, account) * balance_in(m, b, account) >= p.balance(a, account) * p.balance(b, account)
        }),
{
    let path = seq![a, b];
    let account = pair_account(a, b);
    assert(path[0] == a && path[1] == b);
    let x = p.balance(a, account);
    let y = p.balance(b, account);
    assert(quote_path_in(p.ledger@, amount_out, path, 0) == Ok::<Seq<AssetBalance>, Error>(seq![amount_out]));
    assert(seq![amount_out].last() == amount_out);
    let i = crate::pallet::hop_in(amount_out as nat, x, y)->Ok_0;
    let rev = quote_path_in(p.ledger@, amount_out, path, 1)->Ok_0;
    assert(rev =~= seq![amount_out, i]);
    let s = rev.reverse();
    assert(s =~= seq![i, amount_out]);
    crate::pallet::lemma_hop_in_keeps_product(amount_out as nat, x, y);
    let m1 = apply_op(p.ledger@, LedgerOp::Transfer { asset: a, from: who, to: account, amount: i })->Ok_0;
    assert(balance_in(m1, a, account) == x + i);
    assert(balance_in(m1, b, account) == y);
    let (a0, a1, x0, x1, to) = hop_payout(s, path, recipient, 0);
    assert(to == recipient);
    assert(AccountId::Pair(a0, a1) == account);
    assert(swap_result(p.pair_statuses@, m1, s, path, recipient, 0) == Ok::<Balances, Error>(m1));
    assert(swap_result(p.pair_statuses@, m1, s, path, recipient, 1) == pair_swap_result(
        p.pair_statuses@,
        m1,
        a0,
        a1,
        account,
        x0,
        x1,
        recipient,
    ));
    let m = swap_for_exact_outcome(p, who, amount_out, amount_in_max, path, recipient)->Ok_0.0;
    assert(balance_in(m, a, account) == x + i);
    assert(balance_in(m, b, account) == y - amount_out);
}

/// `e` reports a swap by `who` to `recipient` along `path` with `amounts`.
pub open spec fn is_swap_event(e: Event, who: AccountId, recipient: AccountId, path: Seq<AssetId>, amounts: Seq<AssetBalance>) -> bool {
    match e {
        Event::AssetSwap { who: w, recipient: rc, path: pv, amounts: av } => w == who && rc == recipient && pv@ == path && av@ == amounts,
        _ => false,
    }
}

fn copy_path(path: &[AssetId]) -> (r: Vec<AssetId>)
    ensures
        r@ == path@,
{
    let mut r: Vec<AssetId> = Vec::new();
    let mut i: usize = 0;
    while i < path.len()
        invariant
            i <= path@.len(),
            r@ == path@.subrange(0, i as int),
        decreases path@.len() - i,
    {
        r.push(path[i]);
        i = i + 1;
        assert(r@ =~= path@.subrange(0, i as int));
    }
    assert(path@.subrange(0, path@.len() as int) =~= path@);
    r
}

/// The ledger operations, the new pair record and the amounts `(amount_0, amount_1, shares)`
/// of adding liquidity, or why it fails before any balance moves.
pub open spec fn add_liquidity_plan(
    p: Pallet,
    who: AccountId,
    asset_0: AssetId,
    asset_1: AssetId,
    amount_0_desired: AssetBalance,
    amount_1_desired: AssetBalance,
    amount_0_min: AssetBalance,
    amount_1_min: AssetBalance,
) -> Result<(Seq<LedgerOp>, PairMetadata, (AssetBalance, AssetBalance, AssetBalance)), Error> {
    let pair = sorted(asset_0, asset_1);
    match p.status_of(pair) {
        PairStatus::Trading(meta) => {
            let account = meta.pair_account;
            let r0 = p.balance(asset_0, account);
            let r1 = p.balance(asset_1, account);
            match added_amounts(amount_0_desired, amount_1_desired, amount_0_min, amount_1_min, r0 as u128, r1 as u128) {
                Ok((x0, x1)) => if p.balance(asset_0, who) < x0 || p.balance(asset_1, who) < x1 {
                    Err(Error::InsufficientAssetBalance)
                } else if !p.lp_pairs@.contains_key(pair) {
                    Err(Error::PairNotExists)
                } else {
                    let lp = p.lp_pairs@[pair];
                    match p.fee_due(r0, r1, pair, meta.total_supply as nat) {
                    Err(e) => Err(e),
                    Ok(fee) => {
                    let fee_ops = if fee > 0 {
                        seq![LedgerOp::Deposit { asset: lp, to: p.fee_to->Some_0, amount: fee }]
                    } else {
                        Seq::empty()
                    };
                    if meta.total_supply + fee > u128::MAX {
                        Err(Error::Overflow)
                    } else {
                        let total = (meta.total_supply + fee) as AssetBalance;
                        let minted = mint_amount(x0 as nat, x1 as nat, r0, r1, total as nat) as AssetBalance;
                        if minted == 0 {
                            Err(Error::ZeroLiquidity)
                        } else if total + minted > u128::MAX {
                            Err(Error::Overflow)
                        } else {
                            Ok((
                                fee_ops + seq![
                                    LedgerOp::Deposit { asset: lp, to: who, amount: minted },
                                    LedgerOp::Transfer { asset: asset_0, from: who, to: account, amount: x0 },
                                    LedgerOp::Transfer { asset: asset_1, from: who, to: account, amount: x1 },
                                ],
                                PairMetadata { pair_account: account, total_supply: (total + minted) as AssetBalance },
                                (x0, x1, minted),
                            ))
                        }
                    }
                    },
                    }
                },
                Err(e) => Err(e),
            }
        },
        _ => Err(Error::InvalidStatus),
    }
}

/// The ledger operations, the new pair record and the amounts `(amount_0, amount_1)` of
/// removing liquidity, or why it fails before any balance moves.
pub open spec fn remove_liquidity_plan(
    p: Pallet,
    who: AccountId,
    asset_0: AssetId,
    asset_1: AssetId,
    liquidity: AssetBalance,
    amount_0_min: AssetBalance,
    amount_1_min: AssetBalance,
    recipient: AccountId,
) -> Result<(Seq<LedgerOp>, PairMetadata, (AssetBalance, AssetBalance)), Error> {
    let pair = sorted(asset_0, asset_1);
    match p.status_of(pair) {
        PairStatus::Trading(meta) => {
            let account = meta.pair_account;
            let r0 = p.balance(asset_0, account);
            let r1 = p.balance(asset_1, account);
            let x0 = share_amount(liquidity as nat, meta.total_supply as nat, r0) as AssetBalance;
            let x1 = share_amount(liquidity as nat, meta.total_supply as nat, r1) as AssetBalance;
            if x0 < amount_0_min || x1 < amount_1_min {
                Err(Error::InsufficientTargetAmount)
            } else if !p.lp_pairs@.contains_key(pair) {
                Err(Error::PairNotExists)
            } else {
                let lp = p.lp_pairs@[pair];
                match p.fee_due(r0, r1, pair, meta.total_supply as nat) {
                Err(e) => Err(e),
                Ok(fee) => {
                let fee_ops = if fee > 0 {
                    seq![LedgerOp::Deposit { asset: lp, to: p.fee_to->Some_0, amount: fee }]
                } else {
                    Seq::empty()
                };
                if meta.total_supply + fee > u128::MAX {
                    Err(Error::Overflow)
                } else if meta.total_supply + fee < liquidity {
                    Err(Error::InsufficientLiquidity)
                } else {
                    Ok((
                        fee_ops + seq![
                            LedgerOp::Withdraw { asset: lp, from: who, amount: liquidity },
                            LedgerOp::Transfer { asset: asset_0, from: account, to: recipient, amount: x0 },
                            LedgerOp::Transfer { asset: asset_1, from: account, to: recipient, amount: x1 },
                        ],
                        PairMetadata { pair_account: account, total_supply: (meta.total_supply + fee - liquidity) as AssetBalance },
                        (x0, x1),
                    ))
                }
                },
                }
            }
        },
        _ => Err(Error::InvalidStatus),
    }
}

/// How a liquidity event of `pair` on `account` leaves the recorded reserve product: set to
/// the new product while the fee is on, cleared when the fee is off, else untouched.
pub open spec fn k_after(p: Pallet, q: Pallet, asset_0: AssetId, asset_1: AssetId, account: AccountId) -> bool {
    let pair = sorted(asset_0, asset_1);
    if p.fee_to is Some && p.fee_point > 0 {
        q.k_last@.contains_key(pair) && q.k_last_of(pair) == q.balance(asset_0, account) * q.balance(asset_1, account)
            && q.k_last@.remove(pair) == p.k_last@.remove(pair)
    } else if p.fee_to is None && p.k_last_of(pair) != 0 {
        q.k_last@.contains_key(pair) && q.k_last_of(pair) == 0 && q.k_last@.remove(pair) == p.k_last@.remove(pair)
    } else {
        q.k_last@ == p.k_last@
    }
}

/// `q` is `p` after a liquidity event of `asset_0` and `asset_1` that left the balances `m`
/// and the pair record `meta`.
pub open spec fn liquidity_committed(p: Pallet, q: Pallet, asset_0: AssetId, asset_1: AssetId, m: Balances, meta: PairMetadata) -> bool {
    &&& q.ledger@ == m
    &&& q.pair_statuses@ == p.pair_statuses@.insert(sorted(asset_0, asset_1), PairStatus::Trading(meta))
    &&& k_after(p, q, asset_0, asset_1, meta.pair_account)
    &&& q == (Pallet { ledger: q.ledger, pair_statuses: q.pair_statuses, k_last: q.k_last, ..p })
}

/// Adding liquidity and at once removing the shares it minted pays back no more than was
/// deposited on either side, with the protocol fee off. The pair must hold two distinct
/// assets in an account other than the depositor's, and a first mint must find it empty.
pub proof fn lemma_add_then_remove_no_gain(
    p: Pallet,
    q: Pallet,
    who: AccountId,
    asset_0: AssetId,
    asset_1: AssetId,
    amount_0_desired: AssetBalance,
    amount_1_desired: AssetBalance,
    amount_0_min: AssetBalance,
    amount_1_min: AssetBalance,
    recipient: AccountId,
    m: Balances,
)
    requires
        p.fee_to is None,
        asset_0 != asset_1,
        add_liquidity_plan(p, who, asset_0, asset_1, amount_0_desired, amount_1_desired, amount_0_min, amount_1_min) is Ok,
        ({
            let (ops, meta, _) = add_liquidity_plan(p, who, asset_0, asset_1, amount_0_desired, amount_1_desired, amount_0_min, amount_1_min)->Ok_0;
            &&& apply_ops(p.ledger@, ops) == Ok::<Balances, Error>(m)
            &&& liquidity_committed(p, q, asset_0, asset_1, m, meta)
            &&& who != meta.pair_account
        }),
        match p.status_of(sorted(asset_0, asset_1)) {
            PairStatus::Trading(before) => before.total_supply == 0 ==> p.balance(asset_0, before.pair_account) == 0
                && p.balance(asset_1, before.pair_account) == 0,
            _ => true,
        },
    ensures
        ({
            let (x0, x1, minted) = add_liquidity_plan(p, who, asset_0, asset_1, amount_0_desired, amount_1_desired, amount_0_min, amount_1_min)->Ok_0.2;
            remove_liquidity_plan(q, who, asset_0, asset_1, minted, 0, 0, recipient) is Ok ==> {
                let (w0, w1) = remove_liquidity_plan(q, who, asset_0, asset_1, minted, 0, 0, recipient)->Ok_0.2;
                w0 <= x0 && w1 <= x1
            }
        }),
{
    let pair = sorted(asset_0, asset_1);
    let before = p.status_of(pair)->Trading_0;
    let account = before.pair_account;
    let r0 = p.balance(asset_0, account);
    let r1 = p.balance(asset_1, account);
    let plan = add_liquidity_plan(p, who, asset_0, asset_1, amount_0_desired, amount_1_desired, amount_0_min, amount_1_min)->Ok_0;
    let (ops, meta, amounts) = plan;
    let (x0, x1, minted) = amounts;
    let lp = p.lp_pairs@[pair];
    assert(p.fee_due(r0, r1, pair, before.total_supply as nat) == Ok::<AssetBalance, Error>(0));
    let ops3 = seq![
        LedgerOp::Deposit { asset: lp, to: who, amount: minted },
        LedgerOp::Transfer { asset: asset_0, from: who, to: account, amount: x0 },
        LedgerOp::Transfer { asset: asset_1, from: who, to: account, amount: x1 },
    ];
    assert(ops =~= ops3);
    assert(ops3.drop_last().drop_last().drop_last() =~= Seq::<LedgerOp>::empty());
    assert(ops3.drop_last().drop_last() =~= seq![ops3[0]]);
    assert(ops3.drop_last() =~= seq![ops3[0], ops3[1]]);
    assert(meta.pair_account == account);
    assert(apply_ops(p.ledger@, seq![ops3[0]]) == apply_op(p.ledger@, ops3[0])) by {
        assert(seq![ops3[0]].drop_last() =~= Seq::<LedgerOp>::empty());
        assert(seq![ops3[0]].last() == ops3[0]);
        assert(apply_ops(p.ledger@, Seq::<LedgerOp>::empty()) == Ok::<Balances, Error>(p.ledger@));
    }
    let m1 = apply_op(p.ledger@, ops3[0])->Ok_0;
    let m2 = apply_op(m1, ops3[1])->Ok_0;
    assert(apply_ops(p.ledger@, seq![ops3[0], ops3[1]]) == Ok::<Balances, Error>(m2) || apply_ops(p.ledger@, seq![ops3[0], ops3[1]]) is Err);
    assert(apply_ops(p.ledger@, seq![ops3[0], ops3[1]]) is Ok);
    assert(apply_op(p.ledger@, ops3[0]) is Ok);
    assert(apply_op(m1, ops3[1]) is Ok);
    assert(m == apply_op(m2, ops3[2])->Ok_0);
    assert(balance_in(m1, asset_0, account) == r0);
    assert(balance_in(m1, asset_1, account) == r1);
    assert(balance_in(m2, asset_0, account) == r0 + x0);
    assert(balance_in(m2, asset_1, account) == r1);
    assert(balance_in(m, asset_0, account) == r0 + x0);
    assert(balance_in(m, asset_1, account) == r1 + x1);
    assert(q.status_of(pair) == PairStatus::Trading(meta));
    assert(meta.total_supply == before.total_supply + minted);
    assert(q.fee_to is None && q.ledger@ == m && q.lp_pairs == p.lp_pairs);
    assert(q.balance(asset_0, account) == r0 + x0);
    assert(q.balance(asset_1, account) == r1 + x1);
    assert(q.fee_due((r0 + x0) as nat, (r1 + x1) as nat, pair, meta.total_supply as nat) == Ok::<AssetBalance, Error>(0));
    if before.total_supply == 0 {
        crate::math::lemma_root_exists((x0 * x1) as nat);
        crate::math::lemma_wide_product(x0 as nat, x1 as nat);
        crate::math::lemma_root_fits(crate::math::isqrt((x0 * x1) as nat), (x0 * x1) as nat);
    }
    assert(minted == mint_amount(x0 as nat, x1 as nat, r0, r1, before.total_supply as nat));
    crate::math::lemma_deposit_withdraw_no_gain(x0 as nat, x1 as nat, r0, r1, before.total_supply as nat);
}

impl Pallet {
    /// Records the new reserve product of a pair after a liquidity event, while the fee is on.
    fn update_k_last(&mut self, asset_0: AssetId, asset_1: AssetId, account: AccountId, k_before: Ghost<Pallet>)
        requires
            old(self).fee_to == k_before@.fee_to,
            old(self).fee_point == k_before@.fee_point,
            k_reset(k_before@, *old(self), sorted(asset_0, asset_1)),
        ensures
            k_after(k_before@, *final(self), asset_0, asset_1, account),
            *final(self) == (Pallet { k_last: final(self).k_last, ..*old(self) }),
    {
        let pair = Self::sort_asset_id(asset_0, asset_1);
        match self.fee_to {
            Some(_) => {
                if self.fee_point > 0 {
                    let reserve_0 = self.ledger.balance_of(asset_0, account);
                    let reserve_1 = self.ledger.balance_of(asset_1, account);
                    let last = mul_u128(reserve_0, reserve_1);
                    self.mutate_k_last(asset_0, asset_1, last);
                    assert(self.k_last@.remove(pair) =~= k_before@.k_last@.remove(pair));
                }
            },
            None => {},
        }
    }

    /// Deposits `asset_0` and `asset_1` from `who` into their trading pair for new shares.
    pub fn inner_add_liquidity(
        &mut self,
        who: AccountId,
        asset_0: AssetId,
        asset_1: AssetId,
        amount_0_desired: AssetBalance,
        amount_1_desired: AssetBalance,
        amount_0_min: AssetBalance,
        amount_1_min: AssetBalance,
    ) -> (r: Result<Event, Error>)
        requires
            old(self).wf(),
        ensures
            match add_liquidity_plan(*old(self), who, asset_0, asset_1, amount_0_desired, amount_1_desired, amount_0_min, amount_1_min) {
                Ok((ops, meta, (x0, x1, minted))) => match apply_ops(old(self).ledger@, ops) {
                    Ok(m) => r == Ok::<Event, Error>(Event::LiquidityAdded { who, asset_0, asset_1, amount_0: x0, amount_1: x1, liquidity: minted })
                        && liquidity_committed(*old(self), *final(self), asset_0, asset_1, m, meta),
                    Err(e) => r == Err::<Event, Error>(e) && with_balances(*old(self), *final(self), old(self).ledger@),
                },
                Err(e) => r == Err::<Event, Error>(e) && with_balances(*old(self), *final(self), old(self).ledger@),
            },
    {
        let ghost start = *self;
        let pair = Self::sort_asset_id(asset_0, asset_1);
        let status = match self.pair_statuses.get(&pair) {
            Some(PairStatus::Trading(status)) => *status,
            _ => return Err(Error::InvalidStatus),
        };
        let lp_account = status.pair_account;
        let reserve_0 = self.ledger.balance_of(asset_0, lp_account);
        let reserve_1 = self.ledger.balance_of(asset_1, lp_account);
        let (amount_0, amount_1) = match Self::calculate_added_amount(
            amount_0_desired,
            amount_1_desired,
            amount_0_min,
            amount_1_min,
            reserve_0,
            reserve_1,
        ) {
            Ok(a) => a,
            Err(e) => return Err(e),
        };
        let balance_asset_0 = self.ledger.balance_of(asset_0, who);
        let balance_asset_1 = self.ledger.balance_of(asset_1, who);
        if !(balance_asset_0 >= amount_0 && balance_asset_1 >= amount_1) {
            return Err(Error::InsufficientAssetBalance);
        }
        let lp_asset_id = match self.lp_pairs.get(&pair) {
            Some(lp) => *lp,
            None => return Err(Error::PairNotExists),
        };
        let mint_fee = match self.protocol_fee_due(reserve_0, reserve_1, asset_0, asset_1, status.total_supply) {
            Ok(f) => f,
            Err(e) => return Err(e),
        };
        let mut total_supply = status.total_supply;
        let mut ops: Vec<LedgerOp> = Vec::new();
        if mint_fee > 0 {
            match self.fee_to {
                Some(fee_to) => {
                    ops.push(LedgerOp::Deposit { asset: lp_asset_id, to: fee_to, amount: mint_fee });
                },
                None => {},
            }
            if total_supply > u128::MAX - mint_fee {
                return Err(Error::Overflow);
            }
            total_supply = total_supply + mint_fee;
        }
        let mint_liquidity = calculate_liquidity(amount_0, amount_1, reserve_0, reserve_1, total_supply);
        if mint_liquidity == 0 {
            return Err(Error::ZeroLiquidity);
        }
        if total_supply > u128::MAX - mint_liquidity {
            return Err(Error::Overflow);
        }
        total_supply = total_supply + mint_liquidity;
        ops.push(LedgerOp::Deposit { asset: lp_asset_id, to: who, amount: mint_liquidity });
        ops.push(LedgerOp::Transfer { asset: asset_0, from: who, to: lp_account, amount: amount_0 });
        ops.push(LedgerOp::Transfer { asset: asset_1, from: who, to: lp_account, amount: amount_1 });
        proof {
            let plan = add_liquidity_plan(start, who, asset_0, asset_1, amount_0_desired, amount_1_desired, amount_0_min, amount_1_min);
            assert(ops@ =~= plan->Ok_0.0);
        }
        match self.ledger.apply_all(&ops) {
            Ok(()) => {},
            Err(e) => return Err(e),
        }
        let new_status = PairMetadata { pair_account: lp_account, total_supply };
        self.pair_statuses.set(pair, PairStatus::Trading(new_status));
        // the fee step, committed now that nothing can fail: it yields `mint_fee` again and,
        // with the fee switched off, clears the recorded reserve product
        let _ = self.mint_protocol_fee(reserve_0, reserve_1, asset_0, asset_1, status.total_supply);
        self.update_k_last(asset_0, asset_1, lp_account, Ghost(start));
        Ok(Event::LiquidityAdded { who, asset_0, asset_1, amount_0, amount_1, liquidity: mint_liquidity })
    }

    /// Burns `remove_liquidity` shares of `who` and pays their part of both reserves to
    /// `recipient`.
    pub fn inner_remove_liquidity(
        &mut self,
        who: AccountId,
        asset_0: AssetId,
        asset_1: AssetId,
        remove_liquidity: AssetBalance,
        amount_0_min: AssetBalance,
        amount_1_min: AssetBalance,
        recipient: AccountId,
    ) -> (r: Result<Event, Error>)
        requires
            old(self).wf(),
        ensures
            match remove_liquidity_plan(*old(self), who, asset_0, asset_1, remove_liquidity, amount_0_min, amount_1_min, recipient) {
                Ok((ops, meta, (x0, x1))) => match apply_ops(old(self).ledger@, ops) {
                    Ok(m) => r == Ok::<Event, Error>(Event::LiquidityRemoved { who, recipient, asset_0, asset_1, amount_0: x0, amount_1: x1, liquidity: remove_liquidity })
                        && liquidity_committed(*old(self), *final(self), asset_0, asset_1, m, meta),
                    Err(e) => r == Err::<Event, Error>(e) && with_balances(*old(self), *final(self), old(self).ledger@),
                },
                Err(e) => r == Err::<Event, Error>(e) && with_balances(*old(self), *final(self), old(self).ledger@),
            },
    {
        let ghost start = *self;
        let lp_pair = Self::sort_asset_id(asset_0, asset_1);
        let status = match self.pair_statuses.get(&lp_pair) {
            Some(PairStatus::Trading(status)) => *status,
            _ => return Err(Error::InvalidStatus),
        };
        let lp_account = status.pair_account;
        let reserve_0 = self.ledger.balance_of(asset_0, lp_account);
        let reserve_1 = self.ledger.balance_of(asset_1, lp_account);
        let (amount_0, amount_1) = calculate_share_amounts(remove_liquidity, status.total_supply, reserve_0, reserve_1);
        if !(amount_0 >= amount_0_min && amount_1 >= amount_1_min) {
            return Err(Error::InsufficientTargetAmount);
        }
        let lp_asset_id = match self.lp_pairs.get(&lp_pair) {
            Some(lp) => *lp,
            None => return Err(Error::PairNotExists),
        };
        let mint_fee = match self.protocol_fee_due(reserve_0, reserve_1, asset_0, asset_1, status.total_supply) {
            Ok(f) => f,
            Err(e) => return Err(e),
        };
        let mut total_supply = status.total_supply;
        let mut ops: Vec<LedgerOp> = Vec::new();
        if mint_fee > 0 {
            match self.fee_to {
                Some(fee_to) => {
                    ops.push(LedgerOp::Deposit { asset: lp_asset_id, to: fee_to, amount: mint_fee });
                },
                None => {},
            }
            if total_supply > u128::MAX - mint_fee {
                return Err(Error::Overflow);
            }
            total_supply = total_supply + mint_fee;
        }
        if total_supply < remove_liquidity {
            return Err(Error::InsufficientLiquidity);
        }
        total_supply = total_supply - remove_liquidity;
        ops.push(LedgerOp::Withdraw { asset: lp_asset_id, from: who, amount: remove_liquidity });
        ops.push(LedgerOp::Transfer { asset: asset_0, from: lp_account, to: recipient, amount: amount_0 });
        ops.push(LedgerOp::Transfer { asset: asset_1, from: lp_account, to: recipient, amount: amount_1 });
        proof {
            let plan = remove_liquidity_plan(start, who, asset_0, asset_1, remove_liquidity, amount_0_min, amount_1_min, recipient);
            assert(ops@ =~= plan->Ok_0.0);
        }
        match self.ledger.apply_all(&ops) {
            Ok(()) => {},
            Err(e) => return Err(e),
        }
        let new_status = PairMetadata { pair_account: lp_account, total_supply };
        self.pair_statuses.set(lp_pair, PairStatus::Trading(new_status));
        // the fee step, committed now that nothing can fail: it yields `mint_fee` again and,
        // with the fee switched off, clears the recorded reserve product
        let _ = self.mint_protocol_fee(reserve_0, reserve_1, asset_0, asset_1, status.total_supply);
        self.update_k_last(asset_0, asset_1, lp_account, Ghost(start));
        Ok(Event::LiquidityRemoved { who, recipient, asset_0, asset_1, amount_0, amount_1, liquidity: remove_liquidity })
    }

    /// Sells `amount_in` of the first asset of `path` for at least `amount_out_min` of its
    /// last, paid to `recipient`; a sale of the native currency first pays 0.5% to the fee pot.
    pub fn inner_swap_exact_assets_for_assets(
        &mut self,
        who: AccountId,
        amount_in: AssetBalance,
        amount_out_min: AssetBalance,
        path: &[AssetId],
        recipient: AccountId,
    ) -> (r: Result<Event, Error>)
        ensures
            match swap_exact_outcome(*old(self), who, amount_in, amount_out_min, path@, recipient) {
                Ok((m, amounts)) => r is Ok && is_swap_event(r->Ok_0, who, recipient, path@, amounts)
                    && with_balances(*old(self), *final(self), m),
                Err(e) => r == Err::<Event, Error>(e) && with_balances(*old(self), *final(self), old(self).ledger@),
            },
    {
        if path.len() < 2 {
            return Err(Error::InvalidPath);
        }
        let ghost start = *self;
        let saved = self.ledger.duplicate();
        let mut new_amount_in = amount_in;
        if path[0].is_native(self.self_para_id) {
            let fee = amount_in / 200;
            new_amount_in = amount_in - fee;
            match self.ledger.apply(LedgerOp::Transfer { asset: path[0], from: who, to: AccountId::FeePot, amount: fee }) {
                Ok(()) => {},
                Err(e) => return Err(e),
            }
        }
        let amounts = match self.get_amount_out_by_path(new_amount_in, path) {
            Ok(a) => a,
            Err(e) => {
                self.ledger = saved;
                return Err(e);
            },
        };
        proof {
            crate::pallet::lemma_amounts_out_len(self.ledger@, new_amount_in, path@, (path@.len() - 1) as nat);
        }
        if amounts[amounts.len() - 1] < amount_out_min {
            self.ledger = saved;
            return Err(Error::InsufficientTargetAmount);
        }
        let pair_account = Self::pair_account_id(path[0], path[1]);
        match self.ledger.apply(LedgerOp::Transfer { asset: path[0], from: who, to: pair_account, amount: new_amount_in }) {
            Ok(()) => {},
            Err(e) => {
                self.ledger = saved;
                return Err(e);
            },
        }
        match Self::swap(&self.pair_statuses, &mut self.ledger, amounts.as_slice(), path, recipient) {
            Ok(()) => {},
            Err(e) => {
                self.ledger = saved;
                return Err(e);
            },
        }
        Ok(Event::AssetSwap { who, recipient, path: copy_path(path), amounts })
    }

    /// Buys `amount_out` of the last asset of `path`, paid to `recipient`, for at most
    /// `amount_in_max` of its first.
    pub fn inner_swap_assets_for_exact_assets(
        &mut self,
        who: AccountId,
        amount_out: AssetBalance,
        amount_in_max: AssetBalance,
        path: &[AssetId],
        recipient: AccountId,
    ) -> (r: Result<Event, Error>)
        ensures
            match swap_for_exact_outcome(*old(self), who, amount_out, amount_in_max, path@, recipient) {
                Ok((m, amounts)) => r is Ok && is_swap_event(r->Ok_0, who, recipient, path@, amounts)
                    && with_balances(*old(self), *final(self), m),
                Err(e) => r == Err::<Event, Error>(e) && with_balances(*old(self), *final(self), old(self).ledger@),
            },
    {
        if path.len() < 2 {
            return Err(Error::InvalidPath);
        }
        let amounts = match self.get_amount_in_by_path(amount_out, path) {
            Ok(a) => a,
            Err(e) => return Err(e),
        };
        proof {
            crate::pallet::lemma_amounts_in_len(self.ledger@, amount_out, path@, (path@.len() - 1) as nat);
        }
        if amounts[0] > amount_in_max {
            return Err(Error::ExcessiveSoldAmount);
        }
        let saved = self.ledger.duplicate();
        let pair_account = Self::pair_account_id(path[0], path[1]);
        match self.ledger.apply(LedgerOp::Transfer { asset: path[0], from: who, to: pair_account, amount: amounts[0] }) {
            Ok(()) => {},
            Err(e) => return Err(e),
        }
        match Self::swap(&self.pair_statuses, &mut self.ledger, amounts.as_slice(), path, recipient) {
            Ok(()) => {},
            Err(e) => {
                self.ledger = saved;
                return Err(e);
            },
        }
        Ok(Event::AssetSwap { who, recipient, path: copy_path(path), amounts })
    }

    /// Pays `(amount_0, amount_1)` of the pair `(asset_0, asset_1)` out of `pair_account`
    /// to `recipient`.
    fn pair_swap(
        statuses: &Store<(AssetId, AssetId), PairStatus>,
        ledger: &mut Ledger,
        asset_0: AssetId,
        asset_1: AssetId,
        pair_account: AccountId,
        amount_0: AssetBalance,
        amount_1: AssetBalance,
        recipient: AccountId,
    ) -> (r: Result<(), Error>)
        ensures
            match pair_swap_result(statuses@, old(ledger)@, asset_0, asset_1, pair_account, amount_0, amount_1, recipient) {
                Ok(m) => r is Ok && final(ledger)@ == m,
                Err(e) => r == Err::<(), Error>(e) && final(ledger)@ == old(ledger)@,
            },
    {
        let pair = Self::sort_asset_id(asset_0, asset_1);
        match statuses.get(&pair) {
            Some(PairStatus::Trading(_)) => {},
            _ => return Err(Error::InvalidStatus),
        }
        let reserve_0 = ledger.balance_of(asset_0, pair_account);
        let reserve_1 = ledger.balance_of(asset_1, pair_account);
        if amount_0 > reserve_0 || amount_1 > reserve_1 {
            return Err(Error::InsufficientPairReserve);
        }
        let saved = ledger.duplicate();
        if amount_0 > 0 {
            match ledger.apply(LedgerOp::Transfer { asset: asset_0, from: pair_account, to: recipient, amount: amount_0 }) {
                Ok(()) => {},
                Err(e) => return Err(e),
            }
        }
        if amount_1 > 0 {
            match ledger.apply(LedgerOp::Transfer { asset: asset_1, from: pair_account, to: recipient, amount: amount_1 }) {
                Ok(()) => {},
                Err(e) => {
                    *ledger = saved;
                    return Err(e);
                },
            }
        }
        Ok(())
    }

    /// Executes the hops of a quoted swap: each pair pays its output to the next pair, the
    /// last one to `recipient`.
    fn swap(
        statuses: &Store<(AssetId, AssetId), PairStatus>,
        ledger: &mut Ledger,
        amounts: &[AssetBalance],
        path: &[AssetId],
        recipient: AccountId,
    ) -> (r: Result<(), Error>)
        requires
            amounts@.len() >= 2,
            path@.len() == amounts@.len(),
        ensures
            match swap_result(statuses@, old(ledger)@, amounts@, path@, recipient, (amounts@.len() - 1) as nat) {
                Ok(m) => r is Ok && final(ledger)@ == m,
                Err(e) => r == Err::<(), Error>(e),
            },
    {
        let ghost start = ledger@;
        let hops = amounts.len() - 1;
        let mut i: usize = 0;
        while i < hops
            invariant
                hops == amounts@.len() - 1,
                path@.len() == amounts@.len(),
                i <= hops,
                start == old(ledger)@,
                swap_result(statuses@, start, amounts@, path@, recipient, i as nat) == Ok::<Balances, Error>(ledger@),
            decreases hops - i,
        {
            let input = path[i];
            let output = path[i + 1];
            let mut amount0_out: AssetBalance = 0;
            let mut amount1_out = amounts[i + 1];
            let (asset_0, asset_1) = Self::sort_asset_id(input, output);
            if input != asset_0 {
                amount0_out = amounts[i + 1];
                amount1_out = 0;
            }
            let pair_account = Self::pair_account_id(asset_0, asset_1);
            let to = if i < amounts.len() - 2 {
                Self::pair_account_id(output, path[i + 2])
            } else {
                recipient
            };
            assert(hop_payout(amounts@, path@, recipient, i as int) == (asset_0, asset_1, amount0_out, amount1_out, to));
            assert(pair_account == AccountId::Pair(asset_0, asset_1));
            let res = Self::pair_swap(statuses, ledger, asset_0, asset_1, pair_account, amount0_out, amount1_out, to);
            match res {
                Ok(()) => {},
                Err(e) => {
                    proof {
                        lemma_swap_result_err(statuses@, start, amounts@, path@, recipient, (i + 1) as nat, hops as nat);
                    }

                    return Err(e);
                },
            }
            i = i + 1;
        }
        Ok(())
    }
}

} // verus!
