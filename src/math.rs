//! The pricing curve and the share arithmetic of a pair.
use crate::pallet::Pallet;
use crate::types::{AssetBalance, Error};
use crate::wide::{
    wide, wide_checked_add, wide_checked_div, wide_checked_mul, wide_checked_sub, wide_ge,
    wide_integer_sqrt, wide_limit, wide_to_u128, wide_value,
};
use primitive_types::U256;
use vstd::prelude::*;

verus! {

/// Output of selling `a` into reserves `(r_in, r_out)`, net of the 0.3% fee, rounded down.
pub open spec fn quote_out(a: nat, r_in: nat, r_out: nat) -> nat {
    (a * 997 * r_out) / (r_in * 1000 + a * 997)
}

/// Input needed to buy `o` out of reserves `(r_in, r_out)`, fee included, rounded up.
pub open spec fn quote_in(o: nat, r_in: nat, r_out: nat) -> nat {
    (((r_in * o * 1000) as int) / ((r_out - o) * 997)) as nat + 1
}

/// `r` is the integer square root of `n`.
pub open spec fn is_root(r: nat, n: nat) -> bool {
    r * r <= n && n < (r + 1) * (r + 1)
}

/// The integer square root: the largest `r` with `r * r <= n`.
pub open spec fn isqrt(n: nat) -> nat {
    choose|r: nat| is_root(r, n)
}

/// `amount * reserve / supply`, or zero where that is undefined or too large.
pub open spec fn share_amount(amount: nat, supply: nat, reserve: nat) -> nat {
    if supply == 0 || amount * reserve / supply > u128::MAX {
        0
    } else {
        amount * reserve / supply
    }
}

/// Shares minted for depositing `(a0, a1)` into reserves `(r0, r1)` with `total` shares out.
pub open spec fn mint_amount(a0: nat, a1: nat, r0: nat, r1: nat, total: nat) -> nat {
    if total == 0 {
        isqrt(a0 * a1)
    } else {
        let s0 = share_amount(a0, r0, total);
        let s1 = share_amount(a1, r1, total);
        if s0 <= s1 {
            s0
        } else {
            s1
        }
    }
}

/// Result of a single-hop sell quote.
pub open spec fn amount_out_result(a: nat, r_in: nat, r_out: nat) -> Result<AssetBalance, Error> {
    if a == 0 || r_in == 0 || r_out == 0 || a * 997 * r_out >= wide_limit() {
        Err(Error::Overflow)
    } else {
        Ok(quote_out(a, r_in, r_out) as AssetBalance)
    }
}

/// Result of a single-hop buy quote.
pub open spec fn amount_in_result(o: nat, r_in: nat, r_out: nat) -> Result<AssetBalance, Error> {
    if o == 0 || r_in == 0 || r_out == 0 || r_in * o * 1000 >= wide_limit() || o >= r_out
        || quote_in(o, r_in, r_out) > u128::MAX {
        Err(Error::Overflow)
    } else {
        Ok(quote_in(o, r_in, r_out) as AssetBalance)
    }
}

/// The amounts actually deposited for desired amounts `(d0, d1)` and minimums `(m0, m1)`:
/// the matching amount on one side is the exact proportional quotient, compared with the
/// desired amount before it is narrowed.
pub open spec fn added_amounts(d0: u128, d1: u128, m0: u128, m1: u128, r0: u128, r1: u128) -> Result<
    (AssetBalance, AssetBalance),
    Error,
> {
    if r0 == 0 || r1 == 0 {
        Ok((d0, d1))
    } else {
        let o1 = (d0 * r1) as nat / r0 as nat;
        if o1 <= d1 {
            if o1 >= m1 {
                Ok((d0, o1 as u128))
            } else {
                Err(Error::IncorrectAssetAmountRange)
            }
        } else {
            let o0 = (d1 * r0) as nat / r1 as nat;
            if o0 >= m0 && o0 <= d0 {
                Ok((o0 as u128, d1))
            } else {
                Err(Error::IncorrectAssetAmountRange)
            }
        }
    }
}

/// Shares minted to the fee recipient: the cut of the growth of `sqrt(k)` since `k_last`;
/// a share that does not fit the balance width is an error.
pub open spec fn fee_share(r0: nat, r1: nat, total: nat, k_last: nat, fee_point: nat) -> Result<AssetBalance, Error> {
    let rk = isqrt(r0 * r1);
    let rkl = isqrt(k_last);
    if rk > rkl {
        let fix = ((30 - fee_point) / (fee_point as int)) as nat;
        let num = total * (rk - rkl) as nat;
        let den = rk * fix + rkl;
        if den == 0 || num / den > u128::MAX {
            Err(Error::Overflow)
        } else {
            Ok((num / den) as AssetBalance)
        }
    } else {
        Ok(0)
    }
}

/// Shares owed for a bootstrap contribution `(c0, c1)` when the bootstrap gathered `(a0, a1)`.
pub open spec fn claim_share(c0: nat, c1: nat, a0: nat, a1: nat) -> Result<AssetBalance, Error> {
    let s = c0 * a1 + c1 * a0;
    if s >= wide_limit() || a0 == 0 || a1 == 0 {
        Err(Error::Overflow)
    } else {
        let e0 = s / (a1 * 2);
        let e1 = s / (a0 * 2);
        if e0 * e1 >= wide_limit() {
            Err(Error::Overflow)
        } else {
            Ok(isqrt(e0 * e1) as AssetBalance)
        }
    }
}

/// The reward owed for `share` out of `total` shares of a pledged `reward`.
pub open spec fn reward_share(share: nat, reward: nat, total: nat) -> Result<AssetBalance, Error> {
    if total == 0 || share * reward / total > u128::MAX {
        Err(Error::Overflow)
    } else {
        Ok((share * reward / total) as AssetBalance)
    }
}

pub proof fn lemma_wide_product(a: nat, b: nat)
    requires
        a <= u128::MAX,
        b <= u128::MAX,
    ensures
        a * b < wide_limit(),
        a * b <= u128::MAX * u128::MAX,
{
    let m = u128::MAX as nat;
    assert(a * b <= m * m) by (nonlinear_arith)
        requires
            a <= m,
            b <= m,
    ;
    assert(m * m < (m + 1) * (m + 1)) by (nonlinear_arith);
}

pub proof fn lemma_root_unique(r1: nat, r2: nat, n: nat)
    requires
        is_root(r1, n),
        is_root(r2, n),
    ensures
        r1 == r2,
{
    if r1 < r2 {
        assert((r1 + 1) * (r1 + 1) <= r2 * r2) by (nonlinear_arith)
            requires
                r1 + 1 <= r2,
        ;
    } else if r2 < r1 {
        assert((r2 + 1) * (r2 + 1) <= r1 * r1) by (nonlinear_arith)
            requires
                r2 + 1 <= r1,
        ;
    }
}

pub proof fn lemma_isqrt(r: nat, n: nat)
    requires
        is_root(r, n),
    ensures
        isqrt(n) == r,
{
    let c = isqrt(n);
    assert(is_root(c, n));
    lemma_root_unique(c, r, n);
}

/// Every number has an integer square root.
pub proof fn lemma_root_exists(n: nat)
    ensures
        is_root(isqrt(n), n),
    decreases n,
{
    if n == 0 {
        assert(0 * 0 <= 0nat && 0nat < (0 + 1) * (0 + 1)) by (nonlinear_arith);
        assert(is_root(0, 0));
    } else {
        lemma_root_exists((n - 1) as nat);
        let r = isqrt((n - 1) as nat);
        if (r + 1) * (r + 1) <= n {
            assert(n < (r + 2) * (r + 2)) by (nonlinear_arith)
                requires
                    n - 1 < (r + 1) * (r + 1),
            ;
            assert(is_root(r + 1, n));
        } else {
            assert(is_root(r, n));
        }
    }
}

/// A root of a number below the 256-bit limit fits in 128 bits.
pub proof fn lemma_root_fits(r: nat, n: nat)
    requires
        is_root(r, n),
        n < wide_limit(),
    ensures
        r <= u128::MAX,
{
    let m = u128::MAX as nat;
    if r > m {
        assert((m + 1) * (m + 1) <= r * r) by (nonlinear_arith)
            requires
                m + 1 <= r,
        ;
    }
}

/// The sell quote is less than the output reserve.
pub proof fn lemma_quote_out_below_reserve(a: nat, r_in: nat, r_out: nat)
    requires
        r_in > 0,
    ensures
        quote_out(a, r_in, r_out) <= r_out,
        r_out > 0 ==> quote_out(a, r_in, r_out) < r_out,
{
    let d = r_in * 1000 + a * 997;
    assert(d > a * 997) by (nonlinear_arith)
        requires
            r_in > 0,
            d == r_in * 1000 + a * 997,
    ;
    assert(a * 997 * r_out <= d * r_out) by (nonlinear_arith)
        requires
            d > a * 997,
    ;
    vstd::arithmetic::div_mod::lemma_multiply_divide_le(
        (a * 997 * r_out) as int,
        d as int,
        r_out as int,
    );
    if r_out > 0 {
        assert(a * 997 * r_out < d * r_out) by (nonlinear_arith)
            requires
                d > a * 997,
                r_out > 0,
        ;
        vstd::arithmetic::div_mod::lemma_multiply_divide_lt(
            (a * 997 * r_out) as int,
            d as int,
            r_out as int,
        );
    }
}

/// Selling into a pair never lowers the product of its reserves.
pub proof fn lemma_sell_keeps_product(a: nat, r_in: nat, r_out: nat)
    requires
        r_in > 0,
    ensures
        quote_out(a, r_in, r_out) <= r_out,
        (r_in + a) * (r_out - quote_out(a, r_in, r_out)) >= r_in * r_out,
{
    lemma_quote_out_below_reserve(a, r_in, r_out);
    let o = quote_out(a, r_in, r_out);
    let d = r_in * 1000 + a * 997;
    let num = a * 997 * r_out;
    assert(d > 0) by (nonlinear_arith)
        requires
            r_in > 0,
            d == r_in * 1000 + a * 997,
    ;
    vstd::arithmetic::div_mod::lemma_fundamental_div_mod(num as int, d as int);
    vstd::arithmetic::div_mod::lemma_mod_pos_bound(num as int, d as int);
    assert(o * d <= num) by (nonlinear_arith)
        requires
            num == d * o + (num as int) % (d as int),
            (num as int) % (d as int) >= 0,
    ;
    assert((r_in + a) * (r_out - o) >= r_in * r_out) by (nonlinear_arith)
        requires
            o * d <= num,
            d == r_in * 1000 + a * 997,
            num == a * 997 * r_out,
            o <= r_out,
    ;
}

/// Buying out of a pair at the quoted price never lowers the product of its reserves.
pub proof fn lemma_buy_keeps_product(o: nat, r_in: nat, r_out: nat)
    requires
        o < r_out,
    ensures
        (r_in + quote_in(o, r_in, r_out)) * (r_out - o) >= r_in * r_out,
{
    let dd = (r_out - o) * 997;
    let n = r_in * o * 1000;
    assert(dd > 0) by (nonlinear_arith)
        requires
            o < r_out,
            dd == (r_out - o) * 997,
    ;
    vstd::arithmetic::div_mod::lemma_fundamental_div_mod(n as int, dd as int);
    vstd::arithmetic::div_mod::lemma_mod_pos_bound(n as int, dd as int);
    let q = n as int / dd as int;
    assert(q >= 0) by {
        vstd::arithmetic::div_mod::lemma_div_pos_is_pos(n as int, dd as int);
    }
    let a = q + 1;
    assert(quote_in(o, r_in, r_out) == a);
    assert(n < dd * a) by (nonlinear_arith)
        requires
            n == dd * q + (n as int) % (dd as int),
            (n as int) % (dd as int) < dd,
            a == q + 1,
    ;
    let g = (r_out - o) as nat;
    assert((r_in + a) * g >= r_in * r_out) by (nonlinear_arith)
        requires
            n < dd * a,
            dd == g * 997,
            n == r_in * o * 1000,
            g == r_out - o,
    ;
}

/// Paying the quoted input for `o` buys at least `o`: a buy quote never falls short.
pub proof fn lemma_buy_quote_suffices(o: nat, r_in: nat, r_out: nat)
    requires
        r_in > 0,
        o < r_out,
    ensures
        quote_out(quote_in(o, r_in, r_out), r_in, r_out) >= o,
{
    let dd = (r_out - o) * 997;
    let n = r_in * o * 1000;
    assert(dd > 0) by (nonlinear_arith)
        requires
            o < r_out,
            dd == (r_out - o) * 997,
    ;
    vstd::arithmetic::div_mod::lemma_fundamental_div_mod(n as int, dd as int);
    vstd::arithmetic::div_mod::lemma_mod_pos_bound(n as int, dd as int);
    let q = n as int / dd as int;
    assert(q >= 0) by {
        vstd::arithmetic::div_mod::lemma_div_pos_is_pos(n as int, dd as int);
    }
    let a = (q + 1) as nat;
    assert(quote_in(o, r_in, r_out) == a);
    assert(n < dd * a) by (nonlinear_arith)
        requires
            n == dd * q + (n as int) % (dd as int),
            (n as int) % (dd as int) < dd,
            a == q + 1,
    ;
    let num = a * 997 * r_out;
    let den = r_in * 1000 + a * 997;
    assert(o * den <= num) by (nonlinear_arith)
        requires
            n < dd * a,
            dd == (r_out - o) * 997,
            n == r_in * o * 1000,
            num == a * 997 * r_out,
            den == r_in * 1000 + a * 997,
            o < r_out,
    ;
    assert(den > 0) by (nonlinear_arith)
        requires
            r_in > 0,
            den == r_in * 1000 + a * 997,
    ;
    vstd::arithmetic::div_mod::lemma_div_multiples_vanish(o as int, den as int);
    vstd::arithmetic::div_mod::lemma_div_is_ordered((o * den) as int, num as int, den as int);
    assert((den * o) as int / den as int == o);
    assert(den * o == o * den) by (nonlinear_arith);
}

/// Selling more never yields less.
pub proof fn lemma_quote_out_monotone(a1: nat, a2: nat, r_in: nat, r_out: nat)
    requires
        a1 <= a2,
        r_in > 0,
    ensures
        quote_out(a1, r_in, r_out) <= quote_out(a2, r_in, r_out),
{
    let n1 = a1 * 997 * r_out;
    let n2 = a2 * 997 * r_out;
    let d1 = r_in * 1000 + a1 * 997;
    let d2 = r_in * 1000 + a2 * 997;
    assert(d1 > 0 && d2 > 0) by (nonlinear_arith)
        requires
            r_in > 0,
            d1 == r_in * 1000 + a1 * 997,
            d2 == r_in * 1000 + a2 * 997,
    ;
    assert(n1 * d2 <= n2 * d1) by (nonlinear_arith)
        requires
            a1 <= a2,
            n1 == a1 * 997 * r_out,
            n2 == a2 * 997 * r_out,
            d1 == r_in * 1000 + a1 * 997,
            d2 == r_in * 1000 + a2 * 997,
    ;
    let q = n1 as int / d1 as int;
    vstd::arithmetic::div_mod::lemma_fundamental_div_mod(n1 as int, d1 as int);
    vstd::arithmetic::div_mod::lemma_mod_pos_bound(n1 as int, d1 as int);
    assert(q >= 0) by {
        vstd::arithmetic::div_mod::lemma_div_pos_is_pos(n1 as int, d1 as int);
    }
    assert(q * d2 <= n2) by (nonlinear_arith)
        requires
            n1 == d1 * q + (n1 as int) % (d1 as int),
            (n1 as int) % (d1 as int) >= 0,
            n1 * d2 <= n2 * d1,
            d1 > 0,
            d2 > 0,
            q >= 0,
    ;
    vstd::arithmetic::div_mod::lemma_div_multiples_vanish(q, d2 as int);
    vstd::arithmetic::div_mod::lemma_div_is_ordered((d2 * q) as int, n2 as int, d2 as int);
    assert(d2 * q == q * d2) by (nonlinear_arith);
}

/// For the least input that buys a given output, the buy quote of that output asks at least
/// that input: no smaller payment obtains what the sale obtained.
pub proof fn lemma_least_input_round_trip(a: nat, r_in: nat, r_out: nat)
    requires
        r_in > 0,
        r_out > 0,
        a > 0,
        quote_out(a, r_in, r_out) > 0,
        a == 1 || quote_out((a - 1) as nat, r_in, r_out) < quote_out(a, r_in, r_out),
    ensures
        quote_in(quote_out(a, r_in, r_out), r_in, r_out) >= a,
{
    let o = quote_out(a, r_in, r_out);
    lemma_quote_out_below_reserve(a, r_in, r_out);
    let b = quote_in(o, r_in, r_out);
    lemma_buy_quote_suffices(o, r_in, r_out);
    let dd = (r_out - o) * 997;
    assert(dd > 0) by (nonlinear_arith)
        requires
            o < r_out,
            dd == (r_out - o) * 997,
    ;
    vstd::arithmetic::div_mod::lemma_div_pos_is_pos((r_in * o * 1000) as int, dd as int);
    if b < a {
        assert(a > 1);
        lemma_quote_out_monotone(b, (a - 1) as nat, r_in, r_out);
    }
}

/// Depositing `(d0, d1)` into a pool and at once withdrawing the shares it minted returns
/// no more than was deposited on either side. A first deposit that mints shares must find
/// the pool empty: there the depositor also receives whatever the pool held.
pub proof fn lemma_deposit_withdraw_no_gain(d0: nat, d1: nat, r0: nat, r1: nat, total: nat)
    requires
        total == 0 && isqrt(d0 * d1) > 0 ==> r0 == 0 && r1 == 0,
    ensures
        ({
            let minted = mint_amount(d0, d1, r0, r1, total);
            share_amount(minted, total + minted, r0 + d0) <= d0 && share_amount(minted, total + minted, r1 + d1) <= d1
        }),
{
    let m = mint_amount(d0, d1, r0, r1, total);
    if m > 0 {
        if total == 0 {
            vstd::arithmetic::div_mod::lemma_div_multiples_vanish(d0 as int, m as int);
            vstd::arithmetic::div_mod::lemma_div_multiples_vanish(d1 as int, m as int);
            assert(m * d0 == d0 * m) by (nonlinear_arith);
            assert(m * d1 == d1 * m) by (nonlinear_arith);
        } else {
            lemma_share_after_mint(m, d0, r0, total);
            lemma_share_after_mint(m, d1, r1, total);
        }
    } else if total > 0 {
        assert(0 * (r0 + d0) == 0 && 0 * (r1 + d1) == 0) by (nonlinear_arith);
        vstd::arithmetic::div_mod::lemma_div_of0(total as int);
    }
}

/// With `minted` no more than the proportional share of `d` into `reserve`, withdrawing
/// `minted` after the deposit returns at most `d`.
proof fn lemma_share_after_mint(minted: nat, d: nat, reserve: nat, total: nat)
    requires
        total > 0,
        minted > 0,
        minted <= share_amount(d, reserve, total),
    ensures
        share_amount(minted, total + minted, reserve + d) <= d,
{
    let s = share_amount(d, reserve, total);
    assert(reserve > 0);
    assert(s == d * total / reserve);
    vstd::arithmetic::div_mod::lemma_fundamental_div_mod((d * total) as int, reserve as int);
    vstd::arithmetic::div_mod::lemma_mod_pos_bound((d * total) as int, reserve as int);
    assert(minted * reserve <= d * total) by (nonlinear_arith)
        requires
            minted <= s,
            (d * total) as int == reserve * s + ((d * total) as int) % (reserve as int),
            ((d * total) as int) % (reserve as int) >= 0,
            reserve > 0,
    ;
    assert(minted * (reserve + d) <= (total + minted) * d) by (nonlinear_arith)
        requires
            minted * reserve <= d * total,
    ;
    vstd::arithmetic::div_mod::lemma_multiply_divide_le(
        (minted * (reserve + d)) as int,
        (total + minted) as int,
        d as int,
    );
}

/// The wide product of two amounts.
pub(crate) fn mul_u128(a: u128, b: u128) -> (r: U256)
    ensures
        wide_value(r) == a * b,
{
    proof {
        lemma_wide_product(a as nat, b as nat);
    }
    match wide_checked_mul(wide(a), wide(b)) {
        Some(p) => p,
        None => wide(0),
    }
}

/// `amount * factor / divisor` when it is at most `bound`, compared in 256 bits.
pub(crate) fn quotient_within(amount: u128, factor: u128, divisor: u128, bound: u128) -> (r: Option<u128>)
    requires
        divisor > 0,
    ensures
        r == (if (amount * factor) as nat / divisor as nat <= bound {
            Some(((amount * factor) as nat / divisor as nat) as u128)
        } else {
            None::<u128>
        }),
{
    let product = mul_u128(amount, factor);
    let quotient = match wide_checked_div(product, wide(divisor)) {
        Some(q) => q,
        None => return None,
    };
    if !wide_ge(&wide(bound), &quotient) {
        return None;
    }
    match wide_to_u128(quotient) {
        Some(n) => Some(n),
        None => None,
    }
}

/// The integer square root of `a * b`, which always fits in 128 bits.
pub(crate) fn sqrt_of_product(a: u128, b: u128) -> (r: u128)
    ensures
        r == isqrt((a * b) as nat),
{
    let p = mul_u128(a, b);
    let s = wide_integer_sqrt(p);
    proof {
        lemma_wide_product(a as nat, b as nat);
        lemma_root_fits(wide_value(s), wide_value(p));
        lemma_isqrt(wide_value(s), wide_value(p));
    }
    match wide_to_u128(s) {
        Some(n) => n,
        None => 0,
    }
}


/// `amount * reserve / supply`, or zero where that is undefined or too large.
pub fn calculate_share_amount(amount: AssetBalance, supply: AssetBalance, reserve: AssetBalance) -> (r:
    AssetBalance)
    ensures
        r == share_amount(amount as nat, supply as nat, reserve as nat),
{
    let product = mul_u128(amount, reserve);
    match wide_checked_div(product, wide(supply)) {
        Some(q) => match wide_to_u128(q) {
            Some(n) => n,
            None => 0,
        },
        None => 0,
    }
}

/// The amounts of the two reserves that `amount` shares out of `supply` stand for.
pub fn calculate_share_amounts(
    amount: AssetBalance,
    supply: AssetBalance,
    reserve_0: AssetBalance,
    reserve_1: AssetBalance,
) -> (r: (AssetBalance, AssetBalance))
    ensures
        r.0 == share_amount(amount as nat, supply as nat, reserve_0 as nat),
        r.1 == share_amount(amount as nat, supply as nat, reserve_1 as nat),
{
    let amount0 = calculate_share_amount(amount, supply, reserve_0);
    let amount1 = calculate_share_amount(amount, supply, reserve_1);
    (amount0, amount1)
}

/// Shares minted for depositing `(amount_0, amount_1)`: the geometric mean for the first
/// deposit, else the smaller of the two proportional shares.
pub fn calculate_liquidity(
    amount_0: AssetBalance,
    amount_1: AssetBalance,
    reserve_0: AssetBalance,
    reserve_1: AssetBalance,
    total_liquidity: AssetBalance,
) -> (r: AssetBalance)
    ensures
        r == mint_amount(
            amount_0 as nat,
            amount_1 as nat,
            reserve_0 as nat,
            reserve_1 as nat,
            total_liquidity as nat,
        ),
        total_liquidity == 0 ==> r == isqrt((amount_0 * amount_1) as nat),
{
    if total_liquidity == 0 {
        sqrt_of_product(amount_0, amount_1)
    } else {
        let s0 = calculate_share_amount(amount_0, reserve_0, total_liquidity);
        let s1 = calculate_share_amount(amount_1, reserve_1, total_liquidity);
        if s0 <= s1 {
            s0
        } else {
            s1
        }
    }
}

impl Pallet {
    /// Output of selling `input_amount` into `(input_reserve, output_reserve)`.
    pub fn get_amount_out(
        input_amount: AssetBalance,
        input_reserve: AssetBalance,
        output_reserve: AssetBalance,
    ) -> (r: Result<AssetBalance, Error>)
        ensures
            r == amount_out_result(input_amount as nat, input_reserve as nat, output_reserve as nat),
    {
        if input_reserve == 0 || output_reserve == 0 || input_amount == 0 {
            return Err(Error::Overflow);
        }
        let with_fee = mul_u128(input_amount, 997);
        let numerator = match wide_checked_mul(with_fee, wide(output_reserve)) {
            Some(n) => n,
            None => return Err(Error::Overflow),
        };
        let scaled = mul_u128(input_reserve, 1000);
        proof {
            lemma_wide_product(input_amount as nat, 997);
            lemma_wide_product(input_reserve as nat, 1000);
            let m = u128::MAX as nat;
            assert(input_reserve * 1000 + input_amount * 997 < wide_limit()) by (nonlinear_arith)
                requires
                    input_reserve <= m,
                    input_amount <= m,
                    wide_limit() == (m + 1) * (m + 1),
            ;
            lemma_quote_out_below_reserve(input_amount as nat, input_reserve as nat, output_reserve as nat);
        }
        let denominator = match wide_checked_add(scaled, with_fee) {
            Some(d) => d,
            None => return Err(Error::Overflow),
        };
        let quotient = match wide_checked_div(numerator, denominator) {
            Some(q) => q,
            None => return Err(Error::Overflow),
        };
        match wide_to_u128(quotient) {
            Some(n) => Ok(n),
            None => Err(Error::Overflow),
        }
    }

    /// Input needed to buy `output_amount` out of `(input_reserve, output_reserve)`.
    pub fn get_amount_in(
        output_amount: AssetBalance,
        input_reserve: AssetBalance,
        output_reserve: AssetBalance,
    ) -> (r: Result<AssetBalance, Error>)
        ensures
            r == amount_in_result(output_amount as nat, input_reserve as nat, output_reserve as nat),
    {
        if input_reserve == 0 || output_reserve == 0 || output_amount == 0 {
            return Err(Error::Overflow);
        }
        let product = mul_u128(input_reserve, output_amount);
        let numerator = match wide_checked_mul(product, wide(1000)) {
            Some(n) => n,
            None => return Err(Error::Overflow),
        };
        let remaining = match wide_checked_sub(wide(output_reserve), wide(output_amount)) {
            Some(d) => d,
            None => return Err(Error::Overflow),
        };
        proof {
            lemma_wide_product((output_reserve - output_amount) as nat, 997);
        }
        let denominator = match wide_checked_mul(remaining, wide(997)) {
            Some(d) => d,
            None => return Err(Error::Overflow),
        };
        let quotient = match wide_checked_div(numerator, denominator) {
            Some(q) => q,
            None => return Err(Error::Overflow),
        };
        let amount = match wide_checked_add(quotient, wide(1)) {
            Some(a) => a,
            None => return Err(Error::Overflow),
        };
        proof {
            assert(wide_value(quotient) <= wide_value(numerator)) by {
                vstd::arithmetic::div_mod::lemma_div_is_ordered_by_denominator(
                    wide_value(numerator) as int,
                    1,
                    wide_value(denominator) as int,
                );
            }
        }
        match wide_to_u128(amount) {
            Some(n) => Ok(n),
            None => Err(Error::Overflow),
        }
    }

    /// The amounts to deposit: the desired ones into an empty pool, else the desired amount on
    /// one side and its proportional match on the other, within the caller's bounds.
    pub fn calculate_added_amount(
        amount_0_desired: AssetBalance,
        amount_1_desired: AssetBalance,
        amount_0_min: AssetBalance,
        amount_1_min: AssetBalance,
        reserve_0: AssetBalance,
        reserve_1: AssetBalance,
    ) -> (r: Result<(AssetBalance, AssetBalance), Error>)
        ensures
            r == added_amounts(
                amount_0_desired,
                amount_1_desired,
                amount_0_min,
                amount_1_min,
                reserve_0,
                reserve_1,
            ),
            (r is Ok && reserve_0 > 0 && reserve_1 > 0 && amount_0_min <= amount_0_desired && amount_1_min
                <= amount_1_desired) ==> amount_0_min <= r->Ok_0.0
                <= amount_0_desired && amount_1_min <= r->Ok_0.1 <= amount_1_desired,
    {
        if reserve_0 == 0 || reserve_1 == 0 {
            return Ok((amount_0_desired, amount_1_desired));
        }
        match quotient_within(amount_0_desired, reserve_1, reserve_0, amount_1_desired) {
            Some(amount_1_optimal) => {
                if amount_1_optimal >= amount_1_min {
                    return Ok((amount_0_desired, amount_1_optimal));
                }
                return Err(Error::IncorrectAssetAmountRange);
            },
            None => {},
        }
        match quotient_within(amount_1_desired, reserve_0, reserve_1, amount_0_desired) {
            Some(amount_0_optimal) => {
                if amount_0_optimal >= amount_0_min {
                    Ok((amount_0_optimal, amount_1_desired))
                } else {
                    Err(Error::IncorrectAssetAmountRange)
                }
            },
            None => Err(Error::IncorrectAssetAmountRange),
        }
    }
}

/// Shares owed to the fee recipient for reserves `(reserve_0, reserve_1)`, `total_liquidity`
/// shares out and the product `k_last` recorded at the last liquidity event.
pub fn protocol_fee_liquidity(
    reserve_0: AssetBalance,
    reserve_1: AssetBalance,
    total_liquidity: AssetBalance,
    k_last: U256,
    fee_point: u8,
) -> (r: Result<AssetBalance, Error>)
    requires
        0 < fee_point <= 30,
    ensures
        r == fee_share(
            reserve_0 as nat,
            reserve_1 as nat,
            total_liquidity as nat,
            wide_value(k_last),
            fee_point as nat,
        ),
{
    let root_k_narrow = sqrt_of_product(reserve_0, reserve_1);
    let root_k = wide(root_k_narrow);
    let root_k_last = wide_integer_sqrt(k_last);
    proof {
        lemma_isqrt(wide_value(root_k_last), wide_value(k_last));
    }
    if wide_ge(&root_k_last, &root_k) {
        return Ok(0);
    }
    let fix_fee_point: u8 = (30 - fee_point) / fee_point;
    let growth = match wide_checked_sub(root_k, root_k_last) {
        Some(d) => d,
        None => return Err(Error::Overflow),
    };
    proof {
        lemma_wide_product(total_liquidity as nat, wide_value(growth));
        lemma_wide_product(root_k_narrow as nat, fix_fee_point as nat);
        let m = u128::MAX as nat;
        let rk = root_k_narrow as nat;
        let fx = fix_fee_point as nat;
        let rkl = wide_value(root_k_last);
        assert(rk * fx + rkl < wide_limit()) by (nonlinear_arith)
            requires
                rk <= m,
                fx <= 30,
                rkl < rk,
                wide_limit() == (m + 1) * (m + 1),
        ;
    }
    let numerator = match wide_checked_mul(wide(total_liquidity), growth) {
        Some(n) => n,
        None => return Err(Error::Overflow),
    };
    let scaled = match wide_checked_mul(root_k, wide(fix_fee_point as u128)) {
        Some(n) => n,
        None => return Err(Error::Overflow),
    };
    let denominator = match wide_checked_add(scaled, root_k_last) {
        Some(n) => n,
        None => return Err(Error::Overflow),
    };
    match wide_checked_div(numerator, denominator) {
        Some(q) => match wide_to_u128(q) {
            Some(n) => Ok(n),
            None => Err(Error::Overflow),
        },
        None => Err(Error::Overflow),
    }
}

/// Shares owed for a bootstrap contribution `(amount_0, amount_1)` when the bootstrap
/// gathered `(accumulated_0, accumulated_1)`: each side is valued at the realized ratio.
pub fn calculate_claim_liquidity(
    amount_0: AssetBalance,
    amount_1: AssetBalance,
    accumulated_0: AssetBalance,
    accumulated_1: AssetBalance,
) -> (r: Result<AssetBalance, Error>)
    ensures
        r == claim_share(amount_0 as nat, amount_1 as nat, accumulated_0 as nat, accumulated_1 as nat),
{
    let p0 = mul_u128(amount_0, accumulated_1);
    let p1 = mul_u128(amount_1, accumulated_0);
    let sum0 = match wide_checked_add(p0, p1) {
        Some(s) => s,
        None => return Err(Error::Overflow),
    };
    let exact_amount_0 = match wide_checked_div(sum0, mul_u128(accumulated_1, 2)) {
        Some(q) => q,
        None => return Err(Error::Overflow),
    };
    let sum1 = match wide_checked_add(p1, p0) {
        Some(s) => s,
        None => return Err(Error::Overflow),
    };
    let exact_amount_1 = match wide_checked_div(sum1, mul_u128(accumulated_0, 2)) {
        Some(q) => q,
        None => return Err(Error::Overflow),
    };
    let product = match wide_checked_mul(exact_amount_0, exact_amount_1) {
        Some(p) => p,
        None => return Err(Error::Overflow),
    };
    let root = wide_integer_sqrt(product);
    proof {
        lemma_root_fits(wide_value(root), wide_value(product));
        lemma_isqrt(wide_value(root), wide_value(product));
    }
    match wide_to_u128(root) {
        Some(n) => Ok(n),
        None => Err(Error::Overflow),
    }
}

/// The part of a pledged `reward_amount` owed for `share_lp` out of `total_lp` shares.
pub fn calculate_owner_reward(
    share_lp: AssetBalance,
    reward_amount: AssetBalance,
    total_lp: AssetBalance,
) -> (r: Result<AssetBalance, Error>)
    ensures
        r == reward_share(share_lp as nat, reward_amount as nat, total_lp as nat),
{
    let product = mul_u128(share_lp, reward_amount);
    match wide_checked_div(product, wide(total_lp)) {
        Some(q) => match wide_to_u128(q) {
            Some(n) => Ok(n),
            None => Err(Error::Overflow),
        },
        None => Err(Error::Overflow),
    }
}

} // verus!
