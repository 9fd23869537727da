use zenlink_protocol::{AccountId, AssetId, Error, Event, LedgerOp, PairMetadata, PairStatus, Pallet};

const CHAIN: u32 = 200;

fn asset(index: u64) -> AssetId {
    AssetId { chain_id: CHAIN, asset_type: 1, asset_index: index }
}

fn lp(index: u64) -> AssetId {
    AssetId { chain_id: CHAIN, asset_type: 2, asset_index: index }
}

fn native() -> AssetId {
    AssetId { chain_id: CHAIN, asset_type: 0, asset_index: 0 }
}

fn user(n: u128) -> AccountId {
    AccountId::User(n)
}

fn fund(p: &mut Pallet, a: AssetId, who: AccountId, amount: u128) {
    p.ledger.apply(LedgerOp::Deposit { asset: a, to: who, amount }).unwrap();
}

fn balance(p: &Pallet, a: AssetId, who: AccountId) -> u128 {
    p.ledger.balance_of(a, who)
}

/// A trading pair of `a` and `b` holding `(ra, rb)`, seeded by account 100.
fn pool(p: &mut Pallet, a: AssetId, b: AssetId, share: AssetId, ra: u128, rb: u128) {
    p.create_pair(a, b, share).unwrap();
    fund(p, a, user(100), ra);
    fund(p, b, user(100), rb);
    p.inner_add_liquidity(user(100), a, b, ra, rb, 0, 0).unwrap();
}

#[test]
fn pairs_are_sorted_and_share_one_account() {
    let (a, b) = (asset(1), asset(2));
    assert_eq!(Pallet::sort_asset_id(b, a), (a, b));
    assert_eq!(Pallet::sort_asset_id(a, b), (a, b));
    assert_eq!(Pallet::pair_account_id(b, a), AccountId::Pair(a, b));
    assert_eq!(Pallet::pair_account_id(a, b), Pallet::pair_account_id(b, a));
    let other_chain = AssetId { chain_id: 1, asset_type: 9, asset_index: 9 };
    assert_eq!(Pallet::sort_asset_id(a, other_chain), (other_chain, a));
}

#[test]
fn share_asset_is_found_in_either_order() {
    let mut p = Pallet::new(CHAIN);
    assert_eq!(p.lp_asset_id(&asset(1), &asset(2)), None);
    p.create_pair(asset(2), asset(1), lp(12)).unwrap();
    assert_eq!(p.lp_asset_id(&asset(1), &asset(2)), Some(lp(12)));
    assert_eq!(p.lp_asset_id(&asset(2), &asset(1)), Some(lp(12)));
    assert_eq!(p.create_pair(asset(1), asset(2), lp(13)), Err(Error::PairAlreadyExists));
}

#[test]
fn first_deposit_mints_the_geometric_mean() {
    let mut p = Pallet::new(CHAIN);
    pool(&mut p, asset(1), asset(2), lp(12), 1000, 1000);
    let account = Pallet::pair_account_id(asset(1), asset(2));
    assert_eq!(balance(&p, asset(1), account), 1000);
    assert_eq!(balance(&p, asset(2), account), 1000);
    assert_eq!(balance(&p, lp(12), user(100)), 1000);
    assert_eq!(
        p.pair_statuses.get(&(asset(1), asset(2))).copied(),
        Some(PairStatus::Trading(PairMetadata { pair_account: account, total_supply: 1000 }))
    );
}

#[test]
fn later_deposit_matches_the_pool_ratio() {
    let mut p = Pallet::new(CHAIN);
    pool(&mut p, asset(1), asset(2), lp(12), 1000, 2000);
    fund(&mut p, asset(1), user(1), 500);
    fund(&mut p, asset(2), user(1), 500);
    let event = p.inner_add_liquidity(user(1), asset(1), asset(2), 500, 500, 0, 0).unwrap();
    // 500 of the second asset matches 250 of the first
    assert_eq!(
        event,
        Event::LiquidityAdded { who: user(1), asset_0: asset(1), asset_1: asset(2), amount_0: 250, amount_1: 500, liquidity: 353 }
    );
    assert_eq!(balance(&p, asset(1), user(1)), 250);
    assert_eq!(balance(&p, asset(2), user(1)), 0);
    assert_eq!(balance(&p, lp(12), user(1)), 353);
}

#[test]
fn deposit_below_minimum_is_refused() {
    let mut p = Pallet::new(CHAIN);
    pool(&mut p, asset(1), asset(2), lp(12), 1000, 2000);
    fund(&mut p, asset(1), user(1), 500);
    fund(&mut p, asset(2), user(1), 500);
    assert_eq!(
        p.inner_add_liquidity(user(1), asset(1), asset(2), 500, 500, 300, 0),
        Err(Error::IncorrectAssetAmountRange)
    );
    assert_eq!(balance(&p, asset(1), user(1)), 500);
}

#[test]
fn deposit_needs_the_funds() {
    let mut p = Pallet::new(CHAIN);
    pool(&mut p, asset(1), asset(2), lp(12), 1000, 1000);
    fund(&mut p, asset(1), user(1), 10);
    assert_eq!(
        p.inner_add_liquidity(user(1), asset(1), asset(2), 100, 100, 0, 0),
        Err(Error::InsufficientAssetBalance)
    );
}

#[test]
fn deposit_needs_a_trading_pair() {
    let mut p = Pallet::new(CHAIN);
    assert_eq!(p.inner_add_liquidity(user(1), asset(1), asset(2), 1, 1, 0, 0), Err(Error::InvalidStatus));
}

#[test]
fn deposit_that_mints_nothing_is_refused() {
    let mut p = Pallet::new(CHAIN);
    p.create_pair(asset(1), asset(2), lp(12)).unwrap();
    fund(&mut p, asset(1), user(1), 10);
    assert_eq!(p.inner_add_liquidity(user(1), asset(1), asset(2), 10, 0, 0, 0), Err(Error::ZeroLiquidity));
}

#[test]
fn withdrawal_returns_the_share_of_both_reserves() {
    let mut p = Pallet::new(CHAIN);
    pool(&mut p, asset(1), asset(2), lp(12), 1000, 4000);
    // the first deposit minted sqrt(1000 * 4000) = 2000 shares
    let event = p.inner_remove_liquidity(user(100), asset(1), asset(2), 500, 0, 0, user(7)).unwrap();
    assert_eq!(
        event,
        Event::LiquidityRemoved {
            who: user(100),
            recipient: user(7),
            asset_0: asset(1),
            asset_1: asset(2),
            amount_0: 250,
            amount_1: 1000,
            liquidity: 500,
        }
    );
    assert_eq!(balance(&p, asset(1), user(7)), 250);
    assert_eq!(balance(&p, asset(2), user(7)), 1000);
    assert_eq!(balance(&p, lp(12), user(100)), 1500);
}

#[test]
fn withdrawal_below_minimum_is_refused() {
    let mut p = Pallet::new(CHAIN);
    pool(&mut p, asset(1), asset(2), lp(12), 1000, 4000);
    assert_eq!(
        p.inner_remove_liquidity(user(100), asset(1), asset(2), 500, 251, 0, user(7)),
        Err(Error::InsufficientTargetAmount)
    );
}

#[test]
fn withdrawal_beyond_the_supply_is_refused() {
    let mut p = Pallet::new(CHAIN);
    pool(&mut p, asset(1), asset(2), lp(12), 1000, 1000);
    assert_eq!(
        p.inner_remove_liquidity(user(100), asset(1), asset(2), 1001, 0, 0, user(7)),
        Err(Error::InsufficientLiquidity)
    );
}

#[test]
fn deposit_then_withdrawal_returns_no_more_than_deposited() {
    let mut p = Pallet::new(CHAIN);
    pool(&mut p, asset(1), asset(2), lp(12), 1000, 3000);
    fund(&mut p, asset(1), user(1), 333);
    fund(&mut p, asset(2), user(1), 1000);
    let minted = match p.inner_add_liquidity(user(1), asset(1), asset(2), 333, 1000, 0, 0).unwrap() {
        Event::LiquidityAdded { liquidity, .. } => liquidity,
        _ => panic!("a deposit reports LiquidityAdded"),
    };
    p.inner_remove_liquidity(user(1), asset(1), asset(2), minted, 0, 0, user(1)).unwrap();
    assert!(balance(&p, asset(1), user(1)) <= 333);
    assert!(balance(&p, asset(2), user(1)) <= 1000);
}

#[test]
fn single_hop_sale_moves_the_quoted_amounts() {
    let mut p = Pallet::new(CHAIN);
    pool(&mut p, asset(1), asset(2), lp(12), 1000, 1000);
    fund(&mut p, asset(1), user(1), 100);
    let path = [asset(1), asset(2)];
    assert_eq!(p.get_amount_out_by_path(100, &path), Ok(vec![100, 90]));
    let event = p.inner_swap_exact_assets_for_assets(user(1), 100, 90, &path, user(2)).unwrap();
    assert_eq!(event, Event::AssetSwap { who: user(1), recipient: user(2), path: path.to_vec(), amounts: vec![100, 90] });
    let account = Pallet::pair_account_id(asset(1), asset(2));
    assert_eq!(balance(&p, asset(2), user(2)), 90);
    assert_eq!(balance(&p, asset(1), account), 1100);
    assert_eq!(balance(&p, asset(2), account), 910);
    assert!(1100 * 910 >= 1000 * 1000);
}

#[test]
fn sale_below_minimum_moves_nothing() {
    let mut p = Pallet::new(CHAIN);
    pool(&mut p, asset(1), asset(2), lp(12), 1000, 1000);
    fund(&mut p, asset(1), user(1), 100);
    let path = [asset(1), asset(2)];
    assert_eq!(
        p.inner_swap_exact_assets_for_assets(user(1), 100, 91, &path, user(2)),
        Err(Error::InsufficientTargetAmount)
    );
    assert_eq!(balance(&p, asset(1), user(1)), 100);
}

#[test]
fn two_hop_quote_composes_single_hops() {
    let mut p = Pallet::new(CHAIN);
    pool(&mut p, asset(1), asset(2), lp(12), 1000, 1000);
    pool(&mut p, asset(2), asset(3), lp(23), 1000, 2000);
    let amounts = p.get_amount_out_by_path(100, &[asset(1), asset(2), asset(3)]).unwrap();
    let first = Pallet::get_amount_out(100, 1000, 1000).unwrap();
    let second = Pallet::get_amount_out(first, 1000, 2000).unwrap();
    assert_eq!(amounts, vec![100, first, second]);
    assert_eq!(amounts, vec![100, 90, 164]);
}

#[test]
fn two_hop_sale_pays_through_the_middle_pair() {
    let mut p = Pallet::new(CHAIN);
    pool(&mut p, asset(1), asset(2), lp(12), 1000, 1000);
    pool(&mut p, asset(2), asset(3), lp(23), 1000, 2000);
    fund(&mut p, asset(1), user(1), 100);
    p.inner_swap_exact_assets_for_assets(user(1), 100, 0, &[asset(1), asset(2), asset(3)], user(2)).unwrap();
    assert_eq!(balance(&p, asset(3), user(2)), 164);
    assert_eq!(balance(&p, asset(2), Pallet::pair_account_id(asset(2), asset(3))), 1090);
    assert_eq!(balance(&p, asset(2), Pallet::pair_account_id(asset(1), asset(2))), 910);
    assert_eq!(balance(&p, asset(2), user(1)), 0);
}

#[test]
fn buy_quote_walks_the_path_backwards() {
    let mut p = Pallet::new(CHAIN);
    pool(&mut p, asset(1), asset(2), lp(12), 1000, 1000);
    assert_eq!(p.get_amount_in_by_path(90, &[asset(1), asset(2)]), Ok(vec![100, 90]));
}

#[test]
fn exact_purchase_respects_the_maximum() {
    let mut p = Pallet::new(CHAIN);
    pool(&mut p, asset(1), asset(2), lp(12), 1000, 1000);
    fund(&mut p, asset(1), user(1), 100);
    let path = [asset(1), asset(2)];
    assert_eq!(
        p.inner_swap_assets_for_exact_assets(user(1), 90, 99, &path, user(2)),
        Err(Error::ExcessiveSoldAmount)
    );
    p.inner_swap_assets_for_exact_assets(user(1), 90, 100, &path, user(2)).unwrap();
    assert_eq!(balance(&p, asset(2), user(2)), 90);
    assert_eq!(balance(&p, asset(1), user(1)), 0);
}

#[test]
fn path_quotes_reject_short_and_illiquid_paths() {
    let mut p = Pallet::new(CHAIN);
    assert_eq!(p.get_amount_out_by_path(100, &[asset(1)]), Err(Error::InvalidPath));
    assert_eq!(p.get_amount_in_by_path(100, &[]), Err(Error::InvalidPath));
    assert_eq!(p.get_amount_out_by_path(100, &[asset(1), asset(2)]), Err(Error::InvalidPath));
    pool(&mut p, asset(1), asset(2), lp(12), 1000, 1000);
    // one unit sells for nothing
    assert_eq!(p.get_amount_out_by_path(1, &[asset(1), asset(2)]), Err(Error::InvalidPath));
}

#[test]
fn native_sale_pays_the_fee_pot() {
    let mut p = Pallet::new(CHAIN);
    pool(&mut p, native(), asset(1), lp(1), 100_000, 100_000);
    fund(&mut p, native(), user(1), 1000);
    p.inner_swap_exact_assets_for_assets(user(1), 1000, 0, &[native(), asset(1)], user(1)).unwrap();
    assert_eq!(balance(&p, native(), AccountId::FeePot), 5);
    let expected = Pallet::get_amount_out(995, 100_000, 100_000).unwrap();
    assert_eq!(balance(&p, asset(1), user(1)), expected);
    assert_eq!(balance(&p, native(), user(1)), 0);
}

#[test]
fn swap_through_a_pair_that_does_not_trade_is_refused() {
    let mut p = Pallet::new(CHAIN);
    // reserves without a trading status
    fund(&mut p, asset(1), Pallet::pair_account_id(asset(1), asset(2)), 1000);
    fund(&mut p, asset(2), Pallet::pair_account_id(asset(1), asset(2)), 1000);
    fund(&mut p, asset(1), user(1), 100);
    assert_eq!(
        p.inner_swap_exact_assets_for_assets(user(1), 100, 0, &[asset(1), asset(2)], user(2)),
        Err(Error::InvalidStatus)
    );
    assert_eq!(balance(&p, asset(1), user(1)), 100);
}

#[test]
fn fee_point_above_thirty_is_refused() {
    let mut p = Pallet::new(CHAIN);
    assert_eq!(p.set_fee_meta(Some(user(9)), 31), Err(Error::InvalidFeePoint));
    assert_eq!(p.set_fee_meta(Some(user(9)), 30), Ok(()));
}

#[test]
fn protocol_fee_is_minted_from_reserve_growth() {
    let mut p = Pallet::new(CHAIN);
    p.set_fee_meta(Some(user(9)), 5).unwrap();
    pool(&mut p, asset(1), asset(2), lp(12), 1_000_000, 1_000_000);
    fund(&mut p, asset(1), user(1), 500_000);
    p.inner_swap_exact_assets_for_assets(user(1), 500_000, 0, &[asset(1), asset(2)], user(1)).unwrap();
    assert_eq!(balance(&p, asset(2), user(1)), 332_665);
    p.inner_swap_exact_assets_for_assets(user(1), 332_665, 0, &[asset(2), asset(1)], user(1)).unwrap();
    assert_eq!(balance(&p, asset(1), user(1)), 497_997);
    let account = Pallet::pair_account_id(asset(1), asset(2));
    assert_eq!(p.mint_protocol_fee(1_002_003, 1_000_000, asset(1), asset(2), 1_000_000), Ok(166));
    fund(&mut p, asset(1), user(2), 10_000);
    fund(&mut p, asset(2), user(2), 10_000);
    p.inner_add_liquidity(user(2), asset(1), asset(2), 10_000, 10_000, 0, 0).unwrap();
    assert_eq!(balance(&p, lp(12), user(9)), 166);
    assert_eq!(balance(&p, lp(12), user(2)), 9981);
    assert_eq!(
        p.pair_statuses.get(&(asset(1), asset(2))).copied(),
        Some(PairStatus::Trading(PairMetadata { pair_account: account, total_supply: 1_010_147 }))
    );
}

#[test]
fn without_a_fee_recipient_no_fee_is_due() {
    let mut p = Pallet::new(CHAIN);
    pool(&mut p, asset(1), asset(2), lp(12), 1_000_000, 1_000_000);
    assert_eq!(p.mint_protocol_fee(2_000_000, 2_000_000, asset(1), asset(2), 1_000_000), Ok(0));
}

#[test]
fn buy_quote_of_at_most_one_unit_is_refused() {
    let mut p = Pallet::new(CHAIN);
    pool(&mut p, asset(1), asset(2), lp(12), 1, 1000);
    assert_eq!(Pallet::get_amount_in(1, 1, 1000), Ok(1));
    assert_eq!(p.get_amount_in_by_path(1, &[asset(1), asset(2)]), Err(Error::InvalidPath));
}

#[test]
fn trading_pair_without_share_asset_takes_no_deposit() {
    let mut p = Pallet::new(CHAIN);
    let account = Pallet::pair_account_id(asset(1), asset(2));
    p.pair_statuses.set(
        (asset(1), asset(2)),
        PairStatus::Trading(PairMetadata { pair_account: account, total_supply: 0 }),
    );
    fund(&mut p, asset(1), user(1), 10);
    fund(&mut p, asset(2), user(1), 10);
    assert_eq!(p.inner_add_liquidity(user(1), asset(1), asset(2), 10, 10, 0, 0), Err(Error::PairNotExists));
    assert_eq!(p.inner_remove_liquidity(user(1), asset(1), asset(2), 0, 0, 0, user(1)), Err(Error::PairNotExists));
}

#[test]
fn fee_step_clears_the_product_once_the_fee_is_off() {
    let mut p = Pallet::new(CHAIN);
    p.set_fee_meta(Some(user(9)), 5).unwrap();
    pool(&mut p, asset(1), asset(2), lp(12), 1000, 1000);
    assert!(!p.k_last.get(&(asset(1), asset(2))).unwrap().is_zero());
    p.set_fee_meta(None, 0).unwrap();
    assert_eq!(p.mint_protocol_fee(1000, 1000, asset(1), asset(2), 1000), Ok(0));
    assert!(p.k_last.get(&(asset(1), asset(2))).unwrap().is_zero());
}

#[test]
fn liquidity_event_with_the_fee_off_clears_the_product() {
    let mut p = Pallet::new(CHAIN);
    p.set_fee_meta(Some(user(9)), 5).unwrap();
    pool(&mut p, asset(1), asset(2), lp(12), 1000, 1000);
    p.set_fee_meta(None, 0).unwrap();
    p.inner_remove_liquidity(user(100), asset(1), asset(2), 10, 0, 0, user(100)).unwrap();
    assert!(p.k_last.get(&(asset(1), asset(2))).unwrap().is_zero());
}

#[test]
fn fee_share_beyond_128_bits_is_an_error() {
    let mut p = Pallet::new(CHAIN);
    p.set_fee_meta(Some(user(9)), 30).unwrap();
    p.mutate_k_last(asset(1), asset(2), primitive_types::U256::from(1u128));
    assert_eq!(p.mint_protocol_fee(3, 3, asset(1), asset(2), u128::MAX), Err(Error::Overflow));
    assert_eq!(p.mint_protocol_fee(3, 3, asset(1), asset(2), 10), Ok(20));
}
