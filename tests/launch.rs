use zenlink_protocol::{AccountId, AssetId, BootstrapParameter, Error, Event, LedgerOp, PairMetadata, PairStatus, Pallet};

const CHAIN: u32 = 200;

fn asset(index: u64) -> AssetId {
    AssetId { chain_id: CHAIN, asset_type: 1, asset_index: index }
}

fn share_asset() -> AssetId {
    AssetId { chain_id: CHAIN, asset_type: 2, asset_index: 12 }
}

fn user(n: u128) -> AccountId {
    AccountId::User(n)
}

fn fund(p: &mut Pallet, a: AssetId, who: AccountId, amount: u128) {
    p.ledger.apply(LedgerOp::Deposit { asset: a, to: who, amount }).unwrap();
}

fn balance(p: &Pallet, a: AssetId, who: AccountId) -> u128 {
    p.ledger.balance_of(a, who)
}

fn pair() -> (AssetId, AssetId) {
    (asset(1), asset(2))
}

/// A bootstrap of the pair with targets (1000, 1000), capacities (2000, 2000) and
/// deadline block 100, and users 1 and 2 each holding 5000 of both assets.
fn launch(rewards: Vec<AssetId>, limits: Vec<(AssetId, u128)>) -> Pallet {
    let mut p = Pallet::new(CHAIN);
    p.mutate_lp_pairs(asset(1), asset(2), share_asset());
    p.do_bootstrap_create(pair(), 1000, 1000, 2000, 2000, 100, rewards, limits, 1).unwrap();
    for u in [1, 2] {
        fund(&mut p, asset(1), user(u), 5000);
        fund(&mut p, asset(2), user(u), 5000);
    }
    p
}

fn params_of(p: &Pallet) -> BootstrapParameter {
    match p.pair_statuses.get(&pair()).copied() {
        Some(PairStatus::Bootstrap(params)) => params,
        _ => panic!("the pair is in bootstrap"),
    }
}

#[test]
fn creation_installs_the_parameters() {
    let p = launch(vec![], vec![]);
    assert_eq!(
        params_of(&p),
        BootstrapParameter {
            target_supply: (1000, 1000),
            capacity_supply: (2000, 2000),
            accumulated_supply: (0, 0),
            end_block_number: 100,
            pair_account: AccountId::Pallet,
        }
    );
}

#[test]
fn creation_over_a_live_bootstrap_is_refused() {
    let mut p = launch(vec![], vec![]);
    assert_eq!(
        p.do_bootstrap_create(pair(), 1, 1, 2, 2, 50, vec![], vec![], 10),
        Err(Error::PairAlreadyExists)
    );
}

#[test]
fn creation_over_a_trading_pair_is_refused() {
    let mut p = Pallet::new(CHAIN);
    p.create_pair(asset(1), asset(2), share_asset()).unwrap();
    assert_eq!(
        p.do_bootstrap_create(pair(), 1, 1, 2, 2, 50, vec![], vec![], 10),
        Err(Error::PairAlreadyExists)
    );
    assert_eq!(p.do_bootstrap_update(pair(), 1, 1, 2, 2, 50, vec![], vec![]), Err(Error::PairAlreadyExists));
}

#[test]
fn a_failed_bootstrap_can_be_recreated_keeping_its_contributions() {
    let mut p = launch(vec![], vec![]);
    p.do_bootstrap_contribute(user(1), asset(1), asset(2), 500, 300, 10).unwrap();
    p.do_bootstrap_create(pair(), 400, 200, 900, 900, 300, vec![], vec![], 101).unwrap();
    let params = params_of(&p);
    assert_eq!(params.accumulated_supply, (500, 300));
    assert_eq!(params.target_supply, (400, 200));
    assert_eq!(params.end_block_number, 300);
}

#[test]
fn pending_rewards_block_reconfiguration() {
    let mut p = launch(vec![asset(9)], vec![]);
    p.bootstrap_rewards.set(pair(), vec![(asset(9), 600)]);
    assert_eq!(
        p.do_bootstrap_update(pair(), 1, 1, 2, 2, 50, vec![], vec![]),
        Err(Error::ExistRewardsInBootstrap)
    );
    assert_eq!(
        p.do_bootstrap_create(pair(), 1, 1, 2, 2, 50, vec![], vec![], 101),
        Err(Error::ExistRewardsInBootstrap)
    );
}

#[test]
fn update_needs_a_bootstrap() {
    let mut p = Pallet::new(CHAIN);
    assert_eq!(p.do_bootstrap_update(pair(), 1, 1, 2, 2, 50, vec![], vec![]), Err(Error::NotInBootstrap));
}

#[test]
fn update_replaces_the_parameters() {
    let mut p = launch(vec![], vec![]);
    p.do_bootstrap_contribute(user(1), asset(1), asset(2), 10, 20, 10).unwrap();
    p.do_bootstrap_update(pair(), 5, 6, 7000, 8000, 90, vec![asset(9), asset(9)], vec![]).unwrap();
    let params = params_of(&p);
    assert_eq!(params.capacity_supply, (7000, 8000));
    assert_eq!(params.accumulated_supply, (10, 20));
    assert_eq!(p.bootstrap_rewards.get(&pair()).cloned(), Some(vec![(asset(9), 0)]));
}

#[test]
fn contribution_is_credited_in_canonical_order() {
    let mut p = launch(vec![], vec![]);
    let event = p.do_bootstrap_contribute(user(1), asset(2), asset(1), 300, 500, 10).unwrap();
    assert_eq!(
        event,
        Event::BootstrapContribute { who: user(1), asset_0: asset(1), amount_0: 500, asset_1: asset(2), amount_1: 300 }
    );
    assert_eq!(params_of(&p).accumulated_supply, (500, 300));
    assert_eq!(p.bootstrap_personal_supply.get(&(pair(), user(1))).copied(), Some((500, 300)));
    assert_eq!(balance(&p, asset(1), AccountId::Pallet), 500);
}

#[test]
fn contribution_beyond_capacity_is_clamped() {
    let mut p = launch(vec![], vec![]);
    p.do_bootstrap_contribute(user(1), asset(1), asset(2), 1500, 1500, 10).unwrap();
    p.do_bootstrap_contribute(user(2), asset(1), asset(2), 1000, 100, 10).unwrap();
    assert_eq!(params_of(&p).accumulated_supply, (2000, 1600));
    assert_eq!(p.bootstrap_personal_supply.get(&(pair(), user(2))).copied(), Some((500, 100)));
    assert_eq!(balance(&p, asset(1), user(2)), 4500);
}

#[test]
fn contribution_to_a_full_bootstrap_is_refused() {
    let mut p = launch(vec![], vec![]);
    p.do_bootstrap_contribute(user(1), asset(1), asset(2), 2000, 2000, 10).unwrap();
    assert_eq!(
        p.do_bootstrap_contribute(user(2), asset(1), asset(2), 1, 1, 10),
        Err(Error::InvalidContributionAmount)
    );
    assert_eq!(params_of(&p).accumulated_supply, (2000, 2000));
}

#[test]
fn contribution_after_the_deadline_is_refused() {
    let mut p = launch(vec![], vec![]);
    assert_eq!(p.do_bootstrap_contribute(user(1), asset(1), asset(2), 1, 1, 100), Err(Error::NotInBootstrap));
}

#[test]
fn contribution_needs_the_funds() {
    let mut p = launch(vec![], vec![]);
    assert_eq!(
        p.do_bootstrap_contribute(user(3), asset(1), asset(2), 1, 1, 10),
        Err(Error::InsufficientAssetBalance)
    );
    assert_eq!(params_of(&p).accumulated_supply, (0, 0));
}

#[test]
fn two_full_contributions_end_with_two_thousand_shares() {
    let mut p = launch(vec![], vec![]);
    p.do_bootstrap_contribute(user(1), asset(1), asset(2), 1000, 1000, 10).unwrap();
    p.do_bootstrap_contribute(user(2), asset(1), asset(2), 1000, 1000, 20).unwrap();
    let event = p.do_end_bootstrap(asset(1), asset(2), 100).unwrap();
    assert_eq!(
        event,
        Event::BootstrapEnd { asset_0: asset(1), asset_1: asset(2), accumulated_0: 2000, accumulated_1: 2000, total_lp: 2000 }
    );
    let account = Pallet::pair_account_id(asset(1), asset(2));
    assert_eq!(balance(&p, share_asset(), account), 2000);
    assert_eq!(balance(&p, asset(1), account), 2000);
    assert_eq!(balance(&p, asset(2), account), 2000);
    assert_eq!(balance(&p, asset(1), AccountId::Pallet), 0);
    assert_eq!(
        p.pair_statuses.get(&pair()).copied(),
        Some(PairStatus::Trading(PairMetadata { pair_account: account, total_supply: 2000 }))
    );
}

#[test]
fn end_before_the_deadline_is_refused() {
    let mut p = launch(vec![], vec![]);
    p.do_bootstrap_contribute(user(1), asset(1), asset(2), 2000, 2000, 10).unwrap();
    assert_eq!(p.do_end_bootstrap(asset(1), asset(2), 99), Err(Error::UnqualifiedBootstrap));
    assert!(p.do_end_bootstrap(asset(1), asset(2), 100).is_ok());
}

#[test]
fn end_below_a_target_is_refused() {
    let mut p = launch(vec![], vec![]);
    p.do_bootstrap_contribute(user(1), asset(1), asset(2), 2000, 999, 10).unwrap();
    assert_eq!(p.do_end_bootstrap(asset(1), asset(2), 500), Err(Error::UnqualifiedBootstrap));
}

#[test]
fn end_needs_a_bootstrap() {
    let mut p = Pallet::new(CHAIN);
    assert_eq!(p.do_end_bootstrap(asset(1), asset(2), 500), Err(Error::NotInBootstrap));
}

#[test]
fn end_needs_a_share_asset() {
    let mut p = Pallet::new(CHAIN);
    p.do_bootstrap_create(pair(), 0, 0, 10, 10, 5, vec![], vec![], 1).unwrap();
    fund(&mut p, asset(1), user(1), 10);
    fund(&mut p, asset(2), user(1), 10);
    p.do_bootstrap_contribute(user(1), asset(1), asset(2), 4, 9, 1).unwrap();
    assert_eq!(p.do_end_bootstrap(asset(1), asset(2), 5), Err(Error::PairNotExists));
}

#[test]
fn end_of_an_empty_bootstrap_mints_nothing_and_fails() {
    let mut p = Pallet::new(CHAIN);
    p.mutate_lp_pairs(asset(1), asset(2), share_asset());
    p.do_bootstrap_create(pair(), 0, 0, 10, 10, 5, vec![], vec![], 1).unwrap();
    assert_eq!(p.do_end_bootstrap(asset(1), asset(2), 5), Err(Error::Overflow));
}

#[test]
fn claim_pays_the_share_and_the_rewards() {
    let mut p = launch(vec![asset(9)], vec![]);
    p.bootstrap_rewards.set(pair(), vec![(asset(9), 600)]);
    fund(&mut p, asset(9), AccountId::Pallet, 600);
    p.do_bootstrap_contribute(user(1), asset(1), asset(2), 1000, 1000, 10).unwrap();
    p.do_bootstrap_contribute(user(2), asset(1), asset(2), 1000, 1000, 20).unwrap();
    p.do_end_bootstrap(asset(1), asset(2), 100).unwrap();
    let events = p.do_bootstrap_claim(user(1), user(7), asset(1), asset(2), 120).unwrap();
    let account = Pallet::pair_account_id(asset(1), asset(2));
    assert_eq!(
        events,
        vec![
            Event::DistributeReward {
                asset_0: asset(1),
                asset_1: asset(2),
                reward_holder: AccountId::Pallet,
                rewards: vec![(asset(9), 300)],
            },
            Event::BootstrapClaim {
                pair_account: account,
                who: user(1),
                recipient: user(7),
                asset_0: asset(1),
                asset_1: asset(2),
                amount_0: 1000,
                amount_1: 1000,
                claimed_lp: 1000,
            },
        ]
    );
    assert_eq!(balance(&p, share_asset(), user(7)), 1000);
    assert_eq!(balance(&p, share_asset(), account), 1000);
    assert_eq!(balance(&p, asset(9), user(1)), 300);
    assert_eq!(p.do_bootstrap_claim(user(1), user(7), asset(1), asset(2), 120), Err(Error::ZeroContribute));
}

#[test]
fn claim_values_a_lopsided_contribution_at_the_pool_ratio() {
    let mut p = launch(vec![], vec![]);
    p.do_bootstrap_contribute(user(1), asset(1), asset(2), 1500, 500, 10).unwrap();
    p.do_bootstrap_contribute(user(2), asset(1), asset(2), 500, 1500, 10).unwrap();
    p.do_end_bootstrap(asset(1), asset(2), 100).unwrap();
    let events = p.do_bootstrap_claim(user(1), user(1), asset(1), asset(2), 100).unwrap();
    // each side is worth (1500 * 2000 + 500 * 2000) / (2 * 2000) = 1000
    assert_eq!(events.len(), 1);
    assert_eq!(balance(&p, share_asset(), user(1)), 1000);
}

#[test]
fn claim_needs_a_trading_pair() {
    let mut p = launch(vec![], vec![]);
    p.do_bootstrap_contribute(user(1), asset(1), asset(2), 10, 10, 10).unwrap();
    assert_eq!(p.do_bootstrap_claim(user(1), user(1), asset(1), asset(2), 10), Err(Error::NotInBootstrap));
}

#[test]
fn claim_of_a_failed_bootstrap_is_refused() {
    let mut p = Pallet::new(CHAIN);
    p.create_pair(asset(1), asset(2), share_asset()).unwrap();
    p.bootstrap_end_status.set(
        pair(),
        BootstrapParameter {
            target_supply: (100, 100),
            capacity_supply: (1000, 1000),
            accumulated_supply: (50, 100),
            end_block_number: 10,
            pair_account: AccountId::Pallet,
        },
    );
    p.bootstrap_personal_supply.set((pair(), user(1)), (50, 100));
    assert_eq!(p.do_bootstrap_claim(user(1), user(1), asset(1), asset(2), 11), Err(Error::DisableBootstrap));
    assert_eq!(p.bootstrap_personal_supply.get(&(pair(), user(1))).copied(), Some((50, 100)));
}

#[test]
fn refund_returns_the_recorded_amounts() {
    let mut p = launch(vec![], vec![]);
    p.do_bootstrap_contribute(user(1), asset(1), asset(2), 500, 300, 10).unwrap();
    assert_eq!(p.do_bootstrap_refund(user(1), asset(1), asset(2), 100), Err(Error::DenyRefund));
    let event = p.do_bootstrap_refund(user(1), asset(1), asset(2), 101).unwrap();
    assert_eq!(
        event,
        Event::BootstrapRefund {
            pair_account: AccountId::Pallet,
            who: user(1),
            asset_0: asset(1),
            asset_1: asset(2),
            amount_0: 500,
            amount_1: 300,
        }
    );
    assert_eq!(balance(&p, asset(1), user(1)), 5000);
    assert_eq!(balance(&p, asset(2), user(1)), 5000);
    assert_eq!(params_of(&p).accumulated_supply, (0, 0));
    assert_eq!(p.do_bootstrap_refund(user(1), asset(1), asset(2), 101), Err(Error::ZeroContribute));
}

#[test]
fn refund_of_a_successful_bootstrap_is_refused() {
    let mut p = launch(vec![], vec![]);
    p.do_bootstrap_contribute(user(1), asset(1), asset(2), 1000, 1000, 10).unwrap();
    assert_eq!(p.do_bootstrap_refund(user(1), asset(1), asset(2), 200), Err(Error::DenyRefund));
    p.do_end_bootstrap(asset(1), asset(2), 200).unwrap();
    assert_eq!(p.do_bootstrap_refund(user(1), asset(1), asset(2), 200), Err(Error::DenyRefund));
}

#[test]
fn refund_without_any_bootstrap_is_refused() {
    let mut p = Pallet::new(CHAIN);
    assert_eq!(p.do_bootstrap_refund(user(1), asset(1), asset(2), 200), Err(Error::DenyRefund));
}

#[test]
fn failure_predicate_needs_the_deadline_passed_and_a_target_missed() {
    let params = BootstrapParameter {
        target_supply: (1000, 1000),
        capacity_supply: (2000, 2000),
        accumulated_supply: (500, 300),
        end_block_number: 100,
        pair_account: AccountId::Pallet,
    };
    assert!(Pallet::bootstrap_disable(&params, 101));
    assert!(!Pallet::bootstrap_disable(&params, 100));
    let met = BootstrapParameter { accumulated_supply: (1000, 1000), ..params };
    assert!(!Pallet::bootstrap_disable(&met, 101));
}

#[test]
fn limits_are_checked_against_balances() {
    let p = launch(vec![], vec![(asset(1), 100), (asset(2), 9000), (asset(2), 50)]);
    assert!(p.bootstrap_check_limits(asset(2), asset(1), user(1)));
    assert!(!p.bootstrap_check_limits(asset(1), asset(2), user(3)));
    assert!(Pallet::new(CHAIN).bootstrap_check_limits(asset(1), asset(2), user(3)));
}

#[test]
fn rewards_are_shared_in_proportion() {
    let mut p = launch(vec![], vec![]);
    p.bootstrap_rewards.set(pair(), vec![(asset(8), 1000), (asset(9), 7)]);
    let (ops, paid) = p.bootstrap_distribute_reward(user(1), AccountId::Pallet, asset(1), asset(2), 1, 3).unwrap();
    assert_eq!(paid, vec![(asset(8), 333), (asset(9), 2)]);
    assert_eq!(ops.len(), 2);
    assert_eq!(
        p.bootstrap_distribute_reward(user(1), AccountId::Pallet, asset(1), asset(2), 1, 0),
        Err(Error::Overflow)
    );
}

#[test]
fn reward_and_limit_lists_are_kept_in_asset_order() {
    let p = launch(vec![asset(9), asset(3), asset(9)], vec![(asset(2), 9000), (asset(1), 100), (asset(2), 50)]);
    assert_eq!(p.bootstrap_rewards.get(&pair()).cloned(), Some(vec![(asset(3), 0), (asset(9), 0)]));
    assert_eq!(p.bootstrap_limits.get(&pair()).cloned(), Some(vec![(asset(1), 100), (asset(2), 50)]));
}
