use zenlink_protocol::{calculate_liquidity, calculate_share_amount, calculate_share_amounts, Error, Pallet};

#[test]
fn quote_out_on_even_reserves() {
    assert_eq!(Pallet::get_amount_out(100, 1000, 1000), Ok(90));
}

#[test]
fn quote_out_rejects_zero_inputs() {
    assert_eq!(Pallet::get_amount_out(0, 1000, 1000), Err(Error::Overflow));
    assert_eq!(Pallet::get_amount_out(100, 0, 1000), Err(Error::Overflow));
    assert_eq!(Pallet::get_amount_out(100, 1000, 0), Err(Error::Overflow));
}

#[test]
fn quote_out_reports_a_product_beyond_256_bits() {
    assert_eq!(Pallet::get_amount_out(u128::MAX, 1, u128::MAX), Err(Error::Overflow));
}

#[test]
fn quote_out_with_large_reserves() {
    let r = u128::MAX / 2;
    assert_eq!(Pallet::get_amount_out(1_000_000_000_000_000_000, r, r), Ok(996999999999999999));
}

#[test]
fn quote_in_on_even_reserves() {
    assert_eq!(Pallet::get_amount_in(90, 1000, 1000), Ok(100));
}

#[test]
fn quote_in_rejects_draining_the_reserve() {
    assert_eq!(Pallet::get_amount_in(1000, 1000, 1000), Err(Error::Overflow));
    assert_eq!(Pallet::get_amount_in(1001, 1000, 1000), Err(Error::Overflow));
    assert_eq!(Pallet::get_amount_in(0, 1000, 1000), Err(Error::Overflow));
}

#[test]
fn buying_back_a_sale_costs_at_least_the_sale_on_even_reserves() {
    let out = Pallet::get_amount_out(100, 1000, 1000).unwrap();
    let back = Pallet::get_amount_in(out, 1000, 1000).unwrap();
    assert!(back >= 100);
}

#[test]
fn buying_back_a_coarse_sale_can_cost_less_than_the_sale() {
    // the sale rounds 3.33 down to 3, so buying 3 back needs less than was sold
    let out = Pallet::get_amount_out(500, 1000, 10).unwrap();
    assert_eq!(out, 3);
    assert_eq!(Pallet::get_amount_in(out, 1000, 10), Ok(430));
}

#[test]
fn paying_the_buy_quote_buys_at_least_the_amount() {
    for o in [1u128, 7, 90, 500, 999] {
        let input = Pallet::get_amount_in(o, 1000, 1000).unwrap();
        assert!(Pallet::get_amount_out(input, 1000, 1000).unwrap() >= o);
    }
}

#[test]
fn first_mint_is_the_geometric_mean() {
    assert_eq!(calculate_liquidity(2000, 2000, 0, 0, 0), 2000);
    assert_eq!(calculate_liquidity(10, 1000, 0, 0, 0), 100);
    assert_eq!(calculate_liquidity(3, 5, 0, 0, 0), 3);
    assert_eq!(calculate_liquidity(u128::MAX, u128::MAX, 0, 0, 0), u128::MAX);
}

#[test]
fn later_mint_is_the_smaller_share() {
    assert_eq!(calculate_liquidity(100, 300, 1000, 2000, 500), 50);
    assert_eq!(calculate_liquidity(100, 100, 1000, 2000, 500), 25);
}

#[test]
fn share_amounts_are_proportional() {
    assert_eq!(calculate_share_amount(50, 1000, 3000), 150);
    assert_eq!(calculate_share_amount(1, 3, 2), 0);
    assert_eq!(calculate_share_amount(50, 0, 3000), 0);
    assert_eq!(calculate_share_amount(u128::MAX, 1, 2), 0);
    assert_eq!(calculate_share_amounts(10, 100, 1000, 50), (100, 5));
}

#[test]
fn matching_amount_beyond_128_bits_takes_the_other_side() {
    assert_eq!(
        Pallet::calculate_added_amount(4, u128::MAX, 0, 0, 1, 1u128 << 127),
        Ok((1, u128::MAX))
    );
}

#[test]
fn matching_amount_within_the_desired_one_is_taken() {
    assert_eq!(Pallet::calculate_added_amount(100, 500, 0, 0, 1000, 2000), Ok((100, 200)));
    assert_eq!(Pallet::calculate_added_amount(100, 500, 0, 201, 1000, 2000), Err(Error::IncorrectAssetAmountRange));
    assert_eq!(Pallet::calculate_added_amount(100, 500, 0, 0, 0, 2000), Ok((100, 500)));
}
