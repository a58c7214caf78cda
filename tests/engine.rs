use fame::curve::{calculate_sol_to_return, calculate_tokens_to_mint, exp_fixed};
use fame::errors::ErrorCode;
use fame::instructions::{
    burn_token, create_token, initialize, mint_token, update_bonding_curve_params, withdraw_fees,
    CreatedToken, DEFAULT_INITIAL_PRICE, DEFAULT_SLOPE,
};
use fame::state::{BondingCurve, Identity, LiquidityPool, UserPortfolio};

fn id(b: u8) -> Identity {
    Identity::new([b; 32])
}

fn new_token() -> CreatedToken {
    create_token(&id(1), &id(2), "Fame", "FAME", "https://example.org/fame").unwrap()
}

fn holding(user: u8) -> UserPortfolio {
    UserPortfolio { user: id(user), token: id(1), balance: 0 }
}

fn default_curve() -> BondingCurve {
    BondingCurve { token: id(1), initial_price: 10_000_000, slope: 92, admin: id(2) }
}

#[test]
fn identity_equality_compares_all_bytes() {
    let mut b = [7u8; 32];
    assert!(Identity::new(b).same(&Identity::new(b)));
    b[31] = 8;
    assert!(!Identity::new([7u8; 32]).same(&Identity::new(b)));
    assert!(Identity::new([7u8; 32]) != Identity::new(b));
}

#[test]
fn exp_fixed_values() {
    assert_eq!(exp_fixed(0), Some(1_000_000_000));
    assert_eq!(exp_fixed(500_000), Some(1_648_721_267));
    assert_eq!(exp_fixed(1_000_000), Some(2_718_281_823));
    assert_eq!(exp_fixed(30_000_000), None);
    assert_eq!(exp_fixed(1u128 << 64), None);
}

#[test]
fn create_token_sets_defaults() {
    let c = new_token();
    assert_eq!(c.token_info.total_supply, 0);
    assert_eq!(c.token_info.name, "Fame");
    assert_eq!(c.token_info.symbol, "FAME");
    assert_eq!(c.token_info.social_account_url, "https://example.org/fame");
    assert!(c.token_info.mint.same(&id(1)));
    assert!(c.token_info.authority.same(&id(2)));
    assert_eq!(c.bonding_curve.initial_price, DEFAULT_INITIAL_PRICE);
    assert_eq!(c.bonding_curve.initial_price, 10_000_000);
    assert_eq!(c.bonding_curve.slope, DEFAULT_SLOPE);
    assert_eq!(c.bonding_curve.slope, 92);
    assert!(c.bonding_curve.admin.same(&id(2)));
    assert_eq!(c.liquidity_pool.balance, 0);
    assert_eq!(c.liquidity_pool.accumulated_fees, 0);
    assert!(c.liquidity_pool.authority.same(&id(2)));
    assert!(c.event.creator.same(&id(2)));
    assert_eq!(c.event.name, "Fame");
}

#[test]
fn create_token_rejects_long_fields() {
    let long_name = "n".repeat(33);
    let long_symbol = "s".repeat(11);
    let long_url = "u".repeat(201);
    assert_eq!(
        create_token(&id(1), &id(2), &long_name, "S", "u").unwrap_err(),
        ErrorCode::InvalidTokenName
    );
    assert_eq!(
        create_token(&id(1), &id(2), "N", &long_symbol, "u").unwrap_err(),
        ErrorCode::InvalidTokenSymbol
    );
    assert_eq!(
        create_token(&id(1), &id(2), "N", "S", &long_url).unwrap_err(),
        ErrorCode::InvalidSocialAccountUrl
    );
    let at_limits = create_token(&id(1), &id(2), &"n".repeat(32), &"s".repeat(10), &"u".repeat(200));
    assert!(at_limits.is_ok());
}

#[test]
fn create_token_counts_characters() {
    // 17 characters, 34 bytes.
    let accented = "\u{e9}".repeat(17);
    let c = create_token(&id(1), &id(2), &accented, "S", "u").unwrap();
    assert_eq!(c.token_info.name, accented);
    assert_eq!(
        create_token(&id(1), &id(2), &accented, &"s".repeat(11), "u").unwrap_err(),
        ErrorCode::InvalidTokenSymbol
    );
    assert!(create_token(&id(1), &id(2), &"\u{e9}".repeat(32), &"\u{e9}".repeat(10), &"\u{e9}".repeat(200)).is_ok());
    assert_eq!(
        create_token(&id(1), &id(2), &"\u{e9}".repeat(33), "S", "u").unwrap_err(),
        ErrorCode::InvalidTokenName
    );
}

#[test]
fn initialize_records_admin() {
    let g = initialize(&id(9));
    assert!(g.admin.same(&id(9)));
}

#[test]
fn tokens_for_deposit_default_curve() {
    let curve = default_curve();
    assert_eq!(calculate_tokens_to_mint(&curve, 0, 1_000_000_000), Ok(99));
    assert_eq!(calculate_tokens_to_mint(&curve, 99, 5_000_000_000), Ok(484));
    assert_eq!(calculate_tokens_to_mint(&curve, 0, 0), Ok(0));
    assert_eq!(calculate_tokens_to_mint(&curve, 0, 10_000_000), Ok(0));
}

#[test]
fn tokens_for_deposit_rejects_degenerate_curve() {
    let mut curve = default_curve();
    curve.slope = 0;
    assert_eq!(
        calculate_tokens_to_mint(&curve, 0, 1_000_000_000),
        Err(ErrorCode::InvalidBondingCurveParameters)
    );
    let mut curve = default_curve();
    curve.initial_price = 0;
    assert_eq!(
        calculate_tokens_to_mint(&curve, 0, 1_000_000_000),
        Err(ErrorCode::InvalidBondingCurveParameters)
    );
}

#[test]
fn tokens_for_deposit_past_end_of_curve_overflows() {
    let curve = default_curve();
    assert_eq!(calculate_tokens_to_mint(&curve, 249_397, u64::MAX), Err(ErrorCode::ArithmeticOverflow));
    assert_eq!(calculate_tokens_to_mint(&curve, 249_403, 1), Err(ErrorCode::ArithmeticOverflow));
}

#[test]
fn zero_amounts_need_no_curve() {
    let curve = default_curve();
    assert_eq!(calculate_tokens_to_mint(&curve, 249_403, 0), Ok(0));
    assert_eq!(calculate_tokens_to_mint(&curve, u64::MAX, 0), Ok(0));
    assert_eq!(calculate_sol_to_return(&curve, 249_412, 0), Ok(0));
    assert_eq!(calculate_sol_to_return(&curve, u64::MAX, 0), Ok(0));
}

#[test]
fn zero_price_curve_burns_for_nothing() {
    let mut curve = default_curve();
    curve.initial_price = 0;
    assert_eq!(calculate_sol_to_return(&curve, 10, 3), Ok(0));
    assert_eq!(calculate_sol_to_return(&curve, 10, 0), Ok(0));
    assert_eq!(
        calculate_tokens_to_mint(&curve, 10, 1_000),
        Err(ErrorCode::InvalidBondingCurveParameters)
    );
}

#[test]
fn fine_curve_costs_never_fall_with_supply() {
    let curve = BondingCurve { token: id(1), initial_price: 1_000_000, slope: 1, admin: id(2) };
    // The next token costs about 1_000_045 here, more than the deposit.
    assert_eq!(calculate_tokens_to_mint(&curve, 44, 1_000_000), Ok(0));
    assert_eq!(calculate_tokens_to_mint(&curve, 45, 1_000_000), Ok(0));
    assert_eq!(calculate_tokens_to_mint(&curve, 45, 1_001_999), Ok(0));
    assert_eq!(calculate_tokens_to_mint(&curve, 45, 1_002_000), Ok(1));
    assert_eq!(calculate_sol_to_return(&curve, 45, 1), Ok(1_000_000));
    assert_eq!(calculate_sol_to_return(&curve, 46, 1), Ok(1_000_000));
    let mut last_tokens = u64::MAX;
    let mut last_pay = 0u64;
    for s in 1u64..200 {
        let t = calculate_tokens_to_mint(&curve, s, 3_000_000).unwrap();
        assert!(t <= last_tokens);
        last_tokens = t;
        let p = calculate_sol_to_return(&curve, s, 1).unwrap();
        assert!(p >= last_pay);
        last_pay = p;
    }
    let def = default_curve();
    let mut last = 0u64;
    for s in [1u64, 10, 100, 1_000, 10_000, 100_000, 200_000] {
        let p = calculate_sol_to_return(&def, s, 1).unwrap();
        assert!(p >= last);
        last = p;
    }
}

#[test]
fn reserve_for_withdrawal_values_and_errors() {
    let curve = default_curve();
    assert_eq!(calculate_sol_to_return(&curve, 99, 99), Ok(994_514_347));
    assert_eq!(calculate_sol_to_return(&curve, 583, 99), Ok(1_039_798_586));
    assert_eq!(calculate_sol_to_return(&curve, 5, 0), Ok(0));
    assert_eq!(
        calculate_sol_to_return(&curve, 5, 6),
        Err(ErrorCode::InvalidBondingCurveParameters)
    );
    let mut flat = default_curve();
    flat.slope = 0;
    assert_eq!(
        calculate_sol_to_return(&flat, 5, 1),
        Err(ErrorCode::InvalidBondingCurveParameters)
    );
    assert_eq!(calculate_sol_to_return(&curve, 300_000, 1), Err(ErrorCode::ArithmeticOverflow));
}

#[test]
fn round_trip_quote_never_exceeds_deposit() {
    let curve = default_curve();
    for (supply, amount) in [(0u64, 1_000_000_000u64), (1_000, 123_456_789), (50_000, 7_000_000_000)] {
        let tokens = calculate_tokens_to_mint(&curve, supply, amount).unwrap();
        let gross = calculate_sol_to_return(&curve, supply + tokens, tokens).unwrap();
        assert!(gross <= amount);
        let more = calculate_sol_to_return(&curve, supply + tokens + 1, tokens + 1).unwrap();
        assert!(more > amount);
    }
}

#[test]
fn spot_price_values_and_growth() {
    let curve = default_curve();
    assert_eq!(curve.calculate_price(0), Ok(10_000_000));
    assert_eq!(curve.calculate_price(1), Ok(10_000_920));
    assert_eq!(curve.calculate_price(1_000), Ok(10_963_640));
    let mut last = 0u64;
    for n in [0u64, 1, 2, 10, 100, 1_000, 10_000, 100_000] {
        let p = curve.calculate_price(n).unwrap();
        assert!(p > last);
        last = p;
    }
    assert_eq!(curve.calculate_price(300_000), Err(ErrorCode::ArithmeticOverflow));
}

#[test]
fn pool_mutators() {
    let mut pool = LiquidityPool { token: id(1), balance: 10, accumulated_fees: 3, authority: id(2) };
    assert_eq!(pool.add_liquidity(5), Ok(()));
    assert_eq!(pool.balance, 15);
    assert_eq!(pool.remove_liquidity(16), Err(ErrorCode::InsufficientLiquidity));
    assert_eq!(pool.balance, 15);
    assert_eq!(pool.remove_liquidity(15), Ok(()));
    assert_eq!(pool.balance, 0);
    assert_eq!(pool.add_fee(4), Ok(()));
    assert_eq!(pool.accumulated_fees, 7);
    pool.balance = u64::MAX;
    assert_eq!(pool.add_liquidity(1), Err(ErrorCode::ArithmeticOverflow));
    assert_eq!(pool.balance, u64::MAX);
    pool.accumulated_fees = u64::MAX;
    assert_eq!(pool.add_fee(1), Err(ErrorCode::ArithmeticOverflow));
    assert_eq!(pool.accumulated_fees, u64::MAX);
}

#[test]
fn curve_update_params() {
    let mut curve = default_curve();
    assert_eq!(curve.update_params(5, 6), Ok(()));
    assert_eq!((curve.initial_price, curve.slope), (5, 6));
    assert!(curve.admin.same(&id(2)));
}

#[test]
fn mint_scenario_from_fresh_curve() {
    let mut c = new_token();
    let mut h = holding(3);
    let ev = mint_token(
        &mut c.token_info,
        &c.bonding_curve,
        &mut c.liquidity_pool,
        &mut h,
        &id(1),
        &id(3),
        1_000_000_000,
    )
    .unwrap();
    assert!(ev.amount > 0);
    assert_eq!(ev.amount, 99);
    assert_eq!(ev.price, 1_000_000_000);
    assert_eq!(c.liquidity_pool.accumulated_fees, 10_000_000);
    assert_eq!(c.liquidity_pool.balance, 990_000_000);
    assert_eq!(c.token_info.total_supply, 99);
    assert_eq!(h.balance, 99);

    // Burning the same tokens at once is priced at the full deposit's worth
    // on the curve, which the balance (deposit less fee) cannot cover.
    let gross = calculate_sol_to_return(&c.bonding_curve, 99, 99).unwrap();
    assert!(gross <= 1_000_000_000);
    assert!(gross > 990_000_000);
    let before = (c.token_info.clone(), c.liquidity_pool, h);
    let r = burn_token(
        &mut c.token_info,
        &c.bonding_curve,
        &mut c.liquidity_pool,
        &mut h,
        &id(1),
        &id(3),
        ev.amount,
    );
    assert_eq!(r.unwrap_err(), ErrorCode::InsufficientLiquidity);
    assert_eq!(c.token_info.total_supply, before.0.total_supply);
    assert_eq!(c.liquidity_pool.balance, before.1.balance);
    assert_eq!(c.liquidity_pool.accumulated_fees, before.1.accumulated_fees);
    assert_eq!(h.balance, before.2.balance);
}

#[test]
fn burn_with_empty_reserve_fails() {
    let mut c = new_token();
    c.token_info.total_supply = 10;
    let mut h = holding(3);
    h.balance = 10;
    let r = burn_token(
        &mut c.token_info,
        &c.bonding_curve,
        &mut c.liquidity_pool,
        &mut h,
        &id(1),
        &id(3),
        4,
    );
    assert_eq!(r.unwrap_err(), ErrorCode::InsufficientLiquidity);
    assert_eq!(c.token_info.total_supply, 10);
    assert_eq!(h.balance, 10);
    assert_eq!(c.liquidity_pool.balance, 0);
    assert_eq!(c.liquidity_pool.accumulated_fees, 0);
}

#[test]
fn burn_succeeds_when_reserve_covers() {
    let mut c = new_token();
    let mut a = holding(3);
    let mut b = holding(4);
    let ma = mint_token(&mut c.token_info, &c.bonding_curve, &mut c.liquidity_pool, &mut a, &id(1), &id(3), 1_000_000_000).unwrap();
    let mb = mint_token(&mut c.token_info, &c.bonding_curve, &mut c.liquidity_pool, &mut b, &id(1), &id(4), 5_000_000_000).unwrap();
    assert_eq!((ma.amount, mb.amount), (99, 484));
    assert_eq!(c.token_info.total_supply, a.balance + b.balance);
    assert_eq!(c.liquidity_pool.balance, 990_000_000 + 4_950_000_000);
    assert_eq!(c.liquidity_pool.accumulated_fees, 60_000_000);

    let ev = burn_token(&mut c.token_info, &c.bonding_curve, &mut c.liquidity_pool, &mut b, &id(1), &id(4), 484).unwrap();
    let gross = calculate_sol_to_return(&c.bonding_curve, 583, 484).unwrap();
    assert_eq!(ev.amount, 484);
    assert_eq!(ev.refund, gross - gross / 100);
    assert!(gross <= 5_000_000_000);
    assert_eq!(c.liquidity_pool.balance, 5_940_000_000 - gross);
    assert_eq!(c.liquidity_pool.accumulated_fees, 60_000_000 + gross / 100);
    assert_eq!(c.token_info.total_supply, 99);
    assert_eq!(b.balance, 0);
    assert_eq!(c.token_info.total_supply, a.balance + b.balance);
}

#[test]
fn supply_matches_holdings_over_a_sequence() {
    let mut c = new_token();
    let mut hs = [holding(3), holding(4), holding(5)];
    let deposits = [700_000_000u64, 2_000_000_000, 50_000_000, 9_000_000_000];
    for (k, amount) in deposits.iter().enumerate() {
        let i = k % 3;
        let user = id(3 + i as u8);
        mint_token(&mut c.token_info, &c.bonding_curve, &mut c.liquidity_pool, &mut hs[i], &id(1), &user, *amount).unwrap();
        let total: u64 = hs.iter().map(|h| h.balance).sum();
        assert_eq!(c.token_info.total_supply, total);
    }
    for i in [0usize, 2, 1] {
        let user = id(3 + i as u8);
        let half = hs[i].balance / 2;
        let r = burn_token(&mut c.token_info, &c.bonding_curve, &mut c.liquidity_pool, &mut hs[i], &id(1), &user, half);
        assert!(r.is_ok());
        let total: u64 = hs.iter().map(|h| h.balance).sum();
        assert_eq!(c.token_info.total_supply, total);
    }
}

#[test]
fn trade_account_checks() {
    let mut c = new_token();
    let mut h = holding(3);
    let r = mint_token(&mut c.token_info, &c.bonding_curve, &mut c.liquidity_pool, &mut h, &id(8), &id(3), 1_000);
    assert_eq!(r.unwrap_err(), ErrorCode::InvalidToken);
    let r = mint_token(&mut c.token_info, &c.bonding_curve, &mut c.liquidity_pool, &mut h, &id(1), &id(4), 1_000);
    assert_eq!(r.unwrap_err(), ErrorCode::Unauthorized);
    let mut other = UserPortfolio { user: id(3), token: id(8), balance: 0 };
    let r = mint_token(&mut c.token_info, &c.bonding_curve, &mut c.liquidity_pool, &mut other, &id(1), &id(3), 1_000);
    assert_eq!(r.unwrap_err(), ErrorCode::InvalidToken);
    let r = burn_token(&mut c.token_info, &c.bonding_curve, &mut c.liquidity_pool, &mut h, &id(1), &id(4), 0);
    assert_eq!(r.unwrap_err(), ErrorCode::Unauthorized);
    assert_eq!(c.token_info.total_supply, 0);
    assert_eq!(c.liquidity_pool.balance, 0);
}

#[test]
fn burn_more_than_supply_or_holding() {
    let mut c = new_token();
    let mut a = holding(3);
    let mut b = holding(4);
    mint_token(&mut c.token_info, &c.bonding_curve, &mut c.liquidity_pool, &mut a, &id(1), &id(3), 9_000_000_000).unwrap();
    let too_many = a.balance + 1;
    let r = burn_token(&mut c.token_info, &c.bonding_curve, &mut c.liquidity_pool, &mut a, &id(1), &id(3), too_many);
    assert_eq!(r.unwrap_err(), ErrorCode::InvalidBondingCurveParameters);
    let r = burn_token(&mut c.token_info, &c.bonding_curve, &mut c.liquidity_pool, &mut b, &id(1), &id(4), 1);
    assert_eq!(r.unwrap_err(), ErrorCode::ArithmeticUnderflow);
    assert_eq!(c.token_info.total_supply, a.balance);
}

#[test]
fn mint_overflow_leaves_records() {
    let mut c = new_token();
    c.liquidity_pool.balance = u64::MAX - 10;
    let mut h = holding(3);
    let r = mint_token(&mut c.token_info, &c.bonding_curve, &mut c.liquidity_pool, &mut h, &id(1), &id(3), 1_000_000_000);
    assert_eq!(r.unwrap_err(), ErrorCode::ArithmeticOverflow);
    assert_eq!(c.liquidity_pool.balance, u64::MAX - 10);
    assert_eq!(c.liquidity_pool.accumulated_fees, 0);
    assert_eq!(c.token_info.total_supply, 0);
    assert_eq!(h.balance, 0);
}

#[test]
fn withdraw_fees_by_stranger_fails() {
    let mut c = new_token();
    c.liquidity_pool.accumulated_fees = 500;
    let r = withdraw_fees(&mut c.liquidity_pool, &id(3), &id(3), 100);
    assert_eq!(r.unwrap_err(), ErrorCode::Unauthorized);
    assert_eq!(c.liquidity_pool.accumulated_fees, 500);
}

#[test]
fn withdraw_fees_by_authority() {
    let mut c = new_token();
    c.liquidity_pool.accumulated_fees = 500;
    c.liquidity_pool.balance = 77;
    let r = withdraw_fees(&mut c.liquidity_pool, &id(2), &id(6), 501);
    assert_eq!(r.unwrap_err(), ErrorCode::InsufficientBalance);
    assert_eq!(c.liquidity_pool.accumulated_fees, 500);
    let ev = withdraw_fees(&mut c.liquidity_pool, &id(2), &id(6), 200).unwrap();
    assert_eq!(ev.amount, 200);
    assert!(ev.receiver.same(&id(6)));
    assert_eq!(c.liquidity_pool.accumulated_fees, 300);
    assert_eq!(c.liquidity_pool.balance, 77);
}

#[test]
fn fees_do_not_change_burn_payout() {
    let mut c = new_token();
    let mut a = holding(3);
    mint_token(&mut c.token_info, &c.bonding_curve, &mut c.liquidity_pool, &mut a, &id(1), &id(3), 9_000_000_000).unwrap();
    let mut info2 = c.token_info.clone();
    let mut pool2 = c.liquidity_pool;
    let mut a2 = a;
    pool2.accumulated_fees = 0;
    let r1 = burn_token(&mut c.token_info, &c.bonding_curve, &mut c.liquidity_pool, &mut a, &id(1), &id(3), 100).unwrap();
    let r2 = burn_token(&mut info2, &c.bonding_curve, &mut pool2, &mut a2, &id(1), &id(3), 100).unwrap();
    assert_eq!(r1.refund, r2.refund);
    assert_eq!(c.liquidity_pool.balance, pool2.balance);
}

#[test]
fn update_curve_requires_admin() {
    let mut c = new_token();
    let r = update_bonding_curve_params(&mut c.bonding_curve, &id(3), 1, 1);
    assert_eq!(r.unwrap_err(), ErrorCode::Unauthorized);
    assert_eq!((c.bonding_curve.initial_price, c.bonding_curve.slope), (10_000_000, 92));
    assert_eq!(update_bonding_curve_params(&mut c.bonding_curve, &id(2), 20_000_000, 50), Ok(()));
    assert_eq!((c.bonding_curve.initial_price, c.bonding_curve.slope), (20_000_000, 50));
}

#[test]
fn error_messages() {
    assert_eq!(ErrorCode::InsufficientLiquidity.message(), "Liquidity pool balance too low");
    assert_eq!(ErrorCode::Unauthorized.message(), "Unauthorized access");
    assert_eq!(ErrorCode::InvalidBondingCurveParameters.message(), "Invalid bonding curve parameters");
    assert_eq!(ErrorCode::InvalidTokenName.message(), "Invalid token name");
    assert_eq!(ErrorCode::ArithmeticUnderflow.message(), "Arithmetic underflow occurred");
}

fn closed_form_cost(curve: &BondingCurve, lo: u64, hi: u64) -> f64 {
    let k = curve.slope as f64 / 1e6;
    let p0 = curve.initial_price as f64;
    p0 / k * ((k * hi as f64).exp() - (k * lo as f64).exp())
}

#[test]
fn mint_and_burn_stay_within_closed_form() {
    let curves = [
        default_curve(),
        BondingCurve { token: id(1), initial_price: 1_000_000, slope: 1, admin: id(2) },
        BondingCurve { token: id(1), initial_price: 5_000_000_000, slope: 4_000, admin: id(2) },
        BondingCurve { token: id(1), initial_price: 123, slope: 1_000_000, admin: id(2) },
    ];
    for curve in curves.iter() {
        for supply in [0u64, 1, 7, 45, 300, 1_000] {
            for amount in [1_000u64, 1_000_000, 1_000_000_000, 50_000_000_000] {
                if let Ok(t) = calculate_tokens_to_mint(curve, supply, amount) {
                    let cost = closed_form_cost(curve, supply, supply + t);
                    assert!(cost <= amount as f64 * (1.0 + 1e-12));
                }
            }
            for burn in [1u64, 5, 45] {
                if burn <= supply {
                    if let Ok(g) = calculate_sol_to_return(curve, supply, burn) {
                        let value = closed_form_cost(curve, supply - burn, supply);
                        assert!(g as f64 <= value * (1.0 + 1e-12) + 1e-6);
                    }
                }
            }
        }
    }
}
