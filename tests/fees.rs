use snails_exchange::fees::{assert_fees_info_valid, FeeConfigError, Fees};

fn fees() -> Fees {
    Fees {
        admin_trade_fee_numerator: 5000000000,
        admin_trade_fee_denominator: 10000000000,
        admin_withdraw_fee_numerator: 5000000000,
        admin_withdraw_fee_denominator: 10000000000,
        trade_fee_numerator: 4000000,
        trade_fee_denominator: 10000000000,
        withdraw_fee_numerator: 3000000,
        withdraw_fee_denominator: 10000000000,
    }
}

#[test]
fn fee_amounts() {
    let f = fees();
    let amount: u128 = 1_000_000_000_000_000_000_000_000_000_000;
    assert_eq!(f.trade_fee(amount), Some(400000000000000000000000000));
    assert_eq!(f.withdraw_fee(amount), Some(300000000000000000000000000));
    assert_eq!(f.admin_trade_fee(1001), Some(500));
    assert_eq!(f.admin_withdraw_fee(u128::MAX), Some(170141183460469231731687303715884105727));
    assert_eq!(f.trade_fee(2499), Some(0));
}

#[test]
fn normalized_fee_amounts() {
    let f = fees();
    let amount: u128 = 1_000_000_000_000_000_000_000_000_000_000;
    assert_eq!(f.normalized_trade_fee(3, amount), Some(150000000000000000000000000));
    assert_eq!(f.normalized_trade_fee(2, amount), Some(200000000000000000000000000));
    assert_eq!(f.normalized_trade_fee(1, amount), None);
    assert_eq!(f.normalized_trade_fee(0, amount), None);
}

#[test]
fn fee_failures() {
    let mut f = fees();
    f.trade_fee_denominator = 0;
    assert_eq!(f.trade_fee(5), None);
    let mut g = fees();
    g.withdraw_fee_numerator = 3;
    g.withdraw_fee_denominator = 1;
    assert_eq!(g.withdraw_fee(u128::MAX), None);
}

#[test]
fn fee_config_errors() {
    assert_eq!(assert_fees_info_valid(&fees()), Ok(()));
    let mut f = fees();
    f.withdraw_fee_denominator = 0;
    assert_eq!(assert_fees_info_valid(&f), Err(FeeConfigError::WithdrawFeeDenominator));
    f.trade_fee_denominator = 0;
    assert_eq!(assert_fees_info_valid(&f), Err(FeeConfigError::TradeFeeDenominator));
    f.admin_withdraw_fee_denominator = 0;
    assert_eq!(assert_fees_info_valid(&f), Err(FeeConfigError::AdminWithdrawFeeDenominator));
    f.admin_trade_fee_denominator = 0;
    assert_eq!(assert_fees_info_valid(&f), Err(FeeConfigError::AdminTradeFeeDenominator));
}
