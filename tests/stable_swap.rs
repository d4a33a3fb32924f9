use snails_exchange::fees::Fees;
use snails_exchange::rates::PRECISION;
use snails_exchange::swap::{PoolStatus, SnailStableSwap, SwapResult};

const ZERO_TS: u64 = 0;
const MIN_RAMP_DURATION: u64 = 86400;
const RAMP_TICKS: u64 = 100000;
const TEST_RATES: [u128; 3 as usize] = [1000000, 1000000000000000000, 1000000000000000000];

fn test_fees() -> Fees {
    Fees {
        admin_trade_fee_numerator: 5000000000,
        admin_trade_fee_denominator: 10000000000,
        admin_withdraw_fee_numerator: 5000000000,
        admin_withdraw_fee_denominator: 10000000000,
        trade_fee_numerator: 4000000,
        trade_fee_denominator: 10000000000,
        withdraw_fee_numerator: 3000000,
        withdraw_fee_denominator: 10000000000,
    }
}

fn zero_fees() -> Fees {
    Fees {
        admin_trade_fee_numerator: 0,
        admin_trade_fee_denominator: 10000000000,
        admin_withdraw_fee_numerator: 0,
        admin_withdraw_fee_denominator: 10000000000,
        trade_fee_numerator: 0,
        trade_fee_denominator: 10000000000,
        withdraw_fee_numerator: 0,
        withdraw_fee_denominator: 10000000000,
    }
}

fn pool() -> SnailStableSwap {
    SnailStableSwap::new(100, 100, 0, 0, 0, TEST_RATES.to_vec())
}

/// 1000 of each token: the first has 18 decimals, the others 6.
fn balances() -> Vec<u128> {
    vec![1000 * 1_000_000_000_000_000_000, 1000 * 1_000_000, 1000 * 1_000_000]
}

const SUPPLY: u128 = 3000 * PRECISION;

fn check_status(
    s: &PoolStatus,
    lp: u128,
    minted: bool,
    received: &[u128],
    new_balances: &[u128],
    total_fee: &[u128],
    admin_fee: &[u128],
) {
    assert_eq!(s.pool_lp_token_changed, lp);
    assert_eq!(s.pool_lp_changed_direction, minted);
    assert_eq!(s.recieved_amount, received.to_vec());
    assert_eq!(s.new_balances, new_balances.to_vec());
    assert_eq!(s.total_fee_amount, total_fee.to_vec());
    assert_eq!(s.admin_fee_amount, admin_fee.to_vec());
}

fn ramp_amp_up_from(start_ramp_ts: u64) {
    let initial_amp_factor = 100;
    let target_amp_factor = initial_amp_factor * 2;
    let stop_ramp_ts = start_ramp_ts + MIN_RAMP_DURATION;
    for tick in 0..RAMP_TICKS {
        let current_ts = start_ramp_ts + tick;
        let snails_swap = SnailStableSwap::new(
            initial_amp_factor,
            target_amp_factor,
            current_ts,
            start_ramp_ts,
            stop_ramp_ts,
            TEST_RATES.to_vec(),
        );
        let expected = if tick >= MIN_RAMP_DURATION {
            target_amp_factor
        } else {
            initial_amp_factor + (initial_amp_factor * tick as u64 / MIN_RAMP_DURATION as u64)
        };
        assert_eq!(snails_swap.compute_amp_factor().unwrap(), expected);
    }
}

fn ramp_amp_down_from(start_ramp_ts: u64) {
    let initial_amp_factor = 100;
    let target_amp_factor = initial_amp_factor / 10;
    let amp_range = initial_amp_factor - target_amp_factor;
    let stop_ramp_ts = start_ramp_ts + MIN_RAMP_DURATION;
    for tick in 0..RAMP_TICKS {
        let current_ts = start_ramp_ts + tick;
        let snails_swap = SnailStableSwap::new(
            initial_amp_factor,
            target_amp_factor,
            current_ts,
            start_ramp_ts,
            stop_ramp_ts,
            TEST_RATES.to_vec(),
        );
        let expected = if tick >= MIN_RAMP_DURATION {
            target_amp_factor
        } else {
            initial_amp_factor - (amp_range * tick as u64 / MIN_RAMP_DURATION as u64)
        };
        assert_eq!(snails_swap.compute_amp_factor().unwrap(), expected);
    }
}

#[test]
fn test_ramp_amp_up() {
    ramp_amp_up_from(ZERO_TS);
    ramp_amp_up_from(1_652_000_000);
    ramp_amp_up_from(u64::MAX - RAMP_TICKS);
}

#[test]
fn test_ramp_amp_down() {
    ramp_amp_down_from(ZERO_TS);
    ramp_amp_down_from(1_652_000_000);
    ramp_amp_down_from(u64::MAX - RAMP_TICKS);
}

#[test]
fn amplification_at_ramp_boundaries() {
    let at = |t: u64| SnailStableSwap::new(50, 250, t, 1000, 2000, TEST_RATES.to_vec());
    assert_eq!(at(1000).compute_amp_factor(), Some(50));
    assert_eq!(at(1500).compute_amp_factor(), Some(150));
    assert_eq!(at(1999).compute_amp_factor(), Some(249));
    assert_eq!(at(2000).compute_amp_factor(), Some(250));
    assert_eq!(at(u64::MAX).compute_amp_factor(), Some(250));
    let mut last = 0;
    for t in 1000..2100 {
        let a = at(t).compute_amp_factor().unwrap();
        assert!(a >= last);
        last = a;
    }
    // A stop time of zero means no ramp at all.
    let none = SnailStableSwap::new(50, 250, 7, 0, 0, TEST_RATES.to_vec());
    assert_eq!(none.compute_amp_factor(), Some(250));
}

#[test]
fn invariant_of_a_balanced_pool_is_the_sum() {
    let s = pool();
    let p: Vec<u128> = vec![1000 * PRECISION, 1000 * PRECISION, 1000 * PRECISION];
    let d = s.get_d(&p).unwrap();
    assert!(d.converged);
    assert_eq!(d.value.to_u128(), Some(3000 * PRECISION));
    let empty = s.get_d(&vec![0, 0, 0]).unwrap();
    assert_eq!(empty.value.to_u128(), Some(0));
}

#[test]
fn invariant_fails_on_one_empty_balance() {
    let s = pool();
    assert!(s.get_d(&vec![1000, 0, 1000]).is_none());
}

#[test]
fn virtual_price_values() {
    let s = pool();
    assert_eq!(s.get_virtual_price(&balances(), SUPPLY), Some(PRECISION));
    assert_eq!(s.get_virtual_price(&balances(), SUPPLY / 2), Some(2 * PRECISION));
    assert_eq!(s.get_virtual_price(&balances(), 0), None);
    // A balance that overflows once scaled gives no price.
    assert_eq!(s.get_virtual_price(&vec![0, u128::MAX, 0], SUPPLY), None);
}

#[test]
fn exchange_values() {
    let s = pool();
    let r = s.exchange(1, 0, 10_000_000, &balances(), &test_fees()).unwrap();
    assert_eq!(
        r,
        SwapResult {
            i_a: 1,
            i_b: 0,
            amount_a: 10000000,
            amount_b: 9995010298009604960,
            new_pool_a: 1010000000,
            new_pool_b: 990002989900010000962,
            admin_fee: 1999801980394078,
            total_fee: 3999603960788157,
        }
    );
    let r = s.exchange(0, 2, 5_000_000_000_000_000_000, &balances(), &test_fees()).unwrap();
    assert_eq!(
        r,
        SwapResult {
            i_a: 0,
            i_b: 2,
            amount_a: 5000000000000000000,
            amount_b: 4997752,
            new_pool_a: 1005000000000000000000,
            new_pool_b: 995001249,
            admin_fee: 999,
            total_fee: 1999,
        }
    );
}

#[test]
fn exchange_conserves_balances() {
    let s = pool();
    let b = balances();
    for (i, j, dx) in [(0u8, 1u8, 3_000_000_000_000_000_000u128), (2, 1, 77_000_000), (1, 2, 1)] {
        if let Some(r) = s.exchange(i, j, dx, &b, &test_fees()) {
            assert_eq!(r.new_pool_a - b[i as usize], dx);
            assert_eq!(b[j as usize] - r.new_pool_b, r.amount_b + r.admin_fee);
            assert!(r.admin_fee <= r.total_fee);
        }
    }
}

#[test]
fn exchange_fails_when_the_input_overflows() {
    let s = pool();
    assert!(s.exchange(1, 0, u128::MAX / 2, &balances(), &test_fees()).is_none());
}

#[test]
fn near_one_to_one_swap_at_large_amplification() {
    let s = SnailStableSwap::new(1_000_000_000, 1_000_000_000, 0, 0, 0, vec![1, 1]);
    let fees = Fees {
        admin_trade_fee_numerator: 0,
        admin_trade_fee_denominator: 1,
        admin_withdraw_fee_numerator: 0,
        admin_withdraw_fee_denominator: 1,
        trade_fee_numerator: 0,
        trade_fee_denominator: 1,
        withdraw_fee_numerator: 0,
        withdraw_fee_denominator: 1,
    };
    let r = s.exchange(0, 1, 100, &vec![1_000_000, 1_000_000], &fees).unwrap();
    assert_eq!(r.amount_b, 99);
    assert!(r.amount_b + 1 >= 100 && r.amount_b <= 101);
}

#[test]
fn first_deposit_mints_the_invariant() {
    let s = pool();
    let deposits = vec![100 * 1_000_000_000_000_000_000, 200_000_000, 300_000_000];
    let r = s.add_liquidity(&deposits, &vec![0, 0, 0], 0, &test_fees()).unwrap();
    check_status(
        &r,
        599342806940310079562612460,
        true,
        &deposits,
        &deposits,
        &[0, 0, 0],
        &[0, 0, 0],
    );
}

#[test]
fn later_deposit_pays_fees() {
    let s = pool();
    let deposits = vec![100 * 1_000_000_000_000_000_000, 200_000_000, 300_000_000];
    let r = s.add_liquidity(&deposits, &balances(), SUPPLY, &test_fees()).unwrap();
    check_status(
        &r,
        599886917160836301477213522,
        true,
        &deposits,
        &[1099992502076940009016, 1199999998, 1299992498],
        &[14995846119981968, 4, 15004],
        &[7497923059990984, 2, 7502],
    );
}

#[test]
fn deposit_that_does_not_grow_the_invariant_fails() {
    let s = pool();
    assert!(s.add_liquidity(&vec![0, 0, 0], &balances(), SUPPLY, &test_fees()).is_none());
}

#[test]
fn balanced_withdrawal_values() {
    let s = pool();
    let r = s.remove_liquidity(300 * PRECISION, &balances(), SUPPLY, &test_fees()).unwrap();
    check_status(
        &r,
        300 * PRECISION,
        false,
        &[99970000000000000000, 99970000, 99970000],
        &[900015000000000000000, 900015000, 900015000],
        &[30000000000000000, 30000, 30000],
        &[15000000000000000, 15000, 15000],
    );
}

#[test]
fn withdrawing_every_share_keeps_only_the_admin_fee() {
    let s = pool();
    let r = s.remove_liquidity(SUPPLY, &balances(), SUPPLY, &test_fees()).unwrap();
    check_status(
        &r,
        SUPPLY,
        false,
        &[999850000000000000000, 999850000, 999850000],
        &[0, 0, 0],
        &[300000000000000000, 300000, 300000],
        &[150000000000000000, 150000, 150000],
    );
}

#[test]
fn imbalanced_withdrawal_values() {
    let s = pool();
    let removes = vec![100 * 1_000_000_000_000_000_000, 20_000_000, 0];
    let r = s.remove_liquidity_imbalance(&removes, &balances(), SUPPLY, &test_fees()).unwrap();
    check_status(
        &r,
        120083505131415242209946589,
        false,
        &removes,
        &[899980500737088575166, 979995500, 999997000],
        &[38998525822849668, 9001, 6001],
        &[19499262911424834, 4500, 3000],
    );
}

#[test]
fn imbalanced_withdrawal_beyond_the_balance_fails() {
    let s = pool();
    let removes = vec![0, 2000 * 1_000_000, 0];
    assert!(s.remove_liquidity_imbalance(&removes, &balances(), SUPPLY, &test_fees()).is_none());
}

#[test]
fn single_token_withdrawal_values() {
    let s = pool();
    let r = s.remove_liquidity_one_coin(1, 100 * PRECISION, &balances(), SUPPLY, &test_fees()).unwrap();
    check_status(
        &r,
        100 * PRECISION,
        false,
        &[0, 99915005, 0],
        &[1000000000000000000000, 900060010, 1000000000],
        &[0, 49967, 0],
        &[0, 24983, 0],
    );
}

#[test]
fn deposit_withdraw_round_trip() {
    let s = pool();
    let deposits = vec![123 * 1_000_000_000_000_000_000, 456_000_000, 789_000_001];
    let added = s.add_liquidity(&deposits, &vec![0, 0, 0], 0, &zero_fees()).unwrap();
    let p: Vec<u128> = vec![
        deposits[0] * TEST_RATES[0],
        deposits[1] * TEST_RATES[1],
        deposits[2] * TEST_RATES[2],
    ];
    let d1 = s.get_d(&p).unwrap().value.to_u128().unwrap();
    assert_eq!(added.pool_lp_token_changed, d1);
    let lp = added.pool_lp_token_changed;
    let removed = s.remove_liquidity(lp, &added.new_balances, lp, &zero_fees()).unwrap();
    assert_eq!(removed.recieved_amount, deposits);
    assert_eq!(removed.new_balances, vec![0, 0, 0]);
}

#[test]
fn admin_fee_never_exceeds_total_fee() {
    let s = pool();
    let f = test_fees();
    let b = balances();
    let statuses = vec![
        s.add_liquidity(&vec![5, 7_000_000, 9], &b, SUPPLY, &f).unwrap(),
        s.remove_liquidity(17 * PRECISION, &b, SUPPLY, &f).unwrap(),
        s.remove_liquidity_imbalance(&vec![1, 2, 3_000_000], &b, SUPPLY, &f).unwrap(),
        s.remove_liquidity_one_coin(2, 5 * PRECISION, &b, SUPPLY, &f).unwrap(),
    ];
    for st in statuses {
        for k in 0..3 {
            assert!(st.admin_fee_amount[k] <= st.total_fee_amount[k]);
        }
    }
}

#[test]
fn virtual_price_grows_with_fees() {
    let s = pool();
    let before = s.get_virtual_price(&balances(), SUPPLY).unwrap();
    let r = s.exchange(1, 0, 10_000_000, &balances(), &test_fees()).unwrap();
    let mut after_balances = balances();
    after_balances[1] = r.new_pool_a;
    after_balances[0] = r.new_pool_b;
    let after = s.get_virtual_price(&after_balances, SUPPLY).unwrap();
    assert!(after >= before);
}

#[test]
fn tiny_deposit_mints_few_shares_and_no_fee() {
    let s = pool();
    let r = s.add_liquidity(&vec![1, 0, 0], &balances(), SUPPLY, &test_fees()).unwrap();
    check_status(
        &r,
        1000000,
        true,
        &[1, 0, 0],
        &[1000000000000000000001, 1000000000, 1000000000],
        &[0, 0, 0],
        &[0, 0, 0],
    );
}

#[test]
fn single_token_withdrawal_of_every_share() {
    let s = pool();
    let r = s.remove_liquidity_one_coin(0, SUPPLY, &balances(), SUPPLY, &test_fees()).unwrap();
    check_status(
        &r,
        SUPPLY,
        false,
        &[999700000000000000000, 0, 0],
        &[150000000000000000, 1000000000, 1000000000],
        &[300000000000000000, 0, 0],
        &[149999999999999999, 0, 0],
    );
}

#[test]
fn single_token_withdrawal_of_nothing_fails() {
    let s = pool();
    assert!(s.remove_liquidity_one_coin(0, 0, &balances(), SUPPLY, &test_fees()).is_none());
}

#[test]
fn imbalanced_withdrawal_of_everything_fails() {
    let s = pool();
    assert!(s.remove_liquidity_imbalance(&balances(), &balances(), SUPPLY, &test_fees()).is_none());
}

#[test]
fn operations_mid_ramp() {
    let s = SnailStableSwap::new(100, 1000, 50, 0, 100, TEST_RATES.to_vec());
    assert_eq!(s.compute_amp_factor(), Some(550));
    let r = s.exchange(2, 1, 50_000_000, &balances(), &test_fees()).unwrap();
    assert_eq!(
        r,
        SwapResult {
            i_a: 2,
            i_b: 1,
            amount_a: 50000000,
            amount_b: 49975453,
            new_pool_a: 1050000000,
            new_pool_b: 950014548,
            admin_fee: 9999,
            total_fee: 19998,
        }
    );
    assert_eq!(s.get_virtual_price(&balances(), 2999 * PRECISION), Some(1000333444481493831277092));
}
