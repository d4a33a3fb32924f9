//! Facts that relate the pool operations to each other and to their inputs.
use crate::bigint::{lemma_bound_values, u128_bound};
use crate::fees::{fraction_of, Fees};
use crate::rates::PRECISION;
use crate::swap::{lemma_ramp_step, ramp_amp, scaled_balances, PoolChange, SnailStableSwap};
use crate::token_steps::{
    balanced_share, deposit_fee, differences, one_coin_reduced, summed, withdraw_fee_parts, zeros,
};
use vstd::arithmetic::div_mod::{lemma_div_by_multiple, lemma_div_is_ordered};
use vstd::prelude::*;

verus! {

/// At the start of a ramp the amplification is the initial one.
pub proof fn lemma_ramp_starts_at_initial(initial: u64, target: u64, start: u64, stop: u64)
    requires
        start < stop,
    ensures
        ramp_amp(initial, target, start, start, stop) == initial,
{
    let span = (stop - start) as nat;
    assert(((target - initial) as nat) * 0 == 0);
    assert(((initial - target) as nat) * 0 == 0);
    assert(0nat / span == 0);
}

/// From the end of the ramp on, the amplification is the target.
pub proof fn lemma_ramp_ends_at_target(initial: u64, target: u64, current: u64, start: u64, stop: u64)
    requires
        current >= stop,
    ensures
        ramp_amp(initial, target, current, start, stop) == target,
{
}

/// Over time the amplification moves only toward the target: it never falls
/// on a ramp up and never rises on a ramp down.
pub proof fn lemma_ramp_monotone(initial: u64, target: u64, t1: u64, t2: u64, start: u64, stop: u64)
    requires
        start <= t1 <= t2,
    ensures
        target >= initial ==> ramp_amp(initial, target, t1, start, stop) <= ramp_amp(
            initial,
            target,
            t2,
            start,
            stop,
        ),
        target < initial ==> ramp_amp(initial, target, t1, start, stop) >= ramp_amp(
            initial,
            target,
            t2,
            start,
            stop,
        ),
{
    let range: nat = if target >= initial {
        (target - initial) as nat
    } else {
        (initial - target) as nat
    };
    if t1 < stop {
        let span = (stop - start) as nat;
        let e1 = (t1 - start) as nat;
        lemma_ramp_step(range, e1, span);
        if t2 < stop {
            let e2 = (t2 - start) as nat;
            lemma_ramp_step(range, e2, span);
            assert(range * e1 <= range * e2) by (nonlinear_arith)
                requires
                    e1 <= e2,
            ;
            lemma_div_is_ordered((range * e1) as int, (range * e2) as int, span as int);
            if target >= initial {
                assert(ramp_amp(initial, target, t1, start, stop) == initial + range * e1 / span);
                assert(ramp_amp(initial, target, t2, start, stop) == initial + range * e2 / span);
            } else {
                assert(ramp_amp(initial, target, t1, start, stop) == initial - range * e1 / span);
                assert(ramp_amp(initial, target, t2, start, stop) == initial - range * e2 / span);
            }
        } else {
            if target >= initial {
                assert(ramp_amp(initial, target, t1, start, stop) == initial + range * e1 / span);
            } else {
                assert(ramp_amp(initial, target, t1, start, stop) == initial - range * e1 / span);
            }
        }
    }
}

/// A swap adds exactly the amount paid in to the pool's balance of that
/// token, and takes exactly the amount paid out plus the admin fee from the
/// other.
pub proof fn lemma_exchange_conserves(
    s: SnailStableSwap,
    i: int,
    j: int,
    dx: u128,
    balances: Seq<u128>,
    fees: Fees,
)
    requires
        0 <= i < balances.len(),
        0 <= j < balances.len(),
        s.exchange_spec(i, j, dx, balances, fees) is Some,
    ensures
        ({
            let r = s.exchange_spec(i, j, dx, balances, fees).unwrap();
            &&& r.new_pool_a - balances[i] == dx
            &&& balances[j] - r.new_pool_b == r.amount_b + r.admin_fee
        }),
{
    lemma_bound_values();
}

/// A fraction at most one of an amount is at most the amount.
pub proof fn lemma_fraction_at_most(amount: nat, numerator: nat, denominator: nat)
    requires
        numerator <= denominator,
    ensures
        fraction_of(amount, numerator, denominator) matches Some(v) ==> v <= amount,
{
    if denominator != 0 {
        assert(amount * numerator <= amount * denominator) by (nonlinear_arith)
            requires
                numerator <= denominator,
        ;
        lemma_div_is_ordered((amount * numerator) as int, (amount * denominator) as int, denominator as int);
        lemma_div_by_multiple(amount as int, denominator as int);
    }
}

/// The admin shares are fractions at most one.
pub open spec fn admin_shares_at_most_whole(fees: Fees) -> bool {
    &&& fees.admin_trade_fee_numerator <= fees.admin_trade_fee_denominator
    &&& fees.admin_withdraw_fee_numerator <= fees.admin_withdraw_fee_denominator
}

/// In every token, the admin fee is at most the whole fee.
pub open spec fn admin_within_total(c: PoolChange) -> bool {
    &&& c.admin_fee.len() == c.total_fee.len()
    &&& forall|k: int| 0 <= k < c.admin_fee.len() ==> #[trigger] c.admin_fee[k] <= c.total_fee[k]
}

/// The admin fee of a swap is carved out of its fee, never added.
pub proof fn lemma_exchange_admin_within_fee(
    s: SnailStableSwap,
    i: int,
    j: int,
    dx: u128,
    balances: Seq<u128>,
    fees: Fees,
)
    requires
        admin_shares_at_most_whole(fees),
        s.exchange_spec(i, j, dx, balances, fees) is Some,
    ensures
        s.exchange_spec(i, j, dx, balances, fees).unwrap().admin_fee <= s.exchange_spec(
            i,
            j,
            dx,
            balances,
            fees,
        ).unwrap().total_fee,
{
    let p = scaled_balances(balances, s.rates@).unwrap();
    let p_dx = dx * s.rates@[i];
    let p_y = s.y_spec(i, j, (p[i] + p_dx) as u128, p).unwrap();
    let p_dy = (p[j] - p_y - 1) as nat;
    let fee = fraction_of(p_dy, fees.trade_fee_numerator as nat, fees.trade_fee_denominator as nat).unwrap();
    lemma_fraction_at_most(
        fee as nat,
        fees.admin_trade_fee_numerator as nat,
        fees.admin_trade_fee_denominator as nat,
    );
    let admin_p = fraction_of(
        fee as nat,
        fees.admin_trade_fee_numerator as nat,
        fees.admin_trade_fee_denominator as nat,
    ).unwrap();
    let rate = s.rates@[j] as nat;
    lemma_div_is_ordered(admin_p as int, fee as int, rate as int);
}

/// The admin fee of a balanced withdrawal is carved out of its fee in
/// every token.
pub proof fn lemma_remove_liquidity_admin_within_fee(
    s: SnailStableSwap,
    lp: u128,
    balances: Seq<u128>,
    supply: u128,
    fees: Fees,
)
    requires
        admin_shares_at_most_whole(fees),
        s.remove_liquidity_spec(lp, balances, supply, fees) is Some,
    ensures
        admin_within_total(s.remove_liquidity_spec(lp, balances, supply, fees).unwrap()),
{
    let c = s.remove_liquidity_spec(lp, balances, supply, fees).unwrap();
    assert forall|k: int| 0 <= k < c.admin_fee.len() implies #[trigger] c.admin_fee[k]
        <= c.total_fee[k] by {
        let t = balanced_share(fees, balances[k], lp, supply).unwrap();
        lemma_fraction_at_most(
            t.2 as nat,
            fees.admin_withdraw_fee_numerator as nat,
            fees.admin_withdraw_fee_denominator as nat,
        );
    }
}

/// The admin fee of a deposit is carved out of its fee in every token.
pub proof fn lemma_add_liquidity_admin_within_fee(
    s: SnailStableSwap,
    deposits: Seq<u128>,
    balances: Seq<u128>,
    supply: u128,
    fees: Fees,
)
    requires
        admin_shares_at_most_whole(fees),
        s.add_liquidity_spec(deposits, balances, supply, fees) is Some,
    ensures
        admin_within_total(s.add_liquidity_spec(deposits, balances, supply, fees).unwrap()),
{
    let c = s.add_liquidity_spec(deposits, balances, supply, fees).unwrap();
    let n = balances.len();
    if supply == 0 {
        assert(c.admin_fee == zeros(n));
        assert(c.total_fee == zeros(n));
    } else {
        let d0 = s.d_of(scaled_balances(balances, s.rates@).unwrap()).unwrap();
        let grown = summed(balances, deposits).unwrap();
        let d1 = s.d_of(scaled_balances(grown, s.rates@).unwrap()).unwrap();
        assert forall|k: int| 0 <= k < c.admin_fee.len() implies #[trigger] c.admin_fee[k]
            <= c.total_fee[k] by {
            let t = deposit_fee(fees, s.coin_num as nat, balances[k], grown[k], d0, d1).unwrap();
            assert(c.admin_fee[k] == t.3);
            assert(c.total_fee[k] == t.2);
            lemma_fraction_at_most(
                t.2 as nat,
                fees.admin_trade_fee_numerator as nat,
                fees.admin_trade_fee_denominator as nat,
            );
        }
    }
}

/// The admin fee of an imbalanced withdrawal is at most its fee in every
/// token: the operation fails otherwise.
pub proof fn lemma_imbalance_admin_within_fee(
    s: SnailStableSwap,
    removes: Seq<u128>,
    balances: Seq<u128>,
    supply: u128,
    fees: Fees,
)
    requires
        s.remove_liquidity_imbalance_spec(removes, balances, supply, fees) is Some,
    ensures
        admin_within_total(s.remove_liquidity_imbalance_spec(removes, balances, supply, fees).unwrap()),
{
    let c = s.remove_liquidity_imbalance_spec(removes, balances, supply, fees).unwrap();
    let d0 = s.d_of(scaled_balances(balances, s.rates@).unwrap()).unwrap();
    let kept = differences(balances, removes).unwrap();
    let d1 = s.d_of(scaled_balances(kept, s.rates@).unwrap()).unwrap();
    assert forall|k: int| 0 <= k < c.admin_fee.len() implies #[trigger] c.admin_fee[k]
        <= c.total_fee[k] by {
        let t = withdraw_fee_parts(
            fees,
            s.coin_num as nat,
            balances[k],
            removes[k],
            kept[k],
            d0,
            d1,
        ).unwrap();
        assert(t.3 <= t.2);
    }
}

/// The admin fee of a single-token withdrawal is at most its fee in every
/// token: the operation fails otherwise.
pub proof fn lemma_one_coin_admin_within_fee(
    s: SnailStableSwap,
    i: int,
    lp: u128,
    balances: Seq<u128>,
    supply: u128,
    fees: Fees,
)
    requires
        0 <= i < balances.len(),
        s.remove_liquidity_one_coin_spec(i, lp, balances, supply, fees) is Some,
    ensures
        admin_within_total(s.remove_liquidity_one_coin_spec(i, lp, balances, supply, fees).unwrap()),
{
    lemma_bound_values();
    let c = s.remove_liquidity_one_coin_spec(i, lp, balances, supply, fees).unwrap();
    let n = balances.len();
    let coins = s.coin_num as nat;
    let p = scaled_balances(balances, s.rates@).unwrap();
    let d0 = s.d_of(p).unwrap();
    let d1 = (d0 - (lp as nat) * d0 / (supply as nat)) as nat;
    let new_y = s.y_d_spec(i, p, d1).unwrap();
    let reduced = Seq::new(
        n,
        |k: int| one_coin_reduced(fees, coins, p[k], k, i, new_y, d0, d1).unwrap(),
    );
    let y2 = s.y_d_spec(i, reduced, d1).unwrap();
    let dy: int = reduced[i] - y2 - 1;
    let dy0: int = p[i] - new_y;
    let tf = (dy0 - dy) as nat;
    let ta = fraction_of(
        tf,
        fees.admin_trade_fee_numerator as nat,
        fees.admin_trade_fee_denominator as nat,
    ).unwrap();
    let wf = fraction_of(
        dy as nat,
        fees.withdraw_fee_numerator as nat,
        fees.withdraw_fee_denominator as nat,
    ).unwrap();
    let wa = fraction_of(
        wf as nat,
        fees.admin_withdraw_fee_numerator as nat,
        fees.admin_withdraw_fee_denominator as nat,
    ).unwrap();
    let rate = s.rates@[i] as nat;
    let total: nat = tf + wf as nat;
    let admin: nat = ta as nat + wa as nat;
    assert(admin <= total);
    lemma_div_is_ordered(admin as int, total as int, rate as int);
    assert forall|k: int| 0 <= k < c.admin_fee.len() implies #[trigger] c.admin_fee[k]
        <= c.total_fee[k] by {
        if k == i {
            assert(c.admin_fee[k] == (admin / rate) as u128);
            assert(c.total_fee[k] == (total / rate) as u128);
        } else {
            assert(c.admin_fee[k] == 0);
        }
    }
}

/// With the share supply fixed, a larger invariant never gives a smaller
/// virtual price.
pub proof fn lemma_virtual_price_follows_invariant(
    s: SnailStableSwap,
    before: Seq<u128>,
    after: Seq<u128>,
    supply: u128,
)
    requires
        s.virtual_price_spec(before, supply) is Some,
        s.virtual_price_spec(after, supply) is Some,
        s.d_of(scaled_balances(before, s.rates@).unwrap()).unwrap() <= s.d_of(
            scaled_balances(after, s.rates@).unwrap(),
        ).unwrap(),
    ensures
        s.virtual_price_spec(before, supply).unwrap() <= s.virtual_price_spec(after, supply).unwrap(),
{
    lemma_bound_values();
    let d_a = s.d_of(scaled_balances(before, s.rates@).unwrap()).unwrap();
    let d_b = s.d_of(scaled_balances(after, s.rates@).unwrap()).unwrap();
    let p = PRECISION as nat;
    assert(d_a * p <= d_b * p) by (nonlinear_arith)
        requires
            d_a <= d_b,
    ;
    lemma_div_is_ordered((d_a * p) as int, (d_b * p) as int, supply as int);
}

/// Depositing into an empty pool mints exactly the invariant of the
/// deposit; withdrawing every share straight after, without fees, returns
/// each deposited amount and empties the pool.
pub proof fn lemma_deposit_withdraw_round_trip(s: SnailStableSwap, deposits: Seq<u128>, fees: Fees)
    requires
        deposits.len() == s.coin_num,
        fees.withdraw_fee_numerator == 0,
        fees.withdraw_fee_denominator != 0,
        fees.admin_withdraw_fee_denominator != 0,
        s.add_liquidity_spec(deposits, zeros(deposits.len()), 0, fees) is Some,
    ensures
        ({
            let c = s.add_liquidity_spec(deposits, zeros(deposits.len()), 0, fees).unwrap();
            &&& c.new_balances == deposits
            &&& c.lp == s.d_of(scaled_balances(deposits, s.rates@).unwrap()).unwrap()
            &&& s.remove_liquidity_spec(c.lp, c.new_balances, c.lp, fees) == Some(
                PoolChange {
                    lp: c.lp,
                    minted: false,
                    received: deposits,
                    new_balances: zeros(deposits.len()),
                    total_fee: zeros(deposits.len()),
                    admin_fee: zeros(deposits.len()),
                },
            )
        }),
{
    let n = deposits.len();
    lemma_bound_values();
    assert(summed(zeros(n), deposits) == Some(deposits)) by {
        assert(Seq::new(n, |k: int| (zeros(n)[k] + deposits[k]) as u128) =~= deposits);
    }
    let c = s.add_liquidity_spec(deposits, zeros(n), 0, fees).unwrap();
    let pg = scaled_balances(deposits, s.rates@).unwrap();
    let d1 = s.d_of(pg).unwrap();
    assert(d1 > 0 && d1 < u128_bound());
    assert(c.lp == d1 as u128);
    let lp = c.lp;
    assert(lp > 0);
    assert forall|k: int| 0 <= k < n implies #[trigger] balanced_share(fees, deposits[k], lp, lp) == Some(
        (deposits[k], 0u128, 0u128, 0u128),
    ) by {
        lemma_div_by_multiple(deposits[k] as int, lp as int);
        assert((deposits[k] as nat * lp as nat) / (lp as nat) == deposits[k]);
        assert(deposits[k] as nat * 0 == 0);
        assert(0 * (fees.admin_withdraw_fee_numerator as nat) == 0);
        assert(0nat / (fees.withdraw_fee_denominator as nat) == 0);
        assert(0nat / (fees.admin_withdraw_fee_denominator as nat) == 0);
    }
    let r = s.remove_liquidity_spec(lp, deposits, lp, fees).unwrap();
    assert(r.received =~= deposits);
    assert(r.new_balances =~= zeros(n));
    assert(r.total_fee =~= zeros(n));
    assert(r.admin_fee =~= zeros(n));
}

} // verus!
