//! The pool operations: swaps, deposits, withdrawals and the virtual price.
use crate::bigint::{lemma_bound_values, u128_bound, u576_bound, U192, U576};
use crate::fees::{fraction_of, Fees};
use crate::newton::{invariant_d, solution_view, solve_d, solve_y, wide_view, y_given_d, Solution};
use crate::token_steps::{
    balanced_share, checked_add_each, checked_sub_each, copy_amounts, deposit_fee,
    deposit_fee_exec, deposit_fees_found, differences, drain_refund_fits, one_coin_reduced,
    one_coin_reduced_exec, reduced_found, refund_fees, summed, withdraw_fee_parts,
    withdraw_fee_parts_exec, withdraw_fees_found, withdraw_share, zero_amounts, zeros,
};
use crate::rates::PRECISION;
use vstd::prelude::*;

verus! {

/// What one swap changes: token `i_a` goes in, token `i_b` comes out.
#[derive(Clone, Copy, PartialEq, Eq, Structural, Debug)]
pub struct SwapResult {
    /// Index of the token paid in.
    pub i_a: i8,
    /// Index of the token paid out.
    pub i_b: i8,
    /// Amount paid in.
    pub amount_a: u128,
    /// Amount paid out.
    pub amount_b: u128,
    /// Pool balance of the token paid in, after the swap.
    pub new_pool_a: u128,
    /// Pool balance of the token paid out, after the swap.
    pub new_pool_b: u128,
    /// Admin share of the fee, in the token paid out.
    pub admin_fee: u128,
    /// Whole fee, admin share included, in the token paid out.
    pub total_fee: u128,
}

/// What one deposit or withdrawal changes.
pub struct PoolStatus {
    /// Pool shares minted or burned.
    pub pool_lp_token_changed: u128,
    /// `true` when shares are minted, `false` when burned.
    pub pool_lp_changed_direction: bool,
    /// Amount of each token that the user pays in or receives.
    pub recieved_amount: Vec<u128>,
    /// Pool balance of each token afterwards.
    pub new_balances: Vec<u128>,
    /// Fee charged in each token.
    pub total_fee_amount: Vec<u128>,
    /// Admin share of the fee in each token.
    pub admin_fee_amount: Vec<u128>,
}

/// The model of a `PoolStatus`.
pub struct PoolChange {
    pub lp: u128,
    pub minted: bool,
    pub received: Seq<u128>,
    pub new_balances: Seq<u128>,
    pub total_fee: Seq<u128>,
    pub admin_fee: Seq<u128>,
}

impl View for PoolStatus {
    type V = PoolChange;

    open spec fn view(&self) -> PoolChange {
        PoolChange {
            lp: self.pool_lp_token_changed,
            minted: self.pool_lp_changed_direction,
            received: self.recieved_amount@,
            new_balances: self.new_balances@,
            total_fee: self.total_fee_amount@,
            admin_fee: self.admin_fee_amount@,
        }
    }
}

/// The model of an optional `PoolStatus`.
pub open spec fn status_view(r: Option<PoolStatus>) -> Option<PoolChange> {
    match r {
        Some(s) => Some(s@),
        None => None,
    }
}

/// The amplification at time `current` of a linear ramp from `initial` at
/// `start` to `target` at `stop`, rounded toward `initial`.
pub open spec fn ramp_amp(initial: u64, target: u64, current: u64, start: u64, stop: u64) -> nat {
    if current < stop {
        let elapsed = (current - start) as nat;
        let span = (stop - start) as nat;
        if target >= initial {
            (initial + (target - initial) as nat * elapsed / span) as nat
        } else {
            (initial - (initial - target) as nat * elapsed / span) as nat
        }
    } else {
        target as nat
    }
}

/// Each balance scaled by its rate; `None` when a product does not fit in a
/// `u128`.
pub open spec fn scaled_balances(balances: Seq<u128>, rates: Seq<u128>) -> Option<Seq<u128>> {
    if forall|k: int| 0 <= k < balances.len() ==> #[trigger] balances[k] * rates[k] < u128_bound() {
        Some(Seq::new(balances.len(), |k: int| (balances[k] * rates[k]) as u128))
    } else {
        None
    }
}

/// A wide value as a `u128`, when it fits.
pub open spec fn narrow(v: nat) -> Option<u128> {
    if v < u128_bound() {
        Some(v as u128)
    } else {
        None
    }
}

/// The StableSwap calculator for one pool: its amplification ramp, the time
/// now, and the rate of each token.
pub struct SnailStableSwap {
    /// Amplification at the start of the ramp.
    pub initial_amp_factor: u64,
    /// Amplification at the end of the ramp.
    pub target_amp_factor: u64,
    /// The time now.
    pub current_ts: u64,
    /// When the ramp starts.
    pub start_ramp_ts: u64,
    /// When the ramp ends.
    pub stop_ramp_ts: u64,
    /// Rate of each token.
    pub rates: Vec<u128>,
    /// Number of tokens, 2 or 3.
    pub coin_num: u64,
}

impl SnailStableSwap {
    /// Two or three tokens, a time not before the ramp's start, and a
    /// nonzero amplification at both ends of the ramp.
    pub open spec fn wf(&self) -> bool {
        &&& 2 <= self.rates.len() <= 3
        &&& self.coin_num == self.rates.len()
        &&& self.current_ts >= self.start_ramp_ts
        &&& self.initial_amp_factor >= 1
        &&& self.target_amp_factor >= 1
    }

    /// The amplification now.
    pub open spec fn amp(&self) -> nat {
        ramp_amp(
            self.initial_amp_factor,
            self.target_amp_factor,
            self.current_ts,
            self.start_ramp_ts,
            self.stop_ramp_ts,
        )
    }

    /// The invariant of the scaled balances `scaled`, when it is computed
    /// without overflow.
    pub open spec fn d_of(&self, scaled: Seq<u128>) -> Option<nat> {
        match invariant_d(scaled, self.amp()) {
            Some((d, _)) => Some(d),
            None => None,
        }
    }

    /// The invariant per pool share, `D * 10^24 / supply`.
    pub open spec fn virtual_price_spec(&self, balances: Seq<u128>, supply: u128) -> Option<u128> {
        match scaled_balances(balances, self.rates@) {
            Some(p) => match self.d_of(p) {
                Some(d) => if d * (PRECISION as nat) < u576_bound() && supply != 0 {
                    narrow(d * (PRECISION as nat) / supply as nat)
                } else {
                    None
                },
                None => None,
            },
            None => None,
        }
    }

    /// The balance of token `j` that keeps the invariant of `scaled` when
    /// the balance of token `i` becomes `x`.
    pub open spec fn y_spec(&self, i: int, j: int, x: u128, scaled: Seq<u128>) -> Option<u128> {
        match self.d_of(scaled) {
            Some(d) => match y_given_d(
                scaled.update(i, x).remove(j),
                self.coin_num as nat,
                self.amp() * (self.coin_num as nat),
                d,
            ) {
                Some((y, _)) => narrow(y),
                None => None,
            },
            None => None,
        }
    }

    /// The balance of token `i` that gives invariant `d` with the other
    /// balances of `scaled`.
    pub open spec fn y_d_spec(&self, i: int, scaled: Seq<u128>, d: nat) -> Option<u128> {
        match y_given_d(scaled.remove(i), self.coin_num as nat, self.amp() * (self.coin_num as nat), d) {
            Some((y, _)) => narrow(y),
            None => None,
        }
    }

    /// A calculator for a pool whose tokens have `rates`.
    pub fn new(
        initial_amp_factor: u64,
        target_amp_factor: u64,
        current_ts: u64,
        start_ramp_ts: u64,
        stop_ramp_ts: u64,
        rates: Vec<u128>,
    ) -> (r: Self)
        requires
            2 <= rates.len() <= 3,
            current_ts >= start_ramp_ts,
            initial_amp_factor >= 1,
            target_amp_factor >= 1,
        ensures
            r.wf(),
            r.initial_amp_factor == initial_amp_factor,
            r.target_amp_factor == target_amp_factor,
            r.current_ts == current_ts,
            r.start_ramp_ts == start_ramp_ts,
            r.stop_ramp_ts == stop_ramp_ts,
            r.rates@ == rates@,
    {
        let coin_num = rates.len() as u64;
        SnailStableSwap {
            initial_amp_factor,
            target_amp_factor,
            current_ts,
            start_ramp_ts,
            stop_ramp_ts,
            rates,
            coin_num,
        }
    }

    /// Each balance scaled by its token's rate.
    fn p_balances_convert(&self, balances: &Vec<u128>) -> (r: Option<Vec<u128>>)
        requires
            balances.len() == self.rates.len(),
        ensures
            match scaled_balances(balances@, self.rates@) {
                Some(s) => r matches Some(v) && v@ == s,
                None => r is None,
            },
    {
        let mut out: Vec<u128> = Vec::with_capacity(balances.len());
        let mut i: usize = 0;
        while i < balances.len()
            invariant
                i <= balances.len() == self.rates.len(),
                out.len() == i,
                forall|k: int|
                    0 <= k < i ==> #[trigger] balances[k] * self.rates[k] < u128_bound()
                        && out[k] == balances[k] * self.rates[k],
            decreases balances.len() - i,
        {
            match balances[i].checked_mul(self.rates[i]) {
                Some(v) => {
                    proof {
                        lemma_bound_values();
                    }
                    out.push(v);
                },
                None => {
                    proof {
                        lemma_bound_values();
                        assert(!(balances[i as int] * self.rates[i as int] < u128_bound()));
                    }
                    return None;
                },
            }
            i = i + 1;
        }
        proof {
            lemma_bound_values();
            assert(out@ =~= Seq::new(
                balances.len() as nat,
                |k: int| (balances@[k] * self.rates@[k]) as u128,
            ));
        }
        Some(out)
    }

    /// The amplification now; see `ramp_amp`.
    pub fn compute_amp_factor(&self) -> (r: Option<u64>)
        requires
            self.current_ts >= self.start_ramp_ts,
        ensures
            r == Some(self.amp() as u64),
            self.amp() < 0x1_0000_0000_0000_0000,
    {
        if self.current_ts < self.stop_ramp_ts {
            let time_range = self.stop_ramp_ts - self.start_ramp_ts;
            let time_delta = self.current_ts - self.start_ramp_ts;
            if self.target_amp_factor >= self.initial_amp_factor {
                let amp_range = self.target_amp_factor - self.initial_amp_factor;
                proof {
                    lemma_ramp_step(amp_range as nat, time_delta as nat, time_range as nat);
                }
                let amp_delta = ((amp_range as u128) * (time_delta as u128) / (time_range as u128)) as u64;
                Some(self.initial_amp_factor + amp_delta)
            } else {
                let amp_range = self.initial_amp_factor - self.target_amp_factor;
                proof {
                    lemma_ramp_step(amp_range as nat, time_delta as nat, time_range as nat);
                }
                let amp_delta = ((amp_range as u128) * (time_delta as u128) / (time_range as u128)) as u64;
                Some(self.initial_amp_factor - amp_delta)
            }
        } else {
            Some(self.target_amp_factor)
        }
    }

    /// The invariant `D` of scaled balances, with whether Newton's iteration
    /// converged within its rounds. The pool operations use the last value
    /// either way; callers that need to tell the two apart read `converged`.
    pub fn get_d(&self, p_balances: &Vec<u128>) -> (r: Option<Solution>)
        requires
            self.wf(),
            p_balances.len() == self.coin_num,
        ensures
            solution_view(r) == invariant_d(p_balances@, self.amp()),
    {
        let amp = self.compute_amp_factor().unwrap();
        proof {
            lemma_amp_positive(*self);
        }
        solve_d(p_balances, amp)
    }

    /// `D * 10^24 / total_token_supply`: the invariant per pool share.
    pub fn get_virtual_price(&self, balances: &Vec<u128>, total_token_supply: u128) -> (r: Option<
        u128,
    >)
        requires
            self.wf(),
            balances.len() == self.coin_num,
        ensures
            r == self.virtual_price_spec(balances@, total_token_supply),
    {
        let p_balances = match self.p_balances_convert(balances) {
            Some(v) => v,
            None => return None,
        };
        let d = match self.get_d(&p_balances) {
            Some(s) => s.value,
            None => return None,
        };
        let scaled = match d.checked_mul(&U576::from_u128(PRECISION)) {
            Some(v) => v,
            None => return None,
        };
        let per_share = match scaled.checked_div(&U576::from_u128(total_token_supply)) {
            Some(v) => v,
            None => return None,
        };
        per_share.to_u128()
    }

    /// The swap of `dx` of token `i` for token `j` from a pool with
    /// `balances`. The output is what the invariant allows less one, less the
    /// trade fee, brought back to the token's own decimals.
    pub open spec fn exchange_spec(&self, i: int, j: int, dx: u128, balances: Seq<u128>, fees: Fees) -> Option<
        SwapResult,
    > {
        match scaled_balances(balances, self.rates@) {
            Some(p) => {
                let p_dx = dx * self.rates@[i];
                let p_x = p[i] + p_dx;
                if p_dx < u128_bound() && p_x < u128_bound() {
                    match self.y_spec(i, j, p_x as u128, p) {
                        Some(p_y) => {
                            let p_dy: int = p[j] - p_y - 1;
                            if p_dy >= 0 {
                                match fraction_of(
                                    p_dy as nat,
                                    fees.trade_fee_numerator as nat,
                                    fees.trade_fee_denominator as nat,
                                ) {
                                    Some(fee) => match fraction_of(
                                        fee as nat,
                                        fees.admin_trade_fee_numerator as nat,
                                        fees.admin_trade_fee_denominator as nat,
                                    ) {
                                        Some(admin_p) => {
                                            let rate = self.rates@[j] as nat;
                                            if rate != 0 && fee <= p_dy {
                                                let dy = (p_dy - fee) as nat / rate;
                                                let admin = admin_p as nat / rate;
                                                if balances[i] + dx < u128_bound() && dy + admin
                                                    <= balances[j] {
                                                    Some(
                                                        SwapResult {
                                                            i_a: i as i8,
                                                            i_b: j as i8,
                                                            amount_a: dx,
                                                            amount_b: dy as u128,
                                                            new_pool_a: (balances[i] + dx) as u128,
                                                            new_pool_b: (balances[j] - dy
                                                                - admin) as u128,
                                                            admin_fee: admin as u128,
                                                            total_fee: (fee as nat / rate) as u128,
                                                        },
                                                    )
                                                } else {
                                                    None
                                                }
                                            } else {
                                                None
                                            }
                                        },
                                        None => None,
                                    },
                                    None => None,
                                }
                            } else {
                                None
                            }
                        },
                        None => None,
                    }
                } else {
                    None
                }
            },
            None => None,
        }
    }

    /// A balanced withdrawal of `lp` of `supply` shares; see
    /// `balanced_share`.
    pub open spec fn remove_liquidity_spec(
        &self,
        lp: u128,
        balances: Seq<u128>,
        supply: u128,
        fees: Fees,
    ) -> Option<PoolChange> {
        if forall|k: int|
            0 <= k < balances.len() ==> #[trigger] balanced_share(fees, balances[k], lp, supply) is Some {
            Some(
                PoolChange {
                    lp,
                    minted: false,
                    received: Seq::new(
                        balances.len(),
                        |k: int| balanced_share(fees, balances[k], lp, supply).unwrap().0,
                    ),
                    new_balances: Seq::new(
                        balances.len(),
                        |k: int| balanced_share(fees, balances[k], lp, supply).unwrap().1,
                    ),
                    total_fee: Seq::new(
                        balances.len(),
                        |k: int| balanced_share(fees, balances[k], lp, supply).unwrap().2,
                    ),
                    admin_fee: Seq::new(
                        balances.len(),
                        |k: int| balanced_share(fees, balances[k], lp, supply).unwrap().3,
                    ),
                },
            )
        } else {
            None
        }
    }

    /// Swaps `dx` of token `i` for token `j`; see `exchange_spec`.
    pub fn exchange(&self, i: u8, j: u8, dx: u128, balances: &Vec<u128>, fees: &Fees) -> (r: Option<
        SwapResult,
    >)
        requires
            self.wf(),
            balances.len() == self.coin_num,
            i != j,
            i < self.coin_num,
            j < self.coin_num,
        ensures
            r == self.exchange_spec(i as int, j as int, dx, balances@, *fees),
    {
        self.exchange_impl(i, j, dx, balances, fees)
    }

    fn exchange_impl(&self, i: u8, j: u8, dx: u128, balances: &Vec<u128>, fees: &Fees) -> (r: Option<
        SwapResult,
    >)
        requires
            self.wf(),
            balances.len() == self.coin_num,
            i != j,
            i < self.coin_num,
            j < self.coin_num,
        ensures
            r == self.exchange_spec(i as int, j as int, dx, balances@, *fees),
    {
        proof {
            lemma_bound_values();
        }
        let ii = i as usize;
        let jj = j as usize;
        let p_balances = self.p_balances_convert(balances)?;
        let p_dx = dx.checked_mul(self.rates[ii])?;
        let p_x = p_balances[ii].checked_add(p_dx)?;
        let p_y = self.get_y(i, j, p_x, &p_balances)?;
        let p_dy1 = p_balances[jj].checked_sub(p_y)?.checked_sub(1u128)?;
        let p_dy_fee = fees.trade_fee(p_dy1)?;
        let p_admin_fee = fees.admin_trade_fee(p_dy_fee)?;
        let dy_fee = p_dy_fee.checked_div(self.rates[jj])?;
        let admin_fee = p_admin_fee.checked_div(self.rates[jj])?;
        let dy = p_dy1.checked_sub(p_dy_fee)?.checked_div(self.rates[jj])?;
        let new_pool_a = balances[ii].checked_add(dx)?;
        let new_pool_b = balances[jj].checked_sub(dy)?.checked_sub(admin_fee)?;
        Some(
            SwapResult {
                i_a: i as i8,
                i_b: j as i8,
                amount_a: dx,
                amount_b: dy,
                new_pool_a,
                new_pool_b,
                admin_fee,
                total_fee: dy_fee,
            },
        )
    }

    /// Burns `removed_lp_amount` of `total_token_supply` shares for the same
    /// fraction of every balance; see `balanced_share`.
    pub fn remove_liquidity(
        &self,
        removed_lp_amount: u128,
        balances: &Vec<u128>,
        total_token_supply: u128,
        fees: &Fees,
    ) -> (r: Option<PoolStatus>)
        requires
            self.wf(),
            balances.len() == self.coin_num,
            total_token_supply != 0,
            removed_lp_amount <= total_token_supply,
        ensures
            status_view(r) == self.remove_liquidity_spec(
                removed_lp_amount,
                balances@,
                total_token_supply,
                *fees,
            ),
    {
        self.remove_liquidity_impl(removed_lp_amount, balances, total_token_supply, fees)
    }

    fn remove_liquidity_impl(
        &self,
        removed_lp_amount: u128,
        balances: &Vec<u128>,
        total_token_supply: u128,
        fees: &Fees,
    ) -> (r: Option<PoolStatus>)
        requires
            self.wf(),
            balances.len() == self.coin_num,
            total_token_supply != 0,
            removed_lp_amount <= total_token_supply,
        ensures
            status_view(r) == self.remove_liquidity_spec(
                removed_lp_amount,
                balances@,
                total_token_supply,
                *fees,
            ),
    {
        let ghost f = *fees;
        let ghost lp = removed_lp_amount;
        let ghost supply = total_token_supply;
        let mut recieved_amount: Vec<u128> = Vec::new();
        let mut new_balances: Vec<u128> = Vec::new();
        let mut total_fee_amount: Vec<u128> = Vec::new();
        let mut admin_fee_amount: Vec<u128> = Vec::new();
        let mut i: usize = 0;
        while i < balances.len()
            invariant
                i <= balances.len(),
                f == *fees,
                lp == removed_lp_amount,
                supply == total_token_supply,
                supply != 0,
                recieved_amount.len() == i,
                new_balances.len() == i,
                total_fee_amount.len() == i,
                admin_fee_amount.len() == i,
                forall|k: int|
                    0 <= k < i ==> (#[trigger] balanced_share(f, balances[k], lp, supply)) == Some(
                        (recieved_amount[k], new_balances[k], total_fee_amount[k], admin_fee_amount[k]),
                    ),
            decreases balances.len() - i,
        {
            let (received, new_balance, total, admin) = match withdraw_share(
                fees,
                balances[i],
                removed_lp_amount,
                total_token_supply,
            ) {
                Some(t) => t,
                None => {
                    proof {
                        assert(balanced_share(f, balances[i as int], lp, supply) is None);
                    }
                    return None;
                },
            };
            recieved_amount.push(received);
            new_balances.push(new_balance);
            total_fee_amount.push(total);
            admin_fee_amount.push(admin);
            i = i + 1;
        }
        let r = PoolStatus {
            pool_lp_token_changed: removed_lp_amount,
            pool_lp_changed_direction: false,
            recieved_amount,
            new_balances,
            total_fee_amount,
            admin_fee_amount,
        };
        proof {
            let spec = self.remove_liquidity_spec(lp, balances@, supply, f);
            assert(spec is Some);
            assert(r@.received =~= spec.unwrap().received);
            assert(r@.new_balances =~= spec.unwrap().new_balances);
            assert(r@.total_fee =~= spec.unwrap().total_fee);
            assert(r@.admin_fee =~= spec.unwrap().admin_fee);
        }
        Some(r)
    }

    /// A deposit of `deposits` into a pool with `balances` and `supply`
    /// shares. The first deposit mints the new invariant itself; later ones
    /// charge each token a fee on its distance from the ideal balance (see
    /// `deposit_fee`) and mint `supply * (d2 - d0) / d0`. The invariant must
    /// grow and the shares minted must not be zero.
    pub open spec fn add_liquidity_spec(
        &self,
        deposits: Seq<u128>,
        balances: Seq<u128>,
        supply: u128,
        fees: Fees,
    ) -> Option<PoolChange> {
        let n = balances.len();
        let d0_found: Option<nat> = if supply > 0 {
            match scaled_balances(balances, self.rates@) {
                Some(p) => self.d_of(p),
                None => None,
            }
        } else {
            Some(0)
        };
        match d0_found {
            Some(d0) => match summed(balances, deposits) {
                Some(grown) => match scaled_balances(grown, self.rates@) {
                    Some(pg) => match self.d_of(pg) {
                        Some(d1) => if d1 <= d0 {
                            None
                        } else if supply == 0 {
                            if d1 < u128_bound() {
                                Some(
                                    PoolChange {
                                        lp: d1 as u128,
                                        minted: true,
                                        received: deposits,
                                        new_balances: grown,
                                        total_fee: zeros(n),
                                        admin_fee: zeros(n),
                                    },
                                )
                            } else {
                                None
                            }
                        } else if deposit_fees_found(fees, self.coin_num as nat, balances, grown, d0, d1) {
                            let part = |k: int|
                                deposit_fee(
                                    fees,
                                    self.coin_num as nat,
                                    balances[k],
                                    grown[k],
                                    d0,
                                    d1,
                                ).unwrap();
                            match scaled_balances(Seq::new(n, |k: int| part(k).1), self.rates@) {
                                Some(pk) => match self.d_of(pk) {
                                    Some(d2) => {
                                        let growth = (supply as nat) * ((d2 - d0) as nat);
                                        let minted = growth / d0;
                                        if d2 >= d0 && growth < u576_bound()
                                            && minted < u128_bound() && minted != 0 {
                                            Some(
                                                PoolChange {
                                                    lp: minted as u128,
                                                    minted: true,
                                                    received: deposits,
                                                    new_balances: Seq::new(n, |k: int| part(k).0),
                                                    total_fee: Seq::new(n, |k: int| part(k).2),
                                                    admin_fee: Seq::new(n, |k: int| part(k).3),
                                                },
                                            )
                                        } else {
                                            None
                                        }
                                    },
                                    None => None,
                                },
                                None => None,
                            }
                        } else {
                            None
                        },
                        None => None,
                    },
                    None => None,
                },
                None => None,
            },
            None => None,
        }
    }

    /// The invariant of unscaled `balances`.
    fn d_of_balances(&self, balances: &Vec<u128>) -> (r: Option<U576>)
        requires
            self.wf(),
            balances.len() == self.coin_num,
        ensures
            wide_view(r) == match scaled_balances(balances@, self.rates@) {
                Some(p) => self.d_of(p),
                None => None,
            },
    {
        let p = self.p_balances_convert(balances)?;
        match self.get_d(&p) {
            Some(s) => Some(s.value),
            None => None,
        }
    }

    /// Mints pool shares for `deposit_amounts`; see `add_liquidity_spec`.
    pub fn add_liquidity(
        &self,
        deposit_amounts: &Vec<u128>,
        balances: &Vec<u128>,
        total_token_supply: u128,
        fees: &Fees,
    ) -> (r: Option<PoolStatus>)
        requires
            self.wf(),
            balances.len() == self.coin_num,
            deposit_amounts.len() == self.coin_num,
            total_token_supply == 0 ==> forall|k: int|
                0 <= k < deposit_amounts.len() ==> deposit_amounts[k] > 0,
        ensures
            status_view(r) == self.add_liquidity_spec(
                deposit_amounts@,
                balances@,
                total_token_supply,
                *fees,
            ),
    {
        let ghost f = *fees;
        let ghost n = self.coin_num as nat;
        let d_0 = if total_token_supply > 0 {
            self.d_of_balances(balances)?
        } else {
            U576::from_u128(0)
        };
        let grown = checked_add_each(balances, deposit_amounts)?;
        let d_1 = self.d_of_balances(&grown)?;
        if !d_0.less_than(&d_1) {
            return None;
        }
        if total_token_supply == 0 {
            let minted = d_1.to_u128()?;
            let r = PoolStatus {
                pool_lp_token_changed: minted,
                pool_lp_changed_direction: true,
                recieved_amount: copy_amounts(deposit_amounts),
                new_balances: grown,
                total_fee_amount: zero_amounts(balances.len()),
                admin_fee_amount: zero_amounts(balances.len()),
            };
            return Some(r);
        }
        let mut new_balances: Vec<u128> = Vec::new();
        let mut new_balances_d: Vec<u128> = Vec::new();
        let mut total_fee_amount: Vec<u128> = Vec::new();
        let mut admin_fee_amount: Vec<u128> = Vec::new();
        let mut i: usize = 0;
        while i < balances.len()
            invariant
                self.wf(),
                i <= balances.len() == grown.len() == self.coin_num,
                f == *fees,
                n == self.coin_num,
                total_token_supply > 0,
                d_0@ < d_1@,
                summed(balances@, deposit_amounts@) == Some(grown@),
                scaled_balances(balances@, self.rates@) matches Some(p) && self.d_of(p) == Some(d_0@),
                scaled_balances(grown@, self.rates@) matches Some(pg) && self.d_of(pg) == Some(d_1@),
                new_balances.len() == i,
                new_balances_d.len() == i,
                total_fee_amount.len() == i,
                admin_fee_amount.len() == i,
                forall|k: int|
                    0 <= k < i ==> (#[trigger] deposit_fee(f, n, balances[k], grown[k], d_0@, d_1@))
                        == Some(
                        (new_balances[k], new_balances_d[k], total_fee_amount[k], admin_fee_amount[k]),
                    ),
            decreases balances.len() - i,
        {
            let part = match deposit_fee_exec(fees, self.coin_num, balances[i], grown[i], &d_0, &d_1) {
                Some(t) => t,
                None => {
                    proof {
                        assert(deposit_fee(f, n, balances[i as int], grown[i as int], d_0@, d_1@) is None);
                        assert(!deposit_fees_found(f, n, balances@, grown@, d_0@, d_1@));
                    }
                    return None;
                },
            };
            new_balances.push(part.0);
            new_balances_d.push(part.1);
            total_fee_amount.push(part.2);
            admin_fee_amount.push(part.3);
            i = i + 1;
        }
        proof {
            let part = |k: int|
                deposit_fee(f, n, balances@[k], grown@[k], d_0@, d_1@).unwrap();
            assert(new_balances_d@ =~= Seq::new(balances.len() as nat, |k: int| part(k).1));
        }
        let d_2 = self.d_of_balances(&new_balances_d)?;
        let growth = d_2.checked_sub(&d_0)?;
        let minted = U576::from_u128(total_token_supply).checked_mul(&growth)?.checked_div(&d_0)?.to_u128()?;
        if minted == 0 {
            return None;
        }
        let r = PoolStatus {
            pool_lp_token_changed: minted,
            pool_lp_changed_direction: true,
            recieved_amount: copy_amounts(deposit_amounts),
            new_balances,
            total_fee_amount,
            admin_fee_amount,
        };
        proof {
            let part = |k: int|
                deposit_fee(f, n, balances@[k], grown@[k], d_0@, d_1@).unwrap();
            assert(r@.new_balances =~= Seq::new(balances.len() as nat, |k: int| part(k).0));
            assert(r@.total_fee =~= Seq::new(balances.len() as nat, |k: int| part(k).2));
            assert(r@.admin_fee =~= Seq::new(balances.len() as nat, |k: int| part(k).3));
        }
        Some(r)
    }

    /// A withdrawal of the amounts `removes`. Each token pays a trade fee on
    /// its distance from the ideal balance and a withdraw fee on the amount
    /// (see `withdraw_fee_parts`); the shares burned are
    /// `(d0 - d2) * supply / d0 + 1`. When the pool is emptied, the fees less
    /// their admin shares go back to the withdrawer.
    pub open spec fn remove_liquidity_imbalance_spec(
        &self,
        removes: Seq<u128>,
        balances: Seq<u128>,
        supply: u128,
        fees: Fees,
    ) -> Option<PoolChange> {
        let n = balances.len();
        let coins = self.coin_num as nat;
        match scaled_balances(balances, self.rates@) {
            Some(p) => match self.d_of(p) {
                Some(d0) => match differences(balances, removes) {
                    Some(kept) => match scaled_balances(kept, self.rates@) {
                        Some(pk) => match self.d_of(pk) {
                            Some(d1) => if withdraw_fees_found(
                                fees,
                                coins,
                                balances,
                                removes,
                                kept,
                                d0,
                                d1,
                            ) {
                                let part = |k: int|
                                    withdraw_fee_parts(
                                        fees,
                                        coins,
                                        balances[k],
                                        removes[k],
                                        kept[k],
                                        d0,
                                        d1,
                                    ).unwrap();
                                let left = Seq::new(n, |k: int| part(k).0);
                                let totals = Seq::new(n, |k: int| part(k).2);
                                let admins = Seq::new(n, |k: int| part(k).3);
                                match scaled_balances(Seq::new(n, |k: int| part(k).1), self.rates@) {
                                    Some(pc) => match self.d_of(pc) {
                                        Some(d2) => {
                                            let loss = ((d0 - d2) as nat) * (supply as nat);
                                            let burned = loss / d0 + 1;
                                            if d2 <= d0 && loss < u576_bound() && d0 != 0 && burned
                                                < u128_bound() {
                                                if d2 != 0 {
                                                    Some(
                                                        PoolChange {
                                                            lp: burned as u128,
                                                            minted: false,
                                                            received: removes,
                                                            new_balances: left,
                                                            total_fee: totals,
                                                            admin_fee: admins,
                                                        },
                                                    )
                                                } else if drain_refund_fits(removes, left, totals, admins) {
                                                    Some(
                                                        PoolChange {
                                                            lp: burned as u128,
                                                            minted: false,
                                                            received: Seq::new(
                                                                n,
                                                                |k: int|
                                                                    (removes[k] + totals[k]
                                                                        - admins[k]) as u128,
                                                            ),
                                                            new_balances: zeros(n),
                                                            total_fee: admins,
                                                            admin_fee: admins,
                                                        },
                                                    )
                                                } else {
                                                    None
                                                }
                                            } else {
                                                None
                                            }
                                        },
                                        None => None,
                                    },
                                    None => None,
                                }
                            } else {
                                None
                            },
                            None => None,
                        },
                        None => None,
                    },
                    None => None,
                },
                None => None,
            },
            None => None,
        }
    }

    /// Burns shares for the amounts `remove_coin_amount`; see
    /// `remove_liquidity_imbalance_spec`.
    pub fn remove_liquidity_imbalance(
        &self,
        remove_coin_amount: &Vec<u128>,
        balances: &Vec<u128>,
        total_token_supply: u128,
        fees: &Fees,
    ) -> (r: Option<PoolStatus>)
        requires
            self.wf(),
            balances.len() == self.coin_num,
            remove_coin_amount.len() == self.coin_num,
        ensures
            status_view(r) == self.remove_liquidity_imbalance_spec(
                remove_coin_amount@,
                balances@,
                total_token_supply,
                *fees,
            ),
    {
        let ghost f = *fees;
        let ghost coins = self.coin_num as nat;
        proof {
            lemma_bound_values();
        }
        let n = balances.len();
        let d_0 = self.d_of_balances(balances)?;
        let kept = checked_sub_each(balances, remove_coin_amount)?;
        let d_1 = self.d_of_balances(&kept)?;
        let mut left: Vec<u128> = Vec::new();
        let mut counted: Vec<u128> = Vec::new();
        let mut totals: Vec<u128> = Vec::new();
        let mut admins: Vec<u128> = Vec::new();
        let mut i: usize = 0;
        while i < n
            invariant
                i <= n == balances.len() == kept.len() == remove_coin_amount.len(),
                f == *fees,
                coins == self.coin_num,
                scaled_balances(balances@, self.rates@) matches Some(p) && self.d_of(p) == Some(d_0@),
                differences(balances@, remove_coin_amount@) == Some(kept@),
                scaled_balances(kept@, self.rates@) matches Some(pk) && self.d_of(pk) == Some(d_1@),
                left.len() == i,
                counted.len() == i,
                totals.len() == i,
                admins.len() == i,
                forall|k: int|
                    0 <= k < i ==> (#[trigger] withdraw_fee_parts(
                        f,
                        coins,
                        balances[k],
                        remove_coin_amount[k],
                        kept[k],
                        d_0@,
                        d_1@,
                    )) == Some((left[k], counted[k], totals[k], admins[k])),
            decreases n - i,
        {
            let part = match withdraw_fee_parts_exec(
                fees,
                self.coin_num,
                balances[i],
                remove_coin_amount[i],
                kept[i],
                &d_0,
                &d_1,
            ) {
                Some(t) => t,
                None => {
                    proof {
                        assert(withdraw_fee_parts(
                            f,
                            coins,
                            balances[i as int],
                            remove_coin_amount[i as int],
                            kept[i as int],
                            d_0@,
                            d_1@,
                        ) is None);
                        assert(!withdraw_fees_found(
                            f,
                            coins,
                            balances@,
                            remove_coin_amount@,
                            kept@,
                            d_0@,
                            d_1@,
                        ));
                    }
                    return None;
                },
            };
            left.push(part.0);
            counted.push(part.1);
            totals.push(part.2);
            admins.push(part.3);
            i = i + 1;
        }
        let ghost part = |k: int|
            withdraw_fee_parts(f, coins, balances@[k], remove_coin_amount@[k], kept@[k], d_0@, d_1@).unwrap();
        proof {
            assert(withdraw_fees_found(f, coins, balances@, remove_coin_amount@, kept@, d_0@, d_1@));
            assert(counted@ =~= Seq::new(n as nat, |k: int| part(k).1));
            assert(left@ =~= Seq::new(n as nat, |k: int| part(k).0));
            assert(totals@ =~= Seq::new(n as nat, |k: int| part(k).2));
            assert(admins@ =~= Seq::new(n as nat, |k: int| part(k).3));
        }
        let d_2 = self.d_of_balances(&counted)?;
        let loss = d_0.checked_sub(&d_2)?.checked_mul(&U576::from_u128(total_token_supply))?;
        let burned = loss.checked_div(&d_0)?.to_u128()?.checked_add(1)?;
        if !d_2.is_zero() {
            return Some(
                PoolStatus {
                    pool_lp_token_changed: burned,
                    pool_lp_changed_direction: false,
                    recieved_amount: copy_amounts(remove_coin_amount),
                    new_balances: left,
                    total_fee_amount: totals,
                    admin_fee_amount: admins,
                },
            );
        }
        let refunds = refund_fees(remove_coin_amount, &left, &totals, &admins)?;
        let r = PoolStatus {
            pool_lp_token_changed: burned,
            pool_lp_changed_direction: false,
            recieved_amount: refunds,
            new_balances: zero_amounts(n),
            total_fee_amount: copy_amounts(&admins),
            admin_fee_amount: admins,
        };
        Some(r)
    }

    /// A withdrawal of `lp` of `supply` shares in token `i` alone. The
    /// invariant falls to `d1 = d0 - lp * d0 / supply`; every token's balance
    /// is reduced by the fee on its expected change (see `one_coin_reduced`)
    /// and token `i`'s balance is solved again against those; the withdrawer
    /// gets that, less one, less the withdraw fee, in token `i`'s decimals.
    pub open spec fn remove_liquidity_one_coin_spec(
        &self,
        i: int,
        lp: u128,
        balances: Seq<u128>,
        supply: u128,
        fees: Fees,
    ) -> Option<PoolChange> {
        let n = balances.len();
        let coins = self.coin_num as nat;
        match scaled_balances(balances, self.rates@) {
            Some(p) => match self.d_of(p) {
                Some(d0) => {
                    let cut = (lp as nat) * d0 / (supply as nat);
                    if (lp as nat) * d0 < u576_bound() && supply != 0 && cut <= d0 {
                        let d1 = (d0 - cut) as nat;
                        match self.y_d_spec(i, p, d1) {
                            Some(new_y) => if new_y <= p[i] && reduced_found(
                                fees,
                                coins,
                                p,
                                i,
                                new_y,
                                d0,
                                d1,
                            ) {
                                let reduced = Seq::new(
                                    n,
                                    |k: int|
                                        one_coin_reduced(fees, coins, p[k], k, i, new_y, d0, d1).unwrap(),
                                );
                                match self.y_d_spec(i, reduced, d1) {
                                    Some(y2) => {
                                        let dy: int = reduced[i] - y2 - 1;
                                        let dy0: int = p[i] - new_y;
                                        if 0 <= dy <= dy0 {
                                            let tf = (dy0 - dy) as nat;
                                            match fraction_of(
                                                tf,
                                                fees.admin_trade_fee_numerator as nat,
                                                fees.admin_trade_fee_denominator as nat,
                                            ) {
                                                Some(ta) => match fraction_of(
                                                    dy as nat,
                                                    fees.withdraw_fee_numerator as nat,
                                                    fees.withdraw_fee_denominator as nat,
                                                ) {
                                                    Some(wf) => match fraction_of(
                                                        wf as nat,
                                                        fees.admin_withdraw_fee_numerator as nat,
                                                        fees.admin_withdraw_fee_denominator as nat,
                                                    ) {
                                                        Some(wa) => {
                                                            let rate = self.rates@[i] as nat;
                                                            let total: nat = tf + wf as nat;
                                                            let admin: nat = ta as nat + wa as nat;
                                                            if ta <= tf && wa <= wf && total
                                                                < u128_bound() && admin < u128_bound()
                                                                && rate != 0 && wf <= dy && p[i] + wf
                                                                >= dy + admin {
                                                                Some(
                                                                    PoolChange {
                                                                        lp,
                                                                        minted: false,
                                                                        received: zeros(n).update(
                                                                            i,
                                                                            ((dy - wf) as nat / rate) as u128,
                                                                        ),
                                                                        new_balances: balances.update(
                                                                            i,
                                                                            ((p[i] + wf - dy - admin) as nat
                                                                                / rate) as u128,
                                                                        ),
                                                                        total_fee: zeros(n).update(
                                                                            i,
                                                                            (total / rate) as u128,
                                                                        ),
                                                                        admin_fee: zeros(n).update(
                                                                            i,
                                                                            (admin / rate) as u128,
                                                                        ),
                                                                    },
                                                                )
                                                            } else {
                                                                None
                                                            }
                                                        },
                                                        None => None,
                                                    },
                                                    None => None,
                                                },
                                                None => None,
                                            }
                                        } else {
                                            None
                                        }
                                    },
                                    None => None,
                                }
                            } else {
                                None
                            },
                            None => None,
                        }
                    } else {
                        None
                    }
                },
                None => None,
            },
            None => None,
        }
    }

    /// Burns `remove_lp_amount` shares for token `i` alone; see
    /// `remove_liquidity_one_coin_spec`.
    pub fn remove_liquidity_one_coin(
        &self,
        i: u8,
        remove_lp_amount: u128,
        balances: &Vec<u128>,
        total_token_supply: u128,
        fees: &Fees,
    ) -> (r: Option<PoolStatus>)
        requires
            self.wf(),
            balances.len() == self.coin_num,
            i < self.coin_num,
            remove_lp_amount <= total_token_supply,
        ensures
            status_view(r) == self.remove_liquidity_one_coin_spec(
                i as int,
                remove_lp_amount,
                balances@,
                total_token_supply,
                *fees,
            ),
    {
        self.remove_liquidity_one_coin_impl(i, remove_lp_amount, balances, total_token_supply, fees)
    }

    /// See `remove_liquidity_one_coin`.
    pub fn remove_liquidity_one_coin_impl(
        &self,
        i: u8,
        remove_lp_amount: u128,
        balances: &Vec<u128>,
        total_token_supply: u128,
        fees: &Fees,
    ) -> (r: Option<PoolStatus>)
        requires
            self.wf(),
            balances.len() == self.coin_num,
            i < self.coin_num,
            remove_lp_amount <= total_token_supply,
        ensures
            status_view(r) == self.remove_liquidity_one_coin_spec(
                i as int,
                remove_lp_amount,
                balances@,
                total_token_supply,
                *fees,
            ),
    {
        let ghost f = *fees;
        let ghost coins = self.coin_num as nat;
        proof {
            lemma_bound_values();
        }
        let ii = i as usize;
        let n = balances.len();
        let p_balances = self.p_balances_convert(balances)?;
        let d_0 = match self.get_d(&p_balances) {
            Some(s) => s.value,
            None => return None,
        };
        let cut = U576::from_u128(remove_lp_amount).checked_mul(&d_0)?.checked_div(
            &U576::from_u128(total_token_supply),
        )?;
        let d_1 = d_0.checked_sub(&cut)?;
        let p_new_y = self.get_y_d(i, &p_balances, &d_1)?;
        let p_dy_0 = p_balances[ii].checked_sub(p_new_y)?;
        let mut reduced: Vec<u128> = Vec::new();
        let mut j: usize = 0;
        while j < n
            invariant
                j <= n == p_balances.len() == balances.len(),
                f == *fees,
                coins == self.coin_num,
                ii == i,
                ii < n,
                scaled_balances(balances@, self.rates@) == Some(p_balances@),
                self.d_of(p_balances@) == Some(d_0@),
                (remove_lp_amount as nat) * d_0@ < u576_bound(),
                total_token_supply != 0,
                d_1@ == d_0@ - (remove_lp_amount as nat) * d_0@ / (total_token_supply as nat),
                self.y_d_spec(i as int, p_balances@, d_1@) == Some(p_new_y),
                p_new_y <= p_balances[ii as int],
                reduced.len() == j,
                forall|k: int|
                    0 <= k < j ==> (#[trigger] one_coin_reduced(
                        f,
                        coins,
                        p_balances[k],
                        k,
                        i as int,
                        p_new_y,
                        d_0@,
                        d_1@,
                    )) == Some(reduced[k]),
            decreases n - j,
        {
            let next = match one_coin_reduced_exec(
                fees,
                self.coin_num,
                p_balances[j],
                j == ii,
                p_new_y,
                &d_0,
                &d_1,
            ) {
                Some(v) => v,
                None => {
                    proof {
                        assert(one_coin_reduced(
                            f,
                            coins,
                            p_balances[j as int],
                            j as int,
                            i as int,
                            p_new_y,
                            d_0@,
                            d_1@,
                        ) is None);
                        assert(!reduced_found(f, coins, p_balances@, i as int, p_new_y, d_0@, d_1@));
                    }
                    return None;
                },
            };
            reduced.push(next);
            j = j + 1;
        }
        proof {
            assert(reduced_found(f, coins, p_balances@, i as int, p_new_y, d_0@, d_1@));
            assert(reduced@ =~= Seq::new(
                n as nat,
                |k: int|
                    one_coin_reduced(f, coins, p_balances@[k], k, i as int, p_new_y, d_0@, d_1@).unwrap(),
            ));
        }
        let y2 = self.get_y_d(i, &reduced, &d_1)?;
        let p_dy = reduced[ii].checked_sub(y2)?.checked_sub(1)?;
        let trade = p_dy_0.checked_sub(p_dy)?;
        let trade_admin = fees.admin_trade_fee(trade)?;
        if trade < trade_admin {
            return None;
        }
        let withdraw = fees.withdraw_fee(p_dy)?;
        let withdraw_admin = fees.admin_withdraw_fee(withdraw)?;
        if withdraw < withdraw_admin {
            return None;
        }
        let total = trade.checked_add(withdraw)?;
        let admin = trade_admin.checked_add(withdraw_admin)?;
        let rate = self.rates[ii];
        let total_fee = total.checked_div(rate)?;
        let admin_fee = admin.checked_div(rate)?;
        let received = p_dy.checked_sub(withdraw)?.checked_div(rate)?;
        let restored = U192::from_u128(p_balances[ii]).checked_add(&U192::from_u128(withdraw)).unwrap();
        let restored = restored.checked_sub(&U192::from_u128(p_dy))?.checked_sub(
            &U192::from_u128(admin),
        )?.to_u128().unwrap();
        let new_balance = restored / rate;
        let mut recieved_amount = zero_amounts(n);
        let mut new_balances = copy_amounts(balances);
        let mut total_fee_amount = zero_amounts(n);
        let mut admin_fee_amount = zero_amounts(n);
        recieved_amount[ii] = received;
        new_balances[ii] = new_balance;
        total_fee_amount[ii] = total_fee;
        admin_fee_amount[ii] = admin_fee;
        Some(
            PoolStatus {
                pool_lp_token_changed: remove_lp_amount,
                pool_lp_changed_direction: false,
                recieved_amount,
                new_balances,
                total_fee_amount,
                admin_fee_amount,
            },
        )
    }

    /// The balance of token `j` (scaled) that keeps the invariant when the
    /// balance of token `i` becomes `x`, before narrowing.
    fn get_y_raw(&self, i: u8, j: u8, x: u128, balances: &Vec<u128>) -> (r: Option<Solution>)
        requires
            self.wf(),
            balances.len() == self.coin_num,
            i != j,
            i < self.coin_num,
            j < self.coin_num,
        ensures
            solution_view(r) == match self.d_of(balances@) {
                Some(d) => y_given_d(
                    balances@.update(i as int, x).remove(j as int),
                    self.coin_num as nat,
                    self.amp() * (self.coin_num as nat),
                    d,
                ),
                None => None,
            },
    {
        let amp = self.compute_amp_factor().unwrap();
        proof {
            lemma_amp_positive(*self);
        }
        let d = match self.get_d(balances) {
            Some(s) => s.value,
            None => return None,
        };
        let mut terms = copy_amounts(balances);
        terms[i as usize] = x;
        terms.remove(j as usize);
        solve_y(&terms, self.coin_num, amp, &d)
    }

    /// `get_y_raw` as a `u128`.
    fn get_y(&self, i: u8, j: u8, x: u128, balances: &Vec<u128>) -> (r: Option<u128>)
        requires
            self.wf(),
            balances.len() == self.coin_num,
            i != j,
            i < self.coin_num,
            j < self.coin_num,
        ensures
            r == self.y_spec(i as int, j as int, x, balances@),
    {
        match self.get_y_raw(i, j, x, balances) {
            Some(s) => s.value.to_u128(),
            None => None,
        }
    }

    /// The balance of token `i` (scaled) that gives invariant `d` with the
    /// other balances, before narrowing.
    fn get_y_d_raw(&self, i: u8, balances: &Vec<u128>, d: &U576) -> (r: Option<Solution>)
        requires
            self.wf(),
            balances.len() == self.coin_num,
            i < self.coin_num,
        ensures
            solution_view(r) == y_given_d(
                balances@.remove(i as int),
                self.coin_num as nat,
                self.amp() * (self.coin_num as nat),
                d@,
            ),
    {
        let amp = self.compute_amp_factor().unwrap();
        proof {
            lemma_amp_positive(*self);
        }
        let mut terms = copy_amounts(balances);
        terms.remove(i as usize);
        solve_y(&terms, self.coin_num, amp, d)
    }

    /// `get_y_d_raw` as a `u128`.
    fn get_y_d(&self, i: u8, balances: &Vec<u128>, d: &U576) -> (r: Option<u128>)
        requires
            self.wf(),
            balances.len() == self.coin_num,
            i < self.coin_num,
        ensures
            r == self.y_d_spec(i as int, balances@, d@),
    {
        match self.get_y_d_raw(i, balances, d) {
            Some(s) => s.value.to_u128(),
            None => None,
        }
    }
}

pub proof fn lemma_ramp_step(range: nat, elapsed: nat, span: nat)
    requires
        range < 0x1_0000_0000_0000_0000,
        elapsed < span,
        span < 0x1_0000_0000_0000_0000,
    ensures
        range * elapsed < 0x1_0000_0000_0000_0000_0000_0000_0000_0000,
        range * elapsed / span <= range,
{
    assert(range * elapsed <= range * span) by (nonlinear_arith)
        requires
            elapsed < span,
    ;
    assert(range * elapsed < 0x1_0000_0000_0000_0000_0000_0000_0000_0000) by (nonlinear_arith)
        requires
            range < 0x1_0000_0000_0000_0000,
            elapsed < 0x1_0000_0000_0000_0000,
    ;
    vstd::arithmetic::div_mod::lemma_div_is_ordered(
        (range * elapsed) as int,
        (range * span) as int,
        span as int,
    );
    vstd::arithmetic::div_mod::lemma_div_by_multiple(range as int, span as int);
}

/// The amplification stays between the ramp's ends, so it is never zero.
proof fn lemma_amp_positive(s: SnailStableSwap)
    requires
        s.wf(),
    ensures
        s.amp() >= 1,
{
    if s.current_ts < s.stop_ramp_ts {
        let elapsed = (s.current_ts - s.start_ramp_ts) as nat;
        let span = (s.stop_ramp_ts - s.start_ramp_ts) as nat;
        if s.target_amp_factor >= s.initial_amp_factor {
        } else {
            lemma_ramp_step((s.initial_amp_factor - s.target_amp_factor) as nat, elapsed, span);
        }
    }
}

} // verus!
