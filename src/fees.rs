//! The fee schedule and the fee amounts it charges.
use crate::bigint::{lemma_bound_values, u128_bound, u64_bound, U192};
use vstd::prelude::*;

verus! {

/// Four fees, each a fraction `numerator / denominator`.
#[derive(Clone, Copy, PartialEq, Eq, Structural, Debug)]
pub struct Fees {
    /// Admin share of a trade fee: numerator.
    pub admin_trade_fee_numerator: u64,
    /// Admin share of a trade fee: denominator.
    pub admin_trade_fee_denominator: u64,
    /// Admin share of a withdraw fee: numerator.
    pub admin_withdraw_fee_numerator: u64,
    /// Admin share of a withdraw fee: denominator.
    pub admin_withdraw_fee_denominator: u64,
    /// Trade fee: numerator.
    pub trade_fee_numerator: u64,
    /// Trade fee: denominator.
    pub trade_fee_denominator: u64,
    /// Withdraw fee: numerator.
    pub withdraw_fee_numerator: u64,
    /// Withdraw fee: denominator.
    pub withdraw_fee_denominator: u64,
}

/// `amount * numerator / denominator`, rounded down; `None` when the
/// denominator is zero or the result does not fit in a `u128`.
pub open spec fn fraction_of(amount: nat, numerator: nat, denominator: nat) -> Option<u128> {
    if denominator != 0 && amount * numerator / denominator < u128_bound() {
        Some((amount * numerator / denominator) as u128)
    } else {
        None
    }
}

/// The trade fee numerator adjusted for a charge spread over `n_coins`
/// assets: `numerator * n / (4 * (n - 1))`, each step in `u64`.
pub open spec fn adjusted_numerator(numerator: nat, n_coins: nat) -> Option<nat> {
    if numerator * n_coins < u64_bound() && n_coins >= 2 && (n_coins - 1) * 4 < u64_bound() {
        Some(numerator * n_coins / ((n_coins - 1) as nat * 4))
    } else {
        None
    }
}

/// The fee charged on a deviation of `amount` across `n_coins` assets.
pub open spec fn normalized_fee(fees: Fees, n_coins: nat, amount: nat) -> Option<u128> {
    match adjusted_numerator(fees.trade_fee_numerator as nat, n_coins) {
        Some(num) => fraction_of(amount, num, fees.trade_fee_denominator as nat),
        None => None,
    }
}

/// Which denominator of a fee schedule is zero.
#[derive(Clone, Copy, PartialEq, Eq, Structural, Debug)]
pub enum FeeConfigError {
    AdminTradeFeeDenominator,
    AdminWithdrawFeeDenominator,
    TradeFeeDenominator,
    WithdrawFeeDenominator,
}

impl Fees {
    /// All four denominators are nonzero.
    pub open spec fn is_valid(self) -> bool {
        &&& self.admin_trade_fee_denominator != 0
        &&& self.admin_withdraw_fee_denominator != 0
        &&& self.trade_fee_denominator != 0
        &&& self.withdraw_fee_denominator != 0
    }

    /// The admin share of a trade fee of `fee_amount`.
    pub fn admin_trade_fee(&self, fee_amount: u128) -> (r: Option<u128>)
        ensures
            r == fraction_of(
                fee_amount as nat,
                self.admin_trade_fee_numerator as nat,
                self.admin_trade_fee_denominator as nat,
            ),
    {
        scale_by_fraction(fee_amount, self.admin_trade_fee_numerator, self.admin_trade_fee_denominator)
    }

    /// The admin share of a withdraw fee of `fee_amount`.
    pub fn admin_withdraw_fee(&self, fee_amount: u128) -> (r: Option<u128>)
        ensures
            r == fraction_of(
                fee_amount as nat,
                self.admin_withdraw_fee_numerator as nat,
                self.admin_withdraw_fee_denominator as nat,
            ),
    {
        scale_by_fraction(
            fee_amount,
            self.admin_withdraw_fee_numerator,
            self.admin_withdraw_fee_denominator,
        )
    }

    /// The trade fee on `trade_amount`.
    pub fn trade_fee(&self, trade_amount: u128) -> (r: Option<u128>)
        ensures
            r == fraction_of(
                trade_amount as nat,
                self.trade_fee_numerator as nat,
                self.trade_fee_denominator as nat,
            ),
    {
        scale_by_fraction(trade_amount, self.trade_fee_numerator, self.trade_fee_denominator)
    }

    /// The withdraw fee on `withdraw_amount`.
    pub fn withdraw_fee(&self, withdraw_amount: u128) -> (r: Option<u128>)
        ensures
            r == fraction_of(
                withdraw_amount as nat,
                self.withdraw_fee_numerator as nat,
                self.withdraw_fee_denominator as nat,
            ),
    {
        scale_by_fraction(withdraw_amount, self.withdraw_fee_numerator, self.withdraw_fee_denominator)
    }

    /// The trade fee on a deviation of `amount` when a deposit or withdrawal
    /// touches all `n_coins` assets.
    pub fn normalized_trade_fee(&self, n_coins: u64, amount: u128) -> (r: Option<u128>)
        ensures
            r == normalized_fee(*self, n_coins as nat, amount as nat),
    {
        proof {
            lemma_bound_values();
        }
        let scaled = match self.trade_fee_numerator.checked_mul(n_coins) {
            Some(v) => v,
            None => return None,
        };
        let less_one = match n_coins.checked_sub(1) {
            Some(v) => v,
            None => return None,
        };
        let divisor = match less_one.checked_mul(4) {
            Some(v) => v,
            None => return None,
        };
        if divisor == 0 {
            return None;
        }
        let adjusted = scaled / divisor;
        scale_by_fraction(amount, adjusted, self.trade_fee_denominator)
    }
}

/// `amount * numerator / denominator` computed in 192 bits.
fn scale_by_fraction(amount: u128, numerator: u64, denominator: u64) -> (r: Option<u128>)
    ensures
        r == fraction_of(amount as nat, numerator as nat, denominator as nat),
{
    proof {
        lemma_bound_values();
        let a = amount as nat;
        let n = numerator as nat;
        assert(a * n < u128_bound() * u64_bound()) by (nonlinear_arith)
            requires
                a < u128_bound(),
                n < u64_bound(),
        ;
    }
    let product = U192::from_u128(amount).checked_mul(&U192::from_u128(numerator as u128));
    let product = match product {
        Some(v) => v,
        None => return None,
    };
    let quotient = match product.checked_div(&U192::from_u128(denominator as u128)) {
        Some(v) => v,
        None => return None,
    };
    quotient.to_u128()
}

/// Checks that no denominator of `fees` is zero; names the first that is.
pub fn assert_fees_info_valid(fees: &Fees) -> (r: Result<(), FeeConfigError>)
    ensures
        r is Ok <==> fees.is_valid(),
        r matches Err(e) ==> e == (if fees.admin_trade_fee_denominator == 0 {
            FeeConfigError::AdminTradeFeeDenominator
        } else if fees.admin_withdraw_fee_denominator == 0 {
            FeeConfigError::AdminWithdrawFeeDenominator
        } else if fees.trade_fee_denominator == 0 {
            FeeConfigError::TradeFeeDenominator
        } else {
            FeeConfigError::WithdrawFeeDenominator
        }),
{
    if fees.admin_trade_fee_denominator == 0 {
        Err(FeeConfigError::AdminTradeFeeDenominator)
    } else if fees.admin_withdraw_fee_denominator == 0 {
        Err(FeeConfigError::AdminWithdrawFeeDenominator)
    } else if fees.trade_fee_denominator == 0 {
        Err(FeeConfigError::TradeFeeDenominator)
    } else if fees.withdraw_fee_denominator == 0 {
        Err(FeeConfigError::WithdrawFeeDenominator)
    } else {
        Ok(())
    }
}

} // verus!
