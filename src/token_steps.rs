//! One token's part of each pool operation: the fee it pays, the balance
//! it keeps, and the helpers that compute these over the amount vectors.
use crate::bigint::{
    lemma_bound_values, u128_bound, u192_bound, u256_bound, u576_bound, u64_bound, U192, U256, U576,
};
use crate::fees::{fraction_of, normalized_fee, Fees};
use vstd::prelude::*;

verus! {

/// What a balanced withdrawal of `lp` of `supply` shares does to one token
/// with `balance`: (amount received, new balance, fee, admin share of it).
/// The withdrawer's share is `balance * lp / supply`, less the withdraw fee,
/// or less only its admin share when every share is burned.
pub open spec fn balanced_share(fees: Fees, balance: u128, lp: u128, supply: u128) -> Option<
    (u128, u128, u128, u128),
> {
    let value = balance as nat * lp as nat / supply as nat;
    if value < u128_bound() {
        match fraction_of(value, fees.withdraw_fee_numerator as nat, fees.withdraw_fee_denominator as nat) {
            Some(total) => match fraction_of(
                total as nat,
                fees.admin_withdraw_fee_numerator as nat,
                fees.admin_withdraw_fee_denominator as nat,
            ) {
                Some(admin) => {
                    let kept: nat = if lp < supply {
                        total as nat
                    } else {
                        admin as nat
                    };
                    if kept <= value && (value - kept) + admin <= balance {
                        Some(
                            (
                                (value - kept) as u128,
                                (balance - (value - kept) - admin) as u128,
                                total,
                                admin,
                            ),
                        )
                    } else {
                        None
                    }
                },
                None => None,
            },
            None => None,
        }
    } else {
        None
    }
}

/// Each `a[k] + b[k]`; `None` when one does not fit in a `u128`.
pub open spec fn summed(a: Seq<u128>, b: Seq<u128>) -> Option<Seq<u128>> {
    if forall|k: int| 0 <= k < a.len() ==> #[trigger] a[k] + b[k] < u128_bound() {
        Some(Seq::new(a.len(), |k: int| (a[k] + b[k]) as u128))
    } else {
        None
    }
}

/// Each `a[k] - b[k]`; `None` when one would be negative.
pub open spec fn differences(a: Seq<u128>, b: Seq<u128>) -> Option<Seq<u128>> {
    if forall|k: int| 0 <= k < a.len() ==> #[trigger] b[k] <= a[k] {
        Some(Seq::new(a.len(), |k: int| (a[k] - b[k]) as u128))
    } else {
        None
    }
}

/// `n` zeros.
pub open spec fn zeros(n: nat) -> Seq<u128> {
    Seq::new(n, |k: int| 0u128)
}

/// `|a - b|`.
pub open spec fn distance(a: nat, b: nat) -> nat {
    if a > b {
        (a - b) as nat
    } else {
        (b - a) as nat
    }
}

/// One token of a deposit into a pool with shares: the fee on the distance
/// between its new balance and the ideal `d1 * old_balance / d0`. Gives the
/// balance kept (less the admin share), the balance counted for the
/// invariant (less the whole fee), the fee and its admin share.
pub open spec fn deposit_fee(
    fees: Fees,
    n: nat,
    old_balance: u128,
    new_balance: u128,
    d0: nat,
    d1: nat,
) -> Option<(u128, u128, u128, u128)> {
    let ideal = d1 * (old_balance as nat) / d0;
    if d0 != 0 && d1 * (old_balance as nat) < u576_bound() && ideal < u192_bound() && distance(
        ideal,
        new_balance as nat,
    ) < u128_bound() {
        match normalized_fee(fees, n, distance(ideal, new_balance as nat)) {
            Some(total) => match fraction_of(
                total as nat,
                fees.admin_trade_fee_numerator as nat,
                fees.admin_trade_fee_denominator as nat,
            ) {
                Some(admin) => if admin <= new_balance && total <= new_balance {
                    Some(((new_balance - admin) as u128, (new_balance - total) as u128, total, admin))
                } else {
                    None
                },
                None => None,
            },
            None => None,
        }
    } else {
        None
    }
}

/// Every token's fee of a deposit is found; see `deposit_fee`.
pub open spec fn deposit_fees_found(
    fees: Fees,
    n: nat,
    balances: Seq<u128>,
    grown: Seq<u128>,
    d0: nat,
    d1: nat,
) -> bool {
    forall|k: int|
        0 <= k < balances.len() ==> #[trigger] deposit_fee(fees, n, balances[k], grown[k], d0, d1) is Some
}

/// Every token's fees of an imbalanced withdrawal are found; see
/// `withdraw_fee_parts`.
pub open spec fn withdraw_fees_found(
    fees: Fees,
    n: nat,
    balances: Seq<u128>,
    removes: Seq<u128>,
    kept: Seq<u128>,
    d0: nat,
    d1: nat,
) -> bool {
    forall|k: int|
        0 <= k < balances.len() ==> #[trigger] withdraw_fee_parts(
            fees,
            n,
            balances[k],
            removes[k],
            kept[k],
            d0,
            d1,
        ) is Some
}

/// When a withdrawal empties the pool, each token's fee less its admin
/// share goes back to the withdrawer, and is exactly what is left.
pub open spec fn drain_refund_fits(
    removes: Seq<u128>,
    left: Seq<u128>,
    totals: Seq<u128>,
    admins: Seq<u128>,
) -> bool {
    forall|k: int|
        0 <= k < removes.len() ==> (#[trigger] admins[k]) <= totals[k] && removes[k] + (totals[k]
            - admins[k]) < u128_bound() && left[k] == totals[k] - admins[k]
}

/// Every token's fee-reduced balance of a single-token withdrawal is found;
/// see `one_coin_reduced`.
pub open spec fn reduced_found(
    fees: Fees,
    n: nat,
    p: Seq<u128>,
    i: int,
    new_y: u128,
    d0: nat,
    d1: nat,
) -> bool {
    forall|k: int|
        0 <= k < p.len() ==> #[trigger] one_coin_reduced(fees, n, p[k], k, i, new_y, d0, d1) is Some
}

/// An admin share is below its fee, or zero with it.
pub open spec fn admin_below(admin: u128, total: u128) -> bool {
    if total > 0 {
        admin < total
    } else {
        admin == 0
    }
}

/// One token of a withdrawal of `removed` from `old_balance`, leaving
/// `kept`: a trade fee on the distance between `kept` and the ideal
/// `old_balance * d1 / d0`, plus a withdraw fee on `removed`, both of which
/// the balance left must exceed. Gives the balance kept (less the admin
/// shares), the balance counted for the invariant (less both fees), the two
/// fees together and their admin shares together.
pub open spec fn withdraw_fee_parts(
    fees: Fees,
    n: nat,
    old_balance: u128,
    removed: u128,
    kept: u128,
    d0: nat,
    d1: nat,
) -> Option<(u128, u128, u128, u128)> {
    let ideal = (old_balance as nat) * d1 / d0;
    if (old_balance as nat) * d1 < u576_bound() && d0 != 0 && ideal < u128_bound() {
        match normalized_fee(fees, n, distance(ideal, kept as nat)) {
            Some(tf) => match fraction_of(
                tf as nat,
                fees.admin_trade_fee_numerator as nat,
                fees.admin_trade_fee_denominator as nat,
            ) {
                Some(ta) => if admin_below(ta, tf) && kept > tf {
                    match fraction_of(
                        removed as nat,
                        fees.withdraw_fee_numerator as nat,
                        fees.withdraw_fee_denominator as nat,
                    ) {
                        Some(wf) => match fraction_of(
                            wf as nat,
                            fees.admin_withdraw_fee_numerator as nat,
                            fees.admin_withdraw_fee_denominator as nat,
                        ) {
                            Some(wa) => if admin_below(wa, wf) && tf + wf < u128_bound() && ta + wa
                                < u128_bound() && kept > tf + wf {
                                Some(
                                    (
                                        (kept - (ta + wa)) as u128,
                                        (kept - (tf + wf)) as u128,
                                        (tf + wf) as u128,
                                        (ta + wa) as u128,
                                    ),
                                )
                            } else {
                                None
                            },
                            None => None,
                        },
                        None => None,
                    }
                } else {
                    None
                },
                None => None,
            },
            None => None,
        }
    } else {
        None
    }
}

/// Token `k`'s scaled balance less the fee on its expected change when the
/// invariant falls from `d0` to `d1` by a withdrawal in token `i` whose new
/// balance is `new_y`.
pub open spec fn one_coin_reduced(
    fees: Fees,
    n: nat,
    balance: u128,
    k: int,
    i: int,
    new_y: u128,
    d0: nat,
    d1: nat,
) -> Option<u128> {
    let share = (balance as nat) * d1 / d0;
    if (balance as nat) * d1 < u576_bound() && d0 != 0 && share < u128_bound() {
        let expected: int = if k == i {
            share - new_y
        } else {
            balance - share
        };
        if expected >= 0 {
            match normalized_fee(fees, n, expected as nat) {
                Some(fee) => if fee <= balance {
                    Some((balance - fee) as u128)
                } else {
                    None
                },
                None => None,
            }
        } else {
            None
        }
    } else {
        None
    }
}

/// Each `a[k] + b[k]`; see `summed`.
pub(crate) fn checked_add_each(a: &Vec<u128>, b: &Vec<u128>) -> (r: Option<Vec<u128>>)
    requires
        a.len() == b.len(),
    ensures
        match summed(a@, b@) {
            Some(s) => r matches Some(v) && v@ == s,
            None => r is None,
        },
{
    proof {
        lemma_bound_values();
    }
    let mut out: Vec<u128> = Vec::with_capacity(a.len());
    let mut i: usize = 0;
    while i < a.len()
        invariant
            i <= a.len() == b.len(),
            out.len() == i,
            u128_bound() == 0x1_0000_0000_0000_0000_0000_0000_0000_0000nat,
            forall|k: int| 0 <= k < i ==> #[trigger] a[k] + b[k] < u128_bound() && out[k] == a[k] + b[k],
        decreases a.len() - i,
    {
        match a[i].checked_add(b[i]) {
            Some(v) => out.push(v),
            None => {
                proof {
                    assert(!(a[i as int] + b[i as int] < u128_bound()));
                }
                return None;
            },
        }
        i = i + 1;
    }
    proof {
        assert(out@ =~= Seq::new(a.len() as nat, |k: int| (a@[k] + b@[k]) as u128));
    }
    Some(out)
}

/// Token `k`'s fee-reduced balance; see `one_coin_reduced`.
pub(crate) fn one_coin_reduced_exec(
    fees: &Fees,
    n: u64,
    balance: u128,
    is_withdrawn: bool,
    new_y: u128,
    d0: &U576,
    d1: &U576,
) -> (r: Option<u128>)
    ensures
        forall|k: int, i: int|
            (k == i) == is_withdrawn ==> r == #[trigger] one_coin_reduced(
                *fees,
                n as nat,
                balance,
                k,
                i,
                new_y,
                d0@,
                d1@,
            ),
{
    proof {
        lemma_bound_values();
    }
    let share = U576::from_u128(balance).checked_mul(d1)?.checked_div(d0)?.to_u128()?;
    let expected = if is_withdrawn {
        share.checked_sub(new_y)?
    } else {
        balance.checked_sub(share)?
    };
    let fee = fees.normalized_trade_fee(n, expected)?;
    balance.checked_sub(fee)
}

/// One token's fees of an imbalanced withdrawal; see `withdraw_fee_parts`.
pub(crate) fn withdraw_fee_parts_exec(
    fees: &Fees,
    n: u64,
    old_balance: u128,
    removed: u128,
    kept: u128,
    d0: &U576,
    d1: &U576,
) -> (r: Option<(u128, u128, u128, u128)>)
    ensures
        r == withdraw_fee_parts(*fees, n as nat, old_balance, removed, kept, d0@, d1@),
{
    proof {
        lemma_bound_values();
    }
    let ideal = U576::from_u128(old_balance).checked_mul(d1)?.checked_div(d0)?.to_u128()?;
    let difference = if ideal > kept {
        ideal - kept
    } else {
        kept - ideal
    };
    let trade = fees.normalized_trade_fee(n, difference)?;
    let trade_admin = fees.admin_trade_fee(trade)?;
    if trade > 0 {
        if trade_admin >= trade {
            return None;
        }
    } else if trade_admin != 0 {
        return None;
    }
    if kept <= trade {
        return None;
    }
    let withdraw = fees.withdraw_fee(removed)?;
    let withdraw_admin = fees.admin_withdraw_fee(withdraw)?;
    if withdraw > 0 {
        if withdraw_admin >= withdraw {
            return None;
        }
    } else if withdraw_admin != 0 {
        return None;
    }
    let total = trade.checked_add(withdraw)?;
    let admin = trade_admin.checked_add(withdraw_admin)?;
    if kept <= total {
        return None;
    }
    Some((kept - admin, kept - total, total, admin))
}

/// What an emptying withdrawal pays out: each amount plus its token's fee
/// less the admin share; see `drain_refund_fits`.
pub(crate) fn refund_fees(removes: &Vec<u128>, left: &Vec<u128>, totals: &Vec<u128>, admins: &Vec<u128>) -> (r:
    Option<Vec<u128>>)
    requires
        removes.len() == left.len() == totals.len() == admins.len(),
    ensures
        drain_refund_fits(removes@, left@, totals@, admins@) ==> (r matches Some(v) && v@ == Seq::new(
            removes.len() as nat,
            |k: int| (removes[k] + totals[k] - admins[k]) as u128,
        )),
        !drain_refund_fits(removes@, left@, totals@, admins@) ==> r is None,
{
    proof {
        lemma_bound_values();
    }
    let mut out: Vec<u128> = Vec::with_capacity(removes.len());
    let mut i: usize = 0;
    while i < removes.len()
        invariant
            i <= removes.len() == left.len() == totals.len() == admins.len(),
            out.len() == i,
            u128_bound() == 0x1_0000_0000_0000_0000_0000_0000_0000_0000nat,
            forall|k: int|
                0 <= k < i ==> (#[trigger] admins[k]) <= totals[k] && removes[k] + (totals[k]
                    - admins[k]) < u128_bound() && left[k] == totals[k] - admins[k] && out[k]
                    == removes[k] + totals[k] - admins[k],
        decreases removes.len() - i,
    {
        if totals[i] < admins[i] {
            return None;
        }
        let lp_fee = totals[i] - admins[i];
        let refund = match removes[i].checked_add(lp_fee) {
            Some(v) => v,
            None => return None,
        };
        if left[i] != lp_fee {
            return None;
        }
        out.push(refund);
        i = i + 1;
    }
    proof {
        assert(out@ =~= Seq::new(
            removes.len() as nat,
            |k: int| (removes@[k] + totals@[k] - admins@[k]) as u128,
        ));
    }
    Some(out)
}

/// Each `a[k] - b[k]`; see `differences`.
pub(crate) fn checked_sub_each(a: &Vec<u128>, b: &Vec<u128>) -> (r: Option<Vec<u128>>)
    requires
        a.len() == b.len(),
    ensures
        match differences(a@, b@) {
            Some(s) => r matches Some(v) && v@ == s,
            None => r is None,
        },
{
    let mut out: Vec<u128> = Vec::with_capacity(a.len());
    let mut i: usize = 0;
    while i < a.len()
        invariant
            i <= a.len() == b.len(),
            out.len() == i,
            forall|k: int| 0 <= k < i ==> #[trigger] b[k] <= a[k] && out[k] == a[k] - b[k],
        decreases a.len() - i,
    {
        match a[i].checked_sub(b[i]) {
            Some(v) => out.push(v),
            None => {
                return None;
            },
        }
        i = i + 1;
    }
    proof {
        assert(out@ =~= Seq::new(a.len() as nat, |k: int| (a@[k] - b@[k]) as u128));
    }
    Some(out)
}

/// `n` zeros.
pub(crate) fn zero_amounts(n: usize) -> (r: Vec<u128>)
    ensures
        r@ == zeros(n as nat),
{
    let mut out: Vec<u128> = Vec::with_capacity(n);
    while out.len() < n
        invariant
            out.len() <= n,
            forall|k: int| 0 <= k < out.len() ==> out[k] == 0,
        decreases n - out.len(),
    {
        out.push(0);
    }
    proof {
        assert(out@ =~= zeros(n as nat));
    }
    out
}

/// One token's fee on a deposit; see `deposit_fee`.
pub(crate) fn deposit_fee_exec(
    fees: &Fees,
    n: u64,
    old_balance: u128,
    new_balance: u128,
    d0: &U576,
    d1: &U576,
) -> (r: Option<(u128, u128, u128, u128)>)
    ensures
        r == deposit_fee(*fees, n as nat, old_balance, new_balance, d0@, d1@),
{
    proof {
        lemma_bound_values();
    }
    let ideal = d1.checked_mul(&U576::from_u128(old_balance))?.checked_div(d0)?.to_u192()?;
    let fresh = U192::from_u128(new_balance);
    let difference = if fresh.less_than(&ideal) {
        ideal.checked_sub(&fresh)?
    } else {
        fresh.checked_sub(&ideal)?
    };
    let difference = difference.to_u128()?;
    let total = fees.normalized_trade_fee(n, difference)?;
    let admin = fees.admin_trade_fee(total)?;
    let kept = new_balance.checked_sub(admin)?;
    let counted = kept.checked_add(admin)?.checked_sub(total)?;
    Some((kept, counted, total, admin))
}

/// One token's part of a balanced withdrawal; see `balanced_share`.
pub(crate) fn withdraw_share(fees: &Fees, balance: u128, lp: u128, supply: u128) -> (r: Option<
    (u128, u128, u128, u128),
>)
    requires
        supply != 0,
    ensures
        r == balanced_share(*fees, balance, lp, supply),
{
    proof {
        lemma_bound_values();
        lemma_u128_product_fits(balance as nat, lp as nat);
    }
    let product = U256::from_u128(balance).checked_mul(&U256::from_u128(lp)).unwrap();
    let value = product.checked_div(&U256::from_u128(supply)).unwrap().to_u128()?;
    let total = fees.withdraw_fee(value)?;
    let admin = fees.admin_withdraw_fee(total)?;
    let received = if supply > lp {
        value.checked_sub(total)?
    } else {
        value.checked_sub(admin)?
    };
    let new_balance = balance.checked_sub(received)?.checked_sub(admin)?;
    Some((received, new_balance, total, admin))
}

/// A copy of the amounts.
pub(crate) fn copy_amounts(v: &Vec<u128>) -> (r: Vec<u128>)
    ensures
        r@ == v@,
{
    let mut out: Vec<u128> = Vec::with_capacity(v.len());
    let mut i: usize = 0;
    while i < v.len()
        invariant
            i <= v.len(),
            out@ =~= v@.take(i as int),
        decreases v.len() - i,
    {
        out.push(v[i]);
        i = i + 1;
        proof {
            assert(out@ =~= v@.take(i as int));
        }
    }
    proof {
        assert(v@.take(v.len() as int) =~= v@);
    }
    out
}

/// A `u128` times a `u128` fits in 256 bits.
pub(crate) proof fn lemma_u128_product_fits(x: nat, y: nat)
    requires
        x < u128_bound(),
        y < u128_bound(),
    ensures
        x * y < u256_bound(),
{
    lemma_bound_values();
    assert(x * y < u128_bound() * u128_bound()) by (nonlinear_arith)
        requires
            x < u128_bound(),
            y < u128_bound(),
    ;
    assert(u128_bound() * u128_bound() <= u256_bound()) by (nonlinear_arith)
        requires
            u256_bound() == u192_bound() * u64_bound(),
            u192_bound() == u128_bound() * u64_bound(),
            u128_bound() == u64_bound() * u64_bound(),
    ;
}

} // verus!
