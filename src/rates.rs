//! Per-token rates that bring native amounts to a common precision.
use vstd::prelude::*;

verus! {

/// The common precision, 10^24.
pub const PRECISION: u128 = 1_000_000_000_000_000_000_000_000;

/// `10^k`.
pub open spec fn ten_pow(k: nat) -> nat
    decreases k,
{
    if k == 0 {
        1
    } else {
        10 * ten_pow((k - 1) as nat)
    }
}

proof fn lemma_ten_pow_monotone(a: nat, b: nat)
    requires
        a <= b,
    ensures
        ten_pow(a) <= ten_pow(b),
    decreases b - a,
{
    if a < b {
        lemma_ten_pow_monotone(a, (b - 1) as nat);
    }
}

pub proof fn lemma_ten_pow_24()
    ensures
        ten_pow(24) == PRECISION,
{
    reveal_with_fuel(ten_pow, 25);
}

/// The rate of a token with `decimals` decimals: `10^(24 - decimals)`.
pub open spec fn rate_of(decimals: u64) -> nat {
    ten_pow((24 - decimals) as nat)
}

/// The rate of each token, from its number of decimals.
pub fn decimals_to_rates(vector: &Vec<u64>) -> (r: Vec<u128>)
    requires
        forall|k: int| 0 <= k < vector.len() ==> vector[k] <= 24,
    ensures
        r.len() == vector.len(),
        forall|k: int| 0 <= k < vector.len() ==> r[k] == rate_of(#[trigger] vector[k]),
{
    let mut out: Vec<u128> = Vec::with_capacity(vector.len());
    let mut i: usize = 0;
    while i < vector.len()
        invariant
            i <= vector.len(),
            out.len() == i,
            forall|k: int| 0 <= k < vector.len() ==> vector[k] <= 24,
            forall|k: int| 0 <= k < i ==> out[k] == rate_of(#[trigger] vector[k]),
        decreases vector.len() - i,
    {
        let e: u64 = 24 - vector[i];
        let mut rate: u128 = 1;
        let mut k: u64 = 0;
        while k < e
            invariant
                k <= e <= 24,
                rate == ten_pow(k as nat),
            decreases e - k,
        {
            proof {
                lemma_ten_pow_monotone(k as nat, 23);
                lemma_ten_pow_24();
            }
            rate = rate * 10;
            k = k + 1;
        }
        out.push(rate);
        i = i + 1;
    }
    out
}

} // verus!
