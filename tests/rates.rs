use snails_exchange::rates::{decimals_to_rates, PRECISION};

#[test]
fn test_decimals_to_rates() {
    const RATES: [u128; 3 as usize] = [1000000, 1000000000000000000, 1000000000000000000];
    let decimals: Vec<u64> = vec![18, 6, 6];
    let rates = decimals_to_rates(&decimals);
    for i in 0..rates.len() {
        assert_eq!(rates[i], RATES[i]);
    }
}

#[test]
fn rates_at_the_edges() {
    let rates = decimals_to_rates(&vec![24, 0, 12]);
    assert_eq!(rates, vec![1, PRECISION, 1_000_000_000_000]);
}
