use swap_fees::binary64::Binary64;
use swap_fees::network::{BitcoinChain, Chain, LiquidChain};
use swap_fees::swaps::boltz::SwapType;
use swap_fees::swaps::estimations::FeeEstimations;
use swap_fees::swaps::fees::{
    are_amounts_in_range, calc_network_fee, calculate_percentage, check_amounts, check_tolerance,
    estimate_claim_fee, fee_tolerance, get_tx_sizes, is_fee_in_range,
    required_estimations, SwapPair,
};

fn number(x: f64) -> Binary64 {
    Binary64::from_bits(x.to_bits())
}

#[test]
fn test_get_tx_sizes() {
    let btc_sizes = get_tx_sizes(Chain::Bitcoin(BitcoinChain::Bitcoin));
    assert_eq!(btc_sizes.normal_claim, 151);
    assert_eq!(btc_sizes.reverse_lockup, 154);
    assert_eq!(btc_sizes.reverse_claim, 111);

    let liquid_sizes = get_tx_sizes(Chain::Liquid(LiquidChain::Liquid));
    assert_eq!(liquid_sizes.normal_claim, 1337);
    assert_eq!(liquid_sizes.reverse_lockup, 2503);
    assert_eq!(liquid_sizes.reverse_claim, 1309);
}

#[test]
fn test_calculate_percentage() {
    assert_eq!(calculate_percentage(number(10.0), 1000), 100);
    assert_eq!(calculate_percentage(number(25.0), 100), 25);
    assert_eq!(calculate_percentage(number(0.5), 10000), 50);
    // Rounding up
    assert_eq!(calculate_percentage(number(10.0), 15), 2); // 1.5 rounds up to 2
}

#[test]
fn test_calc_network_fee_submarine() {
    let pair = SwapPair::btc_to_ln(Chain::Bitcoin(BitcoinChain::Bitcoin));
    let mut estimations = FeeEstimations::new();
    estimations.insert(Chain::Bitcoin(BitcoinChain::Bitcoin), number(10.0));

    let fee = calc_network_fee(SwapType::Submarine, pair, &estimations, false).unwrap();
    // 151 * 10 = 1510
    assert_eq!(fee, 1510);
}

#[test]
fn test_calc_network_fee_reverse() {
    let pair = SwapPair::ln_to_btc(Chain::Bitcoin(BitcoinChain::Bitcoin));
    let mut estimations = FeeEstimations::new();
    estimations.insert(Chain::Bitcoin(BitcoinChain::Bitcoin), number(10.0));

    // Without claim
    let fee = calc_network_fee(SwapType::ReverseSubmarine, pair, &estimations, false).unwrap();
    // 154 * 10 = 1540
    assert_eq!(fee, 1540);

    // With claim
    let fee_with_claim =
        calc_network_fee(SwapType::ReverseSubmarine, pair, &estimations, true).unwrap();
    // (154 + 111) * 10 = 2650
    assert_eq!(fee_with_claim, 2650);
}

#[test]
fn test_check_tolerance_within() {
    // Actual fee equal to expected
    assert!(check_tolerance(1000, 1000).is_ok());

    // Actual fee below expected (always ok)
    assert!(check_tolerance(1000, 500).is_ok());

    // Actual fee within absolute tolerance
    assert!(check_tolerance(1000, 2499).is_ok()); // 1000 + 1500 - 1

    // Actual fee within relative tolerance (25% of 10000 = 2500)
    assert!(check_tolerance(10000, 12500).is_ok());
}

#[test]
fn test_check_tolerance_exceeds() {
    // Exceeds both tolerances
    let result = check_tolerance(1000, 3000);
    assert!(result.is_err());

    // Exceeds relative tolerance
    let result = check_tolerance(10000, 15000);
    assert!(result.is_err());
}

#[test]
fn test_required_estimations() {
    let btc_chain = Chain::Bitcoin(BitcoinChain::Bitcoin);
    let liquid_chain = Chain::Liquid(LiquidChain::Liquid);

    // Submarine swap
    let pair = SwapPair::new(btc_chain, btc_chain);
    let required = required_estimations(SwapType::Submarine, pair);
    assert_eq!(required.len(), 1);
    assert_eq!(required[0], btc_chain);

    // Reverse swap
    let required = required_estimations(SwapType::ReverseSubmarine, pair);
    assert_eq!(required.len(), 1);
    assert_eq!(required[0], btc_chain);

    // Chain swap same chain
    let required = required_estimations(SwapType::Chain, pair);
    assert_eq!(required.len(), 1);
    assert_eq!(required[0], btc_chain);

    // Chain swap different chains
    let pair = SwapPair::new(btc_chain, liquid_chain);
    let required = required_estimations(SwapType::Chain, pair);
    assert_eq!(required.len(), 2);
    assert!(required.contains(&btc_chain));
    assert!(required.contains(&liquid_chain));
}

#[test]
fn test_check_amounts_reverse_swap() {
    let pair = SwapPair::ln_to_btc(Chain::Bitcoin(BitcoinChain::Bitcoin));
    let mut estimations = FeeEstimations::new();
    estimations.insert(Chain::Bitcoin(BitcoinChain::Bitcoin), number(10.0));

    // Reverse swap: send 100000, service fee 1% = 1000, network fee ~2650 (154+111)*10
    // Total fees = 3650, so receive amount = 100000 - 3650 = 96350
    let send_amount = 100_000;
    let service_fee_percent = number(1.0);
    let expected_service_fee = 1000;
    let expected_network_fee = 2650; // (154 + 111) * 10
    let receive_amount = send_amount - expected_service_fee - expected_network_fee;

    let result = check_amounts(
        SwapType::ReverseSubmarine,
        pair,
        send_amount,
        receive_amount,
        service_fee_percent,
        &estimations,
        true,
    );
    assert!(result.is_ok());
}

#[test]
fn test_check_amounts_submarine_swap() {
    let pair = SwapPair::btc_to_ln(Chain::Bitcoin(BitcoinChain::Bitcoin));
    let mut estimations = FeeEstimations::new();
    estimations.insert(Chain::Bitcoin(BitcoinChain::Bitcoin), number(10.0));

    // Submarine swap: receive 100000, service fee 1% of receive = 1000, network fee ~1510
    // Total fees = 2510, so send amount = 100000 + 2510 = 102510
    let receive_amount = 100_000;
    let service_fee_percent = number(1.0);
    let expected_service_fee = 1000;
    let expected_network_fee = 1510; // 151 * 10
    let send_amount = receive_amount + expected_service_fee + expected_network_fee;

    let result = check_amounts(
        SwapType::Submarine,
        pair,
        send_amount,
        receive_amount,
        service_fee_percent,
        &estimations,
        false,
    );
    assert!(result.is_ok());
}

#[test]
fn test_check_amounts_fails_excessive_fees() {
    let pair = SwapPair::ln_to_btc(Chain::Bitcoin(BitcoinChain::Bitcoin));
    let mut estimations = FeeEstimations::new();
    estimations.insert(Chain::Bitcoin(BitcoinChain::Bitcoin), number(10.0));

    // Set receive amount too low (excessive fees)
    let send_amount = 100_000;
    let receive_amount = 80_000; // Way too low

    let result = check_amounts(
        SwapType::ReverseSubmarine,
        pair,
        send_amount,
        receive_amount,
        number(1.0),
        &estimations,
        true,
    );
    assert!(result.is_err());
}

#[test]
fn test_check_amounts_missing_estimation() {
    let pair = SwapPair::ln_to_btc(Chain::Bitcoin(BitcoinChain::Bitcoin));
    let estimations = FeeEstimations::new(); // Empty estimations

    let result = check_amounts(
        SwapType::ReverseSubmarine,
        pair,
        100_000,
        95_000,
        number(1.0),
        &estimations,
        true,
    );
    assert!(result.is_err());
    assert!(result
        .unwrap_err()
        .to_string()
        .contains("No estimation for chain"));
}

const BTC: Chain = Chain::Bitcoin(BitcoinChain::Bitcoin);
const LIQUID: Chain = Chain::Liquid(LiquidChain::Liquid);

fn both_rates(btc: f64, liquid: f64) -> FeeEstimations {
    let mut estimations = FeeEstimations::new();
    estimations.insert(BTC, number(btc));
    estimations.insert(LIQUID, number(liquid));
    estimations
}

#[test]
fn chain_swap_pays_on_both_sides() {
    let estimations = both_rates(10.0, 0.1);
    let pair = SwapPair::new(BTC, LIQUID);
    // 151 * 10 + ceil(2503 * 0.1)
    let fee = calc_network_fee(SwapType::Chain, pair, &estimations, false).unwrap();
    assert_eq!(fee, 1510 + 251);
    // 151 * 10 + ceil((2503 + 1309) * 0.1)
    let fee = calc_network_fee(SwapType::Chain, pair, &estimations, true).unwrap();
    assert_eq!(fee, 1510 + 382);
    // ceil(1337 * 0.1) + 154 * 10
    let fee =
        calc_network_fee(SwapType::Chain, SwapPair::new(LIQUID, BTC), &estimations, false).unwrap();
    assert_eq!(fee, 134 + 1540);
}

#[test]
fn missing_rates_are_named() {
    let mut estimations = FeeEstimations::new();
    let pair = SwapPair::new(BTC, LIQUID);
    let e = calc_network_fee(SwapType::Submarine, pair, &estimations, false).unwrap_err();
    assert_eq!(e.to_string(), "No fee estimation for chain Bitcoin");
    let e = calc_network_fee(SwapType::ReverseSubmarine, pair, &estimations, true).unwrap_err();
    assert_eq!(e.to_string(), "No fee estimation for chain Liquid");
    let e = calc_network_fee(SwapType::Chain, pair, &estimations, true).unwrap_err();
    assert_eq!(e.to_string(), "No fee estimation for chain Bitcoin");
    estimations.insert(BTC, number(1.0));
    let e = calc_network_fee(SwapType::Chain, pair, &estimations, true).unwrap_err();
    assert_eq!(e.to_string(), "No fee estimation for chain Liquid");
    let e = check_amounts(SwapType::Chain, pair, 1, 2, number(1.0), &estimations, true).unwrap_err();
    assert_eq!(e.to_string(), "No estimation for chain Liquid");
}

#[test]
fn networks_of_a_chain_have_their_own_rates() {
    let mut estimations = FeeEstimations::new();
    let testnet = Chain::Bitcoin(BitcoinChain::BitcoinTestnet);
    assert!(estimations.insert(testnet, number(2.0)).is_none());
    assert!(!estimations.contains_key(&BTC));
    assert!(estimations.get(&BTC).is_none());
    assert!(estimations.contains_key(&testnet));
    let previous = estimations.insert(testnet, number(3.0)).unwrap();
    assert_eq!(previous.to_bits(), 2.0f64.to_bits());
    assert_eq!(estimations.get(&testnet).unwrap().to_bits(), 3.0f64.to_bits());
    let all = [
        Chain::Bitcoin(BitcoinChain::Bitcoin),
        Chain::Bitcoin(BitcoinChain::BitcoinTestnet),
        Chain::Bitcoin(BitcoinChain::BitcoinRegtest),
        Chain::Liquid(LiquidChain::Liquid),
        Chain::Liquid(LiquidChain::LiquidTestnet),
        Chain::Liquid(LiquidChain::LiquidRegtest),
    ];
    for a in all {
        for b in all {
            assert_eq!(a.to_number() == b.to_number(), a == b);
            assert_eq!(a.to_string() == b.to_string(), a == b);
        }
    }
}

#[test]
fn pairs_of_lightning_swaps_name_one_chain() {
    assert_eq!(SwapPair::ln_to_btc(LIQUID), SwapPair::new(LIQUID, LIQUID));
    assert_eq!(SwapPair::btc_to_ln(LIQUID), SwapPair::new(LIQUID, LIQUID));
}

#[test]
fn every_refusal_of_amounts_has_its_message() {
    let estimations = both_rates(10.0, 0.1);
    let pair = SwapPair::ln_to_btc(BTC);
    let check = |send: u64, receive: u64, percent: f64| {
        check_amounts(
            SwapType::ReverseSubmarine,
            pair,
            send,
            receive,
            number(percent),
            &estimations,
            true,
        )
    };
    let e = check(1000, 1001, 1.0).unwrap_err();
    assert_eq!(e.to_string(), "Receive amount exceeds send amount");
    let e = check(1000, 995, 1.0).unwrap_err();
    assert_eq!(e.to_string(), "Service fee exceeds total fees");
    // Service fee 1000, network fee 2650, tolerance 1500
    assert!(check(100_000, 100_000 - 1000 - 2650 - 1500, 1.0).is_ok());
    let e = check(100_000, 100_000 - 1000 - 2650 - 1501, 1.0).unwrap_err();
    assert_eq!(e.to_string(), "Onchain fee way above expectation: 4151 > 2650 + 1500");
    // Paying less than expected is accepted.
    assert!(check(100_000, 99_000, 1.0).is_ok());
}

#[test]
fn amounts_with_exact_fees_are_accepted() {
    let estimations = both_rates(3.3, 0.12);
    let pair = SwapPair::new(LIQUID, BTC);
    for swap_type in [SwapType::Submarine, SwapType::ReverseSubmarine, SwapType::Chain] {
        let network = calc_network_fee(swap_type, pair, &estimations, true).unwrap();
        let (send, receive) = if swap_type == SwapType::Submarine {
            (123_456 + calculate_percentage(number(0.1), 123_456) + network, 123_456)
        } else {
            (123_456, 123_456 - calculate_percentage(number(0.1), 123_456) - network)
        };
        let r = check_amounts(swap_type, pair, send, receive, number(0.1), &estimations, true);
        assert!(r.is_ok());
    }
}

#[test]
fn tolerance_is_the_greater_of_both() {
    assert_eq!(fee_tolerance(0), 1500);
    assert_eq!(fee_tolerance(6000), 1500);
    assert_eq!(fee_tolerance(6001), 1501);
    assert_eq!(fee_tolerance(10_000), 2500);
    assert_eq!(fee_tolerance(10_001), 2501);
    // Above 2^53 the expected fee itself is rounded first.
    assert_eq!(fee_tolerance((1 << 53) + 1), 1 << 51);
    assert!(check_tolerance(1000, 2500).is_ok());
    let e = check_tolerance(1000, 2501).unwrap_err();
    assert_eq!(e.to_string(), "Onchain fee way above expectation: 2501 > 1000 + 1500");
    let e = check_tolerance(10_000, 18_446_744_073_709_551_615).unwrap_err();
    assert_eq!(
        e.to_string(),
        "Onchain fee way above expectation: 18446744073709551615 > 10000 + 2500"
    );
}

#[test]
fn percentages_show_binary_rounding() {
    // 1.1 / 100.0 * 10000.0 is 110.00000000000001.
    assert_eq!(calculate_percentage(number(1.1), 10_000), 111);
    assert_eq!(calculate_percentage(number(0.1), 10_000), 10);
    assert_eq!(calculate_percentage(number(0.0), 10_000), 0);
    assert_eq!(calculate_percentage(number(-0.4), 10_000), 0);
    assert_eq!(calculate_percentage(number(f64::NAN), 10_000), 0);
    assert_eq!(calculate_percentage(number(f64::INFINITY), 1), u64::MAX);
    assert_eq!(calculate_percentage(number(f64::INFINITY), 0), 0);
    assert_eq!(calculate_percentage(number(100.0), u64::MAX), u64::MAX);
}

#[test]
fn claim_fees_round_up() {
    assert_eq!(estimate_claim_fee(BTC, number(10.0)), 1110);
    assert_eq!(estimate_claim_fee(BTC, number(0.5)), 56);
    assert_eq!(estimate_claim_fee(LIQUID, number(0.1)), 131);
    assert_eq!(estimate_claim_fee(LIQUID, number(0.0)), 0);
    assert_eq!(estimate_claim_fee(LIQUID, number(-1.0)), 0);
    assert_eq!(estimate_claim_fee(LIQUID, number(1e300)), u64::MAX);
    assert_eq!(estimate_claim_fee(LIQUID, number(5e-324)), 1);
}

#[test]
fn fees_grow_with_the_rate() {
    let mut last = 0;
    for step in 0..2000u32 {
        let fee = estimate_claim_fee(BTC, number(step as f64 * 0.013));
        assert!(last <= fee);
        assert_eq!(fee, (111.0 * (step as f64 * 0.013)).ceil() as u64);
        last = fee;
    }
}

#[test]
fn counting_the_claim_in_does_not_lower_the_fee() {
    for rate in [0.0, 0.001, 0.1, 7.7, 1e300, f64::INFINITY, -3.0, f64::NAN] {
        let estimations = both_rates(rate, rate);
        for swap_type in [SwapType::Submarine, SwapType::ReverseSubmarine] {
            let pair = SwapPair::new(BTC, LIQUID);
            let without = calc_network_fee(swap_type, pair, &estimations, false).unwrap();
            let with = calc_network_fee(swap_type, pair, &estimations, true).unwrap();
            assert!(without <= with);
        }
    }
}

#[test]
fn other_rates_do_not_matter() {
    let pair = SwapPair::ln_to_btc(BTC);
    let mut one = FeeEstimations::new();
    one.insert(BTC, number(4.2));
    let many = both_rates(4.2, 99.0);
    assert_eq!(
        calc_network_fee(SwapType::ReverseSubmarine, pair, &one, true).unwrap(),
        calc_network_fee(SwapType::ReverseSubmarine, pair, &many, true).unwrap(),
    );
}

#[test]
fn percentages_are_at_most_one_off() {
    // The binary hundredth part of 7 lies above 0.07, so that 7% of 100 rounds up to 8.
    assert_eq!(calculate_percentage(number(7.0), 100), 8);
    for value in 0..3000u64 {
        for percent in [1u64, 3, 7, 25, 29] {
            let part = calculate_percentage(Binary64::from_u64(percent), value);
            let exact = percent * value;
            assert!(exact / 100 <= part && part <= (exact + 99) / 100 + 1);
        }
    }
}

#[test]
fn better_offers_stay_accepted() {
    let estimations = both_rates(10.0, 0.1);
    let pair = SwapPair::ln_to_btc(BTC);
    for receive in 94_000..=99_000u64 {
        let r = check_amounts(
            SwapType::ReverseSubmarine,
            pair,
            100_000,
            receive,
            number(1.0),
            &estimations,
            true,
        );
        // 100000 - 1000 - (2650 + 1500)
        assert_eq!(r.is_ok(), receive >= 94_850);
    }
}

#[test]
fn ranges_are_told() {
    let estimations = both_rates(1e30, 1e30);
    let pair = SwapPair::new(BTC, LIQUID);
    assert!(is_fee_in_range(SwapType::Submarine, pair, &estimations, false));
    assert_eq!(
        calc_network_fee(SwapType::Submarine, pair, &estimations, false).unwrap(),
        u64::MAX
    );
    assert!(!is_fee_in_range(SwapType::Chain, pair, &estimations, false));
    assert!(is_fee_in_range(SwapType::Chain, pair, &FeeEstimations::new(), false));
    let one = number(1.0);
    let sub = SwapType::Submarine;
    assert!(are_amounts_in_range(sub, pair, 2000, 1000, one, &estimations, false));
    assert!(check_amounts(sub, pair, 2000, 1000, one, &estimations, false).is_ok());
    assert!(!are_amounts_in_range(SwapType::Chain, pair, 2000, 1000, one, &estimations, false));
    // Where the amounts are refused before, the fee does not matter.
    assert!(are_amounts_in_range(sub, pair, 1000, 2000, one, &estimations, false));
    assert!(are_amounts_in_range(sub, pair, 1005, 1000, one, &estimations, false));
    assert!(are_amounts_in_range(sub, pair, 2000, 1000, one, &FeeEstimations::new(), false));
    assert!(are_amounts_in_range(sub, pair, 2000, 1000, one, &both_rates(1.0, 1.0), false));
}

#[test]
fn fees_below_the_expected_one_are_always_tolerated() {
    assert!(check_tolerance(u64::MAX, 0).is_ok());
    assert!(check_tolerance(u64::MAX, u64::MAX - 1).is_ok());
    assert!(check_tolerance(u64::MAX, u64::MAX).is_ok());
    // The greatest tolerated fee is beyond every fee.
    assert!(check_tolerance(u64::MAX - 1000, u64::MAX).is_ok());
    assert!(check_tolerance(1 << 63, u64::MAX).is_err());
}

#[test]
fn better_submarine_offers_stay_accepted() {
    let estimations = both_rates(10.0, 0.1);
    let pair = SwapPair::btc_to_ln(BTC);
    for send in 101_000..=105_000u64 {
        let r = check_amounts(
            SwapType::Submarine,
            pair,
            send,
            100_000,
            number(1.0),
            &estimations,
            false,
        );
        // 100000 + 1000 + (1510 + 1500)
        assert_eq!(r.is_ok(), send <= 104_010);
    }
}
