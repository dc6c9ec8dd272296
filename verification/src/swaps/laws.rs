//! What holds of the fee rules together.
use crate::binary64;
use crate::binary64::Binary64;
use crate::error::ErrorView;
use crate::network::Chain;
use crate::rounding;
use crate::swaps::boltz::SwapType;
use crate::swaps::fees;
use crate::swaps::fees::SwapPair;
use crate::text;
use vstd::arithmetic::div_mod::*;
use vstd::arithmetic::power2::*;
use vstd::prelude::*;

verus! {

/// A fee is never below the product of size and rate as binary64 numbers, and exceeds it
/// by less than one satoshi, wherever that product is in the range of fees.
pub proof fn law_fee_rounds_up(size: u64, rate: Binary64)
    requires
        !rate.nan(),
        !rate.infinite(),
        !rate.negative(),
        rounding::units(binary64::from_integer(size as nat).times(rate).magnitude()) <= u64::MAX
            * pow2(1074),
    ensures
        ({
            let product = rounding::units(
                binary64::from_integer(size as nat).times(rate).magnitude(),
            );
            let fee = fees::fee_at_rate(size, rate);
            product <= fee * pow2(1074) < product + pow2(1074)
        }),
{
    let x = binary64::from_integer(size as nat);
    let (p, top) = (pow2(1074), 0x7ff0_0000_0000_0000nat);
    binary64::lemma_from_integer(size as nat);
    lemma_pow2_pos(1074);
    let n = rounding::units(x.magnitude()) * rounding::units(rate.magnitude());
    rounding::lemma_round_nearest(n, p);
    binary64::lemma_signed(false, rounding::round_nearest(n, p));
    if x.times(rate).magnitude() == top {
        // Infinity stands for 2^1024, which is out of range.
        let w = 0x1_0000_0000_0000_0000nat;
        lemma2_to64();
        lemma_pow2_adds(64, 1074);
        let b = binary64::lemma_representable(1, 1138);
        rounding::lemma_units_increase(b, top);
        assert(u64::MAX * p < w * p) by (nonlinear_arith)
            requires
                p > 0,
                w == 0x1_0000_0000_0000_0000,
        ;
    }
    binary64::lemma_ceiling_bounds(x.times(rate));
}

/// A fee is one of the two integers next to the exact product of size and rate, for
/// products up to 2^53.
pub proof fn law_fee_is_next_to_exact_product(size: u64, rate: Binary64)
    requires
        !rate.nan(),
        !rate.infinite(),
        !rate.negative(),
        size <= 0x20_0000_0000_0000,
        size * rounding::units(rate.magnitude()) <= 0x20_0000_0000_0000 * pow2(1074),
    ensures
        ({
            let exact = size * rounding::units(rate.magnitude());
            let fee = fees::fee_at_rate(size, rate);
            exact / pow2(1074) as int <= fee <= (exact + pow2(1074) - 1) / pow2(1074) as int
        }),
{
    let p = pow2(1074);
    let u = rounding::units(rate.magnitude());
    let exact = (size * u) as nat;
    let x = binary64::from_integer(size as nat);
    let low = (exact / p) as nat;
    let high = ((exact + p - 1) / p as int) as nat;
    lemma_pow2_pos(1074);
    lemma_fundamental_div_mod(exact as int, p as int);
    lemma_mod_bound(exact as int, p as int);
    lemma_fundamental_div_mod(exact + p - 1, p as int);
    lemma_mod_bound(exact + p - 1, p as int);
    lemma_div_pos_is_pos(exact + p - 1, p as int);
    assert(low * p <= exact) by (nonlinear_arith)
        requires
            p * low <= exact,
    ;
    assert(exact <= high * p) by (nonlinear_arith)
        requires
            exact + p - 1 < p * high + p,
    ;
    assert(low <= 0x20_0000_0000_0000) by (nonlinear_arith)
        requires
            low * p <= exact,
            exact <= 0x20_0000_0000_0000 * p,
            p > 0,
    ;
    assert(high <= 0x20_0000_0000_0000) by (nonlinear_arith)
        requires
            p * high <= exact + p - 1,
            exact <= 0x20_0000_0000_0000 * p,
            p > 0,
    ;
    binary64::lemma_from_integer(size as nat);
    binary64::lemma_from_integer_exact(size as nat);
    let n = rounding::units(x.magnitude()) * u;
    assert(n * 1 == exact * p) by (nonlinear_arith)
        requires
            n == (size * p) * u,
            exact == size * u,
    ;
    rounding::lemma_round_nearest_ratio(n, p, exact, 1);
    rounding::lemma_round_nearest(n, p);
    binary64::lemma_signed(false, rounding::round_nearest(n, p));
    rounding::lemma_round_nearest_monotone(low * p, 1, exact, 1);
    rounding::lemma_round_nearest_monotone(exact, 1, high * p, 1);
    binary64::lemma_from_integer(low);
    binary64::lemma_from_integer(high);
    binary64::lemma_ceiling_of_integer(low);
    binary64::lemma_ceiling_of_integer(high);
    binary64::lemma_ceiling_monotone(binary64::from_integer(low), x.times(rate));
    binary64::lemma_ceiling_monotone(x.times(rate), binary64::from_integer(high));
}

/// Whole rates give exact fees: `r` satoshis per virtual byte for `size` virtual bytes
/// are `size * r` satoshis, up to 2^53.
pub proof fn law_whole_rates_are_exact(size: u64, rate: Binary64, r: nat)
    requires
        !rate.nan(),
        !rate.infinite(),
        !rate.negative(),
        rounding::units(rate.magnitude()) == r * pow2(1074),
        size <= 0x20_0000_0000_0000,
        size * r <= 0x20_0000_0000_0000,
    ensures
        fees::fee_at_rate(size, rate) == size * r,
{
    let p = pow2(1074);
    lemma_pow2_pos(1074);
    let (k, exact) = (size * r, size * (r * p));
    assert(exact == k * p) by (nonlinear_arith)
        requires
            exact == size * (r * p),
            k == size * r,
    ;
    assert(k >= 0) by (nonlinear_arith)
        requires
            k == size * r,
    ;
    assert(k * p <= 0x20_0000_0000_0000 * p) by (nonlinear_arith)
        requires
            k <= 0x20_0000_0000_0000,
    ;
    law_fee_is_next_to_exact_product(size, rate);
    lemma_fundamental_div_mod_converse(exact, p as int, k, 0);
    lemma_fundamental_div_mod_converse(exact + p - 1, p as int, k, p - 1);
}

/// A rate that is negative or not a number costs nothing.
pub proof fn law_bad_rates_cost_nothing(size: u64, rate: Binary64)
    requires
        rate.nan() || rate.negative(),
    ensures
        fees::fee_at_rate(size, rate) == 0,
{
    binary64::lemma_ceiling_of_bad_product(size as nat, rate);
}

/// A fee does not decrease where the size or the rate grows.
pub proof fn law_fee_is_monotone(size: u64, larger: u64, rate: Binary64, higher: Binary64)
    requires
        size <= larger,
        !rate.negative(),
        !higher.negative(),
        !higher.nan(),
        rate.magnitude() <= higher.magnitude(),
    ensures
        fees::fee_at_rate(size, rate) <= fees::fee_at_rate(larger, higher),
{
    binary64::lemma_ceiling_of_product_monotone(size as nat, larger as nat, rate, higher);
}

/// Whether each rate in `rates` that a swap depends on is a number and not above the one
/// in `higher`.
pub open spec fn rates_ordered(
    chains: Seq<Chain>,
    rates: Map<Chain, Binary64>,
    higher: Map<Chain, Binary64>,
) -> bool {
    forall|i: int|
        #![trigger chains[i]]
        0 <= i < chains.len() ==> {
            &&& !rates[chains[i]].negative()
            &&& !higher[chains[i]].negative()
            &&& !higher[chains[i]].nan()
            &&& rates[chains[i]].magnitude() <= higher[chains[i]].magnitude()
        }
}

/// A swap's network fee does not decrease where its rates grow.
pub proof fn law_network_fee_is_monotone(
    swap_type: SwapType,
    pair: SwapPair,
    rates: Map<Chain, Binary64>,
    higher: Map<Chain, Binary64>,
    include_claim: bool,
)
    requires
        rates_ordered(fees::required_chains(swap_type, pair), rates, higher),
    ensures
        fees::network_fee(swap_type, pair, rates, include_claim) <= fees::network_fee(
            swap_type,
            pair,
            higher,
            include_claim,
        ),
{
    let chains = fees::required_chains(swap_type, pair);
    let sent = fees::swap_size(SwapType::Submarine, pair.from, false) as u64;
    let received = fees::swap_size(SwapType::ReverseSubmarine, pair.to, include_claim) as u64;
    assert(chains[0] == pair.from || chains[0] == pair.to);
    if swap_type != SwapType::ReverseSubmarine {
        assert(chains[0] == pair.from);
        law_fee_is_monotone(sent, sent, rates[pair.from], higher[pair.from]);
    }
    if swap_type != SwapType::Submarine {
        assert(chains[chains.len() - 1] == pair.to);
        law_fee_is_monotone(received, received, rates[pair.to], higher[pair.to]);
    }
}

/// Counting the claim transaction in does not lower the network fee, whatever the rates.
pub proof fn law_claim_does_not_lower_fee(
    swap_type: SwapType,
    pair: SwapPair,
    rates: Map<Chain, Binary64>,
)
    ensures
        fees::network_fee(swap_type, pair, rates, false) <= fees::network_fee(
            swap_type,
            pair,
            rates,
            true,
        ),
{
    let rate = rates[pair.to];
    let without = fees::swap_size(SwapType::ReverseSubmarine, pair.to, false) as u64;
    let with = fees::swap_size(SwapType::ReverseSubmarine, pair.to, true) as u64;
    if rate.nan() || rate.negative() {
        law_bad_rates_cost_nothing(without, rate);
    } else {
        law_fee_is_monotone(without, with, rate, rate);
    }
}

/// A chain swap pays the network fees of a submarine and of a reverse swap.
pub proof fn law_chain_swap_pays_both_sides(
    pair: SwapPair,
    rates: Map<Chain, Binary64>,
    include_claim: bool,
)
    ensures
        fees::network_fee(SwapType::Chain, pair, rates, include_claim) == fees::network_fee(
            SwapType::Submarine,
            pair,
            rates,
            include_claim,
        ) + fees::network_fee(SwapType::ReverseSubmarine, pair, rates, include_claim),
{
}

/// The required chains are one or two chains of the pair, none of them named twice.
pub proof fn law_required_chains(swap_type: SwapType, pair: SwapPair)
    ensures
        1 <= fees::required_chains(swap_type, pair).len() <= 2,
        fees::required_chains(swap_type, pair).no_duplicates(),
        forall|chain: Chain|
            fees::required_chains(swap_type, pair).contains(chain) <==> {
                ||| chain == pair.from && swap_type != SwapType::ReverseSubmarine
                ||| chain == pair.to && swap_type != SwapType::Submarine
            },
{
    let chains = fees::required_chains(swap_type, pair);
    assert(chains[0] == pair.from || chains[0] == pair.to);
    assert(chains[chains.len() - 1] == pair.from || chains[chains.len() - 1] == pair.to);
}

/// No chain is missing exactly where there is a rate for each required chain, and a
/// missing one is the first of them without a rate.
pub proof fn lemma_missing_chain(
    swap_type: SwapType,
    pair: SwapPair,
    rates: Map<Chain, Binary64>,
)
    ensures
        fees::missing_chain(swap_type, pair, rates) is None <==> forall|i: int|
            0 <= i < fees::required_chains(swap_type, pair).len() ==> rates.contains_key(
                #[trigger] fees::required_chains(swap_type, pair)[i],
            ),
        fees::missing_chain(swap_type, pair, rates) matches Some(chain) ==> exists|k: int| {
            &&& 0 <= k < fees::required_chains(swap_type, pair).len()
            &&& #[trigger] fees::required_chains(swap_type, pair)[k] == chain
            &&& !rates.contains_key(chain)
            &&& forall|i: int|
                0 <= i < k ==> rates.contains_key(
                    #[trigger] fees::required_chains(swap_type, pair)[i],
                )
        },
{
    let chains = fees::required_chains(swap_type, pair);
    assert(chains[0] == pair.from || chains[0] == pair.to);
    assert(chains[chains.len() - 1] == pair.from || chains[chains.len() - 1] == pair.to);
}

/// The network fee can be calculated exactly where there is a rate for each required
/// chain.
pub proof fn law_required_rates_suffice(
    swap_type: SwapType,
    pair: SwapPair,
    rates: Map<Chain, Binary64>,
    include_claim: bool,
)
    ensures
        fees::network_fee_outcome(swap_type, pair, rates, include_claim) is Ok <==> forall|i: int|
            0 <= i < fees::required_chains(swap_type, pair).len() ==> rates.contains_key(
                #[trigger] fees::required_chains(swap_type, pair)[i],
            ),
{
    lemma_missing_chain(swap_type, pair, rates);
}

/// Whether two collections of rates agree on some chains.
pub open spec fn rates_agree(
    chains: Seq<Chain>,
    rates: Map<Chain, Binary64>,
    others: Map<Chain, Binary64>,
) -> bool {
    forall|i: int|
        #![trigger chains[i]]
        0 <= i < chains.len() ==> {
            &&& rates.contains_key(chains[i]) == others.contains_key(chains[i])
            &&& rates[chains[i]] == others[chains[i]]
        }
}

/// Neither the network fee nor the check of the amounts depends on any rate but the
/// required ones.
pub proof fn law_only_required_rates_matter(
    swap_type: SwapType,
    pair: SwapPair,
    send_amount: u64,
    receive_amount: u64,
    service_fee_percent: Binary64,
    rates: Map<Chain, Binary64>,
    others: Map<Chain, Binary64>,
    include_claim: bool,
)
    requires
        rates_agree(fees::required_chains(swap_type, pair), rates, others),
    ensures
        fees::network_fee_outcome(swap_type, pair, rates, include_claim)
            == fees::network_fee_outcome(swap_type, pair, others, include_claim),
        fees::amounts_outcome(
            swap_type,
            pair,
            send_amount,
            receive_amount,
            service_fee_percent,
            rates,
            include_claim,
        ) == fees::amounts_outcome(
            swap_type,
            pair,
            send_amount,
            receive_amount,
            service_fee_percent,
            others,
            include_claim,
        ),
{
    let chains = fees::required_chains(swap_type, pair);
    assert(chains[0] == pair.from || chains[0] == pair.to);
    assert(chains[chains.len() - 1] == pair.from || chains[chains.len() - 1] == pair.to);
}

/// A percentage does not decrease where the percentage or the value grows.
pub proof fn law_percentage_is_monotone(
    percentage: Binary64,
    higher: Binary64,
    value: u64,
    larger: u64,
)
    requires
        !percentage.negative(),
        !higher.negative(),
        !higher.nan(),
        percentage.magnitude() <= higher.magnitude(),
        value <= larger,
    ensures
        fees::percentage_of(percentage, value) <= fees::percentage_of(higher, larger),
{
    binary64::lemma_over_hundred_monotone(percentage, higher);
    binary64::lemma_times_commutes(
        percentage.over_hundred(),
        binary64::from_integer(value as nat),
    );
    binary64::lemma_times_commutes(higher.over_hundred(), binary64::from_integer(larger as nat));
    binary64::lemma_ceiling_of_product_monotone(
        value as nat,
        larger as nat,
        percentage.over_hundred(),
        higher.over_hundred(),
    );
}

/// A percentage of a value up to 2^53 is at most one off from the exact part, for parts
/// up to 2^51: it is not below the exact part rounded down, and not more than one above
/// the exact part rounded up.
pub proof fn law_percentage_is_close(percentage: Binary64, value: u64)
    requires
        !percentage.nan(),
        !percentage.infinite(),
        !percentage.negative(),
        value <= 0x20_0000_0000_0000,
        rounding::units(percentage.magnitude()) * value <= 100 * 0x8_0000_0000_0000 * pow2(1074),
    ensures
        ({
            let exact = rounding::units(percentage.magnitude()) * value;
            let whole = 100 * pow2(1074);
            let part = fees::percentage_of(percentage, value);
            exact / whole as int <= part <= (exact + whole - 1) / whole as int + 1
        }),
{
    let (p, v) = (pow2(1074), value as nat);
    let u = rounding::units(percentage.magnitude());
    let exact = u * v;
    lemma2_to64();
    lemma_pow2_strictly_increases(64, 1074);
    // The hundredth part.
    let x = percentage.over_hundred();
    let i = rounding::round_nearest(u, 100);
    rounding::lemma_round_nearest_exact(percentage.magnitude(), u, 1);
    rounding::lemma_round_nearest_monotone(u, 100, u, 1);
    binary64::lemma_signed(false, i);
    rounding::lemma_round_nearest_error(u, 100);
    let xu = rounding::units(i);
    let a = pow2(rounding::exponent(i));
    assert(99 * xu <= u + 50);
    assert(99 * (xu * v) <= exact + 50 * v) by (nonlinear_arith)
        requires
            99 * xu <= u + 50,
            exact == u * v,
    ;
    assert(exact <= 100 * 0x8_0000_0000_0000 * p);
    assert(p > 0x1_0000_0000_0000_0000);
    let z = xu * v;
    assert(z <= 0x9_0000_0000_0000 * p) by (nonlinear_arith)
        requires
            99 * z <= exact + 50 * v,
            exact <= 100 * 0x8_0000_0000_0000 * p,
            v <= 0x20_0000_0000_0000,
            p > 0x1_0000_0000_0000_0000,
    ;
    // The product.
    let y = binary64::from_integer(v);
    binary64::lemma_from_integer(v);
    binary64::lemma_from_integer_exact(v);
    let n = xu * rounding::units(y.magnitude());
    assert(n * 1 == (xu * v) * p) by (nonlinear_arith)
        requires
            n == xu * (v * p),
    ;
    rounding::lemma_round_nearest_ratio(n, p, xu * v, 1);
    let j = rounding::round_nearest(xu * v, 1);
    let c = binary64::lemma_representable(0x10_0000_0000_0000, 1074);
    rounding::lemma_round_nearest_exact(c, 0x10_0000_0000_0000 * p, 1);
    rounding::lemma_round_nearest_monotone(xu * v, 1, 0x10_0000_0000_0000 * p, 1);
    binary64::lemma_signed(false, j);
    rounding::lemma_round_nearest_error(xu * v, 1);
    let yu = rounding::units(j);
    let b = pow2(rounding::exponent(j));
    if j < c {
        rounding::lemma_units_increase(j, c);
    }
    assert(yu <= 0x10_0000_0000_0000 * p);
    // Both errors together.
    assert(v * (100 * xu) <= exact + 50 * (v * a) && exact <= v * (100 * xu) + 50 * (v * a))
        by (nonlinear_arith)
        requires
            exact == u * v,
            2 * u <= (2 * xu + a) * 100,
            2 * xu * 100 <= 2 * u + a * 100,
    ;
    assert(v * (100 * xu) == 100 * (xu * v)) by (nonlinear_arith);
    assert((v * a) * 0x10_0000_0000_0000 <= xu * v + v * 0x10_0000_0000_0000) by (nonlinear_arith)
        requires
            a * 0x10_0000_0000_0000 <= xu + 0x10_0000_0000_0000,
    ;
    assert(50 * b + 50 * (v * a) < 100 * p);
    assert(100 * yu < exact + 100 * p && exact < 100 * yu + 100 * p);
    // Rounding up.
    let part = fees::percentage_of(percentage, value);
    assert(yu <= u64::MAX * p);
    binary64::lemma_ceiling_bounds(x.times(y));
    let whole = 100 * p;
    let low = exact / whole;
    let high = (exact + whole - 1) / whole as int;
    lemma_fundamental_div_mod(exact as int, whole as int);
    lemma_mod_bound(exact as int, whole as int);
    lemma_fundamental_div_mod(exact + whole - 1, whole as int);
    lemma_mod_bound(exact + whole - 1, whole as int);
    assert(low <= part) by (nonlinear_arith)
        requires
            (100 * p) * low <= exact,
            exact < 100 * yu + 100 * p,
            yu <= part * p,
            p > 0,
    ;
    assert(part <= high + 1) by (nonlinear_arith)
        requires
            exact + 100 * p - 1 < (100 * p) * high + 100 * p,
            100 * yu < exact + 100 * p,
            part * p < yu + p,
            p > 0,
    ;
}

/// The tolerance does not decrease where the expected fee grows.
pub proof fn law_tolerance_is_monotone(expected: u64, larger: u64)
    requires
        expected <= larger,
    ensures
        fees::tolerance_of(expected) <= fees::tolerance_of(larger),
{
    let percent = binary64::from_integer(fees::RELATIVE_FEE_TOLERANCE_PERCENT as nat);
    binary64::lemma_from_integer(fees::RELATIVE_FEE_TOLERANCE_PERCENT as nat);
    law_percentage_is_monotone(percent, percent, expected, larger);
}

/// A hundredth part of 25 is represented exactly.
proof fn lemma_quarter()
    ensures
        !binary64::from_integer(25).over_hundred().negative(),
        binary64::from_integer(25).over_hundred().magnitude() < 0x7ff0_0000_0000_0000,
        rounding::units(binary64::from_integer(25).over_hundred().magnitude()) == pow2(1072),
        pow2(1074) == 4 * pow2(1072),
{
    lemma_pow2_unfold(1074);
    lemma_pow2_unfold(1073);
    binary64::lemma_from_integer(25);
    binary64::lemma_from_integer_exact(25);
    let b = binary64::lemma_representable(1, 1072);
    rounding::lemma_round_nearest_exact(b, 25 * pow2(1074), 100);
    binary64::lemma_signed(false, b);
}

/// Up to an expected fee of 2^53 the tolerance is a quarter of it, rounded up, or 1500
/// satoshis, whichever is greater.
pub proof fn law_tolerance_is_a_quarter(expected: u64)
    requires
        expected <= 0x20_0000_0000_0000,
    ensures
        fees::tolerance_of(expected) == if (expected + 3) / 4 > 1500 {
            (expected + 3) / 4
        } else {
            1500
        },
{
    let v = expected as nat;
    let (p, q) = (pow2(1074), pow2(1072));
    let x = binary64::from_integer(25).over_hundred();
    let y = binary64::from_integer(v);
    lemma_quarter();
    lemma_pow2_pos(1072);
    binary64::lemma_from_integer(v);
    binary64::lemma_from_integer_exact(v);
    let c = binary64::lemma_representable(v, 1072);
    let n = rounding::units(x.magnitude()) * rounding::units(y.magnitude());
    assert(n == (v * q) * p) by (nonlinear_arith)
        requires
            n == q * (v * p),
    ;
    rounding::lemma_round_nearest_exact(c, n, p);
    binary64::lemma_signed(false, c);
    binary64::lemma_scaled_ceiling(v, 4, q);
}

/// A fee that does not exceed the expected one by more than 1500 satoshis is within
/// tolerance, and so is every smaller fee than one that is.
pub proof fn law_tolerated_fees(expected: u64, actual: u64, smaller: u64)
    requires
        smaller <= actual,
    ensures
        actual <= expected + 1500 ==> fees::tolerance_outcome(expected, actual) is Ok,
        fees::tolerance_outcome(expected, actual) is Ok ==> fees::tolerance_outcome(
            expected,
            smaller,
        ) is Ok,
{
}

/// Amounts that differ by exactly the service fee and the network fee are accepted.
pub proof fn law_exact_amounts_are_accepted(
    swap_type: SwapType,
    pair: SwapPair,
    send_amount: u64,
    receive_amount: u64,
    service_fee_percent: Binary64,
    rates: Map<Chain, Binary64>,
    include_claim: bool,
)
    requires
        fees::missing_chain(swap_type, pair, rates) is None,
        send_amount == receive_amount + fees::service_fee(
            swap_type,
            send_amount,
            receive_amount,
            service_fee_percent,
        ) + fees::network_fee(swap_type, pair, rates, include_claim),
    ensures
        fees::amounts_outcome(
            swap_type,
            pair,
            send_amount,
            receive_amount,
            service_fee_percent,
            rates,
            include_claim,
        ) is Ok,
{
}

/// Amounts are accepted exactly where all rates are known, no more is received than sent
/// and what is left of the difference after the service fee lies between zero and the
/// greatest tolerated network fee.
pub proof fn law_accepted_amounts(
    swap_type: SwapType,
    pair: SwapPair,
    send_amount: u64,
    receive_amount: u64,
    service_fee_percent: Binary64,
    rates: Map<Chain, Binary64>,
    include_claim: bool,
)
    requires
        fees::fee_in_range(swap_type, pair, rates, include_claim),
    ensures
        fees::amounts_outcome(
            swap_type,
            pair,
            send_amount,
            receive_amount,
            service_fee_percent,
            rates,
            include_claim,
        ) is Ok <==> {
            let paid = fees::paid_network_fee(
                swap_type,
                send_amount,
                receive_amount,
                service_fee_percent,
            );
            let expected = fees::network_fee(swap_type, pair, rates, include_claim);
            &&& forall|i: int|
                0 <= i < fees::required_chains(swap_type, pair).len() ==> rates.contains_key(
                    #[trigger] fees::required_chains(swap_type, pair)[i],
                )
            &&& receive_amount <= send_amount
            &&& 0 <= paid <= expected + fees::tolerance_of(expected as u64)
        },
{
    lemma_missing_chain(swap_type, pair, rates);
}

/// Where the service fee is taken on the sent amount, an accepted offer stays accepted if
/// more is received, as long as the service fee is still covered.
pub proof fn law_better_offers_are_accepted(
    swap_type: SwapType,
    pair: SwapPair,
    send_amount: u64,
    receive_amount: u64,
    more: u64,
    service_fee_percent: Binary64,
    rates: Map<Chain, Binary64>,
    include_claim: bool,
)
    requires
        swap_type != SwapType::Submarine,
        receive_amount <= more,
        more + fees::service_fee(swap_type, send_amount, more, service_fee_percent) <= send_amount,
        fees::amounts_outcome(
            swap_type,
            pair,
            send_amount,
            receive_amount,
            service_fee_percent,
            rates,
            include_claim,
        ) is Ok,
    ensures
        fees::amounts_outcome(
            swap_type,
            pair,
            send_amount,
            more,
            service_fee_percent,
            rates,
            include_claim,
        ) is Ok,
{
}

/// Where the service fee is taken on the received amount, an accepted offer stays accepted
/// if less is sent, as long as the received amount and the service fee are still covered.
pub proof fn law_better_submarine_offers_are_accepted(
    pair: SwapPair,
    send_amount: u64,
    less: u64,
    receive_amount: u64,
    service_fee_percent: Binary64,
    rates: Map<Chain, Binary64>,
    include_claim: bool,
)
    requires
        less <= send_amount,
        receive_amount + fees::service_fee(
            SwapType::Submarine,
            less,
            receive_amount,
            service_fee_percent,
        ) <= less,
        fees::amounts_outcome(
            SwapType::Submarine,
            pair,
            send_amount,
            receive_amount,
            service_fee_percent,
            rates,
            include_claim,
        ) is Ok,
    ensures
        fees::amounts_outcome(
            SwapType::Submarine,
            pair,
            less,
            receive_amount,
            service_fee_percent,
            rates,
            include_claim,
        ) is Ok,
{
}

/// A fee is hardly ever below the exact product of size and rate: at most by 2^-53 of the
/// fee or half a unit of 2^-1074 satoshis.
pub proof fn law_fee_does_not_underestimate(size: u64, rate: Binary64)
    requires
        !rate.nan(),
        !rate.infinite(),
        !rate.negative(),
        size <= 0x20_0000_0000_0000,
        size * rounding::units(rate.magnitude()) <= 0x20_0000_0000_0000 * pow2(1074),
    ensures
        ({
            let exact = size * rounding::units(rate.magnitude());
            let fee = fees::fee_at_rate(size, rate) * pow2(1074);
            0x20_0000_0000_0000 * (exact - fee) <= fee + 0x10_0000_0000_0000
        }),
{
    let p = pow2(1074);
    let u = rounding::units(rate.magnitude());
    let exact = (size * u) as nat;
    let x = binary64::from_integer(size as nat);
    lemma_pow2_pos(1074);
    binary64::lemma_from_integer(size as nat);
    binary64::lemma_from_integer_exact(size as nat);
    let n = rounding::units(x.magnitude()) * u;
    assert(n * 1 == exact * p) by (nonlinear_arith)
        requires
            n == (size * p) * u,
            exact == size * u,
    ;
    rounding::lemma_round_nearest_ratio(n, p, exact, 1);
    let c = binary64::lemma_representable(0x20_0000_0000_0000, 1074);
    rounding::lemma_round_nearest_exact(c, 0x20_0000_0000_0000 * p, 1);
    rounding::lemma_round_nearest_monotone(exact, 1, 0x20_0000_0000_0000 * p, 1);
    let j = rounding::round_nearest(exact, 1);
    if j < c {
        rounding::lemma_units_increase(j, c);
    }
    binary64::lemma_signed(false, j);
    rounding::lemma_round_nearest_error(exact, 1);
    binary64::lemma_ceiling_bounds(x.times(rate));
}

/// The network fee of a submarine swap is the product, rounded up, of the claim size on
/// the chain it comes from, 151 virtual bytes on Bitcoin and 1337 on Liquid, and of the
/// rate there.
pub proof fn law_submarine_fee(
    pair: SwapPair,
    rates: Map<Chain, Binary64>,
    include_claim: bool,
)
    requires
        rates.contains_key(pair.from),
    ensures
        ({
            let outcome = fees::network_fee_outcome(SwapType::Submarine, pair, rates, include_claim);
            let (size, rate) = (if pair.from is Bitcoin { 151nat } else { 1337 }, rates[pair.from]);
            let (exact, p) = (size * rounding::units(rate.magnitude()), pow2(1074));
            let sane = !rate.nan() && !rate.infinite() && !rate.negative() && exact
                <= 0x20_0000_0000_0000 * p;
            &&& outcome matches Ok(fee)
            &&& fee == binary64::from_integer(size).times(rate).ceiling()
            &&& rate.nan() || rate.negative() ==> fee == 0
            &&& sane ==> exact / p <= fee <= (exact + p - 1) / p as int
            &&& sane ==> 0x20_0000_0000_0000 * (exact - fee * p) <= fee * p + 0x10_0000_0000_0000
        }),
{
    let size: u64 = if pair.from is Bitcoin { 151 } else { 1337 };
    let rate = rates[pair.from];
    if rate.nan() || rate.negative() {
        law_bad_rates_cost_nothing(size, rate);
    } else if !rate.infinite() && size * rounding::units(rate.magnitude()) <= 0x20_0000_0000_0000
        * pow2(1074) {
        law_fee_is_next_to_exact_product(size, rate);
        law_fee_does_not_underestimate(size, rate);
    }
}

/// The network fee of a reverse swap is the product, rounded up, of the lockup size on the
/// chain it goes to, 154 virtual bytes on Bitcoin and 2503 on Liquid, and of the rate
/// there. The claim adds 111 virtual bytes on Bitcoin and 1309 on Liquid.
pub proof fn law_reverse_fee(
    pair: SwapPair,
    rates: Map<Chain, Binary64>,
    include_claim: bool,
)
    requires
        rates.contains_key(pair.to),
    ensures
        ({
            let outcome = fees::network_fee_outcome(
                SwapType::ReverseSubmarine,
                pair,
                rates,
                include_claim,
            );
            let lockup = if pair.to is Bitcoin { 154nat } else { 2503 };
            let claim = if !include_claim { 0nat } else if pair.to is Bitcoin { 111 } else { 1309 };
            let (size, rate) = (lockup + claim, rates[pair.to]);
            let (exact, p) = (size * rounding::units(rate.magnitude()), pow2(1074));
            let sane = !rate.nan() && !rate.infinite() && !rate.negative() && exact
                <= 0x20_0000_0000_0000 * p;
            &&& outcome matches Ok(fee)
            &&& fee == binary64::from_integer(size).times(rate).ceiling()
            &&& rate.nan() || rate.negative() ==> fee == 0
            &&& sane ==> exact / p <= fee <= (exact + p - 1) / p as int
            &&& sane ==> 0x20_0000_0000_0000 * (exact - fee * p) <= fee * p + 0x10_0000_0000_0000
        }),
{
    let lockup: u64 = if pair.to is Bitcoin { 154 } else { 2503 };
    let claim: u64 = if !include_claim { 0 } else if pair.to is Bitcoin { 111 } else { 1309 };
    let size = (lockup + claim) as u64;
    let rate = rates[pair.to];
    if rate.nan() || rate.negative() {
        law_bad_rates_cost_nothing(size, rate);
    } else if !rate.infinite() && size * rounding::units(rate.magnitude()) <= 0x20_0000_0000_0000
        * pow2(1074) {
        law_fee_is_next_to_exact_product(size, rate);
        law_fee_does_not_underestimate(size, rate);
    }
}

/// At a whole rate of `r` satoshis per virtual byte, the network fee of a submarine swap is
/// 151 times `r` from Bitcoin and 1337 times `r` from Liquid, up to 2^53.
pub proof fn law_submarine_fee_at_whole_rates(
    pair: SwapPair,
    rates: Map<Chain, Binary64>,
    include_claim: bool,
    r: nat,
)
    requires
        rates.contains_key(pair.from),
        !rates[pair.from].nan(),
        !rates[pair.from].infinite(),
        !rates[pair.from].negative(),
        rounding::units(rates[pair.from].magnitude()) == r * pow2(1074),
        (if pair.from is Bitcoin { 151 * r } else { 1337 * r }) <= 0x20_0000_0000_0000,
    ensures
        fees::network_fee_outcome(SwapType::Submarine, pair, rates, include_claim) == Ok::<
            nat,
            ErrorView,
        >(if pair.from is Bitcoin { 151 * r } else { 1337 * r }),
{
    let size: u64 = if pair.from is Bitcoin { 151 } else { 1337 };
    law_whole_rates_are_exact(size, rates[pair.from], r);
}

/// At a whole rate of `r` satoshis per virtual byte, the network fee of a reverse swap is
/// 154 times `r` to Bitcoin and 2503 times `r` to Liquid, and with the claim 265 times and
/// 3812 times `r`, up to 2^53.
pub proof fn law_reverse_fee_at_whole_rates(
    pair: SwapPair,
    rates: Map<Chain, Binary64>,
    r: nat,
)
    requires
        rates.contains_key(pair.to),
        !rates[pair.to].nan(),
        !rates[pair.to].infinite(),
        !rates[pair.to].negative(),
        rounding::units(rates[pair.to].magnitude()) == r * pow2(1074),
        (if pair.to is Bitcoin { 265 * r } else { 3812 * r }) <= 0x20_0000_0000_0000,
    ensures
        fees::network_fee_outcome(SwapType::ReverseSubmarine, pair, rates, false) == Ok::<
            nat,
            ErrorView,
        >(if pair.to is Bitcoin { 154 * r } else { 2503 * r }),
        fees::network_fee_outcome(SwapType::ReverseSubmarine, pair, rates, true) == Ok::<
            nat,
            ErrorView,
        >(if pair.to is Bitcoin { 265 * r } else { 3812 * r }),
{
    let lockup: u64 = if pair.to is Bitcoin { 154 } else { 2503 };
    let both: u64 = if pair.to is Bitcoin { 265 } else { 3812 };
    law_whole_rates_are_exact(lockup, rates[pair.to], r);
    law_whole_rates_are_exact(both, rates[pair.to], r);
}

/// What a chain swap pays is what a submarine and a reverse swap of the same pair at the
/// same rates pay together. Where one of them lacks a rate, so does the chain swap.
pub proof fn law_chain_fee_is_the_sum(
    pair: SwapPair,
    rates: Map<Chain, Binary64>,
    include_claim: bool,
)
    ensures
        ({
            let sent = fees::network_fee_outcome(SwapType::Submarine, pair, rates, include_claim);
            let received = fees::network_fee_outcome(
                SwapType::ReverseSubmarine,
                pair,
                rates,
                include_claim,
            );
            fees::network_fee_outcome(SwapType::Chain, pair, rates, include_claim) == match (
                sent,
                received,
            ) {
                (Ok(a), Ok(b)) => Ok::<nat, ErrorView>(a + b),
                (Err(e), _) => Err::<nat, ErrorView>(e),
                (_, Err(e)) => Err::<nat, ErrorView>(e),
            }
        }),
{
}

/// The first chain of a swap without a rate is what both the network fee and the check of
/// the amounts report.
pub proof fn law_missing_rates_are_reported(
    swap_type: SwapType,
    pair: SwapPair,
    send_amount: u64,
    receive_amount: u64,
    service_fee_percent: Binary64,
    rates: Map<Chain, Binary64>,
    include_claim: bool,
)
    ensures
        ({
            let fee = fees::network_fee_outcome(swap_type, pair, rates, include_claim);
            let check = fees::amounts_outcome(
                swap_type,
                pair,
                send_amount,
                receive_amount,
                service_fee_percent,
                rates,
                include_claim,
            );
            let no_from = swap_type != SwapType::ReverseSubmarine && !rates.contains_key(pair.from);
            let no_to = swap_type != SwapType::Submarine && !rates.contains_key(pair.to);
            let chain = if no_from { pair.from } else { pair.to };
            &&& fee is Err <==> no_from || no_to
            &&& no_from || no_to ==> fee == Err::<nat, ErrorView>(
                ErrorView::Generic("No fee estimation for chain "@ + chain.name()),
            ) && check == Err::<(), ErrorView>(
                ErrorView::Generic("No estimation for chain "@ + chain.name()),
            )
        }),
{
}

/// The only fee that cannot be calculated is that of a chain swap whose sides add up to
/// more than a `u64`, and the only amounts that cannot be checked are those of such a swap.
pub proof fn law_ranges(
    swap_type: SwapType,
    pair: SwapPair,
    send_amount: u64,
    receive_amount: u64,
    service_fee_percent: Binary64,
    rates: Map<Chain, Binary64>,
    include_claim: bool,
)
    ensures
        ({
            let sent = fees::network_fee_outcome(SwapType::Submarine, pair, rates, include_claim);
            let received = fees::network_fee_outcome(
                SwapType::ReverseSubmarine,
                pair,
                rates,
                include_claim,
            );
            let too_much = swap_type == SwapType::Chain && match (sent, received) {
                (Ok(a), Ok(b)) => a + b > u64::MAX,
                _ => false,
            };
            &&& fees::fee_in_range(swap_type, pair, rates, include_claim) <==> !too_much
            &&& !fees::amounts_in_range(
                swap_type,
                pair,
                send_amount,
                receive_amount,
                service_fee_percent,
                rates,
                include_claim,
            ) ==> too_much && receive_amount <= send_amount
        }),
{
}

/// Up to an expected fee of 2^53 an actual fee is within tolerance exactly where it does
/// not exceed the expected one by more than a quarter, rounded up, or 1500 satoshis,
/// whichever is greater.
pub proof fn law_tolerated_up_to_a_quarter(expected: u64, actual: u64)
    requires
        expected <= 0x20_0000_0000_0000,
    ensures
        fees::tolerance_outcome(expected, actual) is Ok <==> actual <= expected + 1500 || actual
            <= expected + (expected + 3) / 4,
        fees::tolerance_outcome(expected, actual) matches Err(e) ==> e is Protocol,
{
    law_tolerance_is_a_quarter(expected);
}

/// Whatever the expected fee, four times its tolerance is off from it by no more than what
/// the conversion to binary64 and rounding up leave, unless the tolerance is 1500.
pub proof fn law_tolerance_is_about_a_quarter(expected: u64)
    ensures
        fees::tolerance_of(expected) >= 1500,
        4 * fees::tolerance_of(expected) >= expected - 2048,
        fees::tolerance_of(expected) > 1500 ==> 4 * fees::tolerance_of(expected) <= expected + 2052,
{
    let (p, q, v) = (pow2(1074), pow2(1072), expected as nat);
    let x = binary64::from_integer(25).over_hundred();
    let y = binary64::from_integer(v);
    let m = y.magnitude();
    let yu = rounding::units(m);
    let w = 0x1_0000_0000_0000_0000nat;
    lemma_quarter();
    lemma2_to64();
    lemma_pow2_pos(1072);
    lemma_pow2_strictly_increases(64, 1072);
    lemma_pow2_adds(64, 1074);
    if v <= 0x20_0000_0000_0000 {
        law_tolerance_is_a_quarter(expected);
    } else {
        // The conversion.
        binary64::lemma_from_integer(v);
        rounding::lemma_round_nearest_error(v * p, 1);
        let step = pow2(rounding::exponent(m));
        let low = binary64::lemma_representable(1, 1074);
        let high = binary64::lemma_representable(1, 1138);
        rounding::lemma_round_nearest_exact(low, p, 1);
        rounding::lemma_round_nearest_exact(high, w * p, 1);
        assert(p <= v * p <= w * p) by (nonlinear_arith)
            requires
                1 <= v <= w,
        ;
        rounding::lemma_round_nearest_monotone(v * p, 1, w * p, 1);
        rounding::lemma_round_nearest_monotone(p, 1, v * p, 1);
        if m < high {
            rounding::lemma_units_increase(m, high);
        }
        if low < m {
            rounding::lemma_units_increase(low, m);
        }
        assert(p <= yu <= w * p);
        assert(step <= 0x1000 * p + 1) by (nonlinear_arith)
            requires
                step * 0x10_0000_0000_0000 <= yu + 0x10_0000_0000_0000,
                yu <= w * p,
                w == 0x1_0000_0000_0000_0000,
        ;
        // A quarter of the result is represented exactly.
        let (f, e) = (rounding::significand(m), rounding::exponent(m));
        if e < 2 {
            assert(f * step <= 2 * f) by (nonlinear_arith)
                requires
                    step <= 2,
            ;
        }
        let h = pow2((e - 2) as nat);
        lemma_pow2_unfold(e);
        lemma_pow2_unfold((e - 1) as nat);
        assert(f * (4 * h) == 4 * (f * h)) by (nonlinear_arith);
        let j = binary64::lemma_representable(f, (e - 2) as nat);
        let z = rounding::units(j);
        assert(yu == z * 4);
        let n = q * yu;
        assert(n == z * p) by (nonlinear_arith)
            requires
                n == q * yu,
                yu == z * 4,
                p == 4 * q,
        ;
        rounding::lemma_round_nearest_exact(j, n, p);
        binary64::lemma_signed(false, j);
        // Rounding up.
        assert(z <= u64::MAX * p);
        binary64::lemma_ceiling_bounds(x.times(y));
        let part = x.times(y).ceiling();
        assert(v - 2048 <= 4 * part <= v + 2052) by (nonlinear_arith)
            requires
                z <= part * p < z + p,
                yu == z * 4,
                2 * (v * p) <= 2 * yu + step,
                2 * yu <= 2 * (v * p) + step,
                step <= 0x1000 * p + 1,
                p > 1,
        ;
    }
}

/// For reverse and chain swaps the service fee is a percentage of the sent amount, for
/// submarine swaps of the received one: what the amounts differ by beyond the network fee
/// paid is at most one off from the exact part of that amount.
pub proof fn law_service_fee(
    swap_type: SwapType,
    send_amount: u64,
    receive_amount: u64,
    service_fee_percent: Binary64,
)
    requires
        !service_fee_percent.nan(),
        !service_fee_percent.infinite(),
        !service_fee_percent.negative(),
        ({
            let base = if swap_type == SwapType::Submarine { receive_amount } else { send_amount };
            &&& base <= 0x20_0000_0000_0000
            &&& rounding::units(service_fee_percent.magnitude()) * base <= 100 * 0x8_0000_0000_0000
                * pow2(1074)
        }),
    ensures
        ({
            let base = if swap_type == SwapType::Submarine { receive_amount } else { send_amount };
            let exact = rounding::units(service_fee_percent.magnitude()) * base;
            let whole = 100 * pow2(1074);
            let service = send_amount - receive_amount - fees::paid_network_fee(
                swap_type,
                send_amount,
                receive_amount,
                service_fee_percent,
            );
            exact / whole as int <= service <= (exact + whole - 1) / whole as int + 1
        }),
{
    let base = if swap_type == SwapType::Submarine { receive_amount } else { send_amount };
    law_percentage_is_close(service_fee_percent, base);
}

/// Amounts are accepted where they differ by the service fee, a percentage of the received
/// amount for submarine swaps and of the sent amount for the others, and by a network fee
/// between nothing and a quarter or 1500 satoshis above the calculated one. They are not
/// where they differ by less or by more, up to the one satoshi that rounding leaves open.
pub proof fn law_amounts_in_exact_terms(
    swap_type: SwapType,
    pair: SwapPair,
    send_amount: u64,
    receive_amount: u64,
    service_fee_percent: Binary64,
    rates: Map<Chain, Binary64>,
    include_claim: bool,
    fee: nat,
)
    requires
        fees::network_fee_outcome(swap_type, pair, rates, include_claim) == Ok::<nat, ErrorView>(
            fee,
        ),
        fee <= 0x20_0000_0000_0000,
        !service_fee_percent.nan(),
        !service_fee_percent.infinite(),
        !service_fee_percent.negative(),
        ({
            let base = if swap_type == SwapType::Submarine { receive_amount } else { send_amount };
            &&& base <= 0x20_0000_0000_0000
            &&& rounding::units(service_fee_percent.magnitude()) * base <= 100 * 0x8_0000_0000_0000
                * pow2(1074)
        }),
    ensures
        ({
            let base = if swap_type == SwapType::Submarine { receive_amount } else { send_amount };
            let exact = rounding::units(service_fee_percent.magnitude()) * base;
            let whole = 100 * pow2(1074);
            let least = exact / whole as int;
            let most = (exact + whole - 1) / whole as int + 1;
            let tolerance = if (fee + 3) / 4 > 1500 { (fee + 3) / 4 } else { 1500 };
            let difference = send_amount - receive_amount;
            let accepted = fees::amounts_outcome(
                swap_type,
                pair,
                send_amount,
                receive_amount,
                service_fee_percent,
                rates,
                include_claim,
            ) is Ok;
            &&& accepted ==> least <= difference <= most + fee + tolerance
            &&& most <= difference <= least + fee + tolerance ==> accepted
        }),
{
    let base = if swap_type == SwapType::Submarine { receive_amount } else { send_amount };
    law_percentage_is_close(service_fee_percent, base);
    law_tolerance_is_a_quarter(fee as u64);
    let whole = 100 * pow2(1074);
    lemma_pow2_pos(1074);
    let exact = rounding::units(service_fee_percent.magnitude()) * base;
    assert(exact >= 0) by (nonlinear_arith)
        requires
            exact == rounding::units(service_fee_percent.magnitude()) * base,
    ;
    lemma_div_pos_is_pos(exact, whole as int);
    lemma_div_pos_is_pos(exact + whole - 1, whole as int);
}

/// A percentage that is negative or not a number is a part of nothing.
pub proof fn law_bad_percentages_are_nothing(percentage: Binary64, value: u64)
    requires
        percentage.nan() || percentage.negative(),
    ensures
        fees::percentage_of(percentage, value) == 0,
{
    let u = rounding::units(percentage.magnitude());
    rounding::lemma_round_nearest(u, 100);
    binary64::lemma_signed(false, 0x7ff8_0000_0000_0000);
    binary64::lemma_signed(percentage.negative(), rounding::round_nearest(u, 100));
    binary64::lemma_times_commutes(
        percentage.over_hundred(),
        binary64::from_integer(value as nat),
    );
    binary64::lemma_ceiling_of_bad_product(value as nat, percentage.over_hundred());
}

/// Where all rates are known, amounts are refused with one message where more is received
/// than sent and with another where their difference does not cover the service fee. A
/// refusal for any other reason tells what network fee was paid, what fee was expected and
/// the tolerance, in decimal notation.
pub proof fn law_refusals_tell_why(
    swap_type: SwapType,
    pair: SwapPair,
    send_amount: u64,
    receive_amount: u64,
    service_fee_percent: Binary64,
    rates: Map<Chain, Binary64>,
    include_claim: bool,
    fee: u64,
)
    requires
        fees::network_fee_outcome(swap_type, pair, rates, include_claim) == Ok::<nat, ErrorView>(
            fee as nat,
        ),
    ensures
        ({
            let outcome = fees::amounts_outcome(
                swap_type,
                pair,
                send_amount,
                receive_amount,
                service_fee_percent,
                rates,
                include_claim,
            );
            let paid = fees::paid_network_fee(
                swap_type,
                send_amount,
                receive_amount,
                service_fee_percent,
            );
            &&& receive_amount > send_amount ==> outcome == Err::<(), ErrorView>(
                ErrorView::Generic("Receive amount exceeds send amount"@),
            )
            &&& receive_amount <= send_amount && paid < 0 ==> outcome == Err::<(), ErrorView>(
                ErrorView::Generic("Service fee exceeds total fees"@),
            )
            &&& receive_amount <= send_amount && paid >= 0 && outcome is Err ==> outcome == Err::<
                (),
                ErrorView,
            >(
                ErrorView::Protocol(
                    "Onchain fee way above expectation: "@ + text::decimal(paid as nat) + " > "@
                        + text::decimal(fee as nat) + " + "@ + text::decimal(
                        fees::tolerance_of(fee) as nat,
                    ),
                ),
            )
        }),
{
}

} // verus!
