//! The fee rules of swaps.
use crate::binary64;
use crate::binary64::Binary64;
use crate::error::{Error, ErrorView};
use crate::network::Chain;
use crate::swaps::boltz::SwapType;
use crate::swaps::estimations::FeeEstimations;
use crate::text;
use vstd::prelude::*;
use vstd::string::*;

verus! {

/// Transaction sizes in virtual bytes for different swap operations.
#[derive(Clone, Copy, Debug)]
pub struct TxSizes {
    /// Size of the claim transaction of a submarine swap.
    pub normal_claim: u64,
    /// Size of the lockup transaction of a reverse swap.
    pub reverse_lockup: u64,
    /// Size of the claim transaction of a reverse swap.
    pub reverse_claim: u64,
}

/// Size of the claim transaction of a submarine swap on the Bitcoin chain.
pub const BTC_NORMAL_CLAIM: u64 = 151;

/// Size of the lockup transaction of a reverse swap on the Bitcoin chain.
pub const BTC_REVERSE_LOCKUP: u64 = 154;

/// Size of the claim transaction of a reverse swap on the Bitcoin chain.
pub const BTC_REVERSE_CLAIM: u64 = 111;

/// Size of the claim transaction of a submarine swap on the Liquid chain.
pub const LIQUID_NORMAL_CLAIM: u64 = 1337;

/// Size of the lockup transaction of a reverse swap on the Liquid chain.
pub const LIQUID_REVERSE_LOCKUP: u64 = 2503;

/// Size of the claim transaction of a reverse swap on the Liquid chain.
pub const LIQUID_REVERSE_CLAIM: u64 = 1309;

/// The transaction sizes on a chain.
pub open spec fn tx_sizes(chain: Chain) -> TxSizes {
    match chain {
        Chain::Bitcoin(_) => TxSizes {
            normal_claim: BTC_NORMAL_CLAIM,
            reverse_lockup: BTC_REVERSE_LOCKUP,
            reverse_claim: BTC_REVERSE_CLAIM,
        },
        Chain::Liquid(_) => TxSizes {
            normal_claim: LIQUID_NORMAL_CLAIM,
            reverse_lockup: LIQUID_REVERSE_LOCKUP,
            reverse_claim: LIQUID_REVERSE_CLAIM,
        },
    }
}

/// Returns the transaction sizes on a chain.
pub fn get_tx_sizes(chain: Chain) -> (sizes: TxSizes)
    ensures
        sizes == tx_sizes(chain),
        chain is Bitcoin ==> sizes.normal_claim == 151 && sizes.reverse_lockup == 154
            && sizes.reverse_claim == 111,
        chain is Liquid ==> sizes.normal_claim == 1337 && sizes.reverse_lockup == 2503
            && sizes.reverse_claim == 1309,
{
    match chain {
        Chain::Bitcoin(_) => TxSizes {
            normal_claim: BTC_NORMAL_CLAIM,
            reverse_lockup: BTC_REVERSE_LOCKUP,
            reverse_claim: BTC_REVERSE_CLAIM,
        },
        Chain::Liquid(_) => TxSizes {
            normal_claim: LIQUID_NORMAL_CLAIM,
            reverse_lockup: LIQUID_REVERSE_LOCKUP,
            reverse_claim: LIQUID_REVERSE_CLAIM,
        },
    }
}

/// The two chains of a swap.
#[derive(Clone, Copy, Debug, PartialEq, Eq, Structural)]
pub struct SwapPair {
    pub from: Chain,
    pub to: Chain,
}

impl SwapPair {
    /// The pair of two chains.
    pub fn new(from: Chain, to: Chain) -> (pair: SwapPair)
        ensures
            pair == (SwapPair { from: from, to: to }),
    {
        SwapPair { from, to }
    }

    /// The pair of a swap from Lightning to a chain (a reverse swap).
    pub fn ln_to_btc(chain: Chain) -> (pair: SwapPair)
        ensures
            pair == (SwapPair { from: chain, to: chain }),
    {
        SwapPair { from: chain, to: chain }
    }

    /// The pair of a swap from a chain to Lightning (a submarine swap).
    pub fn btc_to_ln(chain: Chain) -> (pair: SwapPair)
        ensures
            pair == (SwapPair { from: chain, to: chain }),
    {
        SwapPair { from: chain, to: chain }
    }
}

/// The fee in satoshis for `size` virtual bytes at a rate: their product as a binary64
/// number, rounded up.
pub open spec fn fee_at_rate(size: u64, rate: Binary64) -> u64 {
    binary64::from_integer(size as nat).times(rate).ceiling()
}

/// The number of virtual bytes that a swap in one direction puts on chain.
pub open spec fn swap_size(swap_type: SwapType, chain: Chain, include_claim: bool) -> int {
    match swap_type {
        SwapType::Submarine => tx_sizes(chain).normal_claim as int,
        _ => if include_claim {
            tx_sizes(chain).reverse_lockup + tx_sizes(chain).reverse_claim
        } else {
            tx_sizes(chain).reverse_lockup as int
        },
    }
}

/// The network fee on the sending side of a swap.
pub open spec fn sending_fee(pair: SwapPair, rates: Map<Chain, Binary64>) -> u64 {
    fee_at_rate(swap_size(SwapType::Submarine, pair.from, false) as u64, rates[pair.from])
}

/// The network fee on the receiving side of a swap.
pub open spec fn receiving_fee(
    pair: SwapPair,
    rates: Map<Chain, Binary64>,
    include_claim: bool,
) -> u64 {
    fee_at_rate(
        swap_size(SwapType::ReverseSubmarine, pair.to, include_claim) as u64,
        rates[pair.to],
    )
}

/// The network fee of a swap for which all rates are known.
pub open spec fn network_fee(
    swap_type: SwapType,
    pair: SwapPair,
    rates: Map<Chain, Binary64>,
    include_claim: bool,
) -> nat {
    match swap_type {
        SwapType::Submarine => sending_fee(pair, rates) as nat,
        SwapType::ReverseSubmarine => receiving_fee(pair, rates, include_claim) as nat,
        SwapType::Chain => (sending_fee(pair, rates) + receiving_fee(
            pair,
            rates,
            include_claim,
        )) as nat,
    }
}

/// The chains whose rates a swap's network fee depends on.
pub open spec fn required_chains(swap_type: SwapType, pair: SwapPair) -> Seq<Chain> {
    match swap_type {
        SwapType::Submarine => seq![pair.from],
        SwapType::ReverseSubmarine => seq![pair.to],
        SwapType::Chain => if pair.from == pair.to {
            seq![pair.from]
        } else {
            seq![pair.from, pair.to]
        },
    }
}

/// The first chain without a rate that a swap's network fee depends on.
pub open spec fn missing_chain(
    swap_type: SwapType,
    pair: SwapPair,
    rates: Map<Chain, Binary64>,
) -> Option<Chain> {
    if swap_type != SwapType::ReverseSubmarine && !rates.contains_key(pair.from) {
        Some(pair.from)
    } else if swap_type != SwapType::Submarine && !rates.contains_key(pair.to) {
        Some(pair.to)
    } else {
        None
    }
}

/// What `calc_network_fee` returns.
pub open spec fn network_fee_outcome(
    swap_type: SwapType,
    pair: SwapPair,
    rates: Map<Chain, Binary64>,
    include_claim: bool,
) -> Result<nat, ErrorView> {
    match missing_chain(swap_type, pair, rates) {
        Some(chain) => Err(
            ErrorView::Generic("No fee estimation for chain "@ + chain.name()),
        ),
        None => Ok(network_fee(swap_type, pair, rates, include_claim)),
    }
}

/// Whether the network fee of a swap, if all its rates are known, is a `u64`. Only the sum
/// of the two sides of a chain swap can fail to be one.
pub open spec fn fee_in_range(
    swap_type: SwapType,
    pair: SwapPair,
    rates: Map<Chain, Binary64>,
    include_claim: bool,
) -> bool {
    missing_chain(swap_type, pair, rates) is None ==> network_fee(
        swap_type,
        pair,
        rates,
        include_claim,
    ) <= u64::MAX
}

/// The error for a chain without a rate.
fn missing_rate(prefix: &str, chain: Chain) -> (e: Error)
    ensures
        e@ == ErrorView::Generic(prefix@ + chain.name()),
{
    let mut message = prefix.to_owned();
    let name = chain.to_string();
    message.append(name.as_str());
    Error::Generic(message)
}

/// Rounds up the fee for `size` virtual bytes at a rate.
fn fee_for_size(size: u64, rate: Binary64) -> (fee: u64)
    ensures
        fee == fee_at_rate(size, rate),
{
    Binary64::from_u64(size).multiply(rate).ceil_to_u64()
}

/// Calculates the network fee of a swap in satoshis.
///
/// The sum of the two sides of a chain swap has to be a `u64`; `is_fee_in_range` tells
/// whether it is.
pub fn calc_network_fee(
    swap_type: SwapType,
    pair: SwapPair,
    estimations: &FeeEstimations,
    include_claim: bool,
) -> (r: Result<u64, Error>)
    requires
        fee_in_range(swap_type, pair, estimations@, include_claim),
    ensures
        match r {
            Ok(fee) => network_fee_outcome(swap_type, pair, estimations@, include_claim) == Ok::<
                nat,
                ErrorView,
            >(fee as nat),
            Err(e) => network_fee_outcome(swap_type, pair, estimations@, include_claim) == Err::<
                nat,
                ErrorView,
            >(e@),
        },
        ({
            let sent = binary64::from_integer(if pair.from is Bitcoin { 151 } else { 1337 }).times(
                estimations@[pair.from],
            ).ceiling();
            let received = binary64::from_integer(
                if pair.to is Bitcoin {
                    if include_claim { 265 } else { 154 }
                } else {
                    if include_claim { 3812 } else { 2503 }
                },
            ).times(estimations@[pair.to]).ceiling();
            let from_known = estimations@.contains_key(pair.from);
            let to_known = estimations@.contains_key(pair.to);
            match (swap_type, r) {
                (SwapType::Submarine, Ok(fee)) => from_known && fee == sent,
                (SwapType::ReverseSubmarine, Ok(fee)) => to_known && fee == received,
                (SwapType::Chain, Ok(fee)) => from_known && to_known && fee == sent + received,
                (_, Err(Error::Generic(m))) => {
                    ||| {
                        &&& swap_type != SwapType::ReverseSubmarine
                        &&& !from_known
                        &&& m@ == "No fee estimation for chain "@ + pair.from.name()
                    }
                    ||| {
                        &&& swap_type != SwapType::Submarine
                        &&& swap_type == SwapType::Chain ==> from_known
                        &&& !to_known
                        &&& m@ == "No fee estimation for chain "@ + pair.to.name()
                    }
                },
                (_, Err(Error::Protocol(_))) => false,
            }
        }),
    decreases (if swap_type == SwapType::Chain { 1int } else { 0 }),
{
    match swap_type {
        SwapType::Submarine => {
            match estimations.get(&pair.from) {
                Some(rate) => Ok(fee_for_size(get_tx_sizes(pair.from).normal_claim, rate)),
                None => Err(missing_rate("No fee estimation for chain ", pair.from)),
            }
        },
        SwapType::ReverseSubmarine => {
            match estimations.get(&pair.to) {
                Some(rate) => {
                    let sizes = get_tx_sizes(pair.to);
                    let size = if include_claim {
                        sizes.reverse_lockup + sizes.reverse_claim
                    } else {
                        sizes.reverse_lockup
                    };
                    Ok(fee_for_size(size, rate))
                },
                None => Err(missing_rate("No fee estimation for chain ", pair.to)),
            }
        },
        SwapType::Chain => {
            // For chain swaps, both sides pay.
            let from_fee = match calc_network_fee(
                SwapType::Submarine,
                pair,
                estimations,
                include_claim,
            ) {
                Ok(fee) => fee,
                Err(e) => return Err(e),
            };
            let to_fee = match calc_network_fee(
                SwapType::ReverseSubmarine,
                pair,
                estimations,
                include_claim,
            ) {
                Ok(fee) => fee,
                Err(e) => return Err(e),
            };
            Ok(from_fee + to_fee)
        },
    }
}

/// Tells whether `calc_network_fee` can be called.
pub fn is_fee_in_range(
    swap_type: SwapType,
    pair: SwapPair,
    estimations: &FeeEstimations,
    include_claim: bool,
) -> (b: bool)
    ensures
        b == fee_in_range(swap_type, pair, estimations@, include_claim),
        ({
            let sent = binary64::from_integer(if pair.from is Bitcoin { 151 } else { 1337 }).times(
                estimations@[pair.from],
            ).ceiling();
            let received = binary64::from_integer(
                if pair.to is Bitcoin {
                    if include_claim { 265 } else { 154 }
                } else {
                    if include_claim { 3812 } else { 2503 }
                },
            ).times(estimations@[pair.to]).ceiling();
            let from_known = estimations@.contains_key(pair.from);
            let to_known = estimations@.contains_key(pair.to);
            b <==> !(swap_type == SwapType::Chain && from_known && to_known && sent + received
                > u64::MAX)
        }),
{
    if swap_type != SwapType::Chain {
        return true;
    }
    let from_fee = calc_network_fee(SwapType::Submarine, pair, estimations, include_claim);
    let to_fee = calc_network_fee(SwapType::ReverseSubmarine, pair, estimations, include_claim);
    match (from_fee, to_fee) {
        (Ok(a), Ok(b)) => a <= u64::MAX - b,
        _ => true,
    }
}

/// Relative fee tolerance in percent.
pub const RELATIVE_FEE_TOLERANCE_PERCENT: u64 = 25;

/// Absolute fee tolerance in satoshis.
pub const ABSOLUTE_FEE_TOLERANCE_SAT: u64 = 1500;

/// A percentage of a value: the hundredth part of the percentage times the value, both
/// as binary64 numbers, rounded up.
pub open spec fn percentage_of(percentage: Binary64, value: u64) -> u64 {
    percentage.over_hundred().times(binary64::from_integer(value as nat)).ceiling()
}

/// Calculates a percentage of a value, rounded up.
pub fn calculate_percentage(percentage: Binary64, value: u64) -> (part: u64)
    ensures
        part == percentage_of(percentage, value),
        part == percentage.over_hundred().times(binary64::from_integer(value as nat)).ceiling(),
{
    percentage.divide_by_hundred().multiply(Binary64::from_u64(value)).ceil_to_u64()
}

/// How far a fee may lie above an expected one.
pub open spec fn tolerance_of(expected: u64) -> u64 {
    let relative = percentage_of(
        binary64::from_integer(RELATIVE_FEE_TOLERANCE_PERCENT as nat),
        expected,
    );
    if relative > ABSOLUTE_FEE_TOLERANCE_SAT {
        relative
    } else {
        ABSOLUTE_FEE_TOLERANCE_SAT
    }
}

/// Calculates how far a fee may lie above an expected one.
pub fn fee_tolerance(expected: u64) -> (tolerance: u64)
    ensures
        tolerance == tolerance_of(expected),
        ({
            let quarter = binary64::from_integer(25).over_hundred().times(
                binary64::from_integer(expected as nat),
            ).ceiling();
            tolerance == if quarter > 1500 {
                quarter
            } else {
                1500
            }
        }),
{
    let relative = calculate_percentage(
        Binary64::from_u64(RELATIVE_FEE_TOLERANCE_PERCENT),
        expected,
    );
    if relative > ABSOLUTE_FEE_TOLERANCE_SAT {
        relative
    } else {
        ABSOLUTE_FEE_TOLERANCE_SAT
    }
}

/// What `check_tolerance` returns.
pub open spec fn tolerance_outcome(expected: u64, actual: u64) -> Result<(), ErrorView> {
    if actual > expected + tolerance_of(expected) {
        Err(
            ErrorView::Protocol(
                "Onchain fee way above expectation: "@ + text::decimal(actual as nat) + " > "@
                    + text::decimal(expected as nat) + " + "@ + text::decimal(
                    tolerance_of(expected) as nat,
                ),
            ),
        )
    } else {
        Ok(())
    }
}

/// Checks that an actual fee is within tolerance of the expected one.
///
/// A fee below the expected one always is.
pub fn check_tolerance(expected: u64, actual: u64) -> (r: Result<(), Error>)
    ensures
        match r {
            Ok(()) => tolerance_outcome(expected, actual) is Ok,
            Err(e) => tolerance_outcome(expected, actual) == Err::<(), ErrorView>(e@),
        },
        ({
            let quarter = binary64::from_integer(25).over_hundred().times(
                binary64::from_integer(expected as nat),
            ).ceiling();
            let tolerance: u64 = if quarter > 1500 {
                quarter
            } else {
                1500
            };
            match r {
                Ok(()) => actual <= expected + tolerance,
                Err(Error::Protocol(m)) => {
                    &&& actual > expected + tolerance
                    &&& m@ == "Onchain fee way above expectation: "@ + text::decimal(actual as nat)
                        + " > "@ + text::decimal(expected as nat) + " + "@ + text::decimal(
                        tolerance as nat,
                    )
                },
                Err(Error::Generic(_)) => false,
            }
        }),
{
    let tolerance = fee_tolerance(expected);
    if actual > expected && actual - expected > tolerance {
        let mut message = "Onchain fee way above expectation: ".to_owned();
        text::append_decimal(&mut message, actual);
        message.append(" > ");
        text::append_decimal(&mut message, expected);
        message.append(" + ");
        text::append_decimal(&mut message, tolerance);
        return Err(Error::Protocol(message));
    }
    Ok(())
}

/// Returns the chains whose rates are needed for a swap's network fee.
pub fn required_estimations(swap_type: SwapType, pair: SwapPair) -> (chains: Vec<Chain>)
    ensures
        chains@ == required_chains(swap_type, pair),
        swap_type == SwapType::Submarine ==> chains@ == seq![pair.from],
        swap_type == SwapType::ReverseSubmarine ==> chains@ == seq![pair.to],
        swap_type == SwapType::Chain && pair.from == pair.to ==> chains@ == seq![pair.from],
        swap_type == SwapType::Chain && pair.from != pair.to ==> chains@ == seq![
            pair.from,
            pair.to,
        ],
{
    match swap_type {
        SwapType::Submarine => vec![pair.from],
        SwapType::ReverseSubmarine => vec![pair.to],
        SwapType::Chain => {
            if pair.from == pair.to {
                vec![pair.from]
            } else {
                vec![pair.from, pair.to]
            }
        },
    }
}

/// The service fee of a swap: a percentage of the received amount for submarine swaps, of
/// the sent amount for all others.
pub open spec fn service_fee(
    swap_type: SwapType,
    send_amount: u64,
    receive_amount: u64,
    service_fee_percent: Binary64,
) -> u64 {
    match swap_type {
        SwapType::Submarine => percentage_of(service_fee_percent, receive_amount),
        _ => percentage_of(service_fee_percent, send_amount),
    }
}

/// What remains of the difference of the amounts once the service fee is taken off.
pub open spec fn paid_network_fee(
    swap_type: SwapType,
    send_amount: u64,
    receive_amount: u64,
    service_fee_percent: Binary64,
) -> int {
    send_amount - receive_amount - service_fee(
        swap_type,
        send_amount,
        receive_amount,
        service_fee_percent,
    )
}

/// What `check_amounts` returns.
pub open spec fn amounts_outcome(
    swap_type: SwapType,
    pair: SwapPair,
    send_amount: u64,
    receive_amount: u64,
    service_fee_percent: Binary64,
    rates: Map<Chain, Binary64>,
    include_claim: bool,
) -> Result<(), ErrorView> {
    let paid = paid_network_fee(swap_type, send_amount, receive_amount, service_fee_percent);
    match missing_chain(swap_type, pair, rates) {
        Some(chain) => Err(ErrorView::Generic("No estimation for chain "@ + chain.name())),
        None => if receive_amount > send_amount {
            Err(ErrorView::Generic("Receive amount exceeds send amount"@))
        } else if paid < 0 {
            Err(ErrorView::Generic("Service fee exceeds total fees"@))
        } else {
            tolerance_outcome(
                network_fee(swap_type, pair, rates, include_claim) as u64,
                paid as u64,
            )
        },
    }
}

/// Whether the network fee of a swap is a `u64`, where the check of the amounts gets as
/// far as asking for it.
pub open spec fn amounts_in_range(
    swap_type: SwapType,
    pair: SwapPair,
    send_amount: u64,
    receive_amount: u64,
    service_fee_percent: Binary64,
    rates: Map<Chain, Binary64>,
    include_claim: bool,
) -> bool {
    missing_chain(swap_type, pair, rates) is None && receive_amount <= send_amount
        && paid_network_fee(swap_type, send_amount, receive_amount, service_fee_percent) >= 0
        ==> network_fee(swap_type, pair, rates, include_claim) <= u64::MAX
}

/// Tells whether `check_amounts` can be called.
pub fn are_amounts_in_range(
    swap_type: SwapType,
    pair: SwapPair,
    send_amount: u64,
    receive_amount: u64,
    service_fee_percent: Binary64,
    estimations: &FeeEstimations,
    include_claim: bool,
) -> (b: bool)
    ensures
        b == amounts_in_range(
            swap_type,
            pair,
            send_amount,
            receive_amount,
            service_fee_percent,
            estimations@,
            include_claim,
        ),
        ({
            let sent = binary64::from_integer(if pair.from is Bitcoin { 151 } else { 1337 }).times(
                estimations@[pair.from],
            ).ceiling();
            let received = binary64::from_integer(
                if pair.to is Bitcoin {
                    if include_claim { 265 } else { 154 }
                } else {
                    if include_claim { 3812 } else { 2503 }
                },
            ).times(estimations@[pair.to]).ceiling();
            let from_known = estimations@.contains_key(pair.from);
            let to_known = estimations@.contains_key(pair.to);
            let base = if swap_type == SwapType::Submarine { receive_amount } else { send_amount };
            let service = service_fee_percent.over_hundred().times(
                binary64::from_integer(base as nat),
            ).ceiling();
            b <==> !(swap_type == SwapType::Chain && from_known && to_known && receive_amount
                + service <= send_amount && sent + received > u64::MAX)
        }),
{
    if receive_amount > send_amount {
        return true;
    }
    let base = match swap_type {
        SwapType::Submarine => receive_amount,
        SwapType::ReverseSubmarine | SwapType::Chain => send_amount,
    };
    if calculate_percentage(service_fee_percent, base) > send_amount - receive_amount {
        return true;
    }
    is_fee_in_range(swap_type, pair, estimations, include_claim)
}

/// Checks that the difference of a swap's amounts is within tolerance of its expected
/// fees.
///
/// Where the check gets as far as the network fee, that fee has to be a `u64`;
/// `are_amounts_in_range` tells whether it is.
pub fn check_amounts(
    swap_type: SwapType,
    pair: SwapPair,
    send_amount: u64,
    receive_amount: u64,
    service_fee_percent: Binary64,
    estimations: &FeeEstimations,
    include_claim: bool,
) -> (r: Result<(), Error>)
    requires
        amounts_in_range(
            swap_type,
            pair,
            send_amount,
            receive_amount,
            service_fee_percent,
            estimations@,
            include_claim,
        ),
    ensures
        match r {
            Ok(()) => amounts_outcome(
                swap_type,
                pair,
                send_amount,
                receive_amount,
                service_fee_percent,
                estimations@,
                include_claim,
            ) is Ok,
            Err(e) => amounts_outcome(
                swap_type,
                pair,
                send_amount,
                receive_amount,
                service_fee_percent,
                estimations@,
                include_claim,
            ) == Err::<(), ErrorView>(e@),
        },
        ({
            let sent = binary64::from_integer(if pair.from is Bitcoin { 151 } else { 1337 }).times(
                estimations@[pair.from],
            ).ceiling();
            let received = binary64::from_integer(
                if pair.to is Bitcoin {
                    if include_claim { 265 } else { 154 }
                } else {
                    if include_claim { 3812 } else { 2503 }
                },
            ).times(estimations@[pair.to]).ceiling();
            let from_known = estimations@.contains_key(pair.from);
            let to_known = estimations@.contains_key(pair.to);
            let base = if swap_type == SwapType::Submarine { receive_amount } else { send_amount };
            let service = service_fee_percent.over_hundred().times(
                binary64::from_integer(base as nat),
            ).ceiling();
            let expected: int = match swap_type {
                SwapType::Submarine => sent as int,
                SwapType::ReverseSubmarine => received as int,
                SwapType::Chain => sent + received,
            };
            let quarter = binary64::from_integer(25).over_hundred().times(
                binary64::from_integer(expected as nat),
            ).ceiling();
            let tolerance: u64 = if quarter > 1500 {
                quarter
            } else {
                1500
            };
            let all_known = (swap_type == SwapType::ReverseSubmarine || from_known) && (swap_type
                == SwapType::Submarine || to_known);
            let paid = send_amount - receive_amount - service;
            match r {
                Ok(()) => {
                    &&& all_known
                    &&& receive_amount <= send_amount
                    &&& 0 <= paid <= expected + tolerance
                },
                Err(Error::Generic(m)) => {
                    ||| {
                        &&& swap_type != SwapType::ReverseSubmarine
                        &&& !from_known
                        &&& m@ == "No estimation for chain "@ + pair.from.name()
                    }
                    ||| {
                        &&& swap_type != SwapType::Submarine
                        &&& swap_type == SwapType::Chain ==> from_known
                        &&& !to_known
                        &&& m@ == "No estimation for chain "@ + pair.to.name()
                    }
                    ||| {
                        &&& all_known
                        &&& receive_amount > send_amount
                        &&& m@ == "Receive amount exceeds send amount"@
                    }
                    ||| {
                        &&& all_known
                        &&& receive_amount <= send_amount
                        &&& paid < 0
                        &&& m@ == "Service fee exceeds total fees"@
                    }
                },
                Err(Error::Protocol(m)) => {
                    &&& all_known
                    &&& receive_amount <= send_amount
                    &&& paid > expected + tolerance
                    &&& m@ == "Onchain fee way above expectation: "@ + text::decimal(paid as nat)
                        + " > "@ + text::decimal(expected as nat) + " + "@ + text::decimal(
                        tolerance as nat,
                    )
                },
            }
        }),
{
    let chains = required_estimations(swap_type, pair);
    let mut i: usize = 0;
    while i < chains.len()
        invariant
            chains@ == required_chains(swap_type, pair),
            forall|j: int| 0 <= j < i ==> estimations@.contains_key(#[trigger] chains@[j]),
        decreases chains@.len() - i,
    {
        if !estimations.contains_key(&chains[i]) {
            assert(i > 0 ==> estimations@.contains_key(chains@[0]));
            return Err(missing_rate("No estimation for chain ", chains[i]));
        }
        i = i + 1;
    }
    assert(estimations@.contains_key(chains@[0]));
    assert(estimations@.contains_key(chains@[chains@.len() - 1]));
    let total_fees = match send_amount.checked_sub(receive_amount) {
        Some(fees) => fees,
        None => return Err(Error::Generic("Receive amount exceeds send amount".to_owned())),
    };
    // For submarine swaps the service fee is taken on the received amount, for the others
    // on the sent one.
    let service_fee = match swap_type {
        SwapType::Submarine => calculate_percentage(service_fee_percent, receive_amount),
        SwapType::ReverseSubmarine | SwapType::Chain => calculate_percentage(
            service_fee_percent,
            send_amount,
        ),
    };
    let network_fees = match total_fees.checked_sub(service_fee) {
        Some(fees) => fees,
        None => return Err(Error::Generic("Service fee exceeds total fees".to_owned())),
    };
    let expected = match calc_network_fee(swap_type, pair, estimations, include_claim) {
        Ok(fee) => fee,
        Err(e) => return Err(e),
    };
    check_tolerance(expected, network_fees)
}

/// Estimates the fee in satoshis for claiming on a chain at a rate.
pub fn estimate_claim_fee(chain: Chain, fee_rate: Binary64) -> (fee: u64)
    ensures
        fee == fee_at_rate(tx_sizes(chain).reverse_claim, fee_rate),
        chain is Bitcoin ==> fee == binary64::from_integer(111).times(fee_rate).ceiling(),
        chain is Liquid ==> fee == binary64::from_integer(1309).times(fee_rate).ceiling(),
{
    fee_for_size(get_tx_sizes(chain).reverse_claim, fee_rate)
}

} // verus!
