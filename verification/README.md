# swap_fees

Fees of swaps between the Bitcoin chain, the Liquid chain and Lightning: network fees
from transaction sizes and fee rates, service fees, and the check that the amounts of a
swap are within tolerance of both. The library is verified with Verus.

Rates and percentages are IEEE 754 binary64 numbers. The library holds them as their
encodings (`Binary64`) and computes with them by integer arithmetic, so that every result
is the one that the format prescribes, rounding included.

- `src/rounding.rs`: the magnitudes of the binary64 format and rounding to nearest
- `src/binary64.rs`: conversion, product, division by a hundred, ceiling
- `src/network.rs`, `src/error.rs`, `src/text.rs`: chains, errors, decimal notation
- `src/swaps/`: the kinds of swaps, fee rate estimations, the fee rules (`fees.rs`) and
  what is proved of them together (`laws.rs`)
- `app/lib.rs`: the same functions for callers that hold `f64`
