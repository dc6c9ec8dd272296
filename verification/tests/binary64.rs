use swap_fees::binary64::Binary64;

/// A sequence of encodings that are spread over the whole range.
fn scrambled(seed: u64) -> u64 {
    let mut x = seed.wrapping_mul(0x9e37_79b9_7f4a_7c15).wrapping_add(0x1234_5678);
    x = (x ^ (x >> 30)).wrapping_mul(0xbf58_476d_1ce4_e5b9);
    x = (x ^ (x >> 27)).wrapping_mul(0x94d0_49bb_1331_11eb);
    x ^ (x >> 31)
}

const SPECIAL: [f64; 20] = [
    0.0,
    -0.0,
    1.0,
    -1.0,
    0.1,
    25.0,
    100.0,
    1.1,
    f64::MAX,
    f64::MIN,
    f64::MIN_POSITIVE,
    5e-324,
    1.5e-323,
    2.225073858507201e-308,
    f64::INFINITY,
    f64::NEG_INFINITY,
    f64::NAN,
    9007199254740992.0,
    18446744073709551615.0,
    1e22,
];

fn same(ours: Binary64, native: f64) -> bool {
    let ours = f64::from_bits(ours.to_bits());
    (ours.is_nan() && native.is_nan()) || ours.to_bits() == native.to_bits()
}

fn check_pair(x: f64, y: f64) {
    let a = Binary64::from_bits(x.to_bits());
    let b = Binary64::from_bits(y.to_bits());
    assert!(same(a.multiply(b), x * y), "{} * {}", x, y);
}

fn check_one(x: f64) {
    let a = Binary64::from_bits(x.to_bits());
    assert!(same(a.divide_by_hundred(), x / 100.0), "{} / 100", x);
    assert_eq!(a.ceil_to_u64(), x.ceil() as u64, "ceil {}", x);
}

#[test]
fn products_agree_with_the_processor() {
    for x in SPECIAL {
        for y in SPECIAL {
            check_pair(x, y);
        }
    }
    for i in 0..100_000u64 {
        check_pair(f64::from_bits(scrambled(2 * i)), f64::from_bits(scrambled(2 * i + 1)));
    }
}

#[test]
fn products_near_the_range_limits_agree_with_the_processor() {
    for i in 0..50_000u64 {
        let e = scrambled(3 * i) % 128;
        let x = f64::from_bits((((960 + e) / 2 + 240) << 52) | (scrambled(3 * i + 1) >> 12));
        let y = f64::from_bits((e << 52) | (scrambled(3 * i + 2) >> 12));
        check_pair(x, y);
        check_pair(x * 1e200, f64::from_bits((1300 + e) << 52 | (scrambled(i) >> 12)));
    }
}

#[test]
fn products_of_short_numbers_agree_with_the_processor() {
    // Few significant bits: ties and exact results occur.
    for i in 0..50_000u64 {
        let x = (scrambled(2 * i) >> 36) as f64 / 64.0;
        let y = (scrambled(2 * i + 1) >> 36) as f64 * 0.5;
        check_pair(x, y);
        check_pair(x, (scrambled(i) >> 35) as f64 * 2.0);
    }
}

#[test]
fn hundredths_and_ceilings_agree_with_the_processor() {
    for x in SPECIAL {
        check_one(x);
    }
    for i in 0..100_000u64 {
        let bits = scrambled(i);
        check_one(f64::from_bits(bits));
        // Around the integers, and the least exponents.
        check_one(f64::from_bits(((1000 + bits % 90) << 52) | (bits >> 12)));
        check_one(f64::from_bits(((bits % 12) << 52) | (bits >> 12)));
        check_one((bits >> 40) as f64 / 100.0);
        check_one((bits >> 40) as f64);
    }
}

#[test]
fn integers_agree_with_the_processor() {
    for i in 0..100_000u64 {
        let v = scrambled(i) >> (i % 64);
        assert!(same(Binary64::from_u64(v), v as f64), "{}", v);
    }
    for v in [0, 1, 2, (1 << 53) - 1, 1 << 53, (1 << 53) + 1, (1 << 53) + 3, u64::MAX, u64::MAX - 1023, u64::MAX - 1024] {
        assert!(same(Binary64::from_u64(v), v as f64), "{}", v);
    }
}

#[test]
fn exact_encodings() {
    assert_eq!(Binary64::from_u64(10).to_bits(), 0x4024_0000_0000_0000);
    let tenth = Binary64::from_u64(10).divide_by_hundred();
    assert_eq!(tenth.to_bits(), 0x3fb9_9999_9999_999a);
    assert_eq!(tenth.multiply(Binary64::from_u64(3)).to_bits(), 0x3fd3_3333_3333_3334);
    assert_eq!(tenth.ceil_to_u64(), 1);
}
