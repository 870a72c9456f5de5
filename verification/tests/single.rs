use fyler_app::single::{integer_bits, narrow};

fn expected(number: f64) -> u64 {
    f64::from(number as f32).to_bits()
}

#[test]
fn numbers_are_rounded_to_single_precision() {
    for number in [
        0.0,
        -0.0,
        0.1,
        -0.1,
        0.3,
        1.0,
        1.5,
        720.1,
        1e10,
        -1e10,
        16777217.0,
        16777219.0,
        1.0000000596046448,
        1.000000059604645,
        f64::from(f32::MAX),
        3.4028235677973366e38,
        3.4028235677973362e38,
        1e39,
        -1e300,
        f64::from(f32::MIN_POSITIVE),
        1e-38,
        1e-40,
        1.4e-45,
        7.006492321624085e-46,
        7.006492321624086e-46,
        2.1019476964872256e-45,
        1e-46,
        5e-324,
        f64::INFINITY,
        f64::NEG_INFINITY,
    ] {
        assert_eq!(narrow(number.to_bits()), expected(number), "{number:e}");
        assert_eq!(narrow(expected(number)), expected(number), "{number:e}");
    }
}

#[test]
fn many_numbers_are_rounded_to_single_precision() {
    let mut bits: u64 = 0x0123_4567_89ab_cdef;
    for _ in 0..20000 {
        bits = bits.wrapping_mul(6364136223846793005).wrapping_add(1442695040888963407);
        for candidate in [bits, 0x3690_0000_0000_0000 + (bits >> 3) % 0x0200_0000_0000_0000] {
            let number = f64::from_bits(candidate);
            if !number.is_nan() {
                assert_eq!(narrow(candidate), expected(number), "{candidate:x}");
            }
        }
        let whole = (bits >> (bits % 60)) as i64;
        assert_eq!(integer_bits(whole), f64::from(whole as f32).to_bits(), "{whole}");
    }
}

#[test]
fn whole_numbers_are_rounded_to_single_precision() {
    for number in [
        0,
        1,
        -1,
        2,
        1280,
        16777215,
        16777216,
        16777217,
        16777219,
        -16777217,
        33554431,
        i64::MAX,
        i64::MIN,
        i64::MIN + 1,
        9007199254740993,
        4611686018427387904,
        9223371761976868863,
    ] {
        assert_eq!(integer_bits(number), f64::from(number as f32).to_bits(), "{number}");
        assert_eq!(narrow(integer_bits(number)), integer_bits(number), "{number}");
    }
}
