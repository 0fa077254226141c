//! Bit patterns against the machine's arithmetic.

use teenyformers::ieee::{
    bf16_to_f32, f16_to_f32, f32_to_f64, f32_to_i32, f64_to_f32, inv_sqrt,
};

/// The value of a half-precision pattern, by its definition.
fn half(h: u16) -> f64 {
    let sign = if h >= 0x8000 { -1.0 } else { 1.0 };
    let e = (h / 0x400 % 0x20) as i32;
    let m = (h % 0x400) as f64;
    if e == 0 {
        sign * m * 2f64.powi(-24)
    } else {
        sign * (1024.0 + m) * 2f64.powi(e - 25)
    }
}

#[test]
fn half_precision_is_widened_exactly() {
    for h in 0..=u16::MAX {
        let e = h / 0x400 % 0x20;
        let wide = f32::from_bits(f16_to_f32(h));
        if e < 31 {
            assert_eq!(wide as f64, half(h));
            assert_eq!(wide.is_sign_negative(), h >= 0x8000);
        } else if h % 0x400 == 0 {
            assert!(wide.is_infinite());
            assert_eq!(wide.is_sign_negative(), h >= 0x8000);
        } else {
            assert!(wide.is_nan());
        }
    }
}

#[test]
fn half_precision_known_patterns() {
    assert_eq!(f16_to_f32(0x3C00), 1.0_f32.to_bits());
    assert_eq!(f16_to_f32(0xC000), (-2.0_f32).to_bits());
    assert_eq!(f16_to_f32(0x0001), (2.0_f32.powi(-24)).to_bits());
    assert_eq!(f16_to_f32(0x03FF), (1023.0 * 2.0_f32.powi(-24)).to_bits());
    assert_eq!(f16_to_f32(0x8000), 0x8000_0000);
    assert_eq!(f16_to_f32(0x7C00), 0x7F80_0000);
    assert_eq!(f16_to_f32(0x7C01), 0x7F80_2000);
}

#[test]
fn brain_float_is_the_upper_half() {
    assert_eq!(f32::from_bits(bf16_to_f32(0x3F80)), 1.0);
    assert_eq!(f32::from_bits(bf16_to_f32(0xC0A0)), -5.0);
    assert_eq!(bf16_to_f32(0xFFFF), 0xFFFF_0000);
}

/// Patterns spread over all of single precision, with both ends of every binade.
fn single_patterns() -> Vec<u32> {
    let mut all = Vec::new();
    for sign in 0..2u32 {
        for e in 0..255u32 {
            for m in [0, 1, 0x155555, 0x3FFFFF, 0x400000, 0x7FFFFE, 0x7FFFFF] {
                all.push((sign << 31) | (e << 23) | m);
            }
        }
    }
    for k in 0..23 {
        all.push(1 << k);
        all.push((1 << k) + 1);
    }
    all
}

#[test]
fn widening_matches_the_machine() {
    for b in single_patterns() {
        assert_eq!(f32_to_f64(b), (f32::from_bits(b) as f64).to_bits());
    }
    assert_eq!(f32_to_f64(f32::INFINITY.to_bits()), f64::INFINITY.to_bits());
    assert_eq!(f32_to_f64(f32::NEG_INFINITY.to_bits()), f64::NEG_INFINITY.to_bits());
    assert!(f64::from_bits(f32_to_f64(0x7FC0_0001)).is_nan());
    assert!(f64::from_bits(f32_to_f64(0x7F80_0001)).is_nan());
}

#[test]
fn narrowing_matches_the_machine() {
    for b in single_patterns() {
        let x = f32::from_bits(b) as f64;
        assert_eq!(f64_to_f32(x.to_bits()), b);
        for w in [x.to_bits() + 1, x.to_bits() + 0x1000_0000, x.to_bits() + 0x1000_0001, x.to_bits() + 0x0FFF_FFFF] {
            let y = f64::from_bits(w);
            if !y.is_nan() {
                assert_eq!(f64_to_f32(w), (y as f32).to_bits());
            }
        }
    }
    for y in [1e300_f64, -1e300, 1e-60, -1e-60, 3.4028235677973366e38, 3.4028235e38, 5e-324, 7e-46, 8e-46, 0.1, 10_000.0] {
        assert_eq!(f64_to_f32(y.to_bits()), (y as f32).to_bits());
    }
    assert!(f32::from_bits(f64_to_f32(f64::NAN.to_bits())).is_nan());
    assert!(f32::from_bits(f64_to_f32(0x7FF0_0000_0000_0001)).is_nan());
    assert_eq!(f64_to_f32(f64::NEG_INFINITY.to_bits()), f32::NEG_INFINITY.to_bits());
}

#[test]
fn inverse_square_root_matches_the_machine() {
    for n in 0..5000usize {
        assert_eq!(inv_sqrt(n), (1.0_f32 / (n as f32).sqrt()).to_bits());
    }
    for k in 12..64 {
        for d in [0usize, 1, 2, 3, 5] {
            let n = (1usize << k) - d;
            assert_eq!(inv_sqrt(n), (1.0_f32 / (n as f32).sqrt()).to_bits());
            let n = (1usize << k) + d;
            assert_eq!(inv_sqrt(n), (1.0_f32 / (n as f32).sqrt()).to_bits());
            let n = (1usize << k) | ((1usize << k) >> 24) | d;
            assert_eq!(inv_sqrt(n), (1.0_f32 / (n as f32).sqrt()).to_bits());
        }
    }
    assert_eq!(inv_sqrt(usize::MAX), (1.0_f32 / (usize::MAX as f32).sqrt()).to_bits());
    assert_eq!(inv_sqrt(64), 0.125_f32.to_bits());
    assert_eq!(inv_sqrt(0), f32::INFINITY.to_bits());
}

#[test]
fn widening_half_precision_keeps_sign_and_order() {
    for a in 0..=u16::MAX {
        assert_eq!(f16_to_f32(a ^ 0x8000), f16_to_f32(a) ^ 0x8000_0000);
        if a < 0x7C00 {
            assert!(f32::from_bits(f16_to_f32(a)) < f32::from_bits(f16_to_f32(a + 1)));
        }
    }
    let mut all: Vec<u32> = (0..=u16::MAX).map(f16_to_f32).collect();
    all.sort();
    all.dedup();
    assert_eq!(all.len(), 0x1_0000);
}

#[test]
fn truncation_matches_the_machine() {
    let mut patterns = single_patterns();
    for x in [0.0_f32, -0.0, 0.99, 1.0, -1.5, 3.75, 8388607.5, 16777215.0, 16777216.0] {
        patterns.push(x.to_bits());
    }
    for x in [2147483520.0_f32, 2147483648.0, -2147483648.0, -2147483904.0, 4294967296.0] {
        patterns.push(x.to_bits());
    }
    for b in patterns {
        let x = f32::from_bits(b);
        let fits = x >= -2147483648.0 && x < 2147483648.0;
        assert_eq!(f32_to_i32(b), if fits { Some(x as i32) } else { None });
    }
    for n in [0, 1, 2, 3, 1000, 0x7F_FFFF, 0x80_0001, 0xFF_FFFF] {
        assert_eq!(f32_to_i32((n as f32).to_bits()), Some(n));
    }
}
