use cbor_next::float::{narrow_half, narrow_single, widen_half, widen_single};
use cbor_next::DataItem;

fn same_number(a: f64, b: f64) -> bool {
    a.to_bits() == b.to_bits() || (a.is_nan() && b.is_nan())
}

#[test]
fn widen_half_agrees_with_half_on_every_pattern() {
    for pattern in 0..=u16::MAX {
        let expected = half::f16::from_bits(pattern).to_f64();
        let got = f64::from_bits(widen_half(pattern));
        assert!(same_number(expected, got), "{pattern:#06x}");
        if !expected.is_nan() {
            assert_eq!(expected.to_bits(), got.to_bits(), "{pattern:#06x}");
        }
    }
}

#[test]
fn widen_half_keeps_sign_and_payload_of_a_nan() {
    assert_eq!(widen_half(0x7e00), 0x7ff8_0000_0000_0000);
    assert_eq!(widen_half(0xfe00), 0xfff8_0000_0000_0000);
    assert_eq!(widen_half(0x7c01), 0x7ff8_0400_0000_0000);
    assert_eq!(widen_half(0x7fff), 0x7fff_fc00_0000_0000);
}

#[test]
fn narrow_half_undoes_widen_half_on_every_pattern() {
    for pattern in 0..=u16::MAX {
        let wide = widen_half(pattern);
        if f64::from_bits(wide).is_nan() {
            assert_eq!(narrow_half(wide), Some(pattern | 0x0200), "{pattern:#06x}");
        } else {
            assert_eq!(narrow_half(wide), Some(pattern), "{pattern:#06x}");
        }
    }
}

fn single_patterns() -> Vec<u32> {
    let mut patterns = Vec::new();
    for exponent in 0..=255u32 {
        for fraction in [
            0u32, 1, 2, 3, 0x7f, 0x80, 0x1000, 0x1fff, 0x2000, 0x3f_ffff, 0x40_0000, 0x40_0001,
            0x55_5555, 0x7f_fffe, 0x7f_ffff,
        ] {
            patterns.push((exponent << 23) | fraction);
            patterns.push(0x8000_0000 | (exponent << 23) | fraction);
        }
    }
    for shift in 0..23 {
        patterns.push(1 << shift);
        patterns.push((1 << shift) | 1);
        patterns.push(0x8000_0000 | (1 << shift));
    }
    let mut state: u32 = 0x1234_5678;
    for _ in 0..200_000 {
        state ^= state << 13;
        state ^= state >> 17;
        state ^= state << 5;
        patterns.push(state);
    }
    patterns
}

#[test]
fn widen_single_agrees_with_the_cast() {
    for pattern in single_patterns() {
        let expected = f64::from(f32::from_bits(pattern));
        let got = f64::from_bits(widen_single(pattern));
        assert!(same_number(expected, got), "{pattern:#010x}");
        if !expected.is_nan() {
            assert_eq!(expected.to_bits(), got.to_bits(), "{pattern:#010x}");
        }
    }
}

#[test]
fn widen_single_keeps_sign_and_payload_of_a_nan() {
    assert_eq!(widen_single(0x7fc0_0000), 0x7ff8_0000_0000_0000);
    assert_eq!(widen_single(0xffc0_0000), 0xfff8_0000_0000_0000);
    assert_eq!(widen_single(0x7f80_0001), 0x7ff8_0000_2000_0000);
}

#[test]
fn narrow_single_undoes_widen_single() {
    for pattern in single_patterns() {
        let wide = widen_single(pattern);
        if f64::from_bits(wide).is_nan() {
            assert_eq!(narrow_single(wide), Some(pattern | 0x0040_0000), "{pattern:#010x}");
        } else {
            assert_eq!(narrow_single(wide), Some(pattern), "{pattern:#010x}");
        }
    }
}

fn double_patterns() -> Vec<u64> {
    let mut patterns = vec![
        0,
        1,
        0x8000_0000_0000_0000,
        0x3ff0_0000_0000_0000,
        0x3ff1_9999_9999_999a,
        0x7ff0_0000_0000_0000,
        0xfff0_0000_0000_0000,
        0x7ff8_0000_0000_0000,
        0x7ff0_0000_0000_0001,
        0x000f_ffff_ffff_ffff,
        0x0010_0000_0000_0000,
        0x7fef_ffff_ffff_ffff,
        0x3e70_0000_0000_0000,
        0x3e60_0000_0000_0000,
        0x3e78_0000_0000_0000,
        0x3f00_0000_0000_0000,
        0x3f0f_fc00_0000_0000,
        0x40ef_fc00_0000_0000,
        0x40ef_fe00_0000_0000,
        0x40f0_0000_0000_0000,
        0x36a0_0000_0000_0000,
        0x3690_0000_0000_0000,
        0x47ef_ffff_e000_0000,
        0x47ef_ffff_f000_0000,
        0x47f0_0000_0000_0000,
    ];
    let mut state: u64 = 0x9e37_79b9_7f4a_7c15;
    for _ in 0..200_000 {
        state ^= state << 13;
        state ^= state >> 7;
        state ^= state << 17;
        patterns.push(state);
        patterns.push(state & 0xffff_fc00_0000_0000);
        patterns.push(state & 0xffff_ffff_e000_0000);
        patterns.push((state & 0x800f_ffff_ffff_ffff) | ((870 + (state >> 52) % 40) << 52));
        patterns.push((state & 0x800f_fc00_0000_0000) | ((995 + (state >> 52) % 50) << 52));
    }
    patterns
}

#[test]
fn narrow_half_agrees_with_the_round_trip_through_half() {
    for pattern in double_patterns() {
        let value = f64::from_bits(pattern);
        let through = half::f16::from_f64(value);
        let expected = if through.to_f64().to_bits() == pattern {
            Some(through.to_bits())
        } else {
            None
        };
        assert_eq!(narrow_half(pattern), expected, "{pattern:#018x}");
    }
}

#[test]
fn narrow_single_agrees_with_the_round_trip_through_the_cast() {
    for pattern in double_patterns() {
        let value = f64::from_bits(pattern);
        let through = value as f32;
        let expected = if f64::from(through).to_bits() == pattern {
            Some(through.to_bits())
        } else {
            None
        };
        assert_eq!(narrow_single(pattern), expected, "{pattern:#018x}");
    }
}

#[test]
fn encoding_picks_the_shortest_exact_width() {
    assert_eq!(DataItem::Floating(1.0f64.to_bits()).encode(), vec![0xf9, 0x3c, 0x00]);
    assert_eq!(
        DataItem::Floating(100_000.0f64.to_bits()).encode(),
        vec![0xfa, 0x47, 0xc3, 0x50, 0x00]
    );
    assert_eq!(
        DataItem::Floating(1.1f64.to_bits()).encode(),
        vec![0xfb, 0x3f, 0xf1, 0x99, 0x99, 0x99, 0x99, 0x99, 0x9a]
    );
    assert_eq!(
        DataItem::Floating(5.960_464_477_539_063e-08f64.to_bits()).encode(),
        vec![0xf9, 0x00, 0x01]
    );
    assert_eq!(
        DataItem::Floating(f64::from(f32::from_bits(1)).to_bits()).encode(),
        vec![0xfa, 0x00, 0x00, 0x00, 0x01]
    );
    assert_eq!(
        DataItem::Floating(f64::from_bits(1).to_bits()).encode(),
        vec![0xfb, 0, 0, 0, 0, 0, 0, 0, 1]
    );
}

#[test]
fn a_nan_is_written_in_the_shortest_width_that_holds_its_pattern() {
    assert_eq!(
        DataItem::Floating(f64::NAN.to_bits()).encode(),
        vec![0xf9, 0x7e, 0x00]
    );
    assert_eq!(
        DataItem::Floating(0xfff8_0000_0000_0000).encode(),
        vec![0xf9, 0xfe, 0x00]
    );
    assert_eq!(
        DataItem::Floating(0x7ff8_0400_0000_0000).encode(),
        vec![0xf9, 0x7e, 0x01]
    );
    assert_eq!(
        DataItem::Floating(0x7ff8_0000_2000_0000).encode(),
        vec![0xfa, 0x7f, 0xc0, 0x00, 0x01]
    );
    assert_eq!(
        DataItem::Floating(0x7ff0_0000_0000_0001).encode(),
        vec![0xfb, 0x7f, 0xf0, 0, 0, 0, 0, 0, 0x01]
    );
    assert_eq!(
        DataItem::Floating(0x7ff0_0400_0000_0000).encode(),
        vec![0xfb, 0x7f, 0xf0, 0x04, 0, 0, 0, 0, 0]
    );
    for pattern in [
        0x7ff8_0000_0000_0000u64,
        0xfff8_0000_0000_0000,
        0x7ff8_0400_0000_0000,
        0x7ff8_0000_2000_0000,
        0x7ff0_0000_0000_0001,
        0x7ff0_0400_0000_0000,
    ] {
        let bytes = DataItem::Floating(pattern).encode();
        assert_eq!(DataItem::decode(&bytes), Ok(DataItem::Floating(pattern)));
    }
}

#[test]
fn a_quiet_nan_of_binary16_is_written_back_as_it_was_read() {
    for bytes in [[0xf9u8, 0x7e, 0x00], [0xf9, 0xfe, 0x00], [0xf9, 0x7f, 0xff]] {
        assert_eq!(DataItem::decode(&bytes).unwrap().encode(), bytes);
    }
    assert_eq!(
        DataItem::decode(&[0xf9, 0x7d, 0x00]).unwrap().encode(),
        vec![0xf9, 0x7f, 0x00]
    );
}
