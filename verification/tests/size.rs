use pifbip::format_size;

/// The rendering that the float formatting gives.
fn float_rendering(size: u64) -> String {
    let mut size_f = size as f64;
    for unit in &["B", "KB", "MB", "GB"] {
        if size_f < 1024.0 {
            if *unit == "B" {
                return format!("{} {}", size_f as u64, unit);
            }
            return format!("{:.1} {}", size_f, unit);
        }
        size_f /= 1024.0;
    }
    format!("{:.1} TB", size_f)
}

#[test]
fn format_size_examples() {
    assert_eq!(format_size(0), "0 B");
    assert_eq!(format_size(1023), "1023 B");
    assert_eq!(format_size(1024), "1.0 KB");
    assert_eq!(format_size(1536), "1.5 KB");
    assert_eq!(format_size(1048576), "1.0 MB");
    assert_eq!(format_size(3 * 1073741824), "3.0 GB");
    assert_eq!(format_size(1099511627776), "1.0 TB");
    // Just below a unit boundary rounds up within the smaller unit.
    assert_eq!(format_size(1048575), "1024.0 KB");
}

#[test]
fn format_size_ties_round_to_even() {
    // 1.25 KB and 1.75 KB are exact halves of a tenth.
    assert_eq!(format_size(1280), "1.2 KB");
    assert_eq!(format_size(1792), "1.8 KB");
    assert_eq!(format_size(1280), float_rendering(1280));
    assert_eq!(format_size(1792), float_rendering(1792));
}

#[test]
fn format_size_agrees_with_float_formatting() {
    let mut samples: Vec<u64> = vec![
        u64::MAX,
        u64::MAX - 1,
        1 << 53,
        (1 << 53) + 1,
        (1 << 60) + 12345,
        9_007_199_254_740_993,
        1_000,
        999_999,
        123_456_789,
        987_654_321_012,
    ];
    let mut x: u64 = 0x9E37_79B9_7F4A_7C15;
    for _ in 0..20000 {
        x ^= x << 13;
        x ^= x >> 7;
        x ^= x << 17;
        let bits = (x % 64) as u32;
        samples.push(x >> (63 - bits.min(63)));
        samples.push(x % 4096);
    }
    for k in 1..5u32 {
        for t in 0..2048u64 {
            // Multiples of 1/20 of a unit hit the ties.
            samples.push(t * (1u64 << (10 * k)) / 20);
        }
    }
    for s in samples {
        assert_eq!(format_size(s), float_rendering(s), "size {}", s);
    }
}
