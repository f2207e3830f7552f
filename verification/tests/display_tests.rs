use bftp::display::{format_size, format_timestamp, is_leap_year};

fn float_format_size(size: u64) -> String {
    let units = ["B", "K", "M", "G", "T"];
    let mut s = size as f64;
    let mut idx = 0;
    while s >= 1024.0 && idx < units.len() - 1 {
        s /= 1024.0;
        idx += 1;
    }
    if idx == 0 {
        format!("{}B", s as u64)
    } else {
        format!("{:.1}{}", s, units[idx])
    }
}

#[test]
fn format_size_small_values() {
    assert_eq!(format_size(0), "0B");
    assert_eq!(format_size(512), "512B");
    assert_eq!(format_size(1023), "1023B");
    assert_eq!(format_size(1024), "1.0K");
    assert_eq!(format_size(1536), "1.5K");
}

#[test]
fn format_size_ties_round_to_even() {
    // 1.25K and 1.75K are exact halves of a tenth
    assert_eq!(format_size(1280), float_format_size(1280));
    assert_eq!(format_size(1792), float_format_size(1792));
    assert_eq!(format_size(1280), "1.2K");
}

#[test]
fn format_size_agrees_with_float_formatting() {
    let mut x: u64 = 1;
    for _ in 0..2000 {
        for d in [0u64, 1, 2, 511, 512, 513] {
            let v = x.wrapping_add(d);
            assert_eq!(format_size(v), float_format_size(v), "size {}", v);
        }
        x = x.wrapping_mul(3).wrapping_add(7);
    }
    for v in [u64::MAX, u64::MAX - 1, 1 << 53, (1 << 53) + 1, (1u64 << 63) + 1025, 1099511627776, 1099511627775] {
        assert_eq!(format_size(v), float_format_size(v), "size {}", v);
    }
    for v in 0..5000u64 {
        assert_eq!(format_size(v * 97), float_format_size(v * 97));
    }
}

#[test]
fn format_timestamp_known_dates() {
    assert_eq!(format_timestamp(0), "01-01 00:00");
    // 2024-02-29 12:34:56 UTC
    assert_eq!(format_timestamp(1709210096), "02-29 12:34");
    // 2000-12-31 23:59:00 UTC
    assert_eq!(format_timestamp(978307140), "12-31 23:59");
}

#[test]
fn leap_years() {
    assert!(is_leap_year(2000));
    assert!(is_leap_year(2024));
    assert!(!is_leap_year(1900));
    assert!(!is_leap_year(2023));
}

#[test]
fn leap_years_before_the_epoch() {
    assert!(is_leap_year(-4));
    assert!(!is_leap_year(-100));
    assert!(is_leap_year(-400));
    assert!(!is_leap_year(-1));
}
