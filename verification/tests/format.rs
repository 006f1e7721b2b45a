use better_folder_size::format::{format_human_size, format_number, format_size_full};

#[test]
fn test_format_number() {
    assert_eq!(format_number(0), "0");
    assert_eq!(format_number(9), "9");
    assert_eq!(format_number(999), "999");
    assert_eq!(format_number(1000), "1 000");
    assert_eq!(format_number(12345), "12 345");
    assert_eq!(format_number(1234567), "1 234 567");
    assert_eq!(format_number(1000000000), "1 000 000 000");
}

#[test]
fn test_format_human_size() {
    assert_eq!(format_human_size(0), "0 B");
    assert_eq!(format_human_size(512), "512 B");
    assert_eq!(format_human_size(1023), "1023 B");
    assert_eq!(format_human_size(1024), "1.00 KB");
    assert_eq!(format_human_size(1536), "1.50 KB");
    assert_eq!(format_human_size(1048576), "1.00 MB");
    assert_eq!(format_human_size(1073741824), "1.00 GB");
    assert_eq!(format_human_size(1099511627776), "1.00 TB");
}

#[test]
fn test_format_size_full() {
    assert_eq!(format_size_full(0), "0 B");
    assert_eq!(format_size_full(500), "500 B");
    assert_eq!(format_size_full(1024), "1.00 KB (1 024 B)");
    assert_eq!(format_size_full(1048576), "1.00 MB (1 048 576 B)");
    assert_eq!(format_size_full(1331439812), "1.24 GB (1 331 439 812 B)");
}

/// The rendering that `{:.2}` gives of the `f64` quotient, unit by unit.
fn float_reference(bytes: u64) -> String {
    const KB: f64 = 1024.0;
    const MB: f64 = KB * 1024.0;
    const GB: f64 = MB * 1024.0;
    const TB: f64 = GB * 1024.0;
    let b = bytes as f64;
    if b < KB {
        format!("{} B", bytes)
    } else if b < MB {
        format!("{:.2} KB", b / KB)
    } else if b < GB {
        format!("{:.2} MB", b / MB)
    } else if b < TB {
        format!("{:.2} GB", b / GB)
    } else {
        format!("{:.2} TB", b / TB)
    }
}

#[test]
fn human_size_matches_float_rendering_near_unit_edges() {
    for shift in [10u32, 20, 30, 40, 50, 53, 54, 60, 63] {
        let base = 1u64 << shift;
        for delta in 0..3000u64 {
            for b in [base.wrapping_sub(delta), base.wrapping_add(delta)] {
                assert_eq!(format_human_size(b), float_reference(b), "bytes = {}", b);
            }
        }
    }
}

#[test]
fn human_size_matches_float_rendering_on_ties() {
    // 1152 B is exactly 1.125 KB: the tie goes to the even digit.
    assert_eq!(format_human_size(1152), "1.12 KB");
    assert_eq!(format_human_size(1152), float_reference(1152));
    // 1.375 KB rounds up to the even 1.38.
    assert_eq!(format_human_size(1408), "1.38 KB");
    let mut b: u64 = 1024;
    while b < (1 << 21) {
        assert_eq!(format_human_size(b), float_reference(b), "bytes = {}", b);
        b += 8;
    }
}

#[test]
fn human_size_matches_float_rendering_on_large_values() {
    let mut x: u64 = 0x9E37_79B9_7F4A_7C15;
    for _ in 0..200_000 {
        x ^= x << 13;
        x ^= x >> 7;
        x ^= x << 17;
        let b = x >> (x % 64);
        assert_eq!(format_human_size(b), float_reference(b), "bytes = {}", b);
    }
    assert_eq!(format_human_size(u64::MAX), float_reference(u64::MAX));
    assert_eq!(format_human_size(u64::MAX), "16777216.00 TB");
}

#[test]
fn human_size_rounds_up_into_next_hundred() {
    // 1048575 B is 1023.999 KB, printed as 1024.00 KB (still below 1 MB).
    assert_eq!(format_human_size(1048575), "1024.00 KB");
}

#[test]
fn format_number_matches_reference_grouping() {
    for n in [1u64, 12, 123, 1234, 12345, 123456, 1234567, u64::MAX, 1_000_001] {
        let s = n.to_string();
        let mut expected = String::new();
        for (i, ch) in s.chars().enumerate() {
            if i > 0 && (s.len() - i) % 3 == 0 {
                expected.push(' ');
            }
            expected.push(ch);
        }
        assert_eq!(format_number(n), expected);
        assert_eq!(format_number(n).replace(' ', ""), s);
    }
    assert_eq!(format_number(u64::MAX), "18 446 744 073 709 551 615");
}

#[test]
fn size_full_below_one_kilobyte_is_human_size() {
    for b in 0..1024u64 {
        assert_eq!(format_size_full(b), format_human_size(b));
    }
    assert_eq!(format_size_full(1023), "1023 B");
    assert_eq!(format_size_full(1536), "1.50 KB (1 536 B)");
}
