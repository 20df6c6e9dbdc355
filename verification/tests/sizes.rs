use hokori::providers::parse_human_bytes;
use hokori::report::human_bytes;
use hokori::rules::parse_size;

fn float_human(bytes: u64) -> String {
    let units = ["B", "KB", "MB", "GB", "TB"];
    let mut size = bytes as f64;
    let mut unit = 0;
    while size >= 1024.0 && unit < units.len() - 1 {
        size /= 1024.0;
        unit += 1;
    }
    if unit == 0 {
        format!("{bytes} B")
    } else {
        format!("{size:.1} {}", units[unit])
    }
}

#[test]
fn byte_counts_are_written_in_tenths() {
    assert_eq!(human_bytes(0), "0 B");
    assert_eq!(human_bytes(1023), "1023 B");
    assert_eq!(human_bytes(1024), "1.0 KB");
    assert_eq!(human_bytes(1536), "1.5 KB");
    assert_eq!(human_bytes(1280), "1.2 KB");
    assert_eq!(human_bytes(10 << 20), "10.0 MB");
}

#[test]
fn byte_counts_round_like_double_precision() {
    let mut state: u64 = 0x1234_5678_9abc_def1;
    for round in 0..20_000u64 {
        state = state.wrapping_mul(6364136223846793005).wrapping_add(1442695040888963407);
        let bytes = state >> (round % 64);
        assert_eq!(human_bytes(bytes), float_human(bytes), "{bytes}");
    }
    for bytes in [0, 1, u64::MAX, u64::MAX - 1023, u64::MAX - 1024, 1 << 53, (1 << 53) + 1] {
        assert_eq!(human_bytes(bytes), float_human(bytes), "{bytes}");
    }
    for tie in 1..2000u64 {
        let bytes = tie * 256 / 5 * 5 + 128;
        assert_eq!(human_bytes(bytes), float_human(bytes), "{bytes}");
    }
}

#[test]
fn sizes_use_powers_of_1024() {
    assert_eq!(parse_size("10MB").unwrap(), 10 << 20);
    assert_eq!(parse_size(" 1.5 gb ").unwrap(), 3 << 29);
    assert_eq!(parse_size("7").unwrap(), 7);
    assert_eq!(parse_size("2T").unwrap(), 2 << 40);
    assert!(parse_size("").is_err());
    assert!(parse_size("MB").is_err());
    assert!(parse_size("1.2.3").is_err());
    assert!(parse_size(".").is_err());
    assert!(parse_size("12 parsecs").is_err());
    assert_eq!(parse_size("5.").unwrap(), 5);
    assert_eq!(parse_size(".5K").unwrap(), 512);
}

#[test]
fn sizes_are_read_like_double_precision() {
    let texts = [
        "9007199254740993",
        "9007199254740992.5",
        "0.999999999999999999",
        "0.99999999999999994",
        "0.9999999999999999",
        "18446744073709551615",
        "18446744073709551616",
        "99999999999999999999999999999",
        "4503599627370497.5",
        "4503599627370496.5",
        "0.1",
        "0.30000000000000004441",
        "123456789.987654321",
        "16777215.99999999999999999999999",
        "000000000000000000000000000000000012",
        "2.00000000000000000000000000000000000000000000000000000000000000001",
        "1023.9999999999999999999999999999999999999",
    ];
    let units = [("", 1u64), ("K", 1 << 10), ("MB", 1 << 20), ("GB", 1 << 30), ("T", 1 << 40)];
    for text in texts {
        for (unit, factor) in units {
            let value: f64 = text.parse().unwrap();
            let expected = (value * factor as f64) as u64;
            let input = format!("{text}{unit}");
            assert_eq!(parse_size(&input).unwrap(), expected, "{input}");
        }
    }
}

#[test]
fn tool_sizes_allow_commas_and_binary_units() {
    assert_eq!(parse_human_bytes("12,345 B"), Some(12345));
    assert_eq!(parse_human_bytes("25MB"), Some(25 << 20));
    assert_eq!(parse_human_bytes("1.5GiB"), Some(3 << 29));
    assert_eq!(parse_human_bytes("N/A"), None);
    assert_eq!(parse_human_bytes(""), None);
    assert_eq!(parse_human_bytes("3 apples"), None);
}

#[test]
fn whole_sizes_read_as_they_are_written() {
    for bytes in [0u64, 7, 1023, 1024, 5 << 20, 1023 << 30, 3 << 40, 16_777_215 << 40] {
        assert_eq!(parse_human_bytes(&human_bytes(bytes)), Some(bytes));
    }
}
