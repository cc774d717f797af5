use tpcgen_cli::statistics::{format_bytes, WriteStatistics};

/// The floating point formatting that `format_bytes` computes exactly.
fn format_bytes_f64(bytes: u64) -> String {
    const UNITS: [&str; 7] = ["B", "KiB", "MiB", "GiB", "TiB", "PiB", "EiB"];
    let mut size = bytes as f64;
    let mut unit = 0;
    while size >= 1024.0 && unit < UNITS.len() - 1 {
        size /= 1024.0;
        unit += 1;
    }
    if unit == 0 {
        format!("{bytes} B")
    } else {
        format!("{size:.2} {}", UNITS[unit])
    }
}

#[test]
fn readable_byte_sizes() {
    for (bytes, expected) in [
        (0, "0 B"),
        (389, "389 B"),
        (1023, "1023 B"),
        (1024, "1.00 KiB"),
        (1536, "1.50 KiB"),
        (1 << 20, "1.00 MiB"),
        (1 << 30, "1.00 GiB"),
        (1 << 40, "1.00 TiB"),
        (1 << 50, "1.00 PiB"),
        (u64::MAX, "16.00 EiB"),
    ] {
        assert_eq!(format_bytes(bytes), expected);
    }
}

#[test]
fn readable_byte_sizes_round_ties_to_even() {
    // 1152 bytes is exactly 1.125 KiB, 1160 bytes exactly 1.1328125 KiB
    assert_eq!(format_bytes(1152), "1.12 KiB");
    assert_eq!(format_bytes(1160), "1.13 KiB");
    // just below a mebibyte rounds up to 1024.00 KiB
    assert_eq!(format_bytes((1 << 20) - 1), "1024.00 KiB");
    assert_eq!(format_bytes(5 * (1 << 10) + 512), "5.50 KiB");
}

#[test]
fn readable_byte_sizes_match_floating_point_formatting() {
    let mut values: Vec<u64> = vec![0, 1, 9, 10, 99, 100, 1023, 1024, 1025, 1152, 1160, 2047, 2048];
    for shift in 0..64u32 {
        let p = 1u64 << shift;
        for delta in [0u64, 1, 2, 3, 5, 7, 127, 128, 129, 1000, 1023, 1024, 2048, 4095] {
            values.push(p.wrapping_add(delta));
            values.push(p.wrapping_sub(delta));
            values.push(p.wrapping_mul(3).wrapping_add(delta));
        }
    }
    let mut x: u64 = 0x9e37_79b9_7f4a_7c15;
    for _ in 0..20000 {
        x ^= x << 13;
        x ^= x >> 7;
        x ^= x << 17;
        values.push(x >> (x % 64));
        values.push(x);
    }
    for (k, step) in [(1u32, 1u64), (2, 1), (3, 1), (6, 1)] {
        let base = 1u64 << (10 * k);
        for i in 0..4096u64 {
            values.push(base.wrapping_mul(1 + i % 7).wrapping_add(i * step * (base / 1024).max(1) / 8));
        }
    }
    values.push(u64::MAX);
    values.push(u64::MAX - 1);
    values.push((1 << 53) + 1);
    values.push((1 << 54) + 2);
    for bytes in values {
        assert_eq!(format_bytes(bytes), format_bytes_f64(bytes), "{bytes}");
    }
}

#[test]
fn write_statistics_count_chunks_and_bytes() {
    let mut statistics = WriteStatistics::new("row groups");
    assert_eq!(statistics.num_chunks(), 0);
    assert_eq!(statistics.num_bytes(), 0);
    statistics.increment_chunks(1);
    statistics.increment_chunks(2);
    statistics.increment_bytes(100);
    statistics.increment_bytes(28);
    assert_eq!(statistics.num_chunks(), 3);
    assert_eq!(statistics.num_bytes(), 128);
    assert_eq!(statistics.chunk_label(), "row groups");
    assert!(statistics.start() <= std::time::Instant::now());
}
