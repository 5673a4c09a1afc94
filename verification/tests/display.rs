use kwaainet::display::{box_header_lines, display_width, fmt_bytes, format_bytes, format_uptime, separator_line};

const GB: u64 = 1_073_741_824;
const MB: u64 = 1_048_576;
const KB: u64 = 1_024;

fn reference_format_bytes(bytes: u64) -> String {
    if bytes >= GB {
        format!("{:.1} GB", bytes as f64 / GB as f64)
    } else if bytes >= MB {
        format!("{:.1} MB", bytes as f64 / MB as f64)
    } else if bytes >= KB {
        format!("{:.1} KB", bytes as f64 / KB as f64)
    } else {
        format!("{} B", bytes)
    }
}

fn reference_fmt_bytes(bytes: u64) -> String {
    if bytes >= GB {
        format!("{:.1} GB", bytes as f64 / GB as f64)
    } else if bytes >= MB {
        format!("{:.0} MB", bytes as f64 / MB as f64)
    } else if bytes >= KB {
        format!("{:.0} KB", bytes as f64 / KB as f64)
    } else {
        format!("{} B", bytes)
    }
}

#[test]
fn uptime_strings() {
    assert_eq!(format_uptime(0), "0s");
    assert_eq!(format_uptime(59), "59s");
    assert_eq!(format_uptime(3600), "1h 0s");
    assert_eq!(format_uptime(90061), "1d 1h 1m 1s");
    assert_eq!(format_uptime(86400 + 5), "1d 5s");
}

#[test]
fn byte_sizes_match_float_formatting() {
    let samples = [
        0u64, 1, 1023, 1024, 1536, 1075, 1126, 2560, 3 * MB / 2, MB - 1, MB, 5 * MB + MB / 20,
        GB - 1, GB, GB + GB / 4, 5 * GB / 4 + 1, 3 * GB + GB / 20, 10 * GB + 3 * GB / 20, u64::MAX,
        u64::MAX / 3, (1 << 53) + 1, 123_456_789_012,
    ];
    for &b in &samples {
        assert_eq!(format_bytes(b), reference_format_bytes(b), "format_bytes({b})");
        assert_eq!(fmt_bytes(b), reference_fmt_bytes(b), "fmt_bytes({b})");
    }
    // Ties round to even, as `{:.1}` does: 1.25 GB → "1.2", 1.75 GB → "1.8".
    assert_eq!(format_bytes(GB + GB / 4), "1.2 GB");
    assert_eq!(format_bytes(GB + 3 * GB / 4), "1.8 GB");
    assert_eq!(fmt_bytes(MB + MB / 2), "2 MB");
    assert_eq!(fmt_bytes(2 * MB + MB / 2), "2 MB");
}

#[test]
fn byte_sizes_sweep() {
    let mut b: u64 = 1;
    while b < u64::MAX / 3 {
        for d in [0u64, 1, 511, 512, 513] {
            let x = b.saturating_add(d);
            assert_eq!(format_bytes(x), reference_format_bytes(x), "format_bytes({x})");
            assert_eq!(fmt_bytes(x), reference_fmt_bytes(x), "fmt_bytes({x})");
        }
        b = b * 3 + 7;
    }
}

#[test]
fn box_header_centres_title() {
    let lines = box_header_lines("Title");
    assert_eq!(lines.len(), 3);
    assert_eq!(lines[0], format!("╭{}╮", "─".repeat(69)));
    assert_eq!(lines[1], format!("│{}Title{}│", " ".repeat(32), " ".repeat(32)));
    assert_eq!(lines[2], format!("╰{}╯", "─".repeat(69)));
    assert_eq!(display_width("a🧩b"), 4);
    let wide = box_header_lines("🧩 KwaaiNet Shard Server");
    assert_eq!(wide[1].chars().count(), 2 + 69 - 1);
    assert_eq!(separator_line(), "─".repeat(69));
}
