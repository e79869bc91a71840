//! Numbers as they are shown, against what the machine's own floats give.
use cradle::binary64::{gigabytes_text, human_bytes};
use cradle::progress::{
    align_left, align_right, format_duration, ProgressNumbers, TerminalProgress,
};
use cradle::text::{decimal_text, signed_decimal_text};

fn human_by_floats(bytes: u64) -> String {
    const UNITS: [&str; 5] = ["B", "KB", "MB", "GB", "TB"];
    let mut value = bytes as f64;
    let mut unit = 0;
    while value >= 1024.0 && unit < UNITS.len() - 1 {
        value /= 1024.0;
        unit += 1;
    }
    format!("{value:.1} {}", UNITS[unit])
}

fn samples() -> Vec<u64> {
    let mut all = vec![0, 1, 51, 52, 1023, 1024, 1075, 1076, 1126, 1127, u64::MAX, u64::MAX - 1];
    for shift in 0..64 {
        let p = 1u64 << shift;
        all.extend([p - 1, p, p + 1, p + p / 20, p + p / 10 * 3]);
    }
    let mut x: u64 = 88172645463325252;
    for _ in 0..3000 {
        x ^= x << 13;
        x ^= x >> 7;
        x ^= x << 17;
        all.push(x >> (x % 64));
    }
    all
}

#[test]
fn sizes_are_shown_as_floats_show_them() {
    assert_eq!(human_bytes(0), "0.0 B");
    assert_eq!(human_bytes(1536), "1.5 KB");
    assert_eq!(human_bytes(5 * 1024 * 1024 * 1024), "5.0 GB");
    for n in samples() {
        assert_eq!(human_bytes(n), human_by_floats(n), "{n}");
    }
}

#[test]
fn gigabytes_are_shown_as_floats_show_them() {
    assert_eq!(gigabytes_text(50_000_000_000), "50.0");
    assert_eq!(gigabytes_text(1_250_000_000), format!("{:.1}", 1_250_000_000u64 as f64 / 1e9));
    for n in samples() {
        assert_eq!(gigabytes_text(n), format!("{:.1}", n as f64 / 1e9), "{n}");
    }
}

#[test]
fn numbers_are_written_in_decimal() {
    for n in [0, 7, 10, 99, 100, u64::MAX] {
        assert_eq!(decimal_text(n), n.to_string());
    }
    for n in [0, -1, 10, i64::MIN, i64::MAX] {
        assert_eq!(signed_decimal_text(n), n.to_string());
    }
}

#[test]
fn durations_have_hours_minutes_and_seconds() {
    assert_eq!(format_duration(0), "00:00:00");
    assert_eq!(format_duration(3661), "01:01:01");
    assert_eq!(format_duration(360_000), "100:00:00");
}

#[test]
fn texts_are_filled_up_to_a_width() {
    assert_eq!(align_left("ab", 4), format!("{:<4}", "ab"));
    assert_eq!(align_right("ab", 4), format!("{:>4}", "ab"));
    assert_eq!(align_left("é", 3), format!("{:<3}", "é"));
    assert_eq!(align_left("abcdef", 4), "abcdef");
}

#[test]
fn a_progress_line_has_real_numbers() {
    let mut p = TerminalProgress::new();
    p.on_file(12);
    let line = p.on_progress(&ProgressNumbers {
        percent: Some(" 42.0".to_string()),
        bytes_per_second: 1024,
        bytes_done: 2048,
        seconds_left: Some(61),
    });
    assert_eq!(line, "\r\x1b[Kfiles     12   42.0%  1.0 KB/s  2.0 KB moved  eta 00:01:01");
    let line = p.on_progress(&ProgressNumbers {
        percent: None,
        bytes_per_second: 0,
        bytes_done: 0,
        seconds_left: None,
    });
    assert_eq!(line, "\r\x1b[Kfiles     12    ?  %  0.0 B/s  0.0 B moved  eta ?");
}
