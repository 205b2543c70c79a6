use dcd_helpers::escape::to_string;
use dcd_helpers::pretty::{pct, pretty_duration, pretty_size, pretty_value};
use dcd_helpers::time::{epoch_seconds, now, pretty_timestamp, UtcDateTime, MAX_TIMESTAMP};

/// Counts escape tokens: a `%` that does not start a doubled `%%`.
fn count_tokens(s: &str) -> usize {
    let cs: Vec<char> = s.chars().collect();
    let mut i = 0;
    let mut n = 0;
    while i < cs.len() {
        if cs[i] == '%' && i + 1 < cs.len() && cs[i + 1] == '%' {
            i += 2;
        } else {
            if cs[i] == '%' {
                n += 1;
            }
            i += 1;
        }
    }
    n
}

/// The literal runs of an escaped text, with doubled `%` undone.
fn literal_runs(s: &str) -> Vec<String> {
    let cs: Vec<char> = s.chars().collect();
    let mut runs = vec![String::new()];
    let mut i = 0;
    while i < cs.len() {
        if cs[i] == '%' && i + 1 < cs.len() && cs[i + 1] == '%' {
            runs.last_mut().unwrap().push('%');
            i += 2;
        } else if cs[i] == '%' {
            i += 1;
            while i < cs.len() && cs[i].is_ascii_hexdigit() {
                i += 1;
            }
            runs.push(String::new());
        } else {
            runs.last_mut().unwrap().push(cs[i]);
            i += 1;
        }
    }
    runs
}

#[test]
fn encode_empty() {
    assert_eq!(to_string(&[]), "");
}

#[test]
fn encode_doubles_percent() {
    assert_eq!(to_string(&[0x41, 0x25, 0x42]), "A%%B");
    assert_eq!(to_string(b"%%%"), "%%%%%%");
}

#[test]
fn encode_lone_invalid_byte() {
    assert_eq!(to_string(&[0xFF]), "%ff");
}

#[test]
fn encode_all_invalid() {
    assert_eq!(to_string(&[0xFF, 0xFE, 0x80]), "%ff%fe%80");
}

#[test]
fn encode_stray_continuation_keeps_following_text() {
    assert_eq!(to_string(&[0x80, 0x41, 0x42]), "%80AB");
}

#[test]
fn encode_truncated_sequence_escapes_one_byte_at_a_time() {
    assert_eq!(to_string(&[0x41, 0xE2, 0x82, 0x41]), "A%e2%82A");
    assert_eq!(to_string(&[0xE2, 0x82]), "%e2%82");
}

#[test]
fn encode_overlong_and_surrogate() {
    assert_eq!(to_string(&[0xC0, 0xAF]), "%c0%af");
    assert_eq!(to_string(&[0xED, 0xA0, 0x80]), "%ed%a0%80");
}

#[test]
fn encode_keeps_multibyte_text() {
    assert_eq!(to_string("é%€😀".as_bytes()), "é%%€😀");
    let mut b = "ü".as_bytes().to_vec();
    b.push(0xFF);
    b.extend_from_slice("ß%".as_bytes());
    assert_eq!(to_string(&b), "ü%ffß%%");
}

#[test]
fn encode_token_count_matches_invalid_bytes() {
    let b: Vec<u8> = vec![0x41, 0xFF, 0x25, 0xC3, 0xA9, 0xE2, 0x82, 0xAC, 0x80, 0x25, 0x25];
    let s = to_string(&b);
    assert_eq!(s, "A%ff%%é€%80%%%%");
    assert_eq!(count_tokens(&s), 2);
}

#[test]
fn encode_literal_runs_reencode_to_valid_text() {
    let b: Vec<u8> = vec![0x61, 0xF0, 0x9F, 0x98, 0x80, 0xF0, 0x9F, 0x25, 0x62, 0xC3];
    let s = to_string(&b);
    assert_eq!(s, "a😀%f0%9f%%b%c3");
    let runs = literal_runs(&s);
    assert_eq!(runs, vec!["a😀".to_string(), "".to_string(), "%b".to_string(), "".to_string()]);
    let mut bytes = Vec::new();
    for r in &runs {
        assert!(std::str::from_utf8(r.as_bytes()).is_ok());
        bytes.extend_from_slice(r.as_bytes());
    }
    assert_eq!(bytes.len() + count_tokens(&s), b.len());
}

#[test]
fn percentage() {
    assert_eq!(pct(1, 0), "??");
    assert_eq!(pct(50, 200), "25");
    assert_eq!(pct(1, 3), "33");
    assert_eq!(pct(2, 3), "66");
    assert_eq!(pct(5, 2), "250");
    assert_eq!(pct(0, 7), "0");
    assert_eq!(pct(usize::MAX, usize::MAX), "100");
}

#[test]
fn count_tiers() {
    assert_eq!(pretty_value(0), "0");
    assert_eq!(pretty_value(999), "999");
    assert_eq!(pretty_value(1000), "1k");
    assert_eq!(pretty_value(999_999), "999k");
    assert_eq!(pretty_value(1_000_000), "1m");
    assert_eq!(pretty_value(1_000_000_000), "1b");
    assert_eq!(pretty_value(1_000_000_000_000), "1000b");
}

#[test]
fn count_tiering_is_deterministic() {
    for v in [0usize, 999, 1000, 123_456_789, usize::MAX] {
        assert_eq!(pretty_value(v), pretty_value(v));
        assert_eq!(pretty_size(v as u64), pretty_size(v as u64));
    }
    assert_eq!(pretty_value(usize::MAX), pretty_value(usize::MAX));
}

#[test]
fn size_tiers() {
    assert_eq!(pretty_size(999), "999");
    assert_eq!(pretty_size(1500), "1kb");
    assert_eq!(pretty_size(2_000_000), "2mb");
    assert_eq!(pretty_size(3_999_999_999), "3gb");
    assert_eq!(pretty_size(u64::MAX), "18446744073gb");
}

#[test]
fn durations() {
    assert_eq!(pretty_duration(0), "0s");
    assert_eq!(pretty_duration(59), "59s");
    assert_eq!(pretty_duration(61), "1m 1s");
    assert_eq!(pretty_duration(3600), "1h 0m 0s");
    assert_eq!(pretty_duration(86400), "1d 0h 0m 0s");
    assert_eq!(pretty_duration(90061), "1d 1h 1m 1s");
    assert_eq!(pretty_duration(-5), "0s");
}

#[test]
fn timestamps() {
    assert_eq!(pretty_timestamp(0), "1970-01-01 00:00:00");
    assert_eq!(pretty_timestamp(1_000_000_000), "2001-09-09 01:46:40");
    assert_eq!(pretty_timestamp(951_782_400), "2000-02-29 00:00:00");
    assert_eq!(pretty_timestamp(MAX_TIMESTAMP), "9999-12-31 23:59:59");
}

#[test]
fn date_time_text() {
    let at = UtcDateTime { year: 5, month: 3, day: 7, hour: 4, minute: 5, second: 9 };
    assert_eq!(at.to_text(), "0005-03-07 04:05:09");
    let late = UtcDateTime { year: 12345, month: 12, day: 31, hour: 23, minute: 59, second: 59 };
    assert_eq!(late.to_text(), "+12345-12-31 23:59:59");
    let early = UtcDateTime { year: -1, month: 1, day: 1, hour: 0, minute: 0, second: 0 };
    assert_eq!(early.to_text(), "-0001-01-01 00:00:00");
}

#[test]
fn clock_readings() {
    assert_eq!(epoch_seconds(Ok(5)), 5);
    assert_eq!(epoch_seconds(Err(5)), -5);
    assert_eq!(epoch_seconds(Ok(u64::MAX)), i64::MAX);
    assert_eq!(epoch_seconds(Err(u64::MAX)), -i64::MAX);
    assert!(now() > 1_600_000_000);
}
