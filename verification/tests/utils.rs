use guche::cooldown::Cooldown;
use guche::utils::{format_date, format_hms, now_date, now_datetime, now_hms};

#[test]
fn hms_is_zero_padded() {
    assert_eq!(format_hms(0), "00:00:00");
    assert_eq!(format_hms(3661), "01:01:01");
    assert_eq!(format_hms(86399), "23:59:59");
    assert_eq!(format_hms(360000), "100:00:00");
}

#[test]
fn date_is_zero_padded() {
    assert_eq!(format_date(2026, 9, 7), "2026-09-07");
    assert_eq!(format_date(33, 12, 31), "0033-12-31");
    assert_eq!(format_date(12345, 1, 1), "12345-01-01");
}

fn all_digits(s: &str) -> bool {
    !s.is_empty() && s.bytes().all(|b| b.is_ascii_digit())
}

#[test]
fn clock_texts_have_their_shape() {
    let t = now_hms();
    let parts: Vec<&str> = t.split(':').collect();
    assert_eq!(parts.len(), 3);
    assert!(parts.iter().all(|p| p.len() == 2 && all_digits(p)));
    let d = now_date();
    let parts: Vec<&str> = d.split('-').collect();
    assert_eq!(parts.len(), 3);
    assert!(parts[0].len() >= 4 && all_digits(parts[0]));
    let m: u32 = parts[1].parse().unwrap();
    let day: u32 = parts[2].parse().unwrap();
    assert!((1..=12).contains(&m) && (1..=31).contains(&day));
    let dt = now_datetime();
    assert_eq!(dt.len(), 19);
    assert_eq!(&dt[10..11], " ");
}

#[test]
fn cooldown_per_group() {
    let mut c = Cooldown::new();
    // A group never seen counts as last renamed at time zero.
    assert!(!c.check(1, 4999, 5000));
    assert!(c.check(1, 5000, 5000));
    c.update(1, 10_000);
    assert!(!c.check(1, 14_999, 5000));
    assert!(c.check(1, 15_000, 5000));
    assert!(c.check(2, 14_999, 5000));
    // A clock that went back stays blocked.
    assert!(!c.check(1, 9_000, 0));
    assert!(c.check(1, 10_000, 0));
    // Extreme values do not overflow.
    c.update(3, i64::MIN);
    assert!(c.check(3, i64::MAX, i64::MAX));
}
