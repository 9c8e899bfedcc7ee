use salieri::id::{format_utc_date, get_utc_date, get_utc_timestamp_sec, make_id, make_id_from,
    make_secret};

#[test]
fn date_formatting() {
    assert_eq!(format_utc_date(2024, 3, 5), "2024-03-05");
    assert_eq!(format_utc_date(1999, 12, 31), "1999-12-31");
}

#[test]
fn utc_date_is_current() {
    let date = get_utc_date();
    assert_eq!(date.len(), 10);
    let year: i32 = date[..4].parse().unwrap();
    assert!((2025..2200).contains(&year), "implausible year in {date}");
    assert_eq!(&date[4..5], "-");
    assert_eq!(&date[7..8], "-");
    let month: u32 = date[5..7].parse().unwrap();
    let day: u32 = date[8..10].parse().unwrap();
    assert!((1..=12).contains(&month));
    assert!((1..=31).contains(&day));
}

#[test]
fn timestamp_is_current() {
    let ts = get_utc_timestamp_sec();
    // After 2020, before year 3000.
    assert!(ts > 1_577_836_800 && ts < 32_503_680_000);
}

#[test]
fn id_composition() {
    assert_eq!(make_id_from("2024-03-05", "abc"), "2024-03-05-abc");
}

#[test]
fn id_shape_and_uniqueness() {
    let a = make_id();
    let b = make_id();
    assert_eq!(a.len(), 47);
    assert_eq!(&a[..10], get_utc_date().as_str());
    assert_eq!(&a[10..11], "-");
    // The suffix is a hyphenated lowercase UUID.
    let suffix = &a[11..];
    assert_eq!(suffix.len(), 36);
    assert!(suffix.chars().all(|c| c == '-' || c.is_ascii_hexdigit()));
    assert!(!suffix.chars().any(|c| c.is_ascii_uppercase()));
    assert_ne!(a, b);
}

#[test]
fn secret_shape() {
    let s = make_secret();
    assert_eq!(s.len(), 43);
    assert!(s.chars().all(|c| c.is_ascii_alphanumeric() || c == '+' || c == '/'));
    assert_ne!(make_secret(), make_secret());
}
