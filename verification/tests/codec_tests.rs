use rss_sync::dt::{format_dt, parse_storage_dt, Dt};
use rss_sync::keys::storage_key;
use rss_sync::store::KeyKind;

fn dt(year: u32, month: u32, day: u32, hour: u32, minute: u32, second: u32) -> Dt {
    Dt { year, month, day, hour, minute, second }
}

#[test]
fn format_renders_storage_shape() {
    let d = dt(2024, 1, 2, 3, 4, 5);
    assert_eq!(format_dt(&d), "2024-01-02 03:04:05");
}

#[test]
fn format_pads_every_field() {
    let d = dt(987, 12, 31, 23, 59, 58);
    assert_eq!(format_dt(&d), "0987-12-31 23:59:58");
}

#[test]
fn parse_reads_back_what_format_wrote() {
    let d = dt(2024, 2, 29, 0, 0, 0);
    let text = format_dt(&d);
    assert_eq!(parse_storage_dt(&text), Some(d));
}

#[test]
fn parse_accepts_exact_storage_text() {
    assert_eq!(
        parse_storage_dt("2024-01-01 00:00:00"),
        Some(dt(2024, 1, 1, 0, 0, 0))
    );
}

#[test]
fn parse_rejects_malformed_text() {
    assert_eq!(parse_storage_dt("not a date"), None);
    assert_eq!(parse_storage_dt(""), None);
    assert_eq!(parse_storage_dt("2024-01-01T00:00:00"), None);
    assert_eq!(parse_storage_dt("2024-01-01 00:00:0"), None);
}

#[test]
fn parse_rejects_impossible_dates() {
    assert_eq!(parse_storage_dt("2024-13-01 00:00:00"), None);
    assert_eq!(parse_storage_dt("2024-00-01 00:00:00"), None);
    assert_eq!(parse_storage_dt("2024-04-31 00:00:00"), None);
    assert_eq!(parse_storage_dt("2023-02-29 00:00:00"), None);
    assert_eq!(parse_storage_dt("2024-01-01 24:00:00"), None);
    assert_eq!(parse_storage_dt("2024-01-01 00:60:00"), None);
}

#[test]
fn parse_accepts_leap_day_in_leap_year() {
    assert_eq!(
        parse_storage_dt("2024-02-29 12:30:45"),
        Some(dt(2024, 2, 29, 12, 30, 45))
    );
    assert_eq!(
        parse_storage_dt("2000-02-29 00:00:00"),
        Some(dt(2000, 2, 29, 0, 0, 0))
    );
    assert_eq!(parse_storage_dt("1900-02-29 00:00:00"), None);
}

#[test]
fn before_orders_chronologically() {
    let a = dt(2024, 1, 1, 12, 0, 0);
    let b = dt(2024, 1, 1, 18, 0, 0);
    let c = dt(2024, 1, 2, 0, 0, 0);
    assert!(a.before(&b));
    assert!(b.before(&c));
    assert!(a.before(&c));
    assert!(!b.before(&a));
    assert!(!a.before(&a));
}

#[test]
fn storage_key_namespaces_by_camel_name() {
    let name = String::from("Nice Feed");
    assert_eq!(
        storage_key(&name, KeyKind::Watermark),
        "wsj-rss.niceFeed.last_build_date"
    );
    assert_eq!(storage_key(&name, KeyKind::Lock), "wsj-rss.niceFeed.lock");
}

#[test]
fn storage_key_keeps_single_word_names_lowercased() {
    let name = String::from("Markets");
    assert_eq!(
        storage_key(&name, KeyKind::Watermark),
        "wsj-rss.markets.last_build_date"
    );
}
