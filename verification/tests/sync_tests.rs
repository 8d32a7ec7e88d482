use rss_sync::dt::Dt;
use rss_sync::feed::{Channel, FeedEntry, Item};
use rss_sync::locks::{acquire, lock_decision, LockDecision};
use rss_sync::publish::{format_status, publish};
use rss_sync::store::{KeyKind, KvTable};
use rss_sync::sync::{select_new_items, sync_all, sync_feed, SyncOutcome};
use rss_sync::watermark::wm_update;
use rss_sync::SyncError;

fn dt(year: u32, month: u32, day: u32, hour: u32, minute: u32, second: u32) -> Dt {
    Dt { year, month, day, hour, minute, second }
}

fn item(title: &str, link: &str, desc: &str, text: &str, date: Dt) -> Item {
    Item {
        title: String::from(title),
        description: String::from(desc),
        link: String::from(link),
        pub_date_text: String::from(text),
        pub_date: date,
    }
}

fn morning() -> Item {
    item(
        "Morning",
        "http://example.com/1",
        "Earlier",
        "Mon, 01 Jan 2024 12:00:00 GMT",
        dt(2024, 1, 1, 12, 0, 0),
    )
}

fn evening() -> Item {
    item(
        "Evening",
        "http://example.com/2",
        "Later",
        "Mon, 01 Jan 2024 18:00:00 GMT",
        dt(2024, 1, 1, 18, 0, 0),
    )
}

fn channel_jan2() -> Channel {
    Channel { build_date: dt(2024, 1, 2, 0, 0, 0), items: vec![evening(), morning()] }
}

fn wm_text(t: &KvTable, name: &String) -> Option<String> {
    t.get(name, KeyKind::Watermark).map(|p| p.0)
}

fn lock_row(t: &KvTable, name: &String) -> Option<i64> {
    t.get(name, KeyKind::Lock).map(|p| p.1)
}

#[test]
fn first_run_stores_build_date_and_publishes_nothing() {
    let name = String::from("Markets");
    let mut t = KvTable::new();
    let r = sync_feed(&mut t, &name, &Ok(channel_jan2()), &vec![true, true], 500);
    assert_eq!(r.outcome, SyncOutcome::Synced);
    assert!(r.delivered.is_empty());
    assert_eq!(wm_text(&t, &name), Some(String::from("2024-01-02 00:00:00")));
    assert_eq!(lock_row(&t, &name), None);
}

#[test]
fn new_items_published_oldest_first() {
    let name = String::from("Markets");
    let mut t = KvTable::new();
    wm_update(&mut t, &name, &dt(2024, 1, 1, 0, 0, 0), 100);
    let r = sync_feed(&mut t, &name, &Ok(channel_jan2()), &vec![true, true], 500);
    assert_eq!(r.outcome, SyncOutcome::Synced);
    assert_eq!(r.delivered.len(), 2);
    assert_eq!(r.delivered[0], format_status(&name, &morning()));
    assert_eq!(r.delivered[1], format_status(&name, &evening()));
    assert_eq!(wm_text(&t, &name), Some(String::from("2024-01-02 00:00:00")));
    assert_eq!(lock_row(&t, &name), None);
}

#[test]
fn build_date_equal_to_watermark_publishes_nothing() {
    let name = String::from("Markets");
    let mut t = KvTable::new();
    wm_update(&mut t, &name, &dt(2024, 1, 2, 0, 0, 0), 100);
    let r = sync_feed(&mut t, &name, &Ok(channel_jan2()), &vec![true, true], 500);
    assert_eq!(r.outcome, SyncOutcome::Synced);
    assert!(r.delivered.is_empty());
    assert_eq!(wm_text(&t, &name), Some(String::from("2024-01-02 00:00:00")));
}

#[test]
fn older_build_date_does_not_regress_watermark() {
    let name = String::from("Markets");
    let mut t = KvTable::new();
    wm_update(&mut t, &name, &dt(2024, 1, 3, 0, 0, 0), 100);
    let r = sync_feed(&mut t, &name, &Ok(channel_jan2()), &vec![true, true], 500);
    assert_eq!(r.outcome, SyncOutcome::Synced);
    assert!(r.delivered.is_empty());
    assert_eq!(wm_text(&t, &name), Some(String::from("2024-01-03 00:00:00")));
    assert_eq!(lock_row(&t, &name), None);
}

#[test]
fn second_run_with_no_new_items_changes_nothing() {
    let name = String::from("Markets");
    let mut t = KvTable::new();
    let r1 = sync_feed(&mut t, &name, &Ok(channel_jan2()), &vec![true, true], 500);
    assert_eq!(r1.outcome, SyncOutcome::Synced);
    let wm_after_first = wm_text(&t, &name);
    let r2 = sync_feed(&mut t, &name, &Ok(channel_jan2()), &vec![true, true], 900);
    assert_eq!(r2.outcome, SyncOutcome::Synced);
    assert!(r2.delivered.is_empty());
    assert_eq!(wm_text(&t, &name), wm_after_first);
}

#[test]
fn items_at_or_before_watermark_are_excluded() {
    let w = dt(2024, 1, 1, 12, 0, 0);
    let sel = select_new_items(&vec![evening(), morning()], &w);
    assert_eq!(sel.len(), 1);
    assert_eq!(sel[0].title, "Evening");
}

#[test]
fn selection_reverses_into_ascending_order() {
    let w = dt(2023, 12, 31, 0, 0, 0);
    let sel = select_new_items(&vec![evening(), morning()], &w);
    assert_eq!(sel.len(), 2);
    assert_eq!(sel[0].title, "Morning");
    assert_eq!(sel[1].title, "Evening");
}

#[test]
fn live_lock_skips_the_run_entirely() {
    let name = String::from("Markets");
    let mut t = KvTable::new();
    acquire(&mut t, &name, 1000);
    let r = sync_feed(&mut t, &name, &Ok(channel_jan2()), &vec![true, true], 1100);
    assert_eq!(r.outcome, SyncOutcome::SkippedLocked);
    assert!(r.delivered.is_empty());
    assert_eq!(wm_text(&t, &name), None);
    assert_eq!(lock_row(&t, &name), Some(1000));
}

#[test]
fn stale_lock_is_reclaimed_and_run_proceeds() {
    let name = String::from("Markets");
    let mut t = KvTable::new();
    acquire(&mut t, &name, 1000);
    let r = sync_feed(&mut t, &name, &Ok(channel_jan2()), &vec![true, true], 1400);
    assert_eq!(r.outcome, SyncOutcome::Synced);
    assert_eq!(wm_text(&t, &name), Some(String::from("2024-01-02 00:00:00")));
    assert_eq!(lock_row(&t, &name), None);
}

#[test]
fn failed_second_send_keeps_watermark_and_reports_publish_error() {
    let name = String::from("Markets");
    let mut t = KvTable::new();
    wm_update(&mut t, &name, &dt(2024, 1, 1, 0, 0, 0), 100);
    let noon = item(
        "Noon",
        "http://example.com/3",
        "Midday",
        "Mon, 01 Jan 2024 15:00:00 GMT",
        dt(2024, 1, 1, 15, 0, 0),
    );
    let ch = Channel {
        build_date: dt(2024, 1, 2, 0, 0, 0),
        items: vec![evening(), noon, morning()],
    };
    let r = sync_feed(&mut t, &name, &Ok(ch), &vec![true, false, true], 500);
    assert_eq!(r.outcome, SyncOutcome::Failed(SyncError::Publish));
    assert_eq!(r.delivered.len(), 1);
    assert_eq!(r.delivered[0], format_status(&name, &morning()));
    assert_eq!(wm_text(&t, &name), Some(String::from("2024-01-01 00:00:00")));
    assert_eq!(lock_row(&t, &name), None);
}

#[test]
fn fetch_failure_aborts_and_releases_the_lock() {
    let name = String::from("Markets");
    let mut t = KvTable::new();
    let r = sync_feed(&mut t, &name, &Err(SyncError::Fetch), &vec![], 500);
    assert_eq!(r.outcome, SyncOutcome::Failed(SyncError::Fetch));
    assert!(r.delivered.is_empty());
    assert_eq!(wm_text(&t, &name), None);
    assert_eq!(lock_row(&t, &name), None);
}

#[test]
fn malformed_stored_watermark_is_fatal_not_defaulted() {
    let name = String::from("Markets");
    let mut t = KvTable::new();
    t.set(&name, KeyKind::Watermark, String::from("garbage"), 100);
    let r = sync_feed(&mut t, &name, &Ok(channel_jan2()), &vec![true, true], 500);
    assert_eq!(r.outcome, SyncOutcome::Failed(SyncError::Parse));
    assert!(r.delivered.is_empty());
    assert_eq!(wm_text(&t, &name), Some(String::from("garbage")));
    assert_eq!(lock_row(&t, &name), None);
}

#[test]
fn publish_sends_nothing_for_empty_item_list() {
    let name = String::from("Markets");
    let (delivered, res) = publish(&name, &Vec::new(), &Vec::new());
    assert!(res.is_ok());
    assert!(delivered.is_empty());
}

#[test]
fn format_status_builds_the_exact_request_body() {
    let name = String::from("Markets");
    let body = format_status(&name, &morning());
    assert_eq!(
        body,
        "status=[Markets] Morning\nEarlier #WSJ\nhttp://example.com/1\n\
         (Mon, 01 Jan 2024 12:00:00 GMT)&visibility=public"
    );
}

#[test]
fn whole_run_processes_every_feed() {
    let feeds = vec![
        FeedEntry { name: String::from("Markets"), url: String::from("http://example.com/a") },
        FeedEntry { name: String::from("World"), url: String::from("http://example.com/b") },
    ];
    let mut t = KvTable::new();
    let fetched = vec![Ok(channel_jan2()), Ok(channel_jan2())];
    let send_oks = vec![vec![true, true], vec![true, true]];
    let reports = sync_all(&mut t, &feeds, &fetched, &send_oks, 500);
    assert_eq!(reports.len(), 2);
    assert_eq!(reports[0].outcome, SyncOutcome::Synced);
    assert_eq!(reports[1].outcome, SyncOutcome::Synced);
    assert_eq!(
        wm_text(&t, &feeds[0].name),
        Some(String::from("2024-01-02 00:00:00"))
    );
    assert_eq!(
        wm_text(&t, &feeds[1].name),
        Some(String::from("2024-01-02 00:00:00"))
    );
}

#[test]
fn whole_run_aborts_on_a_failed_feed() {
    let feeds = vec![
        FeedEntry { name: String::from("Markets"), url: String::from("http://example.com/a") },
        FeedEntry { name: String::from("World"), url: String::from("http://example.com/b") },
    ];
    let mut t = KvTable::new();
    let fetched = vec![Err(SyncError::Fetch), Ok(channel_jan2())];
    let send_oks = vec![vec![], vec![true, true]];
    let reports = sync_all(&mut t, &feeds, &fetched, &send_oks, 500);
    assert_eq!(reports.len(), 1);
    assert_eq!(reports[0].outcome, SyncOutcome::Failed(SyncError::Fetch));
    assert_eq!(wm_text(&t, &feeds[1].name), None);
}

#[test]
fn whole_run_continues_past_a_locked_feed() {
    let feeds = vec![
        FeedEntry { name: String::from("Markets"), url: String::from("http://example.com/a") },
        FeedEntry { name: String::from("World"), url: String::from("http://example.com/b") },
    ];
    let mut t = KvTable::new();
    acquire(&mut t, &feeds[0].name, 400);
    let fetched = vec![Ok(channel_jan2()), Ok(channel_jan2())];
    let send_oks = vec![vec![true, true], vec![true, true]];
    let reports = sync_all(&mut t, &feeds, &fetched, &send_oks, 500);
    assert_eq!(reports.len(), 2);
    assert_eq!(reports[0].outcome, SyncOutcome::SkippedLocked);
    assert_eq!(reports[1].outcome, SyncOutcome::Synced);
    assert_eq!(wm_text(&t, &feeds[0].name), None);
    assert_eq!(
        wm_text(&t, &feeds[1].name),
        Some(String::from("2024-01-02 00:00:00"))
    );
}

#[test]
fn lock_decision_classifies_rows() {
    assert_eq!(lock_decision(None, 1000), LockDecision::Free);
    assert_eq!(lock_decision(Some(699), 1000), LockDecision::Stale);
    assert_eq!(lock_decision(Some(700), 1000), LockDecision::Held);
    assert_eq!(lock_decision(Some(1000), 1000), LockDecision::Held);
}
