use rss_sync::dt::Dt;
use rss_sync::feed::{filter_feeds, parse_channel, RawFeedEntry};
use rss_sync::SyncError;

fn feed_xml() -> String {
    let mut s = String::new();
    s.push_str("<rss version=\"2.0\"><channel>");
    s.push_str("<title>Markets</title><link>http://example.com</link>");
    s.push_str("<description>Market news</description>");
    s.push_str("<lastBuildDate>Tue, 02 Jan 2024 00:00:00 GMT</lastBuildDate>");
    s.push_str("<item><title>Evening</title><link>http://example.com/2</link>");
    s.push_str("<description>Later</description>");
    s.push_str("<pubDate>Mon, 01 Jan 2024 18:00:00 GMT</pubDate></item>");
    s.push_str("<item><title>Morning</title><link>http://example.com/1</link>");
    s.push_str("<description>Earlier</description>");
    s.push_str("<pubDate>Mon, 01 Jan 2024 12:00:00 GMT</pubDate></item>");
    s.push_str("</channel></rss>");
    s
}

#[test]
fn parse_channel_reads_build_date_and_items() {
    let xml = feed_xml();
    let c = parse_channel(xml.as_bytes()).expect("well-formed feed");
    assert_eq!(
        c.build_date,
        Dt { year: 2024, month: 1, day: 2, hour: 0, minute: 0, second: 0 }
    );
    assert_eq!(c.items.len(), 2);
    assert_eq!(c.items[0].title, "Evening");
    assert_eq!(
        c.items[0].pub_date,
        Dt { year: 2024, month: 1, day: 1, hour: 18, minute: 0, second: 0 }
    );
    assert_eq!(c.items[0].pub_date_text, "Mon, 01 Jan 2024 18:00:00 GMT");
    assert_eq!(c.items[1].title, "Morning");
    assert_eq!(
        c.items[1].pub_date,
        Dt { year: 2024, month: 1, day: 1, hour: 12, minute: 0, second: 0 }
    );
}

#[test]
fn parse_channel_rejects_garbage() {
    let r = parse_channel(b"this is not xml at all");
    assert_eq!(r.err(), Some(SyncError::Parse));
}

#[test]
fn parse_channel_rejects_missing_build_date() {
    let xml = "<rss version=\"2.0\"><channel><title>T</title>\
               <link>L</link><description>D</description></channel></rss>";
    let r = parse_channel(xml.as_bytes());
    assert_eq!(r.err(), Some(SyncError::Parse));
}

#[test]
fn parse_channel_rejects_unparseable_build_date() {
    let xml = "<rss version=\"2.0\"><channel><title>T</title>\
               <link>L</link><description>D</description>\
               <lastBuildDate>2024-01-02</lastBuildDate></channel></rss>";
    let r = parse_channel(xml.as_bytes());
    assert_eq!(r.err(), Some(SyncError::Parse));
}

#[test]
fn parse_channel_rejects_item_without_publish_date() {
    let xml = "<rss version=\"2.0\"><channel><title>T</title>\
               <link>L</link><description>D</description>\
               <lastBuildDate>Tue, 02 Jan 2024 00:00:00 GMT</lastBuildDate>\
               <item><title>A</title></item></channel></rss>";
    let r = parse_channel(xml.as_bytes());
    assert_eq!(r.err(), Some(SyncError::Parse));
}

#[test]
fn filter_feeds_skips_entries_missing_a_field() {
    let raw = vec![
        RawFeedEntry {
            name: Some(String::from("Markets")),
            url: Some(String::from("http://example.com/a")),
        },
        RawFeedEntry { name: Some(String::from("No url")), url: None },
        RawFeedEntry { name: None, url: Some(String::from("http://example.com/b")) },
        RawFeedEntry {
            name: Some(String::from("World")),
            url: Some(String::from("http://example.com/c")),
        },
    ];
    let feeds = filter_feeds(&raw);
    assert_eq!(feeds.len(), 2);
    assert_eq!(feeds[0].name, "Markets");
    assert_eq!(feeds[0].url, "http://example.com/a");
    assert_eq!(feeds[1].name, "World");
    assert_eq!(feeds[1].url, "http://example.com/c");
}

#[test]
fn filter_feeds_keeps_order_and_empty_list() {
    let feeds = filter_feeds(&Vec::new());
    assert_eq!(feeds.len(), 0);
}
