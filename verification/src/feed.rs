use chrono::{Datelike, Timelike};

use crate::dt::{dt_valid, Dt};
use crate::SyncError;
use vstd::prelude::*;

verus! {

/// One feed item as the sync core reads it: the text fields verbatim from
/// the feed (empty where the feed had none) and the parsed publish date.
pub struct Item {
    pub title: String,
    pub description: String,
    pub link: String,
    pub pub_date_text: String,
    pub pub_date: Dt,
}

/// Mathematical content of an `Item`.
pub struct ItemV {
    pub title: Seq<char>,
    pub description: Seq<char>,
    pub link: Seq<char>,
    pub pub_date_text: Seq<char>,
    pub pub_date: Dt,
}

impl View for Item {
    type V = ItemV;

    open spec fn view(&self) -> ItemV {
        (ItemV {
            title: self.title@,
            description: self.description@,
            link: self.link@,
            pub_date_text: self.pub_date_text@,
            pub_date: self.pub_date,
        })
    }
}

impl Clone for Item {
    /// Clones the item, field for field.
    fn clone(&self) -> (r: Item)
        ensures
            r@ == self@,
    {
        Item {
            title: self.title.clone(),
            description: self.description.clone(),
            link: self.link.clone(),
            pub_date_text: self.pub_date_text.clone(),
            pub_date: self.pub_date,
        }
    }
}

/// One fetch result: the channel's build date and its items, newest
/// first, as the feed publishes them.
pub struct Channel {
    pub build_date: Dt,
    pub items: Vec<Item>,
}

/// Mathematical content of a `Channel`.
pub struct ChannelV {
    pub build_date: Dt,
    pub items: Seq<ItemV>,
}

impl View for Channel {
    type V = ChannelV;

    open spec fn view(&self) -> ChannelV {
        (ChannelV { build_date: self.build_date, items: self.items@.map_values(|it: Item| it@) })
    }
}

/// Every date carried by the channel is a well-formed calendar date.
pub open spec fn channel_wf(c: ChannelV) -> bool {
    &&& dt_valid(c.build_date)
    &&& forall|i: int| 0 <= i < c.items.len() ==> dt_valid(#[trigger] c.items[i].pub_date)
}

/// A fetched feed exactly as the feed reader hands it over: every field
/// optional text.
pub struct RawItem {
    pub title: Option<String>,
    pub description: Option<String>,
    pub link: Option<String>,
    pub pub_date: Option<String>,
}

/// Mathematical content of a `RawItem`.
pub struct RawItemV {
    pub title: Option<Seq<char>>,
    pub description: Option<Seq<char>>,
    pub link: Option<Seq<char>>,
    pub pub_date: Option<Seq<char>>,
}

pub open spec fn opt_text(o: Option<String>) -> Option<Seq<char>> {
    match o {
        Some(s) => Some(s@),
        None => None,
    }
}

impl View for RawItem {
    type V = RawItemV;

    open spec fn view(&self) -> RawItemV {
        (RawItemV {
            title: opt_text(self.title),
            description: opt_text(self.description),
            link: opt_text(self.link),
            pub_date: opt_text(self.pub_date),
        })
    }
}

/// A feed body as read, before the sync core interprets dates.
pub struct RawChannel {
    pub build_date: Option<String>,
    pub items: Vec<RawItem>,
}

/// Mathematical content of a `RawChannel`.
pub struct RawChannelV {
    pub build_date: Option<Seq<char>>,
    pub items: Seq<RawItemV>,
}

impl View for RawChannel {
    type V = RawChannelV;

    open spec fn view(&self) -> RawChannelV {
        (RawChannelV {
            build_date: opt_text(self.build_date),
            items: self.items@.map_values(|it: RawItem| it@),
        })
    }
}

/// What the feed reader makes of a body: the channel's build-date text
/// and each item's text fields, or nothing when the body is not a
/// well-formed feed. Depends on the bytes alone.
pub uninterp spec fn rss_parse(body: Seq<u8>) -> Option<RawChannelV>;

/// Relies on rss::Channel::read_from to parse a feed body; the remaining
/// calls only copy the channel's text fields out into plain values.
#[verifier::external_body]
fn read_channel(body: &[u8]) -> (r: Option<RawChannel>)
    ensures
        match r {
            Some(c) => rss_parse(body@) == Some(c@),
            None => rss_parse(body@) is None,
        },
{
    match rss::Channel::read_from(body) {
        Ok(c) => Some(RawChannel {
            build_date: c.last_build_date().map(|s| s.to_string()),
            items: c.items().iter().map(|i| RawItem {
                title: i.title().map(|s| s.to_string()),
                description: i.description().map(|s| s.to_string()),
                link: i.link().map(|s| s.to_string()),
                pub_date: i.pub_date().map(|s| s.to_string()),
            }).collect(),
        }),
        Err(_) => None,
    }
}

/// What chrono makes of a date string in the fixed feed date format
/// `%a, %d %b %Y %H:%M:%S GMT`. Depends on the characters alone.
pub uninterp spec fn feed_date_parse(s: Seq<char>) -> Option<Dt>;

/// Relies on chrono::NaiveDateTime::parse_from_str with the fixed feed
/// date format; the parsed value is copied out field by field.
#[verifier::external_body]
fn parse_feed_date_raw(s: &str) -> (r: Option<Dt>)
    ensures
        r == feed_date_parse(s@),
{
    match chrono::NaiveDateTime::parse_from_str(s, "%a, %d %b %Y %H:%M:%S GMT") {
        Ok(d) => Some(Dt {
            year: d.year() as u32,
            month: d.month(),
            day: d.day(),
            hour: d.hour(),
            minute: d.minute(),
            second: d.second(),
        }),
        Err(_) => None,
    }
}

pub open spec fn or_empty(o: Option<Seq<char>>) -> Seq<char> {
    match o {
        Some(s) => s,
        None => Seq::empty(),
    }
}

/// How one raw item is interpreted: its publish date must be present,
/// parseable in the fixed format and a real calendar date; missing text
/// fields become empty.
pub open spec fn conv_item(r: RawItemV) -> Option<ItemV> {
    match r.pub_date {
        Some(txt) => match feed_date_parse(txt) {
            Some(d) => if dt_valid(d) {
                Some(
                    (ItemV {
                        title: or_empty(r.title),
                        description: or_empty(r.description),
                        link: or_empty(r.link),
                        pub_date_text: txt,
                        pub_date: d,
                    }),
                )
            } else {
                None
            },
            None => None,
        },
        None => None,
    }
}

/// All raw items interpreted in order; fails as soon as one fails.
pub open spec fn conv_items(rs: Seq<RawItemV>) -> Option<Seq<ItemV>>
    decreases rs.len(),
{
    if rs.len() == 0 {
        Some(Seq::empty())
    } else {
        match conv_items(rs.drop_last()) {
            Some(pre) => match conv_item(rs.last()) {
                Some(it) => Some(pre.push(it)),
                None => None,
            },
            None => None,
        }
    }
}

/// What a fetched body yields: a channel when the body is a well-formed
/// feed, carries a build date in the fixed format, and every item has a
/// parseable publish date; nothing otherwise.
pub open spec fn channel_of(body: Seq<u8>) -> Option<ChannelV> {
    match rss_parse(body) {
        Some(rc) => match rc.build_date {
            Some(bt) => match feed_date_parse(bt) {
                Some(bd) => if dt_valid(bd) {
                    match conv_items(rc.items) {
                        Some(its) => Some((ChannelV { build_date: bd, items: its })),
                        None => None,
                    }
                } else {
                    None
                },
                None => None,
            },
            None => None,
        },
        None => None,
    }
}

proof fn lemma_conv_items_none(rs: Seq<RawItemV>, j: int)
    requires
        0 <= j < rs.len(),
        conv_item(rs[j]) is None,
    ensures
        conv_items(rs) is None,
    decreases rs.len(),
{
    if j == rs.len() - 1 {
    } else {
        lemma_conv_items_none(rs.drop_last(), j);
    }
}

proof fn lemma_conv_items_valid(rs: Seq<RawItemV>)
    ensures
        conv_items(rs) matches Some(its) ==> forall|i: int|
            0 <= i < its.len() ==> dt_valid(#[trigger] its[i].pub_date),
    decreases rs.len(),
{
    if rs.len() > 0 {
        lemma_conv_items_valid(rs.drop_last());
    }
}

fn clone_or_empty(o: &Option<String>) -> (r: String)
    ensures
        r@ == or_empty(opt_text(*o)),
{
    match o {
        Some(s) => s.clone(),
        None => String::new(),
    }
}

/// Interprets a fetched feed body. A body that is not a well-formed
/// feed, a channel without a build date, or any date outside the fixed
/// format is a parse failure, fatal for the run.
#[verifier::loop_isolation(false)]
pub fn parse_channel(body: &[u8]) -> (r: Result<Channel, SyncError>)
    ensures
        match r {
            Ok(c) => channel_of(body@) == Some(c@) && channel_wf(c@),
            Err(e) => channel_of(body@) is None && e == SyncError::Parse,
        },
{
    let raw = match read_channel(body) {
        Some(raw) => raw,
        None => {
            return Err(SyncError::Parse);
        },
    };
    let bd_text = match &raw.build_date {
        Some(t) => t,
        None => {
            return Err(SyncError::Parse);
        },
    };
    let bd = match parse_feed_date_raw(bd_text.as_str()) {
        Some(d) => d,
        None => {
            return Err(SyncError::Parse);
        },
    };
    if !bd.is_valid() {
        return Err(SyncError::Parse);
    }
    let ghost raws = raw@.items;
    let n = raw.items.len();
    let mut items: Vec<Item> = Vec::new();
    let mut i: usize = 0;
    while i < n
        invariant
            n == raw.items@.len(),
            raws == raw@.items,
            raw@.items.len() == n,
            i <= n,
            conv_items(raws.take(i as int)) == Some(items@.map_values(|it: Item| it@)),
        decreases n - i,
    {
        let ghost pre = items@.map_values(|it: Item| it@);
        let cur = &raw.items[i];
        let pd_text = match &cur.pub_date {
            Some(t) => t.clone(),
            None => {
                proof {
                    assert(raws[i as int] == raw.items@[i as int]@);
                    lemma_conv_items_none(raws, i as int);
                }
                return Err(SyncError::Parse);
            },
        };
        let pd = match parse_feed_date_raw(pd_text.as_str()) {
            Some(d) => d,
            None => {
                proof {
                    assert(raws[i as int] == raw.items@[i as int]@);
                    lemma_conv_items_none(raws, i as int);
                }
                return Err(SyncError::Parse);
            },
        };
        if !pd.is_valid() {
            proof {
                assert(raws[i as int] == raw.items@[i as int]@);
                lemma_conv_items_none(raws, i as int);
            }
            return Err(SyncError::Parse);
        }
        let it = Item {
            title: clone_or_empty(&cur.title),
            description: clone_or_empty(&cur.description),
            link: clone_or_empty(&cur.link),
            pub_date_text: pd_text,
            pub_date: pd,
        };
        items.push(it);
        proof {
            assert(raws[i as int] == raw.items@[i as int]@);
            assert(raws.take(i as int + 1).drop_last() =~= raws.take(i as int));
            assert(raws.take(i as int + 1).last() == raws[i as int]);
            assert(conv_item(raws[i as int]) matches Some(x) && x == items@.map_values(
                |it: Item| it@,
            ).last());
            assert(items@.map_values(|it: Item| it@) =~= pre.push(
                items@.map_values(|it: Item| it@).last(),
            ));
        }
        i = i + 1;
    }
    proof {
        assert(raws.take(n as int) =~= raws);
        lemma_conv_items_valid(raws);
    }
    Ok(Channel { build_date: bd, items })
}

/// One entry of the externally fetched feed list, before validation.
pub struct RawFeedEntry {
    pub name: Option<String>,
    pub url: Option<String>,
}

/// Mathematical content of a `RawFeedEntry`.
pub struct RawFeedEntryV {
    pub name: Option<Seq<char>>,
    pub url: Option<Seq<char>>,
}

impl View for RawFeedEntry {
    type V = RawFeedEntryV;

    open spec fn view(&self) -> RawFeedEntryV {
        (RawFeedEntryV { name: opt_text(self.name), url: opt_text(self.url) })
    }
}

/// A configured feed: its unique name and its location.
pub struct FeedEntry {
    pub name: String,
    pub url: String,
}

/// Mathematical content of a `FeedEntry`.
pub struct FeedEntryV {
    pub name: Seq<char>,
    pub url: Seq<char>,
}

impl View for FeedEntry {
    type V = FeedEntryV;

    open spec fn view(&self) -> FeedEntryV {
        (FeedEntryV { name: self.name@, url: self.url@ })
    }
}

/// The well-formed entries of a raw feed list, in order: entries missing
/// a name or a url are skipped silently.
pub open spec fn feeds_filter(rs: Seq<RawFeedEntryV>) -> Seq<FeedEntryV>
    decreases rs.len(),
{
    if rs.len() == 0 {
        Seq::empty()
    } else {
        feeds_filter(rs.drop_last()) + (match (rs.last().name, rs.last().url) {
            (Some(n), Some(u)) => seq![(FeedEntryV { name: n, url: u })],
            _ => Seq::empty(),
        })
    }
}

/// Keeps the feed-list entries that carry both a name and a url,
/// skipping malformed entries silently.
pub fn filter_feeds(raw: &Vec<RawFeedEntry>) -> (r: Vec<FeedEntry>)
    ensures
        r@.map_values(|f: FeedEntry| f@) == feeds_filter(raw@.map_values(|e: RawFeedEntry| e@)),
{
    let ghost raws = raw@.map_values(|e: RawFeedEntry| e@);
    let n = raw.len();
    let mut out: Vec<FeedEntry> = Vec::new();
    let mut i: usize = 0;
    while i < n
        invariant
            n == raw@.len(),
            raws == raw@.map_values(|e: RawFeedEntry| e@),
            i <= n,
            out@.map_values(|f: FeedEntry| f@) == feeds_filter(raws.take(i as int)),
        decreases n - i,
    {
        match (&raw[i].name, &raw[i].url) {
            (Some(name), Some(url)) => {
                out.push(FeedEntry { name: name.clone(), url: url.clone() });
            },
            _ => {},
        }
        proof {
            assert(raws.take(i as int + 1).drop_last() =~= raws.take(i as int));
            assert(raws.take(i as int + 1).last() == raws[i as int]);
            assert(out@.map_values(|f: FeedEntry| f@) =~= feeds_filter(raws.take(i as int + 1)));
        }
        i = i + 1;
    }
    proof {
        assert(raws.take(n as int) =~= raws);
    }
    out
}

} // verus!
