use crate::dt::{dt_le, dt_lt, dt_valid, fmt_dt, lemma_storage_roundtrip, parse_dt, Dt};
use crate::feed::{channel_wf, Channel, ChannelV, FeedEntry, FeedEntryV, Item, ItemV};
use crate::locks::{acquire, is_locked, lock_key, lock_live, release};
use crate::publish::{publish, sent_count, status_body};
use crate::store::{KvKey, KvTable, KvVal};
use crate::watermark::{wm_get_or_init, wm_key, wm_update};
use crate::SyncError;
use vstd::prelude::*;

verus! {

/// How one feed's run ended: skipped because another run holds the lock,
/// completed, or aborted by an error.
#[derive(Clone, Copy, PartialEq, Eq, Structural, Debug)]
pub enum SyncOutcome {
    SkippedLocked,
    Synced,
    Failed(SyncError),
}

/// What one feed's run did: its outcome and the request bodies that were
/// delivered to the posting transport, oldest first.
pub struct SyncReport {
    pub outcome: SyncOutcome,
    pub delivered: Vec<String>,
}

/// Mathematical content of a run: the store afterwards, the outcome, and
/// the delivered request bodies.
pub struct SyncStepV {
    pub store: Map<KvKey, KvVal>,
    pub outcome: SyncOutcome,
    pub delivered: Seq<Seq<char>>,
}

/// The new-item set, oldest first: the items whose publish date is
/// strictly after the watermark, in reverse of the fetched (newest-first)
/// order.
pub open spec fn selected(items: Seq<ItemV>, w: Dt) -> Seq<ItemV>
    decreases items.len(),
{
    if items.len() == 0 {
        Seq::empty()
    } else {
        selected(items.drop_first(), w) + (if dt_lt(w, items[0].pub_date) {
            seq![items[0]]
        } else {
            Seq::empty()
        })
    }
}

pub proof fn lemma_selected_len(items: Seq<ItemV>, w: Dt)
    ensures
        selected(items, w).len() <= items.len(),
    decreases items.len(),
{
    if items.len() > 0 {
        lemma_selected_len(items.drop_first(), w);
    }
}

/// Every selected item comes from the fetched items and is strictly
/// newer than the watermark; items at or before the watermark are
/// excluded.
pub proof fn lemma_selected_sound(items: Seq<ItemV>, w: Dt)
    ensures
        forall|j: int|
            #![trigger selected(items, w)[j]]
            0 <= j < selected(items, w).len() ==> dt_lt(w, selected(items, w)[j].pub_date)
                && items.contains(selected(items, w)[j]),
    decreases items.len(),
{
    if items.len() > 0 {
        lemma_selected_sound(items.drop_first(), w);
        assert forall|j: int|
            #![trigger selected(items, w)[j]]
            0 <= j < selected(items, w).len() implies dt_lt(w, selected(items, w)[j].pub_date)
            && items.contains(selected(items, w)[j]) by {
            let rest = selected(items.drop_first(), w);
            if j < rest.len() {
                assert(selected(items, w)[j] == rest[j]);
                let x = rest[j];
                assert(items.drop_first().contains(x));
                let i = choose|i: int| 0 <= i < items.drop_first().len() && items.drop_first()[i]
                    == x;
                assert(items[i + 1] == x);
            } else {
                assert(selected(items, w)[j] == items[0]);
            }
        }
    }
}

/// An item at or before the watermark is never selected.
pub proof fn lemma_selected_excludes(items: Seq<ItemV>, w: Dt, x: ItemV)
    requires
        dt_le(x.pub_date, w),
    ensures
        !selected(items, w).contains(x),
{
    lemma_selected_sound(items, w);
    if selected(items, w).contains(x) {
        let j = choose|j: int| 0 <= j < selected(items, w).len() && selected(items, w)[j] == x;
        assert(dt_lt(w, selected(items, w)[j].pub_date));
    }
}

/// Every fetched item strictly newer than the watermark is selected.
pub proof fn lemma_selected_complete(items: Seq<ItemV>, w: Dt, i: int)
    requires
        0 <= i < items.len(),
        dt_lt(w, items[i].pub_date),
    ensures
        selected(items, w).contains(items[i]),
    decreases items.len(),
{
    if i == 0 {
        let sel = selected(items, w);
        assert(sel[sel.len() - 1] == items[0]);
    } else {
        lemma_selected_complete(items.drop_first(), w, i - 1);
        let rest = selected(items.drop_first(), w);
        let j = choose|j: int| 0 <= j < rest.len() && rest[j] == items.drop_first()[i - 1];
        assert(selected(items, w)[j] == rest[j]);
    }
}

/// When the fetched items are newest first, the selection is delivered in
/// ascending publish-date order.
pub proof fn lemma_selected_ascending(items: Seq<ItemV>, w: Dt)
    requires
        forall|i: int, j: int|
            0 <= i <= j < items.len() ==> dt_le(
                #[trigger] items[j].pub_date,
                #[trigger] items[i].pub_date,
            ),
    ensures
        forall|i: int, j: int|
            #![trigger selected(items, w)[i], selected(items, w)[j]]
            0 <= i <= j < selected(items, w).len() ==> dt_le(
                selected(items, w)[i].pub_date,
                selected(items, w)[j].pub_date,
            ),
    decreases items.len(),
{
    if items.len() > 0 {
        let rest = items.drop_first();
        assert forall|i: int, j: int| 0 <= i <= j < rest.len() implies dt_le(
            #[trigger] rest[j].pub_date,
            #[trigger] rest[i].pub_date,
        ) by {
            assert(rest[j] == items[j + 1] && rest[i] == items[i + 1]);
        }
        lemma_selected_ascending(rest, w);
        lemma_selected_sound(rest, w);
        let sel = selected(items, w);
        let selr = selected(rest, w);
        assert forall|i: int, j: int|
            #![trigger sel[i], sel[j]]
            0 <= i <= j < sel.len() implies dt_le(sel[i].pub_date, sel[j].pub_date) by {
            if j < selr.len() {
                assert(sel[i] == selr[i] && sel[j] == selr[j]);
            } else {
                assert(sel[j] == items[0]);
                if i < selr.len() {
                    assert(sel[i] == selr[i]);
                    let x = selr[i];
                    assert(rest.contains(x));
                    let ri = choose|ri: int| 0 <= ri < rest.len() && rest[ri] == x;
                    assert(rest[ri] == items[ri + 1]);
                    assert(dt_le(items[ri + 1].pub_date, items[0].pub_date));
                }
            }
        }
    }
}

/// Computes the new-item set: every item strictly newer than the
/// watermark, reversed into oldest-first order.
#[verifier::loop_isolation(false)]
pub fn select_new_items(items: &Vec<Item>, w: &Dt) -> (r: Vec<Item>)
    ensures
        r@.map_values(|it: Item| it@) == selected(items@.map_values(|it: Item| it@), *w),
        r@.len() <= items@.len(),
{
    let ghost itemsv = items@.map_values(|it: Item| it@);
    let mut out: Vec<Item> = Vec::new();
    let mut i: usize = items.len();
    while i > 0
        invariant
            i <= items@.len(),
            out@.map_values(|it: Item| it@) == selected(itemsv.skip(i as int), *w),
            out@.len() <= items@.len() - i,
        decreases i,
    {
        i = i - 1;
        if w.before(&items[i].pub_date) {
            out.push(items[i].clone());
        }
        proof {
            assert(itemsv.skip(i as int).drop_first() =~= itemsv.skip(i as int + 1));
            assert(itemsv.skip(i as int)[0] == itemsv[i as int]);
            assert(itemsv[i as int] == items@[i as int]@);
            assert(out@.map_values(|it: Item| it@) =~= selected(itemsv.skip(i as int), *w));
        }
    }
    proof {
        assert(itemsv.skip(0) =~= itemsv);
    }
    out
}

pub open spec fn fetched_view(r: Result<Channel, SyncError>) -> Result<ChannelV, SyncError> {
    match r {
        Ok(c) => Ok(c@),
        Err(e) => Err(e),
    }
}

/// The watermark a completed run records: the channel's build date, or
/// the already-stored date where that one is newer. The watermark never
/// moves backwards, also when a feed's reported build date regresses.
pub open spec fn advanced_watermark(w: Dt, build: Dt) -> Dt {
    if dt_lt(w, build) {
        build
    } else {
        w
    }
}

/// The diff-and-publish phase of a run, after the lock is held and the
/// watermark `w` is known; `m2` is the store at that point. Publishes
/// only when the channel's build date is strictly newer than `w`. Every
/// completed run rewrites the watermark row (also when nothing was
/// published), but never with a date older than `w`, and releases the
/// lock. A failed send leaves the watermark untouched but still releases
/// the lock.
pub open spec fn sync_publish_phase(
    m2: Map<KvKey, KvVal>,
    name: Seq<char>,
    ch: ChannelV,
    w: Dt,
    send_ok: Seq<bool>,
    now: int,
) -> SyncStepV {
    if dt_lt(w, ch.build_date) {
        let sel = selected(ch.items, w);
        let k = sent_count(send_ok, sel.len() as int);
        let delivered = Seq::new(k as nat, |i: int| status_body(name, sel[i]));
        if k == sel.len() {
            (SyncStepV {
                store: m2.insert(
                    wm_key(name),
                    (KvVal { value: fmt_dt(advanced_watermark(w, ch.build_date)), updated_at: now }),
                ).remove(lock_key(name)),
                outcome: SyncOutcome::Synced,
                delivered: delivered,
            })
        } else {
            (SyncStepV {
                store: m2.remove(lock_key(name)),
                outcome: SyncOutcome::Failed(SyncError::Publish),
                delivered: delivered,
            })
        }
    } else {
        (SyncStepV {
            store: m2.insert(
                wm_key(name),
                (KvVal { value: fmt_dt(advanced_watermark(w, ch.build_date)), updated_at: now }),
            ).remove(lock_key(name)),
            outcome: SyncOutcome::Synced,
            delivered: Seq::empty(),
        })
    }
}

/// One feed's whole run over the store `m`. A live lock skips the run
/// and changes nothing. Otherwise the lock is taken, the fetch outcome
/// is examined, the watermark is read (bootstrapping a never-seen feed
/// with the channel's build date, which publishes nothing), the
/// new-item set is published oldest first, the watermark advances to the
/// channel's build date (never backwards), and the lock is released on
/// every exit path.
pub open spec fn sync_step(
    m: Map<KvKey, KvVal>,
    name: Seq<char>,
    fetched: Result<ChannelV, SyncError>,
    send_ok: Seq<bool>,
    now: int,
) -> SyncStepV {
    if lock_live(m, name, now) {
        (SyncStepV { store: m, outcome: SyncOutcome::SkippedLocked, delivered: Seq::empty() })
    } else {
        let m1 = m.insert(lock_key(name), (KvVal { value: Seq::empty(), updated_at: now }));
        match fetched {
            Err(e) => (SyncStepV {
                store: m1.remove(lock_key(name)),
                outcome: SyncOutcome::Failed(e),
                delivered: Seq::empty(),
            }),
            Ok(ch) => {
                if m1.contains_key(wm_key(name)) {
                    match parse_dt(m1[wm_key(name)].value) {
                        Some(w) => sync_publish_phase(m1, name, ch, w, send_ok, now),
                        None => (SyncStepV {
                            store: m1.remove(lock_key(name)),
                            outcome: SyncOutcome::Failed(SyncError::Parse),
                            delivered: Seq::empty(),
                        }),
                    }
                } else {
                    let m2 = m1.insert(
                        wm_key(name),
                        (KvVal { value: fmt_dt(ch.build_date), updated_at: now }),
                    );
                    sync_publish_phase(m2, name, ch, ch.build_date, send_ok, now)
                }
            },
        }
    }
}

/// Runs one feed's sync cycle against the store, exactly as `sync_step`
/// describes it. `fetched` is what the fetch phase produced; `send_ok`
/// gives each attempted send's outcome at the posting transport.
pub fn sync_feed(
    t: &mut KvTable,
    name: &String,
    fetched: &Result<Channel, SyncError>,
    send_ok: &Vec<bool>,
    now: i64,
) -> (r: SyncReport)
    requires
        old(t).wf(),
        now >= 0,
        (fetched matches Ok(c) ==> channel_wf(c@) && send_ok@.len() >= c.items@.len()),
    ensures
        final(t).wf(),
        ({
            let s = sync_step(old(t)@, name@, fetched_view(*fetched), send_ok@, now as int);
            &&& final(t)@ == s.store
            &&& r.outcome == s.outcome
            &&& r.delivered@.map_values(|x: String| x@) == s.delivered
        }),
{
    let ghost m0 = t@;
    let ghost s = sync_step(m0, name@, fetched_view(*fetched), send_ok@, now as int);
    if is_locked(t, name, now) {
        proof {
            assert(Seq::<String>::empty().map_values(|x: String| x@) =~= s.delivered);
        }
        return SyncReport { outcome: SyncOutcome::SkippedLocked, delivered: Vec::new() };
    }
    acquire(t, name, now);
    let ghost m1 = m0.insert(lock_key(name@), (KvVal { value: Seq::empty(), updated_at: now as int }));
    proof {
        assert(t@ =~= m1);
    }
    let ch = match fetched {
        Err(e) => {
            release(t, name);
            proof {
                assert(t@ =~= s.store);
                assert(Seq::<String>::empty().map_values(|x: String| x@) =~= s.delivered);
            }
            return SyncReport { outcome: SyncOutcome::Failed(*e), delivered: Vec::new() };
        },
        Ok(ch) => ch,
    };
    let w = match wm_get_or_init(t, name, &ch.build_date, now) {
        Ok(w) => w,
        Err(e) => {
            release(t, name);
            proof {
                assert(t@ =~= s.store);
                assert(Seq::<String>::empty().map_values(|x: String| x@) =~= s.delivered);
            }
            return SyncReport { outcome: SyncOutcome::Failed(e), delivered: Vec::new() };
        },
    };
    let ghost m2 = t@;
    if w.before(&ch.build_date) {
        let sel = select_new_items(&ch.items, &w);
        proof {
            lemma_selected_len(ch@.items, w);
        }
        let (delivered, res) = publish(name, &sel, send_ok);
        match res {
            Ok(()) => {
                proof {
                    assert(advanced_watermark(w, ch.build_date) == ch.build_date);
                }
                wm_update(t, name, &ch.build_date, now);
                release(t, name);
                proof {
                    assert(t@ =~= s.store);
                    assert(delivered@.map_values(|x: String| x@) =~= s.delivered);
                }
                SyncReport { outcome: SyncOutcome::Synced, delivered }
            },
            Err(_) => {
                release(t, name);
                proof {
                    assert(t@ =~= s.store);
                    assert(delivered@.map_values(|x: String| x@) =~= s.delivered);
                }
                SyncReport { outcome: SyncOutcome::Failed(SyncError::Publish), delivered }
            },
        }
    } else {
        proof {
            assert(advanced_watermark(w, ch.build_date) == w);
            assert(dt_valid(w));
        }
        wm_update(t, name, &w, now);
        release(t, name);
        proof {
            assert(t@ =~= s.store);
            assert(Seq::<String>::empty().map_values(|x: String| x@) =~= s.delivered);
        }
        SyncReport { outcome: SyncOutcome::Synced, delivered: Vec::new() }
    }
}


/// A live lock skips the run entirely: no fetch, no publish, no store
/// change.
pub proof fn lemma_live_lock_skips(
    m: Map<KvKey, KvVal>,
    name: Seq<char>,
    fetched: Result<ChannelV, SyncError>,
    send_ok: Seq<bool>,
    now: int,
)
    requires
        lock_live(m, name, now),
    ensures
        ({
            let s = sync_step(m, name, fetched, send_ok, now);
            &&& s.store == m
            &&& s.outcome == SyncOutcome::SkippedLocked
            &&& s.delivered == Seq::<Seq<char>>::empty()
        }),
{
}

/// A lock older than the staleness window does not stop a run: the run
/// is not skipped.
pub proof fn lemma_stale_lock_reclaimed(
    m: Map<KvKey, KvVal>,
    name: Seq<char>,
    fetched: Result<ChannelV, SyncError>,
    send_ok: Seq<bool>,
    now: int,
)
    requires
        m.contains_key(lock_key(name)),
        m[lock_key(name)].updated_at < now - 300,
    ensures
        sync_step(m, name, fetched, send_ok, now).outcome != SyncOutcome::SkippedLocked,
{
}

/// The watermark a run sets out from: the stored one where a parseable
/// row exists, the given default otherwise.
pub open spec fn stored_watermark_or(m: Map<KvKey, KvVal>, name: Seq<char>, default: Dt) -> Dt {
    if m.contains_key(wm_key(name)) {
        match parse_dt(m[wm_key(name)].value) {
            Some(w) => w,
            None => default,
        }
    } else {
        default
    }
}

/// A completed run leaves the watermark at the channel's build date, or
/// at the already-stored date where that one is newer, and holds no
/// lock.
pub proof fn lemma_synced_sets_watermark(
    m: Map<KvKey, KvVal>,
    name: Seq<char>,
    ch: ChannelV,
    send_ok: Seq<bool>,
    now: int,
)
    requires
        sync_step(m, name, Ok(ch), send_ok, now).outcome == SyncOutcome::Synced,
    ensures
        ({
            let s = sync_step(m, name, Ok(ch), send_ok, now);
            let w0 = stored_watermark_or(m, name, ch.build_date);
            &&& s.store.contains_key(wm_key(name))
            &&& s.store[wm_key(name)].value == fmt_dt(advanced_watermark(w0, ch.build_date))
            &&& !s.store.contains_key(lock_key(name))
        }),
{
    assert(wm_key(name) != lock_key(name));
}

/// A feed with no stored watermark publishes nothing on its first run;
/// the channel's build date becomes the stored watermark.
pub proof fn lemma_first_run_publishes_nothing(
    m: Map<KvKey, KvVal>,
    name: Seq<char>,
    ch: ChannelV,
    send_ok: Seq<bool>,
    now: int,
)
    requires
        !m.contains_key(wm_key(name)),
        !lock_live(m, name, now),
    ensures
        ({
            let s = sync_step(m, name, Ok(ch), send_ok, now);
            &&& s.outcome == SyncOutcome::Synced
            &&& s.delivered == Seq::<Seq<char>>::empty()
            &&& s.store.contains_key(wm_key(name))
            &&& s.store[wm_key(name)].value == fmt_dt(ch.build_date)
        }),
{
    assert(wm_key(name) != lock_key(name));
}

/// The watermark never moves backwards: a completed run records the
/// channel's build date, or keeps the stored date where the build date
/// is older, so what the row holds afterwards is at or after what it
/// held before.
pub proof fn lemma_watermark_monotone(
    m: Map<KvKey, KvVal>,
    name: Seq<char>,
    ch: ChannelV,
    send_ok: Seq<bool>,
    now: int,
    w0: Dt,
)
    requires
        channel_wf(ch),
        m.contains_key(wm_key(name)),
        parse_dt(m[wm_key(name)].value) == Some(w0),
        sync_step(m, name, Ok(ch), send_ok, now).outcome == SyncOutcome::Synced,
    ensures
        ({
            let s = sync_step(m, name, Ok(ch), send_ok, now);
            &&& parse_dt(s.store[wm_key(name)].value) == Some(advanced_watermark(w0, ch.build_date))
            &&& dt_le(w0, advanced_watermark(w0, ch.build_date))
        }),
{
    lemma_synced_sets_watermark(m, name, ch, send_ok, now);
    assert(dt_valid(w0));
    lemma_storage_roundtrip(advanced_watermark(w0, ch.build_date));
}

/// Idempotence: a second run over the same channel, right after a
/// completed one, publishes nothing and leaves the watermark value
/// unchanged.
pub proof fn lemma_sync_idempotent(
    m: Map<KvKey, KvVal>,
    name: Seq<char>,
    ch: ChannelV,
    send_ok1: Seq<bool>,
    send_ok2: Seq<bool>,
    now1: int,
    now2: int,
)
    requires
        channel_wf(ch),
        sync_step(m, name, Ok(ch), send_ok1, now1).outcome == SyncOutcome::Synced,
    ensures
        ({
            let s1 = sync_step(m, name, Ok(ch), send_ok1, now1);
            let s2 = sync_step(s1.store, name, Ok(ch), send_ok2, now2);
            &&& s2.outcome == SyncOutcome::Synced
            &&& s2.delivered == Seq::<Seq<char>>::empty()
            &&& s2.store[wm_key(name)].value == s1.store[wm_key(name)].value
        }),
{
    lemma_synced_sets_watermark(m, name, ch, send_ok1, now1);
    let w0 = stored_watermark_or(m, name, ch.build_date);
    let d1 = advanced_watermark(w0, ch.build_date);
    assert(dt_valid(w0));
    lemma_storage_roundtrip(d1);
    let s1 = sync_step(m, name, Ok(ch), send_ok1, now1);
    assert(!lock_live(s1.store, name, now2));
    assert(wm_key(name) != lock_key(name));
    let m1 = s1.store.insert(lock_key(name), (KvVal { value: Seq::empty(), updated_at: now2 }));
    assert(m1[wm_key(name)].value == fmt_dt(d1));
    assert(parse_dt(m1[wm_key(name)].value) == Some(d1));
    assert(!dt_lt(d1, ch.build_date));
    assert(advanced_watermark(d1, ch.build_date) == d1);
}


/// Mathematical content of one feed's report in a whole run.
pub struct ReportV {
    pub outcome: SyncOutcome,
    pub delivered: Seq<Seq<char>>,
}

pub open spec fn report_view(r: SyncReport) -> ReportV {
    (ReportV { outcome: r.outcome, delivered: r.delivered@.map_values(|x: String| x@) })
}

/// Mathematical content of a whole run: the store afterwards and the
/// reports of the feeds that were processed.
pub struct SyncAllV {
    pub store: Map<KvKey, KvVal>,
    pub reports: Seq<ReportV>,
}

/// A whole run over the configured feeds, in order, each feed completing
/// before the next begins. A feed whose run fails aborts the remaining
/// feeds; a skipped (locked) feed does not.
pub open spec fn sync_all_step(
    m: Map<KvKey, KvVal>,
    feeds: Seq<FeedEntryV>,
    fetched: Seq<Result<ChannelV, SyncError>>,
    send_oks: Seq<Seq<bool>>,
    now: int,
) -> SyncAllV
    decreases feeds.len(),
{
    if feeds.len() == 0 {
        (SyncAllV { store: m, reports: Seq::empty() })
    } else {
        let s = sync_step(m, feeds[0].name, fetched[0], send_oks[0], now);
        let r0 = (ReportV { outcome: s.outcome, delivered: s.delivered });
        if s.outcome matches SyncOutcome::Failed(_) {
            (SyncAllV { store: s.store, reports: seq![r0] })
        } else {
            let rest = sync_all_step(
                s.store,
                feeds.drop_first(),
                fetched.drop_first(),
                send_oks.drop_first(),
                now,
            );
            (SyncAllV { store: rest.store, reports: seq![r0] + rest.reports })
        }
    }
}

/// Processes every configured feed in order, exactly as `sync_all_step`
/// describes it: one feed's cycle completes (or fails, or is skipped)
/// before the next begins, and a failure aborts the remaining feeds.
#[verifier::loop_isolation(false)]
pub fn sync_all(
    t: &mut KvTable,
    feeds: &Vec<FeedEntry>,
    fetched: &Vec<Result<Channel, SyncError>>,
    send_oks: &Vec<Vec<bool>>,
    now: i64,
) -> (r: Vec<SyncReport>)
    requires
        old(t).wf(),
        now >= 0,
        fetched@.len() == feeds@.len(),
        send_oks@.len() == feeds@.len(),
        forall|i: int|
            0 <= i < feeds@.len() ==> ((#[trigger] fetched@[i]) matches Ok(c) ==> channel_wf(c@)
                && send_oks@[i]@.len() >= c.items@.len()),
    ensures
        final(t).wf(),
        ({
            let s = sync_all_step(
                old(t)@,
                feeds@.map_values(|f: FeedEntry| f@),
                fetched@.map_values(|x: Result<Channel, SyncError>| fetched_view(x)),
                send_oks@.map_values(|v: Vec<bool>| v@),
                now as int,
            );
            &&& final(t)@ == s.store
            &&& r@.map_values(|x: SyncReport| report_view(x)) == s.reports
        }),
{
    let ghost m0 = t@;
    let ghost feedsv = feeds@.map_values(|f: FeedEntry| f@);
    let ghost fetchedv = fetched@.map_values(|x: Result<Channel, SyncError>| fetched_view(x));
    let ghost oksv = send_oks@.map_values(|v: Vec<bool>| v@);
    let ghost full = sync_all_step(m0, feedsv, fetchedv, oksv, now as int);
    let n = feeds.len();
    let mut out: Vec<SyncReport> = Vec::new();
    let mut i: usize = 0;
    proof {
        assert(feedsv.skip(0) =~= feedsv);
        assert(fetchedv.skip(0) =~= fetchedv);
        assert(oksv.skip(0) =~= oksv);
        assert(Seq::<SyncReport>::empty().map_values(|x: SyncReport| report_view(x)) + full.reports
            =~= full.reports);
    }
    while i < n
        invariant
            i <= n,
            t.wf(),
            ({
                let rest = sync_all_step(
                    t@,
                    feedsv.skip(i as int),
                    fetchedv.skip(i as int),
                    oksv.skip(i as int),
                    now as int,
                );
                &&& full.store == rest.store
                &&& full.reports == out@.map_values(|x: SyncReport| report_view(x)) + rest.reports
            }),
        decreases n - i,
    {
        let ghost pre_rest = sync_all_step(
            t@,
            feedsv.skip(i as int),
            fetchedv.skip(i as int),
            oksv.skip(i as int),
            now as int,
        );
        let ghost pre_reports = out@.map_values(|x: SyncReport| report_view(x));
        let f = &feeds[i];
        let report = sync_feed(t, &f.name, &fetched[i], &send_oks[i], now);
        let failed = match &report.outcome {
            SyncOutcome::Failed(_) => true,
            _ => false,
        };
        proof {
            assert(feedsv.skip(i as int)[0] == feedsv[i as int]);
            assert(fetchedv.skip(i as int)[0] == fetchedv[i as int]);
            assert(oksv.skip(i as int)[0] == oksv[i as int]);
            assert(feedsv.skip(i as int).drop_first() =~= feedsv.skip(i as int + 1));
            assert(fetchedv.skip(i as int).drop_first() =~= fetchedv.skip(i as int + 1));
            assert(oksv.skip(i as int).drop_first() =~= oksv.skip(i as int + 1));
        }
        out.push(report);
        proof {
            let rv = report_view(out@.last());
            assert(out@.map_values(|x: SyncReport| report_view(x)) =~= pre_reports.push(rv));
            if failed {
                assert(pre_rest.reports =~= seq![rv]);
                assert(full.reports =~= pre_reports.push(rv));
            } else {
                let rest = sync_all_step(
                    t@,
                    feedsv.skip(i as int + 1),
                    fetchedv.skip(i as int + 1),
                    oksv.skip(i as int + 1),
                    now as int,
                );
                assert(pre_reports.push(rv) + rest.reports =~= pre_reports + (seq![rv]
                    + rest.reports));
            }
        }
        if failed {
            return out;
        }
        i = i + 1;
    }
    proof {
        assert(sync_all_step(
            t@,
            feedsv.skip(n as int),
            fetchedv.skip(n as int),
            oksv.skip(n as int),
            now as int,
        ).reports =~= Seq::<ReportV>::empty());
        assert(full.reports =~= out@.map_values(|x: SyncReport| report_view(x)));
    }
    out
}

} // verus!
