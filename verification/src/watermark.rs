use crate::dt::{dt_valid, fmt_dt, format_dt, parse_dt, parse_storage_dt, Dt};
use crate::store::{kv_key, KeyKind, KvKey, KvTable, KvVal};
use crate::SyncError;
use vstd::prelude::*;

verus! {

pub open spec fn wm_key(feed: Seq<char>) -> KvKey {
    kv_key(feed, KeyKind::Watermark)
}

/// Reads the feed's stored watermark. A stored row that parses yields its
/// date; one that does not parse is a fatal error for the run, never
/// silently defaulted. No row: `default` is stored as the initial
/// watermark and returned, so a feed seen for the first time takes the
/// current build date as its baseline.
pub fn wm_get_or_init(t: &mut KvTable, feed: &String, default: &Dt, now: i64) -> (r: Result<
    Dt,
    SyncError,
>)
    requires
        old(t).wf(),
        now >= 0,
        dt_valid(*default),
    ensures
        final(t).wf(),
        ({
            let m = old(t)@;
            let k = wm_key(feed@);
            if m.contains_key(k) {
                match parse_dt(m[k].value) {
                    Some(d) => r == Ok::<Dt, SyncError>(d) && final(t)@ == m,
                    None => r == Err::<Dt, SyncError>(SyncError::Parse) && final(t)@ == m,
                }
            } else {
                r == Ok::<Dt, SyncError>(*default) && final(t)@ == m.insert(
                    k,
                    (KvVal { value: fmt_dt(*default), updated_at: now as int }),
                )
            }
        }),
{
    match t.get(feed, KeyKind::Watermark) {
        Some(p) => match parse_storage_dt(p.0.as_str()) {
            Some(d) => Ok(d),
            None => Err(SyncError::Parse),
        },
        None => {
            let txt = format_dt(default);
            t.set(feed, KeyKind::Watermark, txt, now);
            Ok(*default)
        },
    }
}

/// Overwrites the feed's stored watermark row with `d`. The sync engine
/// rewrites the row after every completed comparison, whether or not new
/// items were found, choosing a date that never moves the watermark
/// backwards.
pub fn wm_update(t: &mut KvTable, feed: &String, d: &Dt, now: i64)
    requires
        old(t).wf(),
        now >= 0,
        dt_valid(*d),
    ensures
        final(t).wf(),
        final(t)@ == old(t)@.insert(
            wm_key(feed@),
            (KvVal { value: fmt_dt(*d), updated_at: now as int }),
        ),
{
    let txt = format_dt(d);
    t.set(feed, KeyKind::Watermark, txt, now);
}

} // verus!
