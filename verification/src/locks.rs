use crate::store::{kv_key, KeyKind, KvKey, KvTable, KvVal};
use vstd::prelude::*;

verus! {

/// A lock older than this many seconds is abandoned and may be reclaimed.
pub const LOCK_STALE_SECS: i64 = 300;

pub open spec fn lock_key(feed: Seq<char>) -> KvKey {
    kv_key(feed, KeyKind::Lock)
}

/// A live lock: a lock row exists and was written within the staleness
/// window ending at `now`.
pub open spec fn lock_live(m: Map<KvKey, KvVal>, feed: Seq<char>, now: int) -> bool {
    m.contains_key(lock_key(feed)) && m[lock_key(feed)].updated_at >= now - 300
}

/// An abandoned lock: a lock row exists but is older than the staleness
/// window.
pub open spec fn lock_stale(m: Map<KvKey, KvVal>, feed: Seq<char>, now: int) -> bool {
    m.contains_key(lock_key(feed)) && m[lock_key(feed)].updated_at < now - 300
}

/// Reads the feed's lock row. No row: not locked. A row older than the
/// staleness window: abandoned, so the row is deleted and the feed is
/// reported not locked. Otherwise: locked.
pub fn is_locked(t: &mut KvTable, feed: &String, now: i64) -> (r: bool)
    requires
        old(t).wf(),
        now >= 0,
    ensures
        final(t).wf(),
        r == lock_live(old(t)@, feed@, now as int),
        final(t)@ == if lock_stale(old(t)@, feed@, now as int) {
            old(t)@.remove(lock_key(feed@))
        } else {
            old(t)@
        },
{
    match t.get(feed, KeyKind::Lock) {
        None => false,
        Some(p) => {
            if p.1 < now - 300 {
                t.delete(feed, KeyKind::Lock);
                false
            } else {
                true
            }
        },
    }
}

/// Writes the feed's lock row with the current time. Callers check
/// `is_locked` first; an existing row is simply overwritten.
pub fn acquire(t: &mut KvTable, feed: &String, now: i64)
    requires
        old(t).wf(),
        now >= 0,
    ensures
        final(t).wf(),
        final(t)@ == old(t)@.insert(
            lock_key(feed@),
            (KvVal { value: Seq::empty(), updated_at: now as int }),
        ),
{
    t.set(feed, KeyKind::Lock, String::new(), now);
}

/// What a lock row means at a given moment. `Free`: no row. `Stale`: a
/// row older than the staleness window, to be cleared. `Held`: a live
/// lock.
#[derive(Clone, Copy, PartialEq, Eq, Structural, Debug)]
pub enum LockDecision {
    Free,
    Stale,
    Held,
}

/// The pure lock decision, for callers that keep the lock row in an
/// external store: given the row's write time (if a row exists) and the
/// current time, says whether the feed is free, stale-locked or held.
pub fn lock_decision(updated_at: Option<i64>, now: i64) -> (r: LockDecision)
    requires
        now >= 0,
    ensures
        match updated_at {
            None => r == LockDecision::Free,
            Some(u) => if u < now - 300 {
                r == LockDecision::Stale
            } else {
                r == LockDecision::Held
            },
        },
{
    match updated_at {
        None => LockDecision::Free,
        Some(u) => {
            if u < now - LOCK_STALE_SECS {
                LockDecision::Stale
            } else {
                LockDecision::Held
            }
        },
    }
}

/// Deletes the feed's lock row. Releasing a feed that holds no lock is
/// not an error.
pub fn release(t: &mut KvTable, feed: &String)
    requires
        old(t).wf(),
    ensures
        final(t).wf(),
        final(t)@ == old(t)@.remove(lock_key(feed@)),
{
    t.delete(feed, KeyKind::Lock);
}

} // verus!
