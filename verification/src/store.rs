use vstd::prelude::*;

verus! {

/// What a key is used for: the per-feed watermark row or the per-feed
/// process-lock row. Together with the feed name this identifies one row
/// of the two-column key-value table.
#[derive(Clone, Copy, PartialEq, Eq, Structural, Debug)]
pub enum KeyKind {
    Watermark,
    Lock,
}

/// Mathematical identity of a row: feed name plus kind.
pub struct KvKey {
    pub feed: Seq<char>,
    pub kind: KeyKind,
}

/// Mathematical content of a row: its textual value and the time it was
/// last written (the table's implicit `updated_at` column).
pub struct KvVal {
    pub value: Seq<char>,
    pub updated_at: int,
}

pub open spec fn kv_key(feed: Seq<char>, kind: KeyKind) -> KvKey {
    (KvKey { feed: feed, kind: kind })
}

/// One stored row.
pub struct KvEntry {
    pub feed: String,
    pub kind: KeyKind,
    pub value: String,
    pub updated_at: i64,
}

pub open spec fn entry_key(e: KvEntry) -> KvKey {
    kv_key(e.feed@, e.kind)
}

pub open spec fn entry_val(e: KvEntry) -> KvVal {
    (KvVal { value: e.value@, updated_at: e.updated_at as int })
}

/// The map a sequence of rows denotes: a key is present when some row
/// carries it, and maps to that row's content.
pub open spec fn table_map(entries: Seq<KvEntry>) -> Map<KvKey, KvVal> {
    Map::new(
        |k: KvKey| exists|i: int| 0 <= i < entries.len() && entry_key(#[trigger] entries[i]) == k,
        |k: KvKey|
            entry_val(
                entries[choose|i: int|
                    0 <= i < entries.len() && entry_key(#[trigger] entries[i]) == k],
            ),
    )
}

/// The persistent key-value table, modelled in memory: at most one row per
/// (feed, kind) key, each row carrying a textual value and the time of its
/// last write.
pub struct KvTable {
    entries: Vec<KvEntry>,
}

impl KvTable {
    /// At most one row per key, and write times are non-negative.
    pub closed spec fn wf(&self) -> bool {
        &&& forall|i: int, j: int|
            0 <= i < j < self.entries@.len() ==> entry_key(self.entries@[i]) != entry_key(
                self.entries@[j],
            )
        &&& forall|i: int| 0 <= i < self.entries@.len() ==> self.entries@[i].updated_at >= 0
    }

    /// The table as a finite map from row identity to row content.
    pub closed spec fn view(&self) -> Map<KvKey, KvVal> {
        table_map(self.entries@)
    }

    pub fn new() -> (r: KvTable)
        ensures
            r.wf(),
            r@ == Map::<KvKey, KvVal>::empty(),
    {
        let r = KvTable { entries: Vec::new() };
        proof {
            assert(r@ =~= Map::<KvKey, KvVal>::empty());
        }
        r
    }

    /// Index of the row with the given key, if one exists.
    fn find(&self, feed: &String, kind: KeyKind) -> (r: Option<usize>)
        ensures
            match r {
                Some(i) => i < self.entries@.len() && entry_key(self.entries@[i as int]) == kv_key(
                    feed@,
                    kind,
                ),
                None => forall|i: int|
                    0 <= i < self.entries@.len() ==> entry_key(#[trigger] self.entries@[i])
                        != kv_key(feed@, kind),
            },
    {
        let n = self.entries.len();
        let mut i: usize = 0;
        while i < n
            invariant
                n == self.entries@.len(),
                i <= n,
                forall|j: int|
                    0 <= j < i ==> entry_key(#[trigger] self.entries@[j]) != kv_key(feed@, kind),
            decreases n - i,
        {
            let e = &self.entries[i];
            if e.feed == *feed && e.kind == kind {
                return Some(i);
            }
            i = i + 1;
        }
        None
    }

    /// Reads the row for the key, returning its value and write time.
    pub fn get(&self, feed: &String, kind: KeyKind) -> (r: Option<(String, i64)>)
        requires
            self.wf(),
        ensures
            match r {
                Some(p) => self@.contains_key(kv_key(feed@, kind)) && self@[kv_key(feed@, kind)]
                    == (KvVal { value: p.0@, updated_at: p.1 as int }),
                None => !self@.contains_key(kv_key(feed@, kind)),
            },
    {
        let ghost k = kv_key(feed@, kind);
        match self.find(feed, kind) {
            Some(i) => {
                proof {
                    let j = choose|j: int|
                        0 <= j < self.entries@.len() && entry_key(#[trigger] self.entries@[j])
                            == k;
                    assert(entry_key(self.entries@[i as int]) == k);
                    assert(j == i as int);
                }
                let e = &self.entries[i];
                Some((e.value.clone(), e.updated_at))
            },
            None => None,
        }
    }

    /// Removes the row for the key, if any; a no-op otherwise.
    pub fn delete(&mut self, feed: &String, kind: KeyKind)
        requires
            old(self).wf(),
        ensures
            final(self).wf(),
            final(self)@ == old(self)@.remove(kv_key(feed@, kind)),
    {
        let ghost k = kv_key(feed@, kind);
        match self.find(feed, kind) {
            Some(i) => {
                let ghost pre = self.entries@;
                self.entries.remove(i);
                proof {
                    pre.remove_ensures(i as int);
                    assert forall|a: int, b: int|
                        0 <= a < b < self.entries@.len() implies entry_key(self.entries@[a])
                        != entry_key(self.entries@[b]) by {
                        let a0 = if a < i as int {
                            a
                        } else {
                            a + 1
                        };
                        let b0 = if b < i as int {
                            b
                        } else {
                            b + 1
                        };
                        assert(self.entries@[a] == pre[a0]);
                        assert(self.entries@[b] == pre[b0]);
                    }
                    assert forall|a: int| 0 <= a < self.entries@.len() implies self.entries@[a].updated_at
                        >= 0 by {
                        let a0 = if a < i as int {
                            a
                        } else {
                            a + 1
                        };
                        assert(self.entries@[a] == pre[a0]);
                    }
                    assert forall|k2: KvKey| true implies #[trigger] self@.contains_key(k2)
                        == old(self)@.remove(k).contains_key(k2) && (self@.contains_key(k2)
                        ==> self@[k2] == old(self)@.remove(k)[k2]) by {
                        if k2 == k {
                            if self@.contains_key(k2) {
                                let j = choose|j: int|
                                    0 <= j < self.entries@.len() && entry_key(
                                        #[trigger] self.entries@[j],
                                    ) == k2;
                                let j0 = if j < i as int {
                                    j
                                } else {
                                    j + 1
                                };
                                assert(self.entries@[j] == pre[j0]);
                                assert(entry_key(pre[j0]) == k && entry_key(pre[i as int]) == k);
                                assert(false);
                            }
                        } else {
                            if old(self)@.contains_key(k2) {
                                let j = choose|j: int|
                                    0 <= j < pre.len() && entry_key(#[trigger] pre[j]) == k2;
                                let j1 = if j < i as int {
                                    j
                                } else {
                                    j - 1
                                };
                                assert(j != i as int);
                                assert(self.entries@[j1] == pre[j]);
                                assert(self@.contains_key(k2));
                            }
                            if self@.contains_key(k2) {
                                let j = choose|j: int|
                                    0 <= j < self.entries@.len() && entry_key(
                                        #[trigger] self.entries@[j],
                                    ) == k2;
                                let j0 = if j < i as int {
                                    j
                                } else {
                                    j + 1
                                };
                                assert(self.entries@[j] == pre[j0]);
                                assert(old(self)@.contains_key(k2));
                                let j2 = choose|j2: int|
                                    0 <= j2 < pre.len() && entry_key(#[trigger] pre[j2]) == k2;
                                assert(entry_key(pre[j0]) == k2 && entry_key(pre[j2]) == k2);
                                assert(j2 == j0);
                                assert(self@[k2] == entry_val(pre[j0]));
                            }
                        }
                    }
                    assert(self@ =~= old(self)@.remove(k));
                }
            },
            None => {
                proof {
                    assert forall|k2: KvKey| true implies #[trigger] self@.contains_key(k2)
                        == old(self)@.remove(k).contains_key(k2) by {
                        if k2 == k {
                            if self@.contains_key(k2) {
                                let j = choose|j: int|
                                    0 <= j < self.entries@.len() && entry_key(
                                        #[trigger] self.entries@[j],
                                    ) == k2;
                                assert(false);
                            }
                        }
                    }
                    assert(self@ =~= old(self)@.remove(k));
                }
            },
        }
    }

    /// Writes the row for the key, inserting it or overwriting an existing
    /// one; records `now` as the row's write time.
    pub fn set(&mut self, feed: &String, kind: KeyKind, value: String, now: i64)
        requires
            old(self).wf(),
            now >= 0,
        ensures
            final(self).wf(),
            final(self)@ == old(self)@.insert(
                kv_key(feed@, kind),
                (KvVal { value: value@, updated_at: now as int }),
            ),
    {
        let ghost k = kv_key(feed@, kind);
        self.delete(feed, kind);
        let ghost mid = self.entries@;
        let e = KvEntry { feed: feed.clone(), kind, value, updated_at: now };
        let ghost ev = entry_val(e);
        self.entries.push(e);
        proof {
            let n = mid.len() as int;
            assert(self.entries@ == mid.push(e));
            assert(self.entries@[n] == e);
            assert(entry_key(e) == k);
            assert forall|a: int, b: int|
                0 <= a < b < self.entries@.len() implies entry_key(self.entries@[a]) != entry_key(
                self.entries@[b],
            ) by {
                if b < n {
                    assert(self.entries@[a] == mid[a] && self.entries@[b] == mid[b]);
                } else {
                    assert(self.entries@[a] == mid[a]);
                    if entry_key(mid[a]) == k {
                        assert(table_map(mid).contains_key(k));
                        assert(false);
                    }
                }
            }
            assert forall|a: int| 0 <= a < self.entries@.len() implies self.entries@[a].updated_at
                >= 0 by {
                if a < n {
                    assert(self.entries@[a] == mid[a]);
                }
            }
            let pre_map = old(self)@.remove(k);
            assert forall|k2: KvKey| true implies #[trigger] self@.contains_key(k2)
                == pre_map.insert(k, ev).contains_key(k2) && (self@.contains_key(k2) ==> self@[k2]
                == pre_map.insert(k, ev)[k2]) by {
                if k2 == k {
                    assert(entry_key(self.entries@[n]) == k2);
                    assert(self@.contains_key(k2));
                    let j = choose|j: int|
                        0 <= j < self.entries@.len() && entry_key(#[trigger] self.entries@[j])
                            == k2;
                    assert(j == n);
                    assert(self@[k2] == ev);
                } else {
                    if pre_map.contains_key(k2) {
                        let j = choose|j: int| 0 <= j < mid.len() && entry_key(#[trigger] mid[j])
                            == k2;
                        assert(self.entries@[j] == mid[j]);
                        assert(self@.contains_key(k2));
                    }
                    if self@.contains_key(k2) {
                        let j = choose|j: int|
                            0 <= j < self.entries@.len() && entry_key(#[trigger] self.entries@[j])
                                == k2;
                        assert(j != n);
                        assert(self.entries@[j] == mid[j]);
                        assert(pre_map.contains_key(k2));
                        let j2 = choose|j2: int|
                            0 <= j2 < mid.len() && entry_key(#[trigger] mid[j2]) == k2;
                        assert(entry_key(mid[j2]) == k2 && entry_key(mid[j]) == k2);
                        assert(j2 == j);
                        assert(self@[k2] == entry_val(mid[j]));
                    }
                }
            }
            assert(self@ =~= pre_map.insert(k, ev));
            assert(pre_map.insert(k, ev) =~= old(self)@.insert(k, ev));
        }
    }
}

} // verus!
