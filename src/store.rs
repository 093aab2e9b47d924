//! The archive of book states, keyed by instrument and time, with retention by age.
use vstd::prelude::*;

use crate::engine::{BookView, OrderbookEngine};
use crate::snapshot::{Snapshot, SnapshotView};

verus! {

/// The key under which a snapshot is archived.
pub open spec fn key_of(s: SnapshotView) -> (Seq<char>, i64) {
    (s.ticker, s.timestamp)
}

/// Whether eviction at `cutoff`, for `ticker` (or for every instrument where `None`), removes
/// the entry at key `k`.
pub open spec fn is_evicted(k: (Seq<char>, i64), cutoff: i64, ticker: Option<Seq<char>>) -> bool {
    k.1 < cutoff && match ticker {
        Some(t) => k.0 == t,
        None => true,
    }
}

/// What the archive holds after eviction at `cutoff` for `ticker`.
pub open spec fn after_eviction(
    m: Map<(Seq<char>, i64), SnapshotView>,
    cutoff: i64,
    ticker: Option<Seq<char>>,
) -> Map<(Seq<char>, i64), SnapshotView> {
    m.restrict(m.dom().filter(|k: (Seq<char>, i64)| !is_evicted(k, cutoff, ticker)))
}

pub open spec fn str_view(t: Option<&str>) -> Option<Seq<char>> {
    match t {
        Some(s) => Some(s@),
        None => None,
    }
}

/// Snapshots of every instrument, at most one per instrument and timestamp.
pub struct SnapshotStore {
    snapshots: Vec<Snapshot>,
    index: Ghost<Map<(Seq<char>, i64), SnapshotView>>,
}

impl View for SnapshotStore {
    type V = Map<(Seq<char>, i64), SnapshotView>;

    closed spec fn view(&self) -> Map<(Seq<char>, i64), SnapshotView> {
        self.index@
    }
}

impl SnapshotStore {
    pub closed spec fn wf(&self) -> bool {
        let s = self.snapshots@;
        let m = self.index@;
        &&& forall|i: int, j: int|
            0 <= i < j < s.len() ==> key_of(#[trigger] s[i]@) != key_of(#[trigger] s[j]@)
        &&& forall|i: int|
            0 <= i < s.len() ==> m.contains_key(key_of(#[trigger] s[i]@)) && m[key_of(s[i]@)]
                == s[i]@
        &&& forall|k: (Seq<char>, i64)| #[trigger]
            m.contains_key(k) ==> exists|i: int| 0 <= i < s.len() && key_of(#[trigger] s[i]@) == k
        &&& m.dom().finite()
        &&& m.dom().len() == s.len()
    }

    /// An empty archive.
    pub fn new() -> (r: SnapshotStore)
        ensures
            r.wf(),
            r@ == Map::<(Seq<char>, i64), SnapshotView>::empty(),
    {
        SnapshotStore { snapshots: Vec::new(), index: Ghost(Map::empty()) }
    }

    /// The position of the snapshot at `ticker` and `timestamp`, if there is one.
    fn position(&self, ticker: &String, timestamp: i64) -> (r: Option<usize>)
        requires
            self.wf(),
        ensures
            match r {
                Some(i) => i < self.snapshots@.len() && key_of(self.snapshots@[i as int]@) == (
                ticker@,
                timestamp,
                ),
                None => !self@.contains_key((ticker@, timestamp)),
            },
    {
        let mut i: usize = 0;
        while i < self.snapshots.len()
            invariant
                self.wf(),
                i <= self.snapshots@.len(),
                forall|j: int|
                    0 <= j < i ==> key_of(#[trigger] self.snapshots@[j]@) != (ticker@, timestamp),
            decreases self.snapshots@.len() - i,
        {
            if self.snapshots[i].timestamp == timestamp && self.snapshots[i].ticker == *ticker {
                return Some(i);
            }
            i = i + 1;
        }
        None
    }

    /// Stores `snapshot` under its instrument and timestamp, replacing what was there.
    pub fn store_snapshot(&mut self, snapshot: Snapshot)
        requires
            old(self).wf(),
        ensures
            final(self).wf(),
            final(self)@ == old(self)@.insert(key_of(snapshot@), snapshot@),
    {
        let ghost old_s = self.snapshots@;
        let ghost old_m = self.index@;
        let ghost k = key_of(snapshot@);
        let ghost v = snapshot@;
        match self.position(&snapshot.ticker, snapshot.timestamp) {
            Some(i) => {
                self.snapshots.set(i, snapshot);
                self.index = Ghost(old_m.insert(k, v));
                proof {
                    let s = self.snapshots@;
                    let m = self.index@;
                    assert forall|a: int, b: int| 0 <= a < b < s.len() implies key_of(
                        #[trigger] s[a]@,
                    ) != key_of(#[trigger] s[b]@) by {
                        assert(key_of(old_s[a]@) != key_of(old_s[b]@));
                    }
                    assert forall|a: int| 0 <= a < s.len() implies m.contains_key(
                        key_of(#[trigger] s[a]@),
                    ) && m[key_of(s[a]@)] == s[a]@ by {
                        if a != i {
                            assert(key_of(old_s[a]@) != key_of(old_s[i as int]@));
                        }
                    }
                    assert forall|q: (Seq<char>, i64)| #[trigger] m.contains_key(q) implies exists|
                        a: int,
                    | 0 <= a < s.len() && key_of(#[trigger] s[a]@) == q by {
                        if q == k {
                            assert(key_of(s[i as int]@) == q);
                        } else {
                            let a = choose|a: int|
                                0 <= a < old_s.len() && key_of(#[trigger] old_s[a]@) == q;
                            assert(key_of(s[a]@) == q);
                        }
                    }
                    assert(m.dom() =~= old_m.dom());
                }
            },
            None => {
                self.snapshots.push(snapshot);
                self.index = Ghost(old_m.insert(k, v));
                proof {
                    let s = self.snapshots@;
                    let m = self.index@;
                    let n = old_s.len() as int;
                    assert forall|a: int, b: int| 0 <= a < b < s.len() implies key_of(
                        #[trigger] s[a]@,
                    ) != key_of(#[trigger] s[b]@) by {
                        if b < n {
                            assert(key_of(old_s[a]@) != key_of(old_s[b]@));
                        } else {
                            assert(old_m.contains_key(key_of(old_s[a]@)));
                        }
                    }
                    assert forall|a: int| 0 <= a < s.len() implies m.contains_key(
                        key_of(#[trigger] s[a]@),
                    ) && m[key_of(s[a]@)] == s[a]@ by {
                        if a < n {
                            assert(s[a] == old_s[a]);
                            assert(old_m.contains_key(key_of(old_s[a]@)));
                        }
                    }
                    assert forall|q: (Seq<char>, i64)| #[trigger] m.contains_key(q) implies exists|
                        a: int,
                    | 0 <= a < s.len() && key_of(#[trigger] s[a]@) == q by {
                        if q == k {
                            assert(key_of(s[n]@) == q);
                        } else {
                            let a = choose|a: int|
                                0 <= a < old_s.len() && key_of(#[trigger] old_s[a]@) == q;
                            assert(s[a] == old_s[a]);
                        }
                    }
                }
            },
        }
    }

    /// The snapshot of `ticker` at exactly `timestamp`, if one is archived.
    pub fn get_snapshot(&self, ticker: &str, timestamp: i64) -> (r: Option<Snapshot>)
        requires
            self.wf(),
        ensures
            match r {
                Some(s) => self@.contains_key((ticker@, timestamp)) && s@ == self@[(
                ticker@,
                timestamp,
                )],
                None => !self@.contains_key((ticker@, timestamp)),
            },
    {
        let key = ticker.to_owned();
        match self.position(&key, timestamp) {
            Some(i) => Some(self.snapshots[i].duplicate()),
            None => None,
        }
    }

    /// The earliest and latest timestamps archived for `ticker`, or `None` where there are
    /// none. Other instruments are not looked at.
    pub fn get_history_range(&self, ticker: &str) -> (r: Option<(i64, i64)>)
        requires
            self.wf(),
        ensures
            match r {
                Some((lo, hi)) => {
                    &&& self@.contains_key((ticker@, lo))
                    &&& self@.contains_key((ticker@, hi))
                    &&& forall|t: i64| #[trigger]
                        self@.contains_key((ticker@, t)) ==> lo <= t && t <= hi
                },
                None => forall|t: i64| !(#[trigger] self@.contains_key((ticker@, t))),
            },
    {
        let key = ticker.to_owned();
        let mut range: Option<(i64, i64)> = None;
        let mut i: usize = 0;
        while i < self.snapshots.len()
            invariant
                self.wf(),
                key@ == ticker@,
                i <= self.snapshots@.len(),
                match range {
                    Some((lo, hi)) => {
                        &&& self@.contains_key((ticker@, lo))
                        &&& self@.contains_key((ticker@, hi))
                        &&& forall|j: int|
                            0 <= j < i && (#[trigger] self.snapshots@[j]).ticker@ == ticker@ ==> lo
                                <= self.snapshots@[j].timestamp && self.snapshots@[j].timestamp
                                <= hi
                    },
                    None => forall|j: int|
                        0 <= j < i ==> (#[trigger] self.snapshots@[j]).ticker@ != ticker@,
                },
            decreases self.snapshots@.len() - i,
        {
            if self.snapshots[i].ticker == key {
                let t = self.snapshots[i].timestamp;
                proof {
                    assert(key_of(self.snapshots@[i as int]@) == (ticker@, t));
                }
                range = match range {
                    Some((lo, hi)) => Some(
                        (if t < lo {
                            t
                        } else {
                            lo
                        }, if t > hi {
                            t
                        } else {
                            hi
                        }),
                    ),
                    None => Some((t, t)),
                };
            }
            i = i + 1;
        }
        proof {
            let s = self.snapshots@;
            match range {
                Some((lo, hi)) => {
                    assert forall|t: i64| #[trigger]
                        self@.contains_key((ticker@, t)) implies lo <= t && t <= hi by {
                        let a = choose|a: int| 0 <= a < s.len() && key_of(#[trigger] s[a]@) == (
                        ticker@,
                        t,
                        );
                        assert(s[a].ticker@ == ticker@);
                    }
                },
                None => {
                    assert forall|t: i64| !(#[trigger] self@.contains_key((ticker@, t))) by {
                        if self@.contains_key((ticker@, t)) {
                            let a = choose|a: int| 0 <= a < s.len() && key_of(#[trigger] s[a]@)
                                == (ticker@, t);
                            assert(s[a].ticker@ == ticker@);
                        }
                    }
                },
            }
        }
        range
    }

    /// Removes every snapshot older than `cutoff` (timestamp below it): only those of
    /// `ticker` where one is given, those of every instrument otherwise. Returns how many
    /// were removed.
    pub fn remove_older_than(&mut self, cutoff: i64, ticker: Option<&str>) -> (r: usize)
        requires
            old(self).wf(),
        ensures
            final(self).wf(),
            final(self)@ == after_eviction(old(self)@, cutoff, str_view(ticker)),
            r == old(self)@.dom().len() - final(self)@.dom().len(),
    {
        let filter: Option<String> = match ticker {
            Some(t) => Some(t.to_owned()),
            None => None,
        };
        let ghost tv = str_view(ticker);
        let ghost old_s = self.snapshots@;
        let ghost old_m = self.index@;
        let mut kept: Vec<Snapshot> = Vec::new();
        let ghost mut kept_m: Map<(Seq<char>, i64), SnapshotView> = Map::empty();
        let n = self.snapshots.len();
        let mut i: usize = 0;
        while i < n
            invariant
                n == old_s.len(),
                self.snapshots@ == old_s,
                tv == str_view(ticker),
                match filter {
                    Some(f) => tv == Some(f@),
                    None => tv is None,
                },
                i <= n,
                forall|a: int, b: int|
                    0 <= a < b < old_s.len() ==> key_of(#[trigger] old_s[a]@) != key_of(
                        #[trigger] old_s[b]@,
                    ),
                forall|a: int|
                    0 <= a < kept@.len() ==> kept_m.contains_key(key_of(#[trigger] kept@[a]@))
                        && kept_m[key_of(kept@[a]@)] == kept@[a]@,
                forall|a: int, b: int|
                    0 <= a < b < kept@.len() ==> key_of(#[trigger] kept@[a]@) != key_of(
                        #[trigger] kept@[b]@,
                    ),
                forall|q: (Seq<char>, i64)| #[trigger]
                    kept_m.contains_key(q) ==> exists|a: int|
                        0 <= a < kept@.len() && key_of(#[trigger] kept@[a]@) == q,
                forall|q: (Seq<char>, i64)| #[trigger]
                    kept_m.contains_key(q) <==> exists|a: int|
                        0 <= a < i && key_of(#[trigger] old_s[a]@) == q && !is_evicted(
                            q,
                            cutoff,
                            tv,
                        ),
                forall|q: (Seq<char>, i64)| #[trigger]
                    kept_m.contains_key(q) ==> old_m.contains_key(q) && kept_m[q] == old_m[q],
                forall|a: int|
                    0 <= a < old_s.len() ==> old_m.contains_key(key_of(#[trigger] old_s[a]@))
                        && old_m[key_of(old_s[a]@)] == old_s[a]@,
                kept_m.dom().finite(),
                kept_m.dom().len() == kept@.len(),
                kept@.len() <= i,
            decreases n - i,
        {
            let s = &self.snapshots[i];
            let matches = match &filter {
                Some(f) => s.ticker == *f,
                None => true,
            };
            let ghost k = key_of(s@);
            if !(matches && s.timestamp < cutoff) {
                proof {
                    assert(!is_evicted(k, cutoff, tv));
                    assert(!kept_m.contains_key(k)) by {
                        if kept_m.contains_key(k) {
                            let a = choose|a: int|
                                0 <= a < i && key_of(#[trigger] old_s[a]@) == k && !is_evicted(
                                    k,
                                    cutoff,
                                    tv,
                                );
                            assert(key_of(old_s[a]@) != key_of(old_s[i as int]@));
                        }
                    }
                }
                let ghost prev = kept@;
                kept.push(s.duplicate());
                proof {
                    kept_m = kept_m.insert(k, old_s[i as int]@);
                    assert forall|a: int, b: int| 0 <= a < b < kept@.len() implies key_of(
                        #[trigger] kept@[a]@,
                    ) != key_of(#[trigger] kept@[b]@) by {
                        if b == prev.len() {
                            assert(kept@[a] == prev[a]);
                        } else {
                            assert(kept@[a] == prev[a]);
                            assert(kept@[b] == prev[b]);
                        }
                    }
                    assert forall|a: int| 0 <= a < kept@.len() implies kept_m.contains_key(
                        key_of(#[trigger] kept@[a]@),
                    ) && kept_m[key_of(kept@[a]@)] == kept@[a]@ by {
                        if a < prev.len() {
                            assert(kept@[a] == prev[a]);
                        }
                    }
                    assert forall|q: (Seq<char>, i64)| #[trigger]
                        kept_m.contains_key(q) implies exists|a: int|
                        0 <= a < kept@.len() && key_of(#[trigger] kept@[a]@) == q by {
                        if q == k {
                            assert(key_of(kept@[prev.len() as int]@) == q);
                        } else {
                            let a = choose|a: int|
                                0 <= a < prev.len() && key_of(#[trigger] prev[a]@) == q;
                            assert(kept@[a] == prev[a]);
                        }
                    }
                }
            } else {
                proof {
                    assert(is_evicted(k, cutoff, tv));
                }
            }
            proof {
                assert forall|q: (Seq<char>, i64)| #[trigger]
                    kept_m.contains_key(q) <==> exists|a: int|
                        0 <= a < i + 1 && key_of(#[trigger] old_s[a]@) == q && !is_evicted(
                            q,
                            cutoff,
                            tv,
                        ) by {
                    if exists|a: int|
                        0 <= a < i + 1 && key_of(#[trigger] old_s[a]@) == q && !is_evicted(
                            q,
                            cutoff,
                            tv,
                        ) {
                        let a = choose|a: int|
                            0 <= a < i + 1 && key_of(#[trigger] old_s[a]@) == q && !is_evicted(
                                q,
                                cutoff,
                                tv,
                            );
                        if a < i {
                            assert(exists|b: int|
                                0 <= b < i && key_of(#[trigger] old_s[b]@) == q && !is_evicted(
                                    q,
                                    cutoff,
                                    tv,
                                ));
                        }
                    }
                }
            }
            i = i + 1;
        }
        let removed = n - kept.len();
        let ghost kept_s = kept@;
        self.snapshots = kept;
        self.index = Ghost(kept_m);
        proof {
            assert(self.snapshots@ == kept_s);
            assert forall|q: (Seq<char>, i64)| #[trigger] kept_m.contains_key(q) implies exists|a: int|
                0 <= a < kept_s.len() && key_of(#[trigger] kept_s[a]@) == q by {}
            assert(self.wf());
            let target = after_eviction(old_m, cutoff, tv);
            assert forall|q: (Seq<char>, i64)| #[trigger]
                kept_m.contains_key(q) <==> target.contains_key(q) by {
                if old_m.contains_key(q) && !is_evicted(q, cutoff, tv) {
                    let a = choose|a: int| 0 <= a < old_s.len() && key_of(#[trigger] old_s[a]@) == q;
                    assert(key_of(old_s[a]@) == q);
                }
            }
            assert(kept_m =~= target);
        }
        removed
    }

    /// How many snapshots are archived.
    pub fn len(&self) -> (r: usize)
        requires
            self.wf(),
        ensures
            r == self@.dom().len(),
    {
        self.snapshots.len()
    }

    pub fn is_empty(&self) -> (r: bool)
        requires
            self.wf(),
        ensures
            r == (self@.dom().len() == 0),
    {
        self.snapshots.len() == 0
    }
}

impl Default for SnapshotStore {
    fn default() -> (r: SnapshotStore)
        ensures
            r.wf(),
            r@ == Map::<(Seq<char>, i64), SnapshotView>::empty(),
    {
        SnapshotStore::new()
    }
}

/// Eviction for one instrument leaves every other instrument's history as it was.
pub proof fn lemma_eviction_spares_other_instruments(
    m: Map<(Seq<char>, i64), SnapshotView>,
    cutoff: i64,
    ticker: Seq<char>,
    k: (Seq<char>, i64),
)
    requires
        k.0 != ticker,
    ensures
        after_eviction(m, cutoff, Some(ticker)).contains_key(k) == m.contains_key(k),
        m.contains_key(k) ==> after_eviction(m, cutoff, Some(ticker))[k] == m[k],
{
}

/// The oldest timestamp that retention keeps at time `now`: `now - retention_secs`, held
/// within the range of an `i64`.
pub open spec fn retention_cutoff(now: i64, retention_secs: i64) -> i64 {
    let c = now - retention_secs;
    if c < i64::MIN {
        i64::MIN
    } else if c > i64::MAX {
        i64::MAX
    } else {
        c as i64
    }
}

pub fn cutoff_for(now: i64, retention_secs: i64) -> (r: i64)
    ensures
        r == retention_cutoff(now, retention_secs),
{
    if retention_secs >= 0 {
        if now >= i64::MIN + retention_secs {
            now - retention_secs
        } else {
            i64::MIN
        }
    } else if now <= i64::MAX + retention_secs {
        now - retention_secs
    } else {
        i64::MAX
    }
}

/// Whether `s` is an archived copy of book `b` of `ticker` taken at `now`.
pub open spec fn archives(s: SnapshotView, ticker: Seq<char>, now: i64, b: BookView) -> bool {
    &&& s.ticker == ticker
    &&& s.timestamp == now
    &&& s.last_price == b.last_price
    &&& crate::book_side::strictly_descending(s.bids)
    &&& crate::book_side::lists_levels(s.bids, b.bids)
    &&& crate::book_side::strictly_ascending(s.asks)
    &&& crate::book_side::lists_levels(s.asks, b.asks)
}

/// One archival tick for an instrument: stores the book as it stands at `now`, then
/// evicts that instrument's snapshots older than the retention window. Returns how many
/// were evicted.
pub fn archive_tick(
    store: &mut SnapshotStore,
    engine: &OrderbookEngine,
    ticker: &str,
    now: i64,
    retention_secs: i64,
) -> (r: usize)
    requires
        old(store).wf(),
        engine.wf(),
    ensures
        final(store).wf(),
        exists|s: SnapshotView|
            archives(s, ticker@, now, engine@) && final(store)@ == after_eviction(
                old(store)@.insert((ticker@, now), s),
                retention_cutoff(now, retention_secs),
                Some(ticker@),
            )
            && r == old(store)@.insert((ticker@, now), s).dom().len() - final(store)@.dom().len(),
{
    let state = engine.get_current_state(now);
    let snapshot = Snapshot::from_orderbook_state(ticker.to_owned(), state);
    let ghost s = snapshot@;
    store.store_snapshot(snapshot);
    let cutoff = cutoff_for(now, retention_secs);
    let removed = store.remove_older_than(cutoff, Some(ticker));
    proof {
        assert(archives(s, ticker@, now, engine@));
    }
    removed
}

} // verus!
