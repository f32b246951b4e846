//! The response cache: rendered responses by request fingerprint, each with
//! the time at which it was stored, and the eviction of aged entries.

use vstd::prelude::*;

verus! {

/// An instant: whole seconds since the Unix epoch and the nanoseconds into
/// the second.
#[derive(Clone, Copy, Debug, PartialEq, Eq)]
pub struct Timestamp {
    pub secs: i64,
    pub nanos: u32,
}

impl Timestamp {
    /// Nanoseconds since the Unix epoch.
    pub open spec fn total_nanos(self) -> int {
        self.secs * 1_000_000_000 + self.nanos
    }
}

/// Whether an entry created at `created` is, at `now`, older than
/// `retention_secs` seconds.
pub open spec fn expired(created: Timestamp, now: Timestamp, retention_secs: u64) -> bool {
    now.total_nanos() - created.total_nanos() > retention_secs * 1_000_000_000
}

/// Tells whether an entry created at `created` is, at `now`, older than
/// `retention_secs` seconds.
pub fn is_expired(created: Timestamp, now: Timestamp, retention_secs: u64) -> (r: bool)
    ensures
        r == expired(created, now, retention_secs),
{
    let age: i128 = (now.secs as i128 - created.secs as i128) * 1_000_000_000 + (now.nanos as i128
        - created.nanos as i128);
    age > retention_secs as i128 * 1_000_000_000
}

/// Reads the clock with `chrono::Utc::now` and hands back the seconds and
/// nanoseconds that `timestamp` and `timestamp_subsec_nanos` give for it.
/// Nothing is promised of the instant. `Utc::now` panics where the system
/// clock stands before the Unix epoch.
#[verifier::external_body]
pub(crate) fn utc_now() -> (now: Timestamp) {
    let now = chrono::Utc::now();
    Timestamp { secs: now.timestamp(), nanos: now.timestamp_subsec_nanos() }
}

/// The model of one cached response: its bytes and its time of creation.
pub struct Cached {
    pub response: Seq<u8>,
    pub created_at: Timestamp,
}

/// One entry of the cache.
#[derive(Clone, Debug)]
struct CacheEntry {
    fingerprint: Vec<u8>,
    response: Vec<u8>,
    created_at: Timestamp,
}

impl CacheEntry {
    spec fn cached(self) -> Cached {
        Cached { response: self.response@, created_at: self.created_at }
    }
}

/// No two entries have the same fingerprint.
spec fn distinct(entries: Seq<CacheEntry>) -> bool {
    forall|i: int, j: int|
        0 <= i < j < entries.len() ==> (#[trigger] entries[i]).fingerprint@ != (
        #[trigger] entries[j]).fingerprint@
}

/// Whether entry `i` of `entries` has the fingerprint `key`.
spec fn holds(entries: Seq<CacheEntry>, i: int, key: Seq<u8>) -> bool {
    0 <= i < entries.len() && entries[i].fingerprint@ == key
}

/// The mapping that a sequence of entries stands for.
spec fn entry_map(entries: Seq<CacheEntry>) -> Map<Seq<u8>, Cached> {
    Map::new(
        |key: Seq<u8>| exists|i: int| holds(entries, i, key),
        |key: Seq<u8>| entries[choose|i: int| holds(entries, i, key)].cached(),
    )
}

/// `cache` without the entries that are expired at `now`.
pub open spec fn swept(cache: Map<Seq<u8>, Cached>, now: Timestamp, retention_secs: u64) -> Map<
    Seq<u8>,
    Cached,
> {
    Map::new(
        |key: Seq<u8>| cache.contains_key(key) && !expired(cache[key].created_at, now, retention_secs),
        |key: Seq<u8>| cache[key],
    )
}

/// What `entry_map` gives for the fingerprint of an entry.
proof fn lemma_entry_map(entries: Seq<CacheEntry>, i: int)
    requires
        distinct(entries),
        0 <= i < entries.len(),
    ensures
        entry_map(entries).contains_key(entries[i].fingerprint@),
        entry_map(entries)[entries[i].fingerprint@] == entries[i].cached(),
{
    let key = entries[i].fingerprint@;
    assert(holds(entries, i, key));
    let j = choose|j: int| holds(entries, j, key);
    assert(holds(entries, j, key));
    if i < j {
        assert(entries[i].fingerprint@ != entries[j].fingerprint@);
    }
    if j < i {
        assert(entries[j].fingerprint@ != entries[i].fingerprint@);
    }
}

/// Whether two byte strings are equal.
fn bytes_equal(a: &[u8], b: &[u8]) -> (r: bool)
    ensures
        r == (a@ == b@),
{
    if a.len() != b.len() {
        return false;
    }
    let n = a.len();
    let mut i: usize = 0;
    while i < n
        invariant
            n == a@.len(),
            n == b@.len(),
            i <= n,
            a@.take(i as int) == b@.take(i as int),
        decreases n - i,
    {
        if a[i] != b[i] {
            return false;
        }
        assert(a@.take(i + 1) == a@.take(i as int).push(a@[i as int]));
        assert(b@.take(i + 1) == b@.take(i as int).push(b@[i as int]));
        i += 1;
    }
    assert(a@.take(n as int) == a@);
    assert(b@.take(n as int) == b@);
    true
}

/// Mapping from request fingerprint to rendered response and time of
/// creation.
#[derive(Clone, Debug)]
pub struct ResponseCache {
    entries: Vec<CacheEntry>,
}

impl View for ResponseCache {
    type V = Map<Seq<u8>, Cached>;

    closed spec fn view(&self) -> Map<Seq<u8>, Cached> {
        entry_map(self.entries@)
    }
}

impl ResponseCache {
    /// The invariant of the type: no fingerprint occurs twice.
    pub closed spec fn wf(&self) -> bool {
        distinct(self.entries@)
    }

    /// The empty cache.
    pub fn new() -> (cache: ResponseCache)
        ensures
            cache.wf(),
            cache@ == Map::<Seq<u8>, Cached>::empty(),
    {
        let cache = ResponseCache { entries: Vec::new() };
        assert(cache@ =~= Map::<Seq<u8>, Cached>::empty());
        cache
    }

    /// Number of entries.
    pub fn len(&self) -> (n: usize)
        requires
            self.wf(),
        ensures
            n == self@.len(),
            self@.dom().finite(),
    {
        proof {
            lemma_entry_map_len(self.entries@);
        }
        self.entries.len()
    }

    /// Position of the entry with this fingerprint, or the number of entries
    /// when there is none.
    fn position(&self, fingerprint: &[u8]) -> (at: usize)
        ensures
            at <= self.entries@.len(),
            at < self.entries@.len() ==> self.entries@[at as int].fingerprint@ == fingerprint@,
            at == self.entries@.len() ==> forall|i: int| !holds(self.entries@, i, fingerprint@),
    {
        let n = self.entries.len();
        let mut i: usize = 0;
        while i < n
            invariant
                n == self.entries@.len(),
                i <= n,
                forall|j: int| 0 <= j < i ==> !holds(self.entries@, j, fingerprint@),
            decreases n - i,
        {
            if bytes_equal(self.entries[i].fingerprint.as_slice(), fingerprint) {
                return i;
            }
            i += 1;
        }
        n
    }

    /// The response stored under `fingerprint`, if there is one.
    pub fn get(&self, fingerprint: &[u8]) -> (response: Option<&Vec<u8>>)
        requires
            self.wf(),
        ensures
            match response {
                Some(bytes) => self@.contains_key(fingerprint@) && bytes@
                    == self@[fingerprint@].response,
                None => !self@.contains_key(fingerprint@),
            },
    {
        let at = self.position(fingerprint);
        if at < self.entries.len() {
            proof {
                lemma_entry_map(self.entries@, at as int);
            }
            Some(&self.entries[at].response)
        } else {
            None
        }
    }

    /// The time at which the response under `fingerprint` was stored, if
    /// there is one.
    pub fn created_at(&self, fingerprint: &[u8]) -> (created: Option<Timestamp>)
        requires
            self.wf(),
        ensures
            match created {
                Some(at) => self@.contains_key(fingerprint@) && at
                    == self@[fingerprint@].created_at,
                None => !self@.contains_key(fingerprint@),
            },
    {
        let at = self.position(fingerprint);
        if at < self.entries.len() {
            proof {
                lemma_entry_map(self.entries@, at as int);
            }
            Some(self.entries[at].created_at)
        } else {
            None
        }
    }

    /// Stores `response` under `fingerprint` with the time `now`, in place of
    /// what was stored there before.
    pub fn put(&mut self, fingerprint: Vec<u8>, response: Vec<u8>, now: Timestamp)
        requires
            old(self).wf(),
        ensures
            final(self).wf(),
            final(self)@ == old(self)@.insert(
                fingerprint@,
                Cached { response: response@, created_at: now },
            ),
    {
        let at = self.position(fingerprint.as_slice());
        let ghost key = fingerprint@;
        let ghost value = Cached { response: response@, created_at: now };
        let ghost before = self.entries@;
        let entry = CacheEntry { fingerprint, response, created_at: now };
        if at < self.entries.len() {
            self.entries.set(at, entry);
        } else {
            self.entries.push(entry);
        }
        let ghost after = self.entries@;
        proof {
            let slot = at as int;
            assert(after[slot] == entry);
            assert forall|i: int, j: int| 0 <= i < j < after.len() implies (
            #[trigger] after[i]).fingerprint@ != (#[trigger] after[j]).fingerprint@ by {
                if i != slot && j != slot {
                    assert(after[i] == before[i]);
                    assert(after[j] == before[j]);
                } else if i == slot {
                    assert(after[j] == before[j]);
                    assert(before[slot].fingerprint@ == key);
                } else {
                    assert(after[i] == before[i]);
                    if slot < before.len() {
                        assert(before[slot].fingerprint@ == key);
                    } else {
                        assert(!holds(before, i, key));
                    }
                }
            }
            lemma_entry_map(after, slot);
            assert forall|k: Seq<u8>| #[trigger]
                entry_map(after).contains_key(k) == entry_map(before).insert(
                    key,
                    value,
                ).contains_key(k) by {
                if k != key {
                    if entry_map(after).contains_key(k) {
                        let i = choose|i: int| holds(after, i, k);
                        assert(holds(before, i, k));
                    }
                    if entry_map(before).contains_key(k) {
                        let i = choose|i: int| holds(before, i, k);
                        assert(holds(after, i, k));
                    }
                }
            }
            assert forall|k: Seq<u8>| #[trigger] entry_map(after).contains_key(k) implies entry_map(
                after,
            )[k] == entry_map(before).insert(key, value)[k] by {
                if k != key {
                    let i = choose|i: int| holds(after, i, k);
                    assert(holds(before, i, k));
                    lemma_entry_map(after, i);
                    lemma_entry_map(before, i);
                }
            }
            assert(entry_map(after) =~= entry_map(before).insert(key, value));
        }
    }

    /// Removes every entry that is, at `now`, older than `retention_secs`
    /// seconds.
    pub fn sweep(&mut self, now: Timestamp, retention_secs: u64)
        requires
            old(self).wf(),
        ensures
            final(self).wf(),
            final(self)@ == swept(old(self)@, now, retention_secs),
    {
        let ghost all = self.entries@;
        let mut rest: Vec<CacheEntry> = Vec::new();
        std::mem::swap(&mut self.entries, &mut rest);
        let mut kept: Vec<CacheEntry> = Vec::new();
        // Where each kept entry came from, and where each retained entry went.
        let ghost mut origin: Seq<int> = Seq::empty();
        let ghost mut place: Map<int, int> = Map::empty();
        while rest.len() > 0
            invariant
                distinct(all),
                rest@ == all.take(rest@.len() as int),
                rest@.len() <= all.len(),
                origin.len() == kept@.len(),
                forall|a: int, b: int|
                    0 <= a < b < origin.len() ==> (#[trigger] origin[a]) > (#[trigger] origin[b]),
                forall|i: int|
                    0 <= i < kept@.len() ==> rest@.len() <= (#[trigger] origin[i]) < all.len()
                        && all[origin[i]] == kept@[i] && !expired(
                        kept@[i].created_at,
                        now,
                        retention_secs,
                    ),
                forall|j: int|
                    rest@.len() <= j < all.len() && !expired(
                        (#[trigger] all[j]).created_at,
                        now,
                        retention_secs,
                    ) ==> place.contains_key(j) && 0 <= place[j] < kept@.len() && kept@[place[j]]
                        == all[j],
            decreases rest@.len(),
        {
            let ghost n = rest@.len() as int;
            let entry = rest.pop().unwrap();
            assert(entry == all[n - 1]);
            assert(rest@ == all.take(n - 1));
            if !is_expired(entry.created_at, now, retention_secs) {
                proof {
                    place = place.insert(n - 1, kept@.len() as int);
                    origin = origin.push(n - 1);
                }
                kept.push(entry);
            }
        }
        self.entries = kept;
        proof {
            let kept = self.entries@;
            assert forall|a: int, b: int| 0 <= a < b < kept.len() implies (
            #[trigger] kept[a]).fingerprint@ != (#[trigger] kept[b]).fingerprint@ by {
                let x = origin[a];
                let y = origin[b];
                assert(all[y].fingerprint@ != all[x].fingerprint@);
            }
            let target = swept(entry_map(all), now, retention_secs);
            assert forall|k: Seq<u8>| #[trigger]
                entry_map(kept).contains_key(k) == target.contains_key(k) by {
                if entry_map(kept).contains_key(k) {
                    let i = choose|i: int| holds(kept, i, k);
                    lemma_entry_map(all, origin[i]);
                }
                if target.contains_key(k) {
                    let j = choose|j: int| holds(all, j, k);
                    lemma_entry_map(all, j);
                    assert(holds(kept, place[j], k));
                }
            }
            assert forall|k: Seq<u8>| #[trigger] entry_map(kept).contains_key(k) implies entry_map(
                kept,
            )[k] == target[k] by {
                let i = choose|i: int| holds(kept, i, k);
                lemma_entry_map(all, origin[i]);
                lemma_entry_map(kept, i);
            }
            assert(entry_map(kept) =~= target);
        }
    }

    /// Removes every entry that is, at the time the clock shows, older than
    /// `retention_secs` seconds.
    pub fn sweep_now(&mut self, retention_secs: u64)
        requires
            old(self).wf(),
        ensures
            final(self).wf(),
            exists|now: Timestamp| final(self)@ == swept(old(self)@, now, retention_secs),
    {
        let now = utc_now();
        self.sweep(now, retention_secs);
    }
}

/// A cache holds as many responses as it has entries.
proof fn lemma_entry_map_len(entries: Seq<CacheEntry>)
    requires
        distinct(entries),
    ensures
        entry_map(entries).dom().finite(),
        entry_map(entries).len() == entries.len(),
    decreases entries.len(),
{
    if entries.len() == 0 {
        assert(entry_map(entries).dom() =~= Set::<Seq<u8>>::empty());
    } else {
        let rest = entries.drop_last();
        let last = entries.last();
        lemma_entry_map_len(rest);
        assert(!entry_map(rest).contains_key(last.fingerprint@)) by {
            if entry_map(rest).contains_key(last.fingerprint@) {
                let i = choose|i: int| holds(rest, i, last.fingerprint@);
                assert(entries[i].fingerprint@ != entries[entries.len() - 1].fingerprint@);
            }
        }
        assert(entry_map(entries).dom() =~= entry_map(rest).dom().insert(last.fingerprint@)) by {
            assert forall|k: Seq<u8>|
                entry_map(entries).dom().contains(k) == entry_map(rest).dom().insert(
                    last.fingerprint@,
                ).contains(k) by {
                if entry_map(entries).contains_key(k) {
                    let i = choose|i: int| holds(entries, i, k);
                    if i < rest.len() {
                        assert(holds(rest, i, k));
                    }
                }
                if entry_map(rest).contains_key(k) {
                    let i = choose|i: int| holds(rest, i, k);
                    assert(holds(entries, i, k));
                }
                if k == last.fingerprint@ {
                    assert(holds(entries, entries.len() - 1, k));
                }
            }
        }
    }
}

} // verus!
