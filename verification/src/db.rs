//! The store: keys, their values and the instants at which they expire.
//!
//! Instants are milliseconds on a clock that the caller reads; the store
//! never reads a clock itself.

use crate::text::same_text;
use crate::trusted::{bytes_clone, bytes_seq, duration_millis};
use bytes::Bytes;
use std::time::Duration;
use vstd::prelude::*;

verus! {

/// What the store holds for one key.
pub struct EntryView {
    /// The value.
    pub value: Seq<u8>,
    /// The instant from which the entry counts as absent, where it has one.
    pub expires_at: Option<u128>,
}

struct Entry {
    key: String,
    value: Bytes,
    expires_at: Option<u128>,
}

impl Entry {
    spec fn view(&self) -> EntryView {
        EntryView { value: bytes_seq(self.value), expires_at: self.expires_at }
    }
}

/// The entry has not expired at the instant `now`.
pub open spec fn is_live(e: EntryView, now: u64) -> bool {
    match e.expires_at {
        None => true,
        Some(t) => now < t,
    }
}

/// What a lookup of `key` at the instant `now` gives: the value of an entry
/// that is present and has not expired.
pub open spec fn lookup(m: Map<Seq<char>, EntryView>, key: Seq<char>, now: u64) -> Option<
    Seq<u8>,
> {
    if m.contains_key(key) && is_live(m[key], now) {
        Some(m[key].value)
    } else {
        None
    }
}

/// The instant at which an entry written at `now` expires: `now` plus the
/// time to live in milliseconds. Such an instant is held in 128 bits, so it
/// may lie beyond every instant that the clock can show; it is cut to what
/// 128 bits hold.
pub open spec fn deadline(now: u64, ttl: Option<nat>) -> Option<u128> {
    match ttl {
        None => None,
        Some(ms) => Some(
            if now + ms > u128::MAX {
                u128::MAX
            } else {
                (now + ms) as u128
            },
        ),
    }
}

/// The store after `key` was written: the entry replaces whatever the key
/// had, expiration included.
pub open spec fn stored(
    m: Map<Seq<char>, EntryView>,
    key: Seq<char>,
    value: Seq<u8>,
    expires_at: Option<u128>,
) -> Map<Seq<char>, EntryView> {
    m.insert(key, EntryView { value, expires_at })
}

/// The store without the entries that have expired at the instant `now`.
pub open spec fn without_expired(m: Map<Seq<char>, EntryView>, now: u64) -> Map<
    Seq<char>,
    EntryView,
> {
    Map::new(|k: Seq<char>| m.contains_key(k) && is_live(m[k], now), |k: Seq<char>| m[k])
}

/// `t` is the earliest instant at which an entry of the store expires, or
/// `None` where no entry ever expires.
pub open spec fn is_next_expiration(m: Map<Seq<char>, EntryView>, t: Option<u128>) -> bool {
    match t {
        None => forall|k: Seq<char>| m.contains_key(k) ==> (#[trigger] m[k]).expires_at is None,
        Some(t) => (exists|k: Seq<char>|
            m.contains_key(k) && (#[trigger] m[k]).expires_at == Some(t)) && forall|k: Seq<char>|
            m.contains_key(k) && (#[trigger] m[k]).expires_at is Some ==> t
                <= m[k].expires_at->Some_0,
    }
}

/// An entry that expires at `when` would expire before every entry of the
/// store: whoever waits for the next expiration has to be woken.
pub open spec fn expires_first(m: Map<Seq<char>, EntryView>, when: Option<u128>) -> bool {
    when is Some && forall|k: Seq<char>|
        m.contains_key(k) && (#[trigger] m[k]).expires_at is Some ==> when->Some_0
            < m[k].expires_at->Some_0
}

/// The index of the entry of `entries` that has the key `k`.
spec fn index_of(entries: Seq<Entry>, k: Seq<char>) -> int {
    choose|i: int| 0 <= i < entries.len() && entries[i].key@ == k
}

/// Some entry of `entries` has the key `k`.
spec fn has_key(entries: Seq<Entry>, k: Seq<char>) -> bool {
    exists|i: int| 0 <= i < entries.len() && (#[trigger] entries[i]).key@ == k
}

/// No two entries have the same key.
spec fn distinct_keys(entries: Seq<Entry>) -> bool {
    forall|i: int, j: int|
        0 <= i < j < entries.len() ==> (#[trigger] entries[i]).key@ != (#[trigger] entries[j]).key@
}

/// The map that a run of entries stands for.
spec fn map_of(entries: Seq<Entry>) -> Map<Seq<char>, EntryView> {
    Map::new(|k: Seq<char>| has_key(entries, k), |k: Seq<char>| entries[index_of(entries, k)]@)
}

/// The entry at index `i` is what the map holds for its key.
proof fn lemma_map_of_at(entries: Seq<Entry>, i: int)
    requires
        distinct_keys(entries),
        0 <= i < entries.len(),
    ensures
        map_of(entries).contains_key(entries[i].key@),
        map_of(entries)[entries[i].key@] == entries[i]@,
{
    let k = entries[i].key@;
    assert(has_key(entries, k));
    let j = index_of(entries, k);
    assert(0 <= j < entries.len() && entries[j].key@ == k);
    if i < j {
        assert(entries[i].key@ != entries[j].key@);
    } else if j < i {
        assert(entries[j].key@ != entries[i].key@);
    }
}

/// Replacing the entry of a key by another entry of that key writes the
/// key in the map.
proof fn lemma_replaced(before: Seq<Entry>, after: Seq<Entry>, i: int)
    requires
        distinct_keys(before),
        0 <= i < before.len(),
        after.len() == before.len(),
        after[i].key@ == before[i].key@,
        forall|j: int| 0 <= j < before.len() && j != i ==> after[j] == before[j],
    ensures
        distinct_keys(after),
        map_of(after) == map_of(before).insert(after[i].key@, after[i]@),
{
    assert forall|j: int| 0 <= j < before.len() implies (#[trigger] after[j]).key@
        == before[j].key@ by {}
    assert(distinct_keys(after)) by {
        assert forall|a: int, b: int| 0 <= a < b < after.len() implies (#[trigger] after[a]).key@
            != (#[trigger] after[b]).key@ by {
            assert(before[a].key@ != before[b].key@);
        }
    }
    let target = map_of(before).insert(after[i].key@, after[i]@);
    assert forall|k: Seq<char>| map_of(after).contains_key(k) <==> target.contains_key(k) by {
        if has_key(after, k) {
            let j = index_of(after, k);
            assert(before[j].key@ == k);
        }
        if has_key(before, k) {
            let j = index_of(before, k);
            assert(after[j].key@ == k);
        }
        if k == after[i].key@ {
            assert(after[i].key@ == k);
        }
    }
    assert forall|k: Seq<char>| map_of(after).contains_key(k) implies map_of(after)[k]
        == target[k] by {
        let j = index_of(after, k);
        lemma_map_of_at(after, j);
        if j != i {
            lemma_map_of_at(before, j);
            assert(before[j].key@ != before[i].key@);
        }
    }
    assert(map_of(after) =~= target);
}

/// Appending an entry with a new key writes the key in the map.
proof fn lemma_appended(before: Seq<Entry>, after: Seq<Entry>)
    requires
        distinct_keys(before),
        after.len() == before.len() + 1,
        after.drop_last() == before,
        !has_key(before, after.last().key@),
    ensures
        distinct_keys(after),
        map_of(after) == map_of(before).insert(after.last().key@, after.last()@),
{
    let n = before.len() as int;
    assert forall|j: int| 0 <= j < n implies #[trigger] after[j] == before[j] by {
        assert(after.drop_last()[j] == after[j]);
    }
    assert(distinct_keys(after)) by {
        assert forall|a: int, b: int| 0 <= a < b < after.len() implies (#[trigger] after[a]).key@
            != (#[trigger] after[b]).key@ by {
            if b < n {
                assert(before[a].key@ != before[b].key@);
            } else {
                assert(before[a].key@ != after[n].key@);
            }
        }
    }
    let target = map_of(before).insert(after[n].key@, after[n]@);
    assert forall|k: Seq<char>| map_of(after).contains_key(k) <==> target.contains_key(k) by {
        if has_key(after, k) {
            let j = index_of(after, k);
            if j < n {
                assert(before[j].key@ == k);
            }
        }
        if has_key(before, k) {
            let j = index_of(before, k);
            assert(after[j].key@ == k);
        }
        if k == after[n].key@ {
            assert(after[n].key@ == k);
        }
    }
    assert forall|k: Seq<char>| map_of(after).contains_key(k) implies map_of(after)[k]
        == target[k] by {
        let j = index_of(after, k);
        lemma_map_of_at(after, j);
        if j < n {
            lemma_map_of_at(before, j);
        }
    }
    assert(map_of(after) =~= target);
}

/// `kept` holds, last one first, the entries of `orig` from index `from` on
/// that have not expired at `now`; `src` says where each stood in `orig`.
spec fn kept_from(orig: Seq<Entry>, kept: Seq<Entry>, src: Seq<int>, from: int, now: u64) -> bool {
    &&& src.len() == kept.len()
    &&& forall|t: int|
        0 <= t < kept.len() ==> from <= #[trigger] src[t] < orig.len() && kept[t] == orig[src[t]]
            && is_live(orig[src[t]]@, now)
    &&& forall|a: int, b: int| 0 <= a < b < src.len() ==> #[trigger] src[a] > #[trigger] src[b]
    &&& forall|j: int|
        from <= j < orig.len() && is_live((#[trigger] orig[j])@, now) ==> src.contains(j)
}

/// The entries that were kept are the map without its expired entries.
proof fn lemma_kept(orig: Seq<Entry>, kept: Seq<Entry>, src: Seq<int>, now: u64)
    requires
        distinct_keys(orig),
        kept_from(orig, kept, src, 0, now),
    ensures
        distinct_keys(kept),
        map_of(kept) == without_expired(map_of(orig), now),
{
    assert(distinct_keys(kept)) by {
        assert forall|a: int, b: int| 0 <= a < b < kept.len() implies (#[trigger] kept[a]).key@
            != (#[trigger] kept[b]).key@ by {
            assert(src[a] > src[b]);
            assert(orig[src[b]].key@ != orig[src[a]].key@);
        }
    }
    let target = without_expired(map_of(orig), now);
    assert forall|k: Seq<char>| map_of(kept).contains_key(k) <==> target.contains_key(k) by {
        if has_key(kept, k) {
            let t = index_of(kept, k);
            lemma_map_of_at(orig, src[t]);
        }
        if target.contains_key(k) {
            let j = index_of(orig, k);
            lemma_map_of_at(orig, j);
            assert(is_live(orig[j]@, now));
            assert(src.contains(j));
            let t = choose|t: int| 0 <= t < src.len() && src[t] == j;
            assert(kept[t].key@ == k);
        }
    }
    assert forall|k: Seq<char>| map_of(kept).contains_key(k) implies map_of(kept)[k]
        == target[k] by {
        let t = index_of(kept, k);
        lemma_map_of_at(kept, t);
        lemma_map_of_at(orig, src[t]);
    }
    assert(map_of(kept) =~= target);
}

/// A run of entries with distinct keys stands for a map of as many keys.
proof fn lemma_dom_len(entries: Seq<Entry>)
    requires
        distinct_keys(entries),
    ensures
        map_of(entries).dom().finite(),
        map_of(entries).dom().len() == entries.len(),
    decreases entries.len(),
{
    if entries.len() == 0 {
        assert(map_of(entries).dom() =~= Set::<Seq<char>>::empty());
    } else {
        let init = entries.drop_last();
        let last = entries.last();
        assert(distinct_keys(init)) by {
            assert forall|a: int, b: int| 0 <= a < b < init.len() implies (#[trigger] init[a]).key@
                != (#[trigger] init[b]).key@ by {
                assert(entries[a].key@ != entries[b].key@);
            }
        }
        assert(!has_key(init, last.key@)) by {
            if has_key(init, last.key@) {
                let j = index_of(init, last.key@);
                assert(entries[j].key@ != entries[entries.len() - 1].key@);
            }
        }
        lemma_dom_len(init);
        lemma_appended(init, entries);
        assert(map_of(entries).dom() =~= map_of(init).dom().insert(last.key@));
    }
}

/// A time to live in whole milliseconds.
pub open spec fn ttl_millis(expire: Option<Duration>) -> Option<nat> {
    match expire {
        None => None,
        Some(d) => Some(duration_millis(d)),
    }
}

/// The instant at which an entry written at `now` with the time to live
/// `expire` expires.
pub fn deadline_at(now: u64, expire: Option<Duration>) -> (r: Option<u128>)
    ensures
        r == deadline(now, ttl_millis(expire)),
{
    match expire {
        None => None,
        Some(d) => {
            let ms: u128 = d.as_millis();
            let room: u128 = u128::MAX - (now as u128);
            if ms > room {
                Some(u128::MAX)
            } else {
                Some((now as u128) + ms)
            }
        },
    }
}

/// The milliseconds from the instant `now` to the instant `when`: none
/// where `when` has come, and no more than 64 bits hold.
pub open spec fn wait_millis(now: u64, when: u128) -> u64 {
    if when <= now {
        0
    } else if when - now > u64::MAX {
        u64::MAX
    } else {
        (when - now) as u64
    }
}

/// How long whoever waits for the instant `when` has to sleep at the
/// instant `now`, in milliseconds.
pub fn millis_until(now: u64, when: u128) -> (wait: u64)
    ensures
        wait == wait_millis(now, when),
{
    let now: u128 = now as u128;
    if when <= now {
        0
    } else if when - now > 18446744073709551615u128 {
        u64::MAX
    } else {
        (when - now) as u64
    }
}

/// The store. It holds its entries in a row, and looks a key up, and the
/// next expiration, by walking the row.
pub struct Db {
    entries: Vec<Entry>,
}

impl View for Db {
    type V = Map<Seq<char>, EntryView>;

    /// What the store holds for each key, expired entries that were not
    /// yet removed included.
    closed spec fn view(&self) -> Map<Seq<char>, EntryView> {
        map_of(self.entries@)
    }
}

impl Db {
    /// The store holds at most one entry for a key.
    pub closed spec fn wf(&self) -> bool {
        distinct_keys(self.entries@)
    }

    /// A store without entries.
    pub fn new() -> (db: Db)
        ensures
            db.wf(),
            db@ == Map::<Seq<char>, EntryView>::empty(),
    {
        let db = Db { entries: Vec::new() };
        assert(db@ =~= Map::<Seq<char>, EntryView>::empty());
        db
    }

    /// The index of the entry for `key`.
    fn position(&self, key: &str) -> (r: Option<usize>)
        ensures
            match r {
                Some(i) => i < self.entries@.len() && self.entries@[i as int].key@ == key@,
                None => !has_key(self.entries@, key@),
            },
    {
        let mut i: usize = 0;
        while i < self.entries.len()
            invariant
                i <= self.entries@.len(),
                forall|j: int| 0 <= j < i ==> (#[trigger] self.entries@[j]).key@ != key@,
            decreases self.entries@.len() - i,
        {
            if same_text(self.entries[i].key.as_str(), key) {
                return Some(i);
            }
            i = i + 1;
        }
        None
    }

    /// The value of `key` at the instant `now`: `None` where the store has
    /// no entry for the key, or one that has expired.
    pub fn get(&self, key: &str, now: u64) -> (r: Option<Bytes>)
        requires
            self.wf(),
        ensures
            match lookup(self@, key@, now) {
                Some(v) => r is Some && bytes_seq(r->Some_0) == v,
                None => r is None,
            },
    {
        match self.position(key) {
            None => None,
            Some(i) => {
                proof {
                    lemma_map_of_at(self.entries@, i as int);
                }
                let entry = &self.entries[i];
                let live: bool = match entry.expires_at {
                    None => true,
                    Some(t) => (now as u128) < t,
                };
                if live {
                    Some(bytes_clone(&entry.value))
                } else {
                    None
                }
            },
        }
    }

    /// Whether the store physically holds an entry for `key`, expired or
    /// not.
    pub fn holds(&self, key: &str) -> (r: bool)
        requires
            self.wf(),
        ensures
            r == self@.contains_key(key@),
    {
        self.position(key).is_some()
    }

    /// The earliest instant at which an entry expires.
    pub fn next_expiration(&self) -> (r: Option<u128>)
        requires
            self.wf(),
        ensures
            is_next_expiration(self@, r),
    {
        let mut best: Option<u128> = None;
        let mut i: usize = 0;
        while i < self.entries.len()
            invariant
                i <= self.entries@.len(),
                best is None ==> forall|j: int|
                    0 <= j < i ==> (#[trigger] self.entries@[j]).expires_at is None,
                best is Some ==> exists|j: int|
                    0 <= j < i && (#[trigger] self.entries@[j]).expires_at == best,
                best is Some ==> forall|j: int|
                    0 <= j < i && (#[trigger] self.entries@[j]).expires_at is Some
                        ==> best->Some_0 <= self.entries@[j].expires_at->Some_0,
            decreases self.entries@.len() - i,
        {
            match self.entries[i].expires_at {
                None => {},
                Some(t) => {
                    let earlier: bool = match best {
                        None => true,
                        Some(b) => t < b,
                    };
                    if earlier {
                        best = Some(t);
                    }
                },
            }
            i = i + 1;
        }
        proof {
            let entries = self.entries@;
            assert forall|k: Seq<char>| self@.contains_key(k) implies (best is None ==> (
            #[trigger] self@[k]).expires_at is None) && (best is Some && self@[k].expires_at
                is Some ==> best->Some_0 <= self@[k].expires_at->Some_0) by {
                let j = index_of(entries, k);
                lemma_map_of_at(entries, j);
            }
            if best is Some {
                let j = choose|j: int| 0 <= j < i && (#[trigger] entries[j]).expires_at == best;
                lemma_map_of_at(entries, j);
                assert(self@.contains_key(entries[j].key@) && self@[entries[j].key@].expires_at
                    == best);
            }
        }
        best
    }

    /// Writes `value` for `key` at the instant `now`, in place of whatever
    /// the key had. With a time to live the entry expires that long after
    /// `now`; without one it never does. Returns whether the entry expires
    /// before every entry that the store held.
    pub fn set(&mut self, key: String, value: Bytes, expire: Option<Duration>, now: u64) -> (notify:
        bool)
        requires
            old(self).wf(),
        ensures
            final(self).wf(),
            final(self)@ == stored(
                old(self)@,
                key@,
                bytes_seq(value),
                deadline(now, ttl_millis(expire)),
            ),
            notify == expires_first(old(self)@, deadline(now, ttl_millis(expire))),
    {
        let expires_at = deadline_at(now, expire);
        let notify: bool = match expires_at {
            None => false,
            Some(when) => match self.next_expiration() {
                None => true,
                Some(next) => when < next,
            },
        };
        let found = self.position(key.as_str());
        let ghost before = self.entries@;
        let ghost k0 = key@;
        let entry = Entry { key, value, expires_at };
        match found {
            Some(i) => {
                self.entries.set(i, entry);
                proof {
                    lemma_replaced(before, self.entries@, i as int);
                }
            },
            None => {
                self.entries.push(entry);
                proof {
                    assert(self.entries@.drop_last() =~= before);
                    lemma_appended(before, self.entries@);
                }
            },
        }
        notify
    }

    /// Removes the entries that have expired at the instant `now`, and
    /// returns the earliest instant at which one of the others expires.
    pub fn purge_expired(&mut self, now: u64) -> (next: Option<u128>)
        requires
            old(self).wf(),
        ensures
            final(self).wf(),
            final(self)@ == without_expired(old(self)@, now),
            is_next_expiration(final(self)@, next),
    {
        let ghost orig = self.entries@;
        let ghost mut src: Seq<int> = Seq::empty();
        let mut kept: Vec<Entry> = Vec::new();
        while self.entries.len() > 0
            invariant
                self.entries@.len() <= orig.len(),
                self.entries@ == orig.take(self.entries@.len() as int),
                kept_from(orig, kept@, src, self.entries@.len() as int, now),
            decreases self.entries@.len(),
        {
            let ghost n = self.entries@.len() as int;
            let ghost src0 = src;
            match self.entries.pop() {
                None => {},
                Some(entry) => {
                    assert(entry == orig[n - 1]);
                    let live: bool = match entry.expires_at {
                        None => true,
                        Some(t) => (now as u128) < t,
                    };
                    assert(live == is_live(orig[n - 1]@, now));
                    if live {
                        kept.push(entry);
                        proof {
                            src = src.push(n - 1);
                        }
                    }
                    proof {
                        assert(self.entries@ =~= orig.take(n - 1));
                        assert forall|j: int|
                            n - 1 <= j < orig.len() && is_live(
                                (#[trigger] orig[j])@,
                                now,
                            ) implies src.contains(j) by {
                            if j == n - 1 {
                                assert(src[src.len() - 1] == j);
                            } else {
                                assert(src0.contains(j));
                                let t = choose|t: int| 0 <= t < src0.len() && src0[t] == j;
                                assert(src[t] == j);
                            }
                        }
                    }
                },
            }
        }
        proof {
            lemma_kept(orig, kept@, src, now);
        }
        self.entries = kept;
        self.next_expiration()
    }

    /// The number of entries that the store physically holds, expired or
    /// not.
    pub fn len(&self) -> (n: usize)
        requires
            self.wf(),
        ensures
            self@.dom().finite(),
            n == self@.dom().len(),
    {
        proof {
            lemma_dom_len(self.entries@);
        }
        self.entries.len()
    }
}

} // verus!
