//! The response cache: least-recently-used, with TTL aging on every hit.

use crate::wire::{
    adjust_ttls, aged, cache_ttl, cache_ttl_of, is_ttl_byte, law_aging,
    law_aging_keeps_the_question, names_avoid_ttls, older, overwrite, questions_end_of, record_at,
    record_start, record_total, records_from, saturating, Meta, QueryMeta,
};
use vstd::prelude::*;
use vstd::slice::slice_to_vec;

verus! {

/// Nanoseconds in one second.
pub const NANOS_PER_SEC: u64 = 1_000_000_000;

// ---------- the LRU store ----------

/// What a cached response is found by: name, type, class, DO bit and the
/// DNSSEC header bits.
pub type StoreKey = (Vec<u8>, u16, u16, bool, u8);

/// A stored response with a cleared ID, the time it was stored, and its TTL.
pub type StoreEntry = (Vec<u8>, u64, u32);

/// The LRU collection that holds the cached responses.
pub type Store = lru::LruCache<StoreKey, StoreEntry>;

/// `StoreKey` as plain values.
pub type Key = (Seq<u8>, u16, u16, bool, u8);

/// `StoreEntry` as plain values.
pub type Entry = (Seq<u8>, u64, u32);

pub open spec fn key_view(k: StoreKey) -> Key {
    (k.0@, k.1, k.2, k.3, k.4)
}

pub open spec fn entry_view(e: StoreEntry) -> Entry {
    (e.0@, e.1, e.2)
}

#[verifier::external_type_specification]
#[verifier::external_body]
#[verifier::reject_recursive_types(K)]
#[verifier::reject_recursive_types(V)]
#[verifier::reject_recursive_types(S)]
pub struct ExLruCache<K, V, S>(lru::LruCache<K, V, S>);

#[verifier::external_type_specification]
#[verifier::external_body]
pub struct ExLruHasher(lru::DefaultHasher);

/// What an LRU collection holds, most recently used first.
pub uninterp spec fn lru_items(store: Store) -> Seq<(Key, Entry)>;

/// How many items an LRU collection takes at most.
pub uninterp spec fn lru_capacity(store: Store) -> nat;

/// Where the item with the key `key` is.
pub open spec fn position(items: Seq<(Key, Entry)>, key: Key) -> Option<int>
    decreases items.len(),
{
    if items.len() == 0 {
        None
    } else if items[0].0 == key {
        Some(0)
    } else {
        match position(items.drop_first(), key) {
            Some(i) => Some(i + 1),
            None => None,
        }
    }
}

/// The item at `i`, moved to the front.
pub open spec fn touched(items: Seq<(Key, Entry)>, i: int) -> Seq<(Key, Entry)> {
    seq![items[i]] + items.remove(i)
}

/// `items` with an entry for `key` at the front: in place of an older one for
/// that key, or else, where the collection is full, of the least recently used.
pub open spec fn stored(
    items: Seq<(Key, Entry)>,
    capacity: nat,
    key: Key,
    entry: Entry,
) -> Seq<(Key, Entry)> {
    match position(items, key) {
        Some(i) => seq![(key, entry)] + items.remove(i),
        None => if items.len() == capacity {
            seq![(key, entry)] + items.drop_last()
        } else {
            seq![(key, entry)] + items
        },
    }
}

/// `lru::LruCache::new`: an empty collection that takes `capacity` items. The
/// constructor reserves room for all of them at once, and panics where the
/// size of that table does not fit in an `isize`; the bound keeps clear of it.
#[verifier::external_body]
fn lru_new(capacity: usize) -> (store: Store)
    requires
        0 < capacity <= usize::MAX / 128,
    ensures
        lru_items(store) == Seq::<(Key, Entry)>::empty(),
        lru_capacity(store) == capacity,
{
    lru::LruCache::new(std::num::NonZeroUsize::new(capacity).unwrap())
}

/// `lru::LruCache::get`, with the value cloned: the value of the item with
/// that key, which becomes the most recently used one.
#[verifier::external_body]
fn lru_get(store: &mut Store, key: &StoreKey) -> (found: Option<StoreEntry>)
    ensures
        lru_capacity(*final(store)) == lru_capacity(*old(store)),
        match position(lru_items(*old(store)), key_view(*key)) {
            Some(i) => found matches Some(entry) && entry_view(entry) == lru_items(*old(store))[i].1
                && lru_items(*final(store)) == touched(lru_items(*old(store)), i),
            None => found is None && lru_items(*final(store)) == lru_items(*old(store)),
        },
{
    store.get(key).cloned()
}

/// `lru::LruCache::pop`: takes the item with that key out.
#[verifier::external_body]
fn lru_pop(store: &mut Store, key: &StoreKey) -> (found: Option<StoreEntry>)
    ensures
        lru_capacity(*final(store)) == lru_capacity(*old(store)),
        match position(lru_items(*old(store)), key_view(*key)) {
            Some(i) => found matches Some(entry) && entry_view(entry) == lru_items(*old(store))[i].1
                && lru_items(*final(store)) == lru_items(*old(store)).remove(i),
            None => found is None && lru_items(*final(store)) == lru_items(*old(store)),
        },
{
    store.pop(key)
}

/// `lru::LruCache::put`: the new item becomes the most recently used one. It
/// replaces an older item with its key, whose value is returned; otherwise a
/// full collection gives up its least recently used item.
#[verifier::external_body]
fn lru_put(store: &mut Store, key: StoreKey, entry: StoreEntry) -> (replaced: Option<StoreEntry>)
    ensures
        lru_capacity(*final(store)) == lru_capacity(*old(store)),
        lru_items(*final(store)) == stored(
            lru_items(*old(store)),
            lru_capacity(*old(store)),
            key_view(key),
            entry_view(entry),
        ),
        match position(lru_items(*old(store)), key_view(key)) {
            Some(i) => replaced matches Some(value) && entry_view(value) == lru_items(
                *old(store),
            )[i].1,
            None => replaced is None,
        },
{
    store.put(key, entry)
}

/// A found key is where it was found, and nowhere before.
pub proof fn lemma_position(items: Seq<(Key, Entry)>, key: Key)
    ensures
        match position(items, key) {
            Some(i) => 0 <= i < items.len() && items[i].0 == key && forall|j: int|
                0 <= j < i ==> (#[trigger] items[j]).0 != key,
            None => forall|j: int| 0 <= j < items.len() ==> (#[trigger] items[j]).0 != key,
        },
    decreases items.len(),
{
    if items.len() > 0 && items[0].0 != key {
        let rest = items.drop_first();
        lemma_position(rest, key);
        assert forall|j: int| 0 < j < items.len() implies #[trigger] items[j] == rest[j - 1] by {}
    }
}

/// No two items have the same key.
pub open spec fn distinct_keys(items: Seq<(Key, Entry)>) -> bool {
    forall|i: int, j: int|
        0 <= i < j < items.len() ==> (#[trigger] items[i]).0 != (#[trigger] items[j]).0
}

/// With distinct keys, an item is found exactly where it stands.
pub proof fn lemma_position_is(items: Seq<(Key, Entry)>, key: Key, i: int)
    requires
        distinct_keys(items),
        0 <= i < items.len(),
        items[i].0 == key,
    ensures
        position(items, key) == Some(i),
{
    lemma_position(items, key);
}

/// Moving an item to the front keeps the keys distinct.
proof fn lemma_touched(items: Seq<(Key, Entry)>, i: int)
    requires
        distinct_keys(items),
        0 <= i < items.len(),
    ensures
        distinct_keys(touched(items, i)),
        distinct_keys(items.remove(i)),
        touched(items, i).len() == items.len(),
        position(touched(items, i), items[i].0) == Some(0int),
        touched(items, i).remove(0) == items.remove(i),
{
    let rest = items.remove(i);
    let out = touched(items, i);
    assert(out[0] == items[i]);
    assert(out.remove(0) =~= rest);
}

/// Storing an item keeps the keys distinct and the number of items within the
/// capacity.
proof fn lemma_stored(items: Seq<(Key, Entry)>, capacity: nat, key: Key, entry: Entry)
    requires
        distinct_keys(items),
        0 < capacity,
        items.len() <= capacity,
    ensures
        distinct_keys(stored(items, capacity, key, entry)),
        stored(items, capacity, key, entry).len() <= capacity,
        position(stored(items, capacity, key, entry), key) == Some(0int),
{
    lemma_position(items, key);
    let out = stored(items, capacity, key, entry);
    assert(out[0] == (key, entry));
}

// ---------- the cache ----------

/// The cache as plain values: what it holds, most recently used first, and how
/// much it takes.
pub struct Contents {
    pub items: Seq<(Key, Entry)>,
    pub capacity: nat,
}

/// The key under which answers to a query are kept.
pub open spec fn key_of(meta: Meta) -> Key {
    (meta.qname, meta.qtype, meta.qclass, meta.do_bit, meta.dnssec_header_bits)
}

/// `m` with the first two bytes, the message ID, replaced.
pub open spec fn with_id(m: Seq<u8>, a: u8, b: u8) -> Seq<u8> {
    overwrite(m, 0, seq![a, b])
}

/// Whole seconds between two times.
pub open spec fn seconds_between(from: u64, to: u64) -> int {
    saturating(to as int, from as int) / NANOS_PER_SEC as int
}

/// What a lookup at `now` returns, and what it leaves in the cache.
pub open spec fn looked_up(
    items: Seq<(Key, Entry)>,
    key: Key,
    id: Seq<u8>,
    now: u64,
) -> (Option<Seq<u8>>, Seq<(Key, Entry)>) {
    match position(items, key) {
        None => (None, items),
        Some(i) => {
            let (response, stored_at, ttl) = items[i].1;
            let elapsed = seconds_between(stored_at, now);
            let (out, complete) = aged(response, elapsed);
            if elapsed >= ttl {
                (None, items.remove(i))
            } else if complete {
                (Some(with_id(out, id[0], id[1])), touched(items, i))
            } else {
                (None, touched(items, i))
            }
        },
    }
}

/// What the cache holds after it was offered a response at `now`.
pub open spec fn offered(
    items: Seq<(Key, Entry)>,
    capacity: nat,
    meta: Meta,
    response: Seq<u8>,
    now: u64,
) -> Seq<(Key, Entry)> {
    match cache_ttl_of(response, meta.qtype) {
        Some(ttl) => stored(items, capacity, key_of(meta), (with_id(response, 0, 0), now, ttl)),
        None => items,
    }
}

/// Responses by query, kept until their TTL runs out or room is needed. Times
/// are nanoseconds of one monotonic clock.
pub struct Cache {
    entries: Option<Store>,
}

impl View for Cache {
    type V = Option<Contents>;

    closed spec fn view(&self) -> Option<Contents> {
        match self.entries {
            Some(store) => Some(
                Contents { items: lru_items(store), capacity: lru_capacity(store) },
            ),
            None => None,
        }
    }
}

fn store_key(meta: &QueryMeta) -> (key: StoreKey)
    ensures
        key_view(key) == key_of(meta@),
{
    (meta.qname.clone(), meta.qtype, meta.qclass, meta.do_bit, meta.dnssec_header_bits)
}

fn set_id(message: &mut Vec<u8>, a: u8, b: u8)
    requires
        old(message)@.len() >= 2,
    ensures
        final(message)@ == with_id(old(message)@, a, b),
{
    message.set(0, a);
    message.set(1, b);
    assert(message@ =~= with_id(old(message)@, a, b));
}

impl Cache {
    /// What every cache keeps to: one entry per key, and no more of them than
    /// the capacity.
    pub open spec fn wf(&self) -> bool {
        self@ matches Some(contents) ==> {
            &&& distinct_keys(contents.items)
            &&& contents.items.len() <= contents.capacity
            &&& 0 < contents.capacity
        }
    }

    /// A disabled cache stays empty. An enabled one takes at least one entry.
    pub fn new(enabled: bool, capacity: usize) -> (cache: Self)
        requires
            enabled ==> capacity <= usize::MAX / 128,
        ensures
            cache.wf(),
            cache@ == if enabled {
                Some(
                    Contents {
                        items: Seq::empty(),
                        capacity: if capacity == 0 {
                            1
                        } else {
                            capacity as nat
                        },
                    },
                )
            } else {
                None
            },
    {
        let entries: Option<Store> = if enabled {
            Some(
                lru_new(
                    if capacity == 0 {
                        1
                    } else {
                        capacity
                    },
                ),
            )
        } else {
            None
        };
        Self { entries }
    }

    /// The cached answer to a query, with its TTLs aged and the client's ID.
    /// An entry whose time has run out is removed.
    pub fn get(&mut self, meta: &QueryMeta, request_id: [u8; 2], now: u64) -> (answer: Option<
        Vec<u8>,
    >)
        requires
            old(self).wf(),
        ensures
            final(self).wf(),
            match old(self)@ {
                None => answer is None && final(self)@ is None,
                Some(contents) => {
                    let (found, left) = looked_up(
                        contents.items,
                        key_of(meta@),
                        request_id@,
                        now,
                    );
                    &&& final(self)@ == Some(Contents { items: left, ..contents })
                    &&& match found {
                        Some(bytes) => answer matches Some(got) && got@ == bytes,
                        None => answer is None,
                    }
                },
            },
    {
        let ghost before = self@;
        let key: StoreKey = store_key(meta);
        match &mut self.entries {
            None => None,
            Some(store) => {
                let ghost items = lru_items(*store);
                proof {
                    lemma_position(items, key_view(key));
                    if let Some(i) = position(items, key_view(key)) {
                        lemma_touched(items, i);
                    }
                }
                let (response, stored_at, ttl): StoreEntry = match lru_get(store, &key) {
                    Some(entry) => entry,
                    None => return None,
                };
                let elapsed: u64 = if now > stored_at {
                    (now - stored_at) / NANOS_PER_SEC
                } else {
                    0
                };
                if elapsed >= ttl as u64 {
                    lru_pop(store, &key);
                    return None;
                }
                let mut response = response;
                proof {
                    law_aging_keeps_the_question(response@, elapsed as int);
                }
                if !adjust_ttls(response.as_mut_slice(), elapsed) {
                    return None;
                }
                set_id(&mut response, request_id[0], request_id[1]);
                Some(response)
            },
        }
    }

    /// Keep a response for as long as it says it may be kept.
    pub fn insert(&mut self, meta: &QueryMeta, response: &[u8], now: u64)
        requires
            old(self).wf(),
        ensures
            final(self).wf(),
            final(self)@ == match old(self)@ {
                None => None,
                Some(contents) => Some(
                    Contents {
                        items: offered(
                            contents.items,
                            contents.capacity,
                            meta@,
                            response@,
                            now,
                        ),
                        ..contents
                    },
                ),
            },
    {
        match &mut self.entries {
            None => {},
            Some(store) => {
                let ttl: u32 = match cache_ttl(response, meta.qtype) {
                    Some(ttl) => ttl,
                    None => return ,
                };
                let mut stored_response: Vec<u8> = slice_to_vec(response);
                set_id(&mut stored_response, 0, 0);
                let key: StoreKey = store_key(meta);
                proof {
                    lemma_stored(
                        lru_items(*store),
                        lru_capacity(*store),
                        key_view(key),
                        (stored_response@, now, ttl),
                    );
                }
                lru_put(store, key, (stored_response, now, ttl));
            },
        }
    }
}

// ---------- laws ----------

/// A cached response comes back to whoever asks the same question before its
/// TTL has run out: aged by the whole seconds that have passed, and with the
/// ID of the asker.
pub proof fn law_read_after_write(
    contents: Contents,
    meta: Meta,
    response: Seq<u8>,
    stored_at: u64,
    asked: Meta,
    id: Seq<u8>,
    now: u64,
)
    requires
        distinct_keys(contents.items),
        contents.items.len() <= contents.capacity,
        0 < contents.capacity,
        cache_ttl_of(response, meta.qtype) is Some,
        seconds_between(stored_at, now) < cache_ttl_of(response, meta.qtype)->0,
        key_of(asked) == key_of(meta),
    ensures
        ({
            let items = offered(contents.items, contents.capacity, meta, response, stored_at);
            let (out, complete) = aged(with_id(response, 0, 0), seconds_between(stored_at, now));
            looked_up(items, key_of(asked), id, now).0 == if complete {
                Some(with_id(out, id[0], id[1]))
            } else {
                None
            }
        }),
{
    lemma_stored(
        contents.items,
        contents.capacity,
        key_of(meta),
        (with_id(response, 0, 0), stored_at, cache_ttl_of(response, meta.qtype)->0),
    );
}

/// Two clients that ask the same question at the same time get the same
/// answer, up to the message ID, which is each one's own.
pub proof fn law_each_client_gets_its_own_id(
    items: Seq<(Key, Entry)>,
    key: Key,
    first: Seq<u8>,
    second: Seq<u8>,
    now: u64,
)
    ensures
        looked_up(items, key, first, now).0 is Some <==> looked_up(items, key, second, now).0
            is Some,
        looked_up(items, key, first, now).0 matches Some(a) ==> looked_up(
            items,
            key,
            second,
            now,
        ).0 matches Some(b) && a.len() == b.len() && a.len() >= 2 && a[0] == first[0] && a[1]
            == first[1] && b[0] == second[0] && b[1] == second[1] && forall|k: int|
            2 <= k < a.len() ==> a[k] == b[k],
{
    if let Some(i) = position(items, key) {
        law_aging_keeps_the_question(items[i].1.0, seconds_between(items[i].1.1, now));
    }
}

/// An entry that is found expired is gone: no later lookup finds it.
pub proof fn law_expired_entries_are_removed(
    items: Seq<(Key, Entry)>,
    key: Key,
    id: Seq<u8>,
    now: u64,
    later_id: Seq<u8>,
    later: u64,
)
    requires
        distinct_keys(items),
        position(items, key) matches Some(i) && seconds_between(items[i].1.1, now)
            >= items[i].1.2,
    ensures
        looked_up(items, key, id, now).0 is None,
        position(looked_up(items, key, id, now).1, key) is None,
        looked_up(looked_up(items, key, id, now).1, key, later_id, later).0 is None,
{
    lemma_position(items, key);
    let left = looked_up(items, key, id, now).1;
    lemma_position(left, key);
}

/// Storing a response takes nothing else out of the cache, except that a full
/// cache gives up the entry that was used least recently.
pub proof fn law_only_the_least_recently_used_is_evicted(
    contents: Contents,
    meta: Meta,
    response: Seq<u8>,
    stored_at: u64,
    other: Key,
)
    requires
        distinct_keys(contents.items),
        contents.items.len() <= contents.capacity,
        0 < contents.capacity,
        other != key_of(meta),
        position(contents.items, other) is Some,
        contents.items.len() < contents.capacity || contents.items.last().0 != other,
    ensures
        ({
            let items = offered(contents.items, contents.capacity, meta, response, stored_at);
            &&& position(items, other) is Some
            &&& items[position(items, other)->0].1 == contents.items[position(
                contents.items,
                other,
            )->0].1
        }),
{
    let before = contents.items;
    let key = key_of(meta);
    lemma_position(before, other);
    lemma_position(before, key);
    let items = offered(before, contents.capacity, meta, response, stored_at);
    if let Some(ttl) = cache_ttl_of(response, meta.qtype) {
        lemma_stored(before, contents.capacity, key, (with_id(response, 0, 0), stored_at, ttl));
        let at = position(before, other)->0;
        let now_at = match position(before, key) {
            Some(i) => if at < i {
                at + 1
            } else {
                at
            },
            None => at + 1,
        };
        assert(items[now_at] == before[at]);
        lemma_position_is(items, other, now_at);
    }
}

/// A response that can be read in full, and in which no owner name leads into a
/// TTL, always comes back while it is fresh: every record has its TTL reduced
/// by the seconds that passed, OPT records are as they were, and apart from the
/// ID nothing else has changed.
pub proof fn law_fresh_answers_come_back(
    contents: Contents,
    meta: Meta,
    response: Seq<u8>,
    stored_at: u64,
    id: Seq<u8>,
    now: u64,
    start: int,
    n: nat,
)
    requires
        distinct_keys(contents.items),
        contents.items.len() <= contents.capacity,
        0 < contents.capacity,
        cache_ttl_of(response, meta.qtype) is Some,
        seconds_between(stored_at, now) < cache_ttl_of(response, meta.qtype)->0,
        questions_end_of(with_id(response, 0, 0)) == Some(start),
        record_total(with_id(response, 0, 0)) == Some(n as int),
        records_from(with_id(response, 0, 0), start, n) is Some,
        (records_from(with_id(response, 0, 0), start, n)->0).1 == response.len(),
        names_avoid_ttls(
            with_id(response, 0, 0),
            start,
            (records_from(with_id(response, 0, 0), start, n)->0).0,
        ),
    ensures
        ({
            let items = offered(contents.items, contents.capacity, meta, response, stored_at);
            let rrs = (records_from(with_id(response, 0, 0), start, n)->0).0;
            let aged_message = aged(
                with_id(response, 0, 0),
                seconds_between(stored_at, now),
            ).0;
            &&& looked_up(items, key_of(meta), id, now).0 == Some(
                with_id(aged_message, id[0], id[1]),
            )
            &&& forall|k: int|
                2 <= k < response.len() && !is_ttl_byte(rrs, k) ==> #[trigger] aged_message[k]
                    == response[k]
            &&& forall|i: int|
                0 <= i < n ==> record_at(aged_message, record_start(rrs, start, i)) == Some(
                    older(#[trigger] rrs[i], seconds_between(stored_at, now)),
                )
        }),
{
    law_read_after_write(contents, meta, response, stored_at, meta, id, now);
    law_aging(with_id(response, 0, 0), start, n, seconds_between(stored_at, now));
}

/// A hit changes nothing but the order of use: the entry stays as it was
/// stored, so that it ages from the same moment next time.
pub proof fn law_hits_leave_the_entry_alone(
    items: Seq<(Key, Entry)>,
    key: Key,
    id: Seq<u8>,
    now: u64,
)
    requires
        distinct_keys(items),
        looked_up(items, key, id, now).0 is Some,
    ensures
        ({
            let left = looked_up(items, key, id, now).1;
            &&& position(left, key) == Some(0int)
            &&& left[0] == items[position(items, key)->0]
            &&& left.to_multiset() == items.to_multiset()
        }),
{
    lemma_position(items, key);
    let i = position(items, key)->0;
    lemma_touched(items, i);
    let rest = items.remove(i);
    assert(touched(items, i) =~= rest.insert(0, items[i]));
    vstd::seq_lib::to_multiset_insert(rest, 0, items[i]);
    assert(items =~= rest.insert(i, items[i]));
    vstd::seq_lib::to_multiset_insert(rest, i, items[i]);
}

} // verus!
