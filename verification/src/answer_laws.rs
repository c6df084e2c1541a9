//! What clients are answered and how the watchdog fares, said of bytes and numbers.

use crate::cache::{
    key_of, lemma_position, looked_up, offered, seconds_between, with_id, Cache, Contents,
    Entry, Key,
};
use crate::proxy::{
    final_answer, formerr_to, framed, is_tcp_length, local_answer, servfail_to, tcp_query_length, udp_limit_of, Tick,
    Watchdog, FLAP_STRIKES, FLAP_WINDOW_TICKS, MAX_INFLIGHT, MAX_TCP_CONNECTIONS,
    MAX_TCP_QUERY_SIZE, TCP_IDLE_TIMEOUT_SECS, WATCHDOG_INTERVAL_SECS,
    WATCHDOG_SLOW_INTERVAL_SECS,
};
use crate::wire::{aged, asks_many, cache_ttl_of, Meta};
use vstd::prelude::*;

verus! {

// ---------- the cache ----------

/// Two queries share an answer where they agree in name, type, class, DO bit and
/// DNSSEC header bits, and only then.
pub proof fn law_keys_tell_queries_apart(a: Meta, b: Meta)
    ensures
        key_of(a) == key_of(b) <==> a.qname == b.qname && a.qtype == b.qtype && a.qclass == b.qclass
            && a.do_bit == b.do_bit && a.dnssec_header_bits == b.dnssec_header_bits,
{
}

/// A cache that is off holds nothing; one that is on starts empty and takes as many
/// entries as it is told, at least one.
pub proof fn law_new_caches(enabled: bool, capacity: usize, cache: Cache)
    requires
        call_ensures(Cache::new, (enabled, capacity), cache),
    ensures
        !enabled ==> cache@ is None,
        enabled ==> (cache@ matches Some(contents) && contents.items.len() == 0 && (capacity > 0
            ==> contents.capacity == capacity) && (capacity == 0 ==> contents.capacity == 1)),
{
}

/// A message gets its ID in the first two bytes; the others stay.
pub proof fn law_ids_are_the_first_two_bytes(m: Seq<u8>, a: u8, b: u8)
    requires
        m.len() >= 2,
    ensures
        with_id(m, a, b).len() == m.len(),
        with_id(m, a, b)[0] == a,
        with_id(m, a, b)[1] == b,
        with_id(m, a, b).skip(2) == m.skip(2),
{
    assert(with_id(m, a, b).skip(2) =~= m.skip(2));
}

/// Times are nanoseconds, of which 1,000,000,000 make a second; a second counts
/// once it is over, and none does before a response was stored.
pub proof fn law_whole_seconds(from: u64, to: u64)
    ensures
        to <= from ==> seconds_between(from, to) == 0,
        to >= from ==> seconds_between(from, to) * 1_000_000_000 <= to - from < (seconds_between(
            from,
            to,
        ) + 1) * 1_000_000_000,
{
}

/// An answer from the cache was stored for that very question, and is given out
/// before its TTL has run out, aged by the seconds since; what was not stored,
/// or is too old, is not given out.
pub proof fn law_no_answer_outlives_its_ttl(
    items: Seq<(Key, Entry)>,
    key: Key,
    id: Seq<u8>,
    now: u64,
)
    ensures
        looked_up(items, key, id, now).0 matches Some(out) ==> exists|i: int|
            0 <= i < items.len() && (#[trigger] items[i]).0 == key && now < items[i].1.1 + items[i].1.2
                * 1_000_000_000 && out == with_id(
                aged(items[i].1.0, seconds_between(items[i].1.1, now)).0,
                id[0],
                id[1],
            ),
        (forall|i: int| 0 <= i < items.len() ==> (#[trigger] items[i]).0 != key) ==> looked_up(
            items,
            key,
            id,
            now,
        ) == (None::<Seq<u8>>, items),
{
    lemma_position(items, key);
}

/// A response that may not be kept leaves the cache as it is; one that may stands
/// in front, with a cleared ID, the time and its TTL.
pub proof fn law_responses_are_stored_in_front(
    contents: Contents,
    meta: Meta,
    response: Seq<u8>,
    now: u64,
)
    requires
        0 < contents.capacity,
        contents.items.len() <= contents.capacity,
    ensures
        ({
            let items = offered(contents.items, contents.capacity, meta, response, now);
            &&& cache_ttl_of(response, meta.qtype) is None ==> items == contents.items
            &&& cache_ttl_of(response, meta.qtype) matches Some(ttl) ==> {
                &&& items.len() > 0
                &&& items[0].0 == (
                    meta.qname,
                    meta.qtype,
                    meta.qclass,
                    meta.do_bit,
                    meta.dnssec_header_bits,
                )
                &&& items[0].1.1 == now
                &&& items[0].1.2 == ttl
                &&& response.len() >= 2 ==> items[0].1.0[0] == 0 && items[0].1.0[1] == 0
                    && items[0].1.0.skip(2) == response.skip(2)
            }
        }),
{
    if response.len() >= 2 {
        law_ids_are_the_first_two_bytes(response, 0, 0);
    }
}

// ---------- error responses ----------

/// An error keeps the ID, the opcode and the RD bit of the query; it is a
/// response (QR) with recursion available (RA), neither authoritative (AA) nor
/// truncated (TC). SERVFAIL is code 2 and keeps the question, FORMERR is code 1
/// and has nothing behind its header.
pub proof fn law_error_responses(query: Seq<u8>)
    requires
        query.len() >= 12,
    ensures
        ({
            let servfail = servfail_to(query);
            let formerr = formerr_to(query);
            &&& servfail.len() == query.len()
            &&& servfail.take(2) == query.take(2)
            &&& servfail.skip(4) == query.skip(4)
            &&& servfail[2] >= 128
            &&& (servfail[2] / 8) % 16 == (query[2] / 8) % 16
            &&& (servfail[2] / 2) % 4 == 0
            &&& servfail[2] % 2 == query[2] % 2
            &&& servfail[3] == 128 + 2
            &&& formerr.len() == 12
            &&& formerr.take(2) == query.take(2)
            &&& formerr[2] == servfail[2]
            &&& formerr[3] == 128 + 1
            &&& forall|i: int| 4 <= i < 12 ==> #[trigger] formerr[i] == 0
        }),
{
    let flags = query[2];
    let out = (flags & 0x79) | 0x80;
    assert(out >= 128 && (out / 8) % 16 == (flags / 8) % 16 && (out / 2) % 4 == 0 && out % 2 == flags
        % 2) by (bit_vector)
        requires
            out == (flags & 0x79) | 0x80,
    ;
    assert(servfail_to(query).take(2) =~= query.take(2));
    assert(servfail_to(query).skip(4) =~= query.skip(4));
    assert(formerr_to(query).take(2) =~= query.take(2));
}

/// A query is answered without an upstream where it asks several questions, or
/// where the cache answers it; otherwise with what an upstream said, and with
/// SERVFAIL where none did.
pub proof fn law_where_answers_come_from(
    items: Seq<(Key, Entry)>,
    query: Seq<u8>,
    meta: Option<Meta>,
    response: Seq<u8>,
    now: u64,
)
    ensures
        asks_many(query) ==> local_answer(items, query, meta, now).0 is Some && local_answer(
            items,
            query,
            meta,
            now,
        ).1 == items,
        !asks_many(query) && meta is None ==> local_answer(items, query, meta, now) == (
            None::<Seq<u8>>,
            items,
        ),
        !asks_many(query) && query.len() >= 2 ==> (meta matches Some(asked) ==> local_answer(
            items,
            query,
            meta,
            now,
        ) == looked_up(items, key_of(asked), query.take(2), now)),
        final_answer(query, Some(response)) == response,
        query.len() >= 12 ==> final_answer(query, None)[3] == 130,
{
    if query.len() >= 2 {
        assert(seq![query[0], query[1]] =~= query.take(2));
    }
}

// ---------- UDP and TCP ----------

/// A message over TCP is between 12 and 4096 bytes long; a longer answer than
/// its length can announce is cut to 65,535 bytes.
pub proof fn law_tcp_messages(n: int, message: Seq<u8>)
    ensures
        is_tcp_length(n) <==> 12 <= n <= 4096,
        message.len() > 65535 ==> framed(message) == seq![255u8, 255u8] + message.take(65535),
        message.len() <= 65535 ==> framed(message)[0] * 256 + framed(message)[1] == message.len()
            && framed(message).skip(2) == message,
{
    if message.len() <= 65535 {
        assert(framed(message).skip(2) =~= message);
    }
}

/// The two bytes before a message announce its length, high byte first; what is
/// too short for a header or too long is refused.
pub proof fn law_announced_lengths(first: u8, second: u8, n: Option<usize>)
    requires
        call_ensures(tcp_query_length, (first, second), n),
    ensures
        n matches Some(length) ==> length == first * 256 + second && 12 <= length <= 4096,
        n is None ==> first * 256 + second < 12 || first * 256 + second > 4096,
{
}

/// A client whose query was read takes as much as the query says.
pub proof fn law_udp_limits_come_from_the_query(query: Seq<u8>, meta: Meta)
    ensures
        udp_limit_of(query, Some(meta)) == meta.udp_size,
{
}

/// How much the proxy takes on at once, and for how long it waits.
pub proof fn law_proxy_limits()
    ensures
        MAX_INFLIGHT == 512,
        MAX_TCP_CONNECTIONS == 256,
        MAX_TCP_QUERY_SIZE == 4096,
        TCP_IDLE_TIMEOUT_SECS == 10,
        WATCHDOG_INTERVAL_SECS == 120,
        WATCHDOG_SLOW_INTERVAL_SECS == 1800,
        FLAP_WINDOW_TICKS == 3,
        FLAP_STRIKES == 3,
{
}

// ---------- the watchdog ----------

/// A reassertion is a first strike where the drift before was forgotten, and one
/// more otherwise; the third slows the watchdog down, and nothing else does.
pub proof fn law_strikes_are_counted(w: Watchdog)
    requires
        w.flap_strikes < u32::MAX,
    ensures
        ({
            let after = w.after(Tick::Reasserted);
            &&& after.ticks_since_reassert == Some(0u32)
            &&& w.ticks_since_reassert is None ==> after.flap_strikes == 1
            &&& w.ticks_since_reassert is Some ==> after.flap_strikes == w.flap_strikes + 1
            &&& after.slow_mode <==> w.slow_mode || after.flap_strikes >= 3
        }),
        w.after(Tick::NotActive) == w,
        w.after(Tick::Failed) == w,
        w.after(Tick::Clean).slow_mode == false,
{
}

/// Clean cycles are counted after a reassertion; the third in a row wipes the
/// strikes out. In the slow cadence the first one does.
pub proof fn law_clean_cycles_are_counted(w: Watchdog)
    requires
        w.wf(),
    ensures
        ({
            let after = w.after(Tick::Clean);
            let forgotten = Watchdog {
                ticks_since_reassert: None,
                flap_strikes: 0,
                slow_mode: false,
            };
            &&& w.slow_mode ==> after == forgotten
            &&& !w.slow_mode && w.ticks_since_reassert is None ==> after == w
            &&& !w.slow_mode ==> (w.ticks_since_reassert matches Some(ticks) ==> {
                &&& ticks < 2 ==> after.ticks_since_reassert == Some((ticks + 1) as u32)
                    && after.flap_strikes == w.flap_strikes
                &&& ticks == 2 ==> after == forgotten
                &&& ticks <= 2
            })
        }),
{
}

} // verus!
