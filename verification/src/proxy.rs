//! What a client is answered, and how often the takeover is checked.

use crate::cache::{key_of, looked_up, offered, Cache, Contents, Entry, Key};
use crate::wire::{
    asks_many, be16, cache_ttl_of, is_multi_question_query, payload_size, query_meta,
    questions_from, truncate_to, truncated, udp_payload_size, Meta, QueryMeta, HEADER_LEN,
};
use vstd::prelude::*;
use vstd::slice::slice_to_vec;

verus! {

/// Bound on concurrently in-flight queries (memory backstop).
pub const MAX_INFLIGHT: usize = 512;

pub const MAX_TCP_CONNECTIONS: usize = 256;

pub const MAX_TCP_QUERY_SIZE: usize = 4096;

pub const TCP_IDLE_TIMEOUT_SECS: u64 = 10;

pub const WATCHDOG_INTERVAL_SECS: u64 = 120;

pub const WATCHDOG_SLOW_INTERVAL_SECS: u64 = 1800;

/// A reassert followed by renewed drift within this many ticks counts as one
/// flap strike; this many strikes switch to the slow cadence.
pub const FLAP_WINDOW_TICKS: u32 = 3;

pub const FLAP_STRIKES: u32 = 3;

// ---------- error responses ----------

/// Header-echo SERVFAIL: QR=1, RA=1, RCODE=2, question section preserved.
pub open spec fn servfail_to(query: Seq<u8>) -> Seq<u8> {
    if query.len() >= HEADER_LEN {
        query.update(2, (query[2] & 0x79) | 0x80).update(3, 0x82)
    } else {
        query
    }
}

/// Header-echo SERVFAIL: QR=1, RA=1, RCODE=2, question section preserved.
pub fn servfail(query: &[u8]) -> (response: Vec<u8>)
    ensures
        response@ == servfail_to(query@),
{
    let mut response: Vec<u8> = slice_to_vec(query);
    if response.len() >= HEADER_LEN {
        let flags: u8 = (response[2] & 0x79) | 0x80;  // QR=1, keep opcode/RD, clear AA+TC
        response.set(2, flags);
        response.set(3, 0x82);  // RA=1, RCODE=SERVFAIL
    }
    response
}

/// Header-only FORMERR: the client's ID, QR=1, RA=1, RCODE=1, all counts zero.
pub open spec fn formerr_to(query: Seq<u8>) -> Seq<u8> {
    seq![query[0], query[1], (query[2] & 0x79) | 0x80, 0x81, 0, 0, 0, 0, 0, 0, 0, 0]
}

/// Header-only FORMERR for multi-question queries. The question section is
/// dropped and every count zeroed: RFC 9619 constrains all OPCODE=0 messages,
/// so echoing QDCOUNT > 1 would make the error response itself malformed.
pub fn formerr(query: &[u8]) -> (response: Vec<u8>)
    requires
        query@.len() >= 3,
    ensures
        response@ == formerr_to(query@),
{
    let response: Vec<u8> = vec![
        query[0],
        query[1],
        (query[2] & 0x79) | 0x80,  // QR=1, keep opcode/RD, clear AA+TC
        0x81,  // RA=1, RCODE=FORMERR
        0,
        0,
        0,
        0,
        0,
        0,
        0,
        0,
    ];
    assert(response@ =~= formerr_to(query@));
    response
}

// ---------- resolving ----------

/// What becomes of a query before any upstream is asked.
pub enum Begun {
    Answered(Vec<u8>),
    Forward,
}

/// The answer that is given without an upstream, where there is one, and what
/// the cache holds afterwards: a query with several questions is refused and
/// never looked up; others may be in the cache.
pub open spec fn local_answer(
    items: Seq<(Key, Entry)>,
    query: Seq<u8>,
    meta: Option<Meta>,
    now: u64,
) -> (Option<Seq<u8>>, Seq<(Key, Entry)>) {
    if asks_many(query) {
        (Some(formerr_to(query)), items)
    } else {
        match meta {
            Some(meta) => looked_up(items, key_of(meta), seq![query[0], query[1]], now),
            None => (None, items),
        }
    }
}

/// The metadata in an optional reference.
pub open spec fn opt_meta(meta: Option<&QueryMeta>) -> Option<Meta> {
    match meta {
        Some(meta) => Some(meta@),
        None => None,
    }
}

/// Answer a query from here, if that is possible.
pub fn begin_resolve(cache: &mut Cache, query: &[u8], meta: Option<&QueryMeta>, now: u64) -> (r:
    Begun)
    requires
        old(cache).wf(),
        meta is Some ==> query@.len() >= 2,
    ensures
        final(cache).wf(),
        match old(cache)@ {
            Some(contents) => {
                let (answer, items) = local_answer(contents.items, query@, opt_meta(meta), now);
                &&& final(cache)@ == Some(Contents { items, ..contents })
                &&& match answer {
                    Some(bytes) => r matches Begun::Answered(got) && got@ == bytes,
                    None => r is Forward,
                }
            },
            None => {
                &&& final(cache)@ is None
                &&& if asks_many(query@) {
                    r matches Begun::Answered(got) && got@ == formerr_to(query@)
                } else {
                    r is Forward
                }
            },
        },
{
    // RFC 9619: a QUERY with more than one question is malformed. Answer it
    // locally with FORMERR; it must never reach the cache or any upstream.
    if is_multi_question_query(query) {
        return Begun::Answered(formerr(query));
    }
    match meta {
        Some(meta) => {
            let id: [u8; 2] = [query[0], query[1]];
            assert(id@ =~= seq![query@[0], query@[1]]);
            match cache.get(meta, id, now) {
                Some(response) => Begun::Answered(response),
                None => Begun::Forward,
            }
        },
        None => Begun::Forward,
    }
}

/// What a client is answered after the upstreams were asked.
pub open spec fn final_answer(query: Seq<u8>, forwarded: Option<Seq<u8>>) -> Seq<u8> {
    match forwarded {
        Some(response) => response,
        None => servfail_to(query),
    }
}

/// The bytes in an optional response.
pub open spec fn opt_bytes(response: Option<Vec<u8>>) -> Option<Seq<u8>> {
    match response {
        Some(bytes) => Some(bytes@),
        None => None,
    }
}

/// Answer a query with what the upstreams said, and keep that for later.
pub fn finish_resolve(
    cache: &mut Cache,
    query: &[u8],
    meta: Option<&QueryMeta>,
    forwarded: Option<Vec<u8>>,
    now: u64,
) -> (response: Vec<u8>)
    requires
        old(cache).wf(),
    ensures
        final(cache).wf(),
        response@ == final_answer(query@, opt_bytes(forwarded)),
        final(cache)@ == match (old(cache)@, meta) {
            (Some(contents), Some(meta)) => Some(
                Contents {
                    items: offered(
                        contents.items,
                        contents.capacity,
                        meta@,
                        final_answer(query@, opt_bytes(forwarded)),
                        now,
                    ),
                    ..contents
                },
            ),
            (before, _) => before,
        },
{
    let response: Vec<u8> = match forwarded {
        Some(response) => response,
        None => servfail(query),
    };
    if let Some(meta) = meta {
        cache.insert(meta, response.as_slice(), now);
    }
    response
}

/// A query with several questions is answered here, with a header that holds
/// its ID and nothing else but the error; no upstream is asked, and the cache
/// stays as it is.
pub proof fn law_multi_question_queries_are_refused(
    items: Seq<(Key, Entry)>,
    query: Seq<u8>,
    meta: Option<Meta>,
    now: u64,
)
    requires
        asks_many(query),
    ensures
        local_answer(items, query, meta, now) == (Some(formerr_to(query)), items),
        formerr_to(query).len() == HEADER_LEN,
        formerr_to(query).take(2) == query.take(2),
        formerr_to(query)[2] & 0x80 != 0,
        formerr_to(query)[2] & 0x01 == query[2] & 0x01,
        formerr_to(query)[3] & 0x0f == 1,
        forall|i: int| 4 <= i < 12 ==> formerr_to(query)[i] == 0,
        formerr_to(query).len() < query.len() || query.len() == HEADER_LEN,
{
    let flags = query[2];
    assert(((flags & 0x79) | 0x80) & 0x80 != 0) by (bit_vector);
    assert(((flags & 0x79) | 0x80) & 0x01 == flags & 0x01) by (bit_vector);
    assert(0x81u8 & 0x0f == 1) by (bit_vector);
    assert(formerr_to(query).take(2) =~= query.take(2));
}

/// A SERVFAIL that stands for an exhausted list of upstreams is never kept: the
/// next query gets another chance.
pub proof fn law_servfail_is_never_cached(query: Seq<u8>, query_type: u16)
    requires
        query.len() >= HEADER_LEN,
    ensures
        cache_ttl_of(servfail_to(query), query_type) is None,
        servfail_to(query)[2] & 0x80 != 0,
        servfail_to(query)[3] & 0x0f == 2,
        servfail_to(query).len() == query.len(),
        servfail_to(query).take(2) == query.take(2),
        servfail_to(query).skip(4) == query.skip(4),
{
    let flags = query[2];
    assert(0x82u8 & 0x0f == 2) by (bit_vector);
    assert(((flags & 0x79) | 0x80) & 0x80 != 0) by (bit_vector);
    assert(servfail_to(query).take(2) =~= query.take(2));
    assert(servfail_to(query).skip(4) =~= query.skip(4));
}

// ---------- UDP and TCP ----------

/// The largest response that a UDP client takes.
pub open spec fn udp_limit_of(query: Seq<u8>, meta: Option<Meta>) -> int {
    match meta {
        Some(meta) => meta.udp_size,
        None => payload_size(query),
    }
}

/// Cut a response to what the UDP client takes.
pub fn fit_udp(response: &mut Vec<u8>, query: &[u8], meta: Option<&QueryMeta>)
    ensures
        final(response)@ == truncated(old(response)@, udp_limit_of(query@, opt_meta(meta))),
{
    let limit: usize = match meta {
        Some(meta) => meta.udp_size,
        None => udp_payload_size(query),
    };
    truncate_to(response, limit);
}

/// The metadata of a query and the query itself agree on what the client takes.
pub proof fn law_udp_limits_agree(query: Seq<u8>)
    ensures
        query_meta(query) matches Some(meta) ==> meta.udp_size == payload_size(query),
{
    reveal_with_fuel(questions_from, 2);
    reveal_with_fuel(crate::wire::first_opt_size, 2);
}

/// Whether a datagram of this length is taken for a query at all.
pub fn is_udp_query(n: usize) -> (r: bool)
    ensures
        r == (n >= HEADER_LEN),
{
    n >= HEADER_LEN
}

/// Whether a TCP client may send a message of this length.
pub open spec fn is_tcp_length(n: int) -> bool {
    HEADER_LEN <= n <= MAX_TCP_QUERY_SIZE
}

/// The length that the two bytes before a TCP message announce, where a message
/// of that length is accepted.
pub fn tcp_query_length(first: u8, second: u8) -> (n: Option<usize>)
    ensures
        if is_tcp_length(first * 256 + second) {
            n == Some((first * 256 + second) as usize)
        } else {
            n is None
        },
{
    let n: usize = first as usize * 256 + second as usize;
    if n < HEADER_LEN || n > MAX_TCP_QUERY_SIZE {
        None
    } else {
        Some(n)
    }
}

/// A message with its length before it. One that is too long for that is cut.
pub open spec fn framed(message: Seq<u8>) -> Seq<u8> {
    let n = if message.len() > 65535 {
        65535
    } else {
        message.len() as int
    };
    seq![(n / 256) as u8, (n % 256) as u8] + message.take(n)
}

pub fn tcp_frame(message: &[u8]) -> (out: Vec<u8>)
    ensures
        out@ == framed(message@),
{
    let n: usize = if message.len() > 65535 {
        65535
    } else {
        message.len()
    };
    let mut out: Vec<u8> = vec![(n / 256) as u8, (n % 256) as u8];
    let kept: &[u8] = vstd::slice::slice_subrange(message, 0, n);
    out.extend_from_slice(kept);
    assert(out@ =~= framed(message@));
    out
}

/// The length before a framed message is the length of what follows.
pub proof fn law_frames_announce_their_length(message: Seq<u8>)
    requires
        message.len() <= 65535,
    ensures
        framed(message).len() == message.len() + 2,
        be16(framed(message), 0) == message.len(),
        framed(message).skip(2) == message,
{
    assert(framed(message).skip(2) =~= message);
}

// ---------- the watchdog's cadence ----------

/// What a watchdog cycle came to, as far as the cadence goes.
#[derive(Clone, Copy, Debug, PartialEq, Eq, Structural)]
pub enum Tick {
    NotActive,
    Clean,
    Reasserted,
    Failed,
}

/// What there is to say about the cadence after a cycle.
#[derive(Clone, Copy, Debug, PartialEq, Eq, Structural)]
pub enum Cadence {
    Unchanged,
    Slowed,
    BackToNormal,
}

/// How the watchdog has fared. Renewed drift soon after it was corrected is a
/// strike; several strikes in a row mean that another tool is at work, and the
/// watchdog slows down instead of fighting it.
#[derive(Clone, Copy, Debug, PartialEq, Eq, Structural)]
pub struct Watchdog {
    pub ticks_since_reassert: Option<u32>,
    pub flap_strikes: u32,
    pub slow_mode: bool,
}

impl Watchdog {
    pub open spec fn spec_new() -> Watchdog {
        Watchdog { ticks_since_reassert: None, flap_strikes: 0, slow_mode: false }
    }

    /// The clean cycles since a reassertion stay below the window.
    pub open spec fn wf(self) -> bool {
        self.ticks_since_reassert matches Some(ticks) ==> ticks < FLAP_WINDOW_TICKS
    }

    /// One more strike; the count stops at the largest number.
    pub open spec fn struck(self) -> u32 {
        if self.ticks_since_reassert is None {
            1
        } else if self.flap_strikes == u32::MAX {
            u32::MAX
        } else {
            (self.flap_strikes + 1) as u32
        }
    }

    pub open spec fn after(self, tick: Tick) -> Watchdog {
        match tick {
            Tick::NotActive => self,
            Tick::Failed => self,
            Tick::Clean => if self.slow_mode {
                Watchdog::spec_new()
            } else {
                match self.ticks_since_reassert {
                    Some(ticks) => if ticks + 1 >= FLAP_WINDOW_TICKS {
                        Watchdog { ticks_since_reassert: None, flap_strikes: 0, ..self }
                    } else {
                        Watchdog { ticks_since_reassert: Some((ticks + 1) as u32), ..self }
                    },
                    None => self,
                }
            },
            Tick::Reasserted => Watchdog {
                ticks_since_reassert: Some(0),
                flap_strikes: self.struck(),
                slow_mode: self.slow_mode || self.struck() >= FLAP_STRIKES,
            },
        }
    }

    pub fn new() -> (w: Watchdog)
        ensures
            w == Watchdog::spec_new(),
            w.wf(),
    {
        Watchdog { ticks_since_reassert: None, flap_strikes: 0, slow_mode: false }
    }

    /// Take note of a cycle.
    pub fn observe(&mut self, tick: Tick) -> (note: Cadence)
        requires
            old(self).wf(),
        ensures
            final(self).wf(),
            *final(self) == old(self).after(tick),
            note == if old(self).slow_mode && !final(self).slow_mode {
                Cadence::BackToNormal
            } else if !old(self).slow_mode && final(self).slow_mode {
                Cadence::Slowed
            } else {
                Cadence::Unchanged
            },
    {
        match tick {
            Tick::NotActive => Cadence::Unchanged,
            Tick::Failed => Cadence::Unchanged,
            Tick::Clean => {
                if self.slow_mode {
                    self.slow_mode = false;
                    self.flap_strikes = 0;
                    self.ticks_since_reassert = None;
                    return Cadence::BackToNormal;
                }
                if let Some(ticks) = self.ticks_since_reassert {
                    if ticks + 1 >= FLAP_WINDOW_TICKS {
                        self.ticks_since_reassert = None;
                        self.flap_strikes = 0;
                    } else {
                        self.ticks_since_reassert = Some(ticks + 1);
                    }
                }
                Cadence::Unchanged
            },
            Tick::Reasserted => {
                self.flap_strikes =
                if self.ticks_since_reassert.is_none() {
                    1
                } else if self.flap_strikes == u32::MAX {
                    u32::MAX
                } else {
                    self.flap_strikes + 1
                };
                self.ticks_since_reassert = Some(0);
                if self.flap_strikes >= FLAP_STRIKES && !self.slow_mode {
                    self.slow_mode = true;
                    Cadence::Slowed
                } else {
                    Cadence::Unchanged
                }
            },
        }
    }

    /// Seconds until the next cycle.
    pub fn interval_secs(&self) -> (secs: u64)
        ensures
            secs == if self.slow_mode {
                WATCHDOG_SLOW_INTERVAL_SECS
            } else {
                WATCHDOG_INTERVAL_SECS
            },
    {
        if self.slow_mode {
            WATCHDOG_SLOW_INTERVAL_SECS
        } else {
            WATCHDOG_INTERVAL_SECS
        }
    }

    /// The state after several clean cycles.
    pub open spec fn after_clean(self, n: nat) -> Watchdog
        decreases n,
    {
        if n == 0 {
            self
        } else {
            self.after(Tick::Clean).after_clean((n - 1) as nat)
        }
    }
}

/// Drift that comes back within the window, time and again, slows the watchdog
/// down at the third strike, and not before; fewer than three never do.
pub proof fn law_flapping_slows_the_watchdog(a: nat, b: nat)
    requires
        a < FLAP_WINDOW_TICKS,
        b < FLAP_WINDOW_TICKS,
    ensures
        ({
            let first = Watchdog::spec_new().after(Tick::Reasserted);
            let second = first.after_clean(a).after(Tick::Reasserted);
            let third = second.after_clean(b).after(Tick::Reasserted);
            &&& !first.slow_mode
            &&& !second.slow_mode
            &&& third.slow_mode
        }),
{
    reveal_with_fuel(Watchdog::after_clean, 4);
}

/// Drift that stays away for the whole window is forgotten, and one clean cycle
/// ends the slow cadence.
pub proof fn law_stable_settings_are_forgiven(w: Watchdog)
    requires
        w.wf(),
    ensures
        w.slow_mode ==> w.after(Tick::Clean) == Watchdog::spec_new(),
        !w.slow_mode && w.ticks_since_reassert is Some ==> w.after_clean(
            FLAP_WINDOW_TICKS as nat,
        ) == Watchdog::spec_new(),
{
    reveal_with_fuel(Watchdog::after_clean, 4);
}

} // verus!
