//! DoH / DoH3 / DoT / DoQ upstream channels.
//!
//! Each upstream keeps one lazily-connected exchange (a multiplexed persistent
//! connection) in a generation-tracked slot; queries clone the cheap handle.
//! Failure handling follows a fixed event table:
//!
//! - send failure on a REUSED connection: invalidate that generation, no
//!   backoff, redial once while budget remains (QUIC's default 30s idle
//!   timeout kills idle connections constantly; the first query after an
//!   idle gap should stay on this upstream instead of failing over);
//! - the redial's connect failure: backoff via the connect path only;
//! - send failure after a redial, or on a freshly dialed connection:
//!   invalidate + backoff;
//! - deadline expiry: invalidate + backoff, no retry (a wedged-but-accepting
//!   upstream must not tax every query with its full timeout);
//! - errors from a superseded generation: no state change at all.

use crate::config::Upstream;
use crate::ip::{endpoint_text, show_endpoint, Endpoint, Ip};
use crate::text::{decimal, join, join3, show_number};
use crate::upstream::bootstrap::{add_seconds, later};
use vstd::prelude::*;
use vstd::string::*;

verus! {

/// The longest that a connection attempt takes, in nanoseconds.
pub const CONNECT_TIMEOUT: u64 = 5_000_000_000;

/// 2^5 = 32s cap.
pub const MAX_BACKOFF_SHIFT: u32 = 5;

/// A redial is only worth it while at least this much budget remains, in
/// nanoseconds.
pub const MIN_REDIAL_BUDGET: u64 = 250_000_000;

// ---------- the slot ----------

/// Generation-tracked connection slot. Generic over the handle type so the
/// invalidation rules can be stated without real connections. Times are
/// nanoseconds of one monotonic clock.
pub struct Slot<E> {
    pub exchange: Option<E>,
    pub generation: u64,
    pub connect_failures: u32,
    pub cooldown_until: Option<u64>,
}

impl<E> Default for Slot<E> {
    fn default() -> (s: Self)
        ensures
            s.exchange is None,
            s.generation == 0,
            s.connect_failures == 0,
            s.cooldown_until is None,
    {
        Slot { exchange: None, generation: 0, connect_failures: 0, cooldown_until: None }
    }
}

/// Seconds of backoff after `failures` failures in a row: twice as long after
/// each, up to 32.
pub open spec fn backoff_secs(failures: int) -> u64 {
    if failures <= 0 {
        1
    } else if failures == 1 {
        2
    } else if failures == 2 {
        4
    } else if failures == 3 {
        8
    } else if failures == 4 {
        16
    } else {
        32
    }
}

/// One failure more; the count stops at the largest number.
pub open spec fn one_more(failures: u32) -> u32 {
    if failures == u32::MAX {
        failures
    } else {
        (failures + 1) as u32
    }
}

/// The generation after `generation`.
pub open spec fn next_generation(generation: u64) -> u64 {
    if generation == u64::MAX {
        0
    } else {
        (generation + 1) as u64
    }
}

impl<E> Slot<E> {
    /// The slot after a failure at `now`.
    pub open spec fn backed_off(self, now: u64) -> Slot<E> {
        Slot {
            connect_failures: one_more(self.connect_failures),
            cooldown_until: Some(later(now, backoff_secs(one_more(self.connect_failures) as int))),
            ..self
        }
    }

    /// Whether a lease of `generation` is still the one in the slot.
    pub open spec fn is_current(self, generation: u64) -> bool {
        self.generation == generation && self.exchange is Some
    }

    /// The slot with a fresh connection in it.
    pub open spec fn stored(self, exchange: E) -> Slot<E> {
        Slot {
            exchange: Some(exchange),
            generation: next_generation(self.generation),
            connect_failures: 0,
            cooldown_until: None,
        }
    }

    /// The slot without its connection, where `generation` is the current one.
    pub open spec fn invalidated(self, generation: u64) -> Slot<E> {
        if self.is_current(generation) {
            Slot { exchange: None, ..self }
        } else {
            self
        }
    }
}

impl<E: Clone> Slot<E> {
    pub fn lease(&self) -> (r: Option<(E, u64)>)
        ensures
            match self.exchange {
                Some(exchange) => r matches Some((e, g)) && cloned(exchange, e) && g
                    == self.generation,
                None => r is None,
            },
    {
        match &self.exchange {
            Some(exchange) => Some((exchange.clone(), self.generation)),
            None => None,
        }
    }

    pub fn store(&mut self, exchange: E) -> (generation: u64)
        ensures
            *final(self) == old(self).stored(exchange),
            generation == final(self).generation,
    {
        self.generation =
        if self.generation == u64::MAX {
            0
        } else {
            self.generation + 1
        };
        self.exchange = Some(exchange);
        self.connect_failures = 0;
        self.cooldown_until = None;
        self.generation
    }

    /// Clear the slot only if `generation` is still the current one; a
    /// failure from a superseded lease must never tear down its successor.
    pub fn invalidate(&mut self, generation: u64) -> (r: bool)
        ensures
            r == old(self).is_current(generation),
            *final(self) == old(self).invalidated(generation),
    {
        if self.generation == generation && self.exchange.is_some() {
            self.exchange = None;
            true
        } else {
            false
        }
    }

    /// Count a failure and rest for a while; returns for how many seconds.
    pub fn backoff(&mut self, now: u64) -> (secs: u64)
        ensures
            *final(self) == old(self).backed_off(now),
            secs == backoff_secs(final(self).connect_failures as int),
    {
        if self.connect_failures < u32::MAX {
            self.connect_failures = self.connect_failures + 1;
        }
        let secs: u64 = match self.connect_failures {
            0 => 1,
            1 => 2,
            2 => 4,
            3 => 8,
            4 => 16,
            _ => 32,
        };
        self.cooldown_until = Some(add_seconds(now, secs));
        secs
    }
}

/// Whether enough is left before the deadline for another connection.
pub open spec fn has_budget(deadline: Option<u64>, now: u64) -> bool {
    deadline matches Some(at) ==> at - now > MIN_REDIAL_BUDGET
}

pub fn budget_allows_redial(deadline: Option<u64>, now: u64) -> (r: bool)
    ensures
        r == has_budget(deadline, now),
{
    match deadline {
        Some(at) => at > now && at - now > MIN_REDIAL_BUDGET,
        None => true,
    }
}

// ---------- acquiring a connection ----------

/// How a query gets at a connection.
pub enum Acquired<E> {
    /// The one in the slot.
    Reuse { exchange: E, generation: u64 },
    /// None: the upstream rests for so many nanoseconds more.
    Cooldown(u64),
    /// A new one to the known address.
    Dial(Ip),
    /// A new one, once the host has been resolved; afresh where connections
    /// have failed.
    Resolve { afresh: bool },
}

/// Whether `r` is how a query gets at a connection: the one in the slot; else
/// none while the upstream rests; else a new one.
pub open spec fn is_acquired<E: Clone>(
    slot: Slot<E>,
    known: Option<Ip>,
    now: u64,
    r: Acquired<E>,
) -> bool {
    match slot.exchange {
        Some(exchange) => r matches Acquired::Reuse { exchange: e, generation } && cloned(
            exchange,
            e,
        ) && generation == slot.generation,
        None => match slot.cooldown_until {
            Some(until) if now < until => r == Acquired::<E>::Cooldown((until - now) as u64),
            _ => match known {
                Some(ip) => r == Acquired::<E>::Dial(ip),
                None => r == (Acquired::<E>::Resolve { afresh: slot.connect_failures > 0 }),
            },
        },
    }
}

/// Choose how to get at a connection.
pub fn begin_acquire<E: Clone>(slot: &Slot<E>, known: Option<Ip>, now: u64) -> (r: Acquired<E>)
    ensures
        is_acquired(*slot, known, now, r),
{
    if let Some((exchange, generation)) = slot.lease() {
        return Acquired::Reuse { exchange, generation };
    }
    if let Some(until) = slot.cooldown_until {
        if now < until {
            return Acquired::Cooldown(until - now);
        }
    }
    match known {
        Some(ip) => Acquired::Dial(ip),
        None => Acquired::Resolve { afresh: slot.connect_failures > 0 },
    }
}

/// A host that could not be resolved counts as a failure.
pub fn resolve_failed<E: Clone>(slot: &mut Slot<E>, error: &str, now: u64) -> (message: String)
    ensures
        *final(slot) == old(slot).backed_off(now),
        message@ == error@ + "; backing off after bootstrap failure"@,
{
    slot.backoff(now);
    join(error, "; backing off after bootstrap failure")
}

/// Whether an address leads back to our own listeners.
pub open spec fn is_own(ip: Ip, port: u16, deny: Seq<Endpoint>) -> bool {
    ||| deny.contains(Endpoint { ip, port })
    ||| ip.spec_is_loopback() && exists|i: int|
        0 <= i < deny.len() && (#[trigger] deny[i]).port == port
}

pub fn points_at_us(ip: Ip, port: u16, deny: &[Endpoint]) -> (r: bool)
    ensures
        r == is_own(ip, port, deny@),
{
    let mut i: usize = 0;
    while i < deny.len()
        invariant
            i <= deny@.len(),
            forall|k: int| 0 <= k < i ==> #[trigger] deny@[k] != (Endpoint { ip, port }),
            ip.spec_is_loopback() ==> forall|k: int|
                0 <= k < i ==> (#[trigger] deny@[k]).port != port,
        decreases deny@.len() - i,
    {
        if deny[i].port == port && (deny[i].ip == ip || ip.is_loopback()) {
            assert(deny@[i as int].port == port);
            return true;
        }
        i = i + 1;
    }
    false
}

/// Dialing under way: the addresses before `at` were tried.
pub struct Dialing {
    pub ips: Vec<Ip>,
    pub port: u16,
    pub at: usize,
    pub last_err: String,
}

/// `Dialing` as plain values.
#[verifier::ext_equal]
pub struct DialingView {
    pub ips: Seq<Ip>,
    pub port: u16,
    pub at: int,
    pub last_err: Seq<char>,
}

impl View for Dialing {
    type V = DialingView;

    open spec fn view(&self) -> DialingView {
        DialingView {
            ips: self.ips@,
            port: self.port,
            at: self.at as int,
            last_err: self.last_err@,
        }
    }
}

/// How an address that leads back to us is passed over.
pub open spec fn own_message(ip: Ip, port: u16) -> Seq<char> {
    endpoint_text(Endpoint { ip, port }) + " points back at our own listener"@
}

impl DialingView {
    pub open spec fn wf(self) -> bool {
        0 <= self.at <= self.ips.len()
    }

    /// Dialing, moved on past the addresses that lead back to us.
    pub open spec fn skipped(self, deny: Seq<Endpoint>) -> DialingView
        decreases self.ips.len() - self.at,
    {
        if 0 <= self.at < self.ips.len() && is_own(self.ips[self.at], self.port, deny) {
            DialingView {
                at: self.at + 1,
                last_err: own_message(self.ips[self.at], self.port),
                ..self
            }.skipped(deny)
        } else {
            self
        }
    }
}

impl Dialing {
    pub fn begin(ips: Vec<Ip>, port: u16) -> (d: Self)
        ensures
            d@ == (DialingView {
                ips: ips@,
                port,
                at: 0,
                last_err: "no candidate addresses"@,
            }),
            d@.wf(),
    {
        Dialing { ips, port, at: 0, last_err: "no candidate addresses".to_owned() }
    }

    /// The next address to dial. Our own listeners are never dialed.
    pub fn next(&mut self, deny: &[Endpoint]) -> (r: Option<Endpoint>)
        requires
            old(self)@.wf(),
        ensures
            final(self)@.wf(),
            final(self)@ == old(self)@.skipped(deny@),
            final(self)@.at < final(self)@.ips.len() ==> r == Some(
                Endpoint { ip: final(self)@.ips[final(self)@.at], port: final(self)@.port },
            ) && !is_own(final(self)@.ips[final(self)@.at], final(self)@.port, deny@),
            final(self)@.at >= final(self)@.ips.len() ==> r is None,
    {
        while self.at < self.ips.len() && points_at_us(self.ips[self.at], self.port, deny)
            invariant
                self@.wf(),
                old(self)@.skipped(deny@) == self@.skipped(deny@),
            decreases self.ips@.len() - self.at,
        {
            self.last_err =
            join(
                show_endpoint(Endpoint { ip: self.ips[self.at], port: self.port }).as_str(),
                " points back at our own listener",
            );
            self.at = self.at + 1;
        }
        if self.at < self.ips.len() {
            Some(Endpoint { ip: self.ips[self.at], port: self.port })
        } else {
            None
        }
    }

    /// Note that the address that came next could not be reached.
    pub fn failed(&mut self, error: String)
        requires
            old(self)@.wf(),
            old(self)@.at < old(self)@.ips.len(),
        ensures
            final(self)@.wf(),
            final(self)@ == (DialingView {
                at: old(self)@.at + 1,
                last_err: error@,
                ..old(self)@
            }),
    {
        let count: usize = self.ips.len();
        assert(self.at < count);
        self.at = self.at + 1;
        self.last_err = error;
    }

    /// No address could be reached: count a failure and rest.
    pub fn give_up<E: Clone>(&self, slot: &mut Slot<E>, now: u64) -> (message: String)
        ensures
            *final(slot) == old(slot).backed_off(now),
            message@ == "connect failed ("@ + self@.last_err + "); backing off "@ + decimal(
                backoff_secs(final(slot).connect_failures as int) as nat,
            ) + "s"@,
    {
        let secs: u64 = slot.backoff(now);
        let mut message: String = join3(
            "connect failed (",
            self.last_err.as_str(),
            "); backing off ",
        );
        message.append(show_number(secs).as_str());
        message.append("s");
        message
    }
}

// ---------- sending ----------

/// A connection that a query was given.
#[derive(Clone, Copy, Debug, PartialEq, Eq, Structural)]
pub struct Lease {
    pub generation: u64,
    /// Whether it was there before the query.
    pub reused: bool,
}

/// What became of a query on a connection.
pub enum Sent {
    Answer(Vec<u8>),
    Deadline,
    Transport(String),
}

/// What a query does next.
pub enum Verdict {
    Finished(Result<Vec<u8>, String>),
    /// Dial once more; the error stands if that fails.
    Redial(String),
}

/// The slot after a query was sent on the connection `lease`.
pub open spec fn slot_after<E>(
    slot: Slot<E>,
    lease: Lease,
    retried: bool,
    sent: Sent,
    deadline: Option<u64>,
    now: u64,
) -> Slot<E> {
    if sent is Answer || !slot.is_current(lease.generation) {
        slot
    } else if sent is Transport && lease.reused && !retried && has_budget(deadline, now) {
        slot.invalidated(lease.generation)
    } else {
        slot.invalidated(lease.generation).backed_off(now)
    }
}

/// Whether `verdict` is what becomes of a query: an answer is the answer; a
/// transport failure on the current, reused connection leads to one redial while
/// budget remains; anything else ends it.
pub open spec fn is_verdict<E>(
    slot: Slot<E>,
    lease: Lease,
    retried: bool,
    sent: Sent,
    deadline: Option<u64>,
    now: u64,
    verdict: Verdict,
) -> bool {
    match sent {
        Sent::Answer(bytes) => verdict matches Verdict::Finished(Ok(got)) && got@ == bytes@,
        Sent::Deadline => verdict matches Verdict::Finished(Err(m)) && m@
            == "no answer within the deadline"@,
        Sent::Transport(error) => if slot.is_current(lease.generation) && lease.reused && !retried
            && has_budget(deadline, now) {
            verdict matches Verdict::Redial(m) && m@ == error@
        } else {
            verdict matches Verdict::Finished(Err(m)) && m@ == error@
        },
    }
}

/// Decide what becomes of a query after it was sent. The redial of a stale
/// connection happens once, on a reused connection, while budget remains.
pub fn after_send<E: Clone>(
    slot: &mut Slot<E>,
    lease: Lease,
    retried: bool,
    sent: Sent,
    deadline: Option<u64>,
    now: u64,
) -> (verdict: Verdict)
    ensures
        *final(slot) == slot_after(*old(slot), lease, retried, sent, deadline, now),
        is_verdict(*old(slot), lease, retried, sent, deadline, now, verdict),
{
    match sent {
        Sent::Answer(bytes) => Verdict::Finished(Ok(bytes)),
        Sent::Deadline => {
            if slot.invalidate(lease.generation) {
                slot.backoff(now);
            }
            Verdict::Finished(Err("no answer within the deadline".to_owned()))
        },
        Sent::Transport(error) => {
            if !slot.invalidate(lease.generation) {
                // A concurrent query already replaced this generation; leave
                // the successor alone.
                return Verdict::Finished(Err(error));
            }
            if lease.reused && !retried && budget_allows_redial(deadline, now) {
                return Verdict::Redial(error);
            }
            slot.backoff(now);
            Verdict::Finished(Err(error))
        },
    }
}

/// How a redial that failed is reported.
pub fn redial_failed(error: &str, redial: &str) -> (message: String)
    ensures
        message@ == error@ + "; redial failed: "@ + redial@,
{
    join3(error, "; redial failed: ", redial)
}

/// The limit of a connection attempt in nanoseconds: five seconds, or what is
/// left before the deadline.
pub fn connect_limit(deadline: Option<u64>, now: u64) -> (nanos: u64)
    ensures
        nanos == match deadline {
            Some(at) => if at <= now {
                0
            } else if at - now < CONNECT_TIMEOUT {
                at - now
            } else {
                CONNECT_TIMEOUT as int
            },
            None => CONNECT_TIMEOUT as int,
        },
{
    match deadline {
        Some(at) => if at <= now {
            0
        } else if at - now < CONNECT_TIMEOUT {
            at - now
        } else {
            CONNECT_TIMEOUT
        },
        None => CONNECT_TIMEOUT,
    }
}

// ---------- the channel ----------

/// An encrypted upstream: where it is, our own listener addresses, which are
/// never dialed, and the connection to it.
pub struct Channel<E> {
    pub up: Upstream,
    pub deny: Vec<Endpoint>,
    pub state: Slot<E>,
}

impl<E: Clone> Channel<E> {
    /// A channel that has not been connected yet.
    pub fn new(up: Upstream, deny: Vec<Endpoint>) -> (c: Self)
        ensures
            c.up == up,
            c.deny == deny,
            c.state.exchange is None,
            c.state.generation == 0,
            c.state.connect_failures == 0,
            c.state.cooldown_until is None,
    {
        Channel { up, deny, state: Slot::default() }
    }

    /// Choose how to get at a connection.
    pub fn acquire(&self, now: u64) -> (r: Acquired<E>)
        ensures
            is_acquired(self.state, self.up.bootstrap_ip, now, r),
    {
        begin_acquire(&self.state, self.up.bootstrap_ip, now)
    }

    /// The connection that was dialed.
    pub fn connected(&mut self, exchange: E) -> (lease: Lease)
        ensures
            final(self).state == old(self).state.stored(exchange),
            final(self).up == old(self).up,
            final(self).deny == old(self).deny,
            lease == (Lease { generation: final(self).state.generation, reused: false }),
    {
        let generation: u64 = self.state.store(exchange);
        Lease { generation, reused: false }
    }

    /// Decide what becomes of a query after it was sent.
    pub fn query(
        &mut self,
        lease: Lease,
        retried: bool,
        sent: Sent,
        deadline: Option<u64>,
        now: u64,
    ) -> (verdict: Verdict)
        ensures
            final(self).state == slot_after(old(self).state, lease, retried, sent, deadline, now),
            final(self).up == old(self).up,
            final(self).deny == old(self).deny,
            is_verdict(old(self).state, lease, retried, sent, deadline, now, verdict),
    {
        after_send(&mut self.state, lease, retried, sent, deadline, now)
    }
}

// ---------- laws ----------

/// A failure from a superseded connection changes nothing: it can never tear
/// down the connection that another query has just established.
pub proof fn law_superseded_failures_change_nothing<E>(
    slot: Slot<E>,
    lease: Lease,
    exchange: E,
    retried: bool,
    sent: Sent,
    deadline: Option<u64>,
    now: u64,
)
    ensures
        !slot.is_current(lease.generation) ==> slot_after(slot, lease, retried, sent, deadline, now)
            == slot && slot.invalidated(lease.generation) == slot,
        slot.is_current(lease.generation) ==> !slot.stored(exchange).is_current(lease.generation),
{
}

/// A query is redialed at most once, and never after its deadline.
pub proof fn law_queries_are_redialed_once<E>(
    slot: Slot<E>,
    lease: Lease,
    retried: bool,
    sent: Sent,
    deadline: Option<u64>,
    now: u64,
    verdict: Verdict,
)
    requires
        is_verdict(slot, lease, retried, sent, deadline, now, verdict),
        verdict is Redial,
    ensures
        !retried,
        lease.reused,
        deadline matches Some(at) ==> now < at,
{
}

/// The event table: an answer changes nothing; a stale connection is dropped
/// without backoff; a failure on a fresh connection, after a redial or at the
/// deadline drops the connection and rests the upstream.
pub proof fn law_event_table<E>(
    slot: Slot<E>,
    lease: Lease,
    retried: bool,
    sent: Sent,
    deadline: Option<u64>,
    now: u64,
)
    requires
        slot.is_current(lease.generation),
    ensures
        ({
            let after = slot_after(slot, lease, retried, sent, deadline, now);
            &&& sent is Answer ==> after == slot
            &&& sent is Transport && lease.reused && !retried && has_budget(deadline, now) ==> after
                == (Slot { exchange: None, ..slot })
            &&& sent is Transport && (!lease.reused || retried) ==> after == (Slot {
                exchange: None,
                ..slot
            }).backed_off(now)
            &&& sent is Deadline ==> after == (Slot { exchange: None, ..slot }).backed_off(now)
            &&& !(sent is Answer) ==> after.exchange is None && !after.is_current(lease.generation)
        }),
{
}

/// Backoff doubles with every failure in a row, from 2 seconds up to 32, and a
/// connection that is stored ends it.
pub proof fn law_backoff_doubles_up_to_the_cap<E>(slot: Slot<E>, exchange: E, now: u64)
    ensures
        1 <= slot.connect_failures < MAX_BACKOFF_SHIFT ==> backoff_secs(
            slot.backed_off(now).connect_failures as int,
        ) == 2 * backoff_secs(slot.connect_failures as int),
        2 <= backoff_secs(slot.backed_off(now).connect_failures as int) <= 32,
        slot.connect_failures >= MAX_BACKOFF_SHIFT ==> backoff_secs(
            slot.backed_off(now).connect_failures as int,
        ) == 32,
        slot.backed_off(now).stored(exchange).connect_failures == 0,
        slot.backed_off(now).stored(exchange).cooldown_until is None,
{
}

} // verus!
