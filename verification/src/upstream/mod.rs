//! The upstreams: who is asked, in which order, and what counts as an answer.

use crate::cache::with_id;
use crate::config::{upstream_views, Upstream, UpstreamView};
use crate::ip::{ip_text, show_ip, Endpoint, Ip};
use crate::text::{decimal, join, join3, show_number};
use crate::upstream::encrypted::{is_own, points_at_us};
use crate::upstream::message::{
    answer_views, hickory_content, read_message, Answer, Content, Parsed,
};
use crate::wire::{response_check, validate_response, HEADER_LEN};
use vstd::prelude::*;
use vstd::string::*;

pub mod bootstrap;
pub mod encrypted;
pub mod laws;
pub mod legacy;
pub mod message;

verus! {

/// Seconds that a fallback server has for its answer.
pub const FALLBACK_TIMEOUT_SECS: u64 = 2;

// ---------- what encrypted transports take ----------

/// The only shape a recursive stub should send: one question, no resource
/// records or signatures, and an optional EDNS record.
pub open spec fn is_safe(content: Content) -> bool {
    content == (true, true, 1nat, 0nat, 0nat, 0nat, Seq::<Answer>::empty())
}

/// Encrypted transports re-encode requests. Bound that encoder to the only
/// shape a recursive stub should send. Besides rejecting nonsensical client
/// messages, this keeps messages with many records away from it.
pub fn safe_encrypted_query(message: &Parsed) -> (r: bool)
    ensures
        r == is_safe(message@),
{
    assert(message.answers@.len() == 0 ==> answer_views(message.answers@) =~= Seq::<
        Answer,
    >::empty());
    assert(answer_views(message.answers@).len() == message.answers@.len());
    message.is_query && message.is_query_op && message.queries == 1 && message.answers.len() == 0
        && message.name_servers == 0 && message.additionals == 0 && message.signatures == 0
}

/// Whether a query may be sent over an encrypted transport.
pub fn check_encrypted_query(query: &[u8]) -> (r: Result<(), String>)
    ensures
        match hickory_content(query@) {
            Ok(content) => if is_safe(content) {
                r is Ok
            } else {
                r matches Err(m) && m@ == "unsupported query shape for encrypted forwarding"@
            },
            Err(error) => r matches Err(m) && m@ == "unparseable query: "@ + error,
        },
{
    match read_message(query) {
        Ok(message) => if safe_encrypted_query(&message) {
            Ok(())
        } else {
            Err("unsupported query shape for encrypted forwarding".to_owned())
        },
        Err(error) => Err(join("unparseable query: ", error.as_str())),
    }
}

/// A query without a question, or with records or signatures of any kind, is
/// never sent over an encrypted transport.
pub proof fn law_encrypted_queries_have_one_question(content: Content)
    requires
        is_safe(content),
    ensures
        content.2 == 1,
        content.3 + content.4 + content.5 + content.6.len() == 0,
{
}

/// When the time of an upstream runs out, in nanoseconds of the monotonic
/// clock; never where its timeout is 0.
pub open spec fn deadline_of(timeout_ms: u64, now: u64) -> Option<u64> {
    if timeout_ms == 0 {
        None
    } else if now + timeout_ms * 1_000_000 > u64::MAX {
        Some(u64::MAX)
    } else {
        Some((now + timeout_ms * 1_000_000) as u64)
    }
}

pub fn deadline(timeout_ms: u64, now: u64) -> (r: Option<u64>)
    ensures
        r == deadline_of(timeout_ms, now),
{
    if timeout_ms == 0 {
        return None;
    }
    if timeout_ms > (u64::MAX - now) / 1_000_000 {
        return Some(u64::MAX);
    }
    Some(now + timeout_ms * 1_000_000)
}

// ---------- the manager ----------

/// Ordered-failover view over the configured upstreams, with the servers that
/// are asked directly when all of them fail.
pub struct Manager {
    pub upstreams: Vec<Upstream>,
    pub fallback: Vec<Endpoint>,
}

/// Why an upstream that leads back to us is refused.
pub open spec fn self_loop_message(up: UpstreamView, ip: Ip) -> Seq<char> {
    "upstream "@ + up.name + ": endpoint "@ + ip_text(ip) + ":"@ + decimal(up.port as nat)
        + " points at our own listener"@
}

/// Whether an upstream's known address leads back to us.
pub open spec fn is_self_loop(up: UpstreamView, listeners: Seq<Endpoint>) -> bool {
    up.bootstrap_ip matches Some(ip) && is_own(ip, up.port, listeners)
}

/// The first upstream at or after `i` that leads back to us.
pub open spec fn first_self_loop(
    ups: Seq<UpstreamView>,
    listeners: Seq<Endpoint>,
    i: int,
) -> Option<int>
    decreases ups.len() - i,
{
    if i >= ups.len() {
        None
    } else if is_self_loop(ups[i], listeners) {
        Some(i)
    } else {
        first_self_loop(ups, listeners, i + 1)
    }
}

/// What a forwarded query does next.
pub enum ForwardStep {
    /// Ask the upstream with this index.
    Upstream(usize),
    /// Ask this server directly.
    Fallback(Endpoint),
    /// Nobody is left.
    Exhausted,
}

/// How far a forwarded query has come: so many upstreams and then so many
/// fallback servers have failed.
#[derive(Clone, Copy, Debug, PartialEq, Eq, Structural)]
pub struct Forwarding {
    pub upstreams: usize,
    pub fallbacks: usize,
}

impl Manager {
    /// A static address that is one of our own listeners is a config error, not
    /// a runtime skip.
    pub fn new(all: Vec<Upstream>, listeners: &[Endpoint], fallback: Vec<Endpoint>) -> (r: Result<
        Self,
        String,
    >)
        ensures
            match first_self_loop(upstream_views(all@), listeners@, 0) {
                Some(i) => r matches Err(m) && m@ == self_loop_message(
                    upstream_views(all@)[i],
                    upstream_views(all@)[i].bootstrap_ip->0,
                ),
                None => r matches Ok(manager) && manager.upstreams@ == all@ && manager.fallback@
                    == fallback@,
            },
    {
        let ghost views = upstream_views(all@);
        let mut i: usize = 0;
        while i < all.len()
            invariant
                i <= all@.len(),
                views == upstream_views(all@),
                first_self_loop(views, listeners@, 0) == first_self_loop(
                    views,
                    listeners@,
                    i as int,
                ),
            decreases all@.len() - i,
        {
            assert(views[i as int] == all@[i as int]@);
            if let Some(ip) = all[i].bootstrap_ip {
                if points_at_us(ip, all[i].port, listeners) {
                    let mut message: String = join3(
                        "upstream ",
                        all[i].name.as_str(),
                        ": endpoint ",
                    );
                    message.append(show_ip(ip).as_str());
                    message.append(":");
                    message.append(show_number(all[i].port as u64).as_str());
                    message.append(" points at our own listener");
                    return Err(message);
                }
            }
            i = i + 1;
        }
        Ok(Manager { upstreams: all, fallback })
    }

    /// Take fresh servers for when all upstreams fail.
    pub fn set_system_fallback(&mut self, servers: Vec<Endpoint>)
        ensures
            final(self).fallback@ == servers@,
            final(self).upstreams@ == old(self).upstreams@,
    {
        self.fallback = servers;
    }

    /// Take the servers that were captured before a takeover was re-applied, and
    /// keep the previous ones where there were none. Returns whether they were
    /// taken.
    pub fn refresh_fallback(&mut self, captured: Vec<Endpoint>) -> (taken: bool)
        ensures
            taken == (captured@.len() > 0),
            final(self).fallback@ == if captured@.len() > 0 {
                captured@
            } else {
                old(self).fallback@
            },
            final(self).upstreams@ == old(self).upstreams@,
    {
        if captured.len() == 0 {
            return false;
        }
        self.set_system_fallback(captured);
        true
    }

    /// Whom to ask next: the upstreams in config order, then the fallback
    /// servers.
    pub fn forward(&self, tried: Forwarding) -> (step: ForwardStep)
        ensures
            step == tried.turn(self.upstreams@.len(), self.fallback@),
    {
        if tried.upstreams < self.upstreams.len() {
            ForwardStep::Upstream(tried.upstreams)
        } else if tried.fallbacks < self.fallback.len() {
            ForwardStep::Fallback(self.fallback[tried.fallbacks])
        } else {
            ForwardStep::Exhausted
        }
    }
}

impl Forwarding {
    /// Whose turn it is.
    pub open spec fn turn(self, upstreams: nat, fallback: Seq<Endpoint>) -> ForwardStep {
        if self.upstreams < upstreams {
            ForwardStep::Upstream(self.upstreams)
        } else if self.fallbacks < fallback.len() {
            ForwardStep::Fallback(fallback[self.fallbacks as int])
        } else {
            ForwardStep::Exhausted
        }
    }

    /// How far a query has come after one more failure.
    pub open spec fn one_further(self, upstreams: nat, fallback: Seq<Endpoint>) -> Forwarding {
        if self.upstreams < upstreams {
            Forwarding { upstreams: (self.upstreams + 1) as usize, ..self }
        } else if self.fallbacks < fallback.len() {
            Forwarding { fallbacks: (self.fallbacks + 1) as usize, ..self }
        } else {
            self
        }
    }

    pub fn new() -> (f: Self)
        ensures
            f == (Forwarding { upstreams: 0, fallbacks: 0 }),
    {
        Forwarding { upstreams: 0, fallbacks: 0 }
    }

    /// Note that whoever was asked has failed.
    pub fn failed(self, manager: &Manager) -> (f: Self)
        ensures
            f == self.one_further(manager.upstreams@.len(), manager.fallback@),
    {
        if self.upstreams < manager.upstreams.len() {
            Forwarding { upstreams: self.upstreams + 1, fallbacks: self.fallbacks }
        } else if self.fallbacks < manager.fallback.len() {
            Forwarding { upstreams: self.upstreams, fallbacks: self.fallbacks + 1 }
        } else {
            self
        }
    }
}

/// What a client gets of a response: the response with the client's own ID,
/// where it answers the client's question. Transports may rewrite the ID.
pub open spec fn accepted(query: Seq<u8>, response: Seq<u8>) -> Option<Seq<u8>> {
    if response_check(query, response) is Ok {
        Some(with_id(response, query[0], query[1]))
    } else {
        None
    }
}

/// Check that a response echoes the query's question (RFC 5452), and hand the
/// client back its own ID.
pub fn accept(query: &[u8], response: Vec<u8>) -> (r: Option<Vec<u8>>)
    requires
        query@.len() >= 2,
    ensures
        match accepted(query@, response@) {
            Some(bytes) => r matches Some(got) && got@ == bytes,
            None => r is None,
        },
{
    if validate_response(query, response.as_slice()).is_err() {
        return None;
    }
    let mut out: Vec<u8> = response;
    out.set(0, query[0]);
    out.set(1, query[1]);
    assert(out@ =~= with_id(response@, query@[0], query@[1]));
    Some(out)
}

/// Whatever is handed to a client is a response with its ID that echoes its
/// question.
pub proof fn law_clients_get_their_own_question_back(query: Seq<u8>, response: Seq<u8>)
    requires
        query.len() >= 2,
    ensures
        accepted(query, response) matches Some(out) ==> {
            &&& out.len() == response.len()
            &&& out.len() >= HEADER_LEN
            &&& out[0] == query[0]
            &&& out[1] == query[1]
            &&& out[2] & 0x80 != 0
            &&& crate::wire::questions_of(query) is Some
            &&& crate::wire::questions_of(response) == crate::wire::questions_of(query)
            &&& out.skip(2) == response.skip(2)
        },
{
    if let Some(out) = accepted(query, response) {
        assert(out.skip(2) =~= response.skip(2));
    }
}

// ---------- plain upstreams ----------

/// An attempt on the addresses of a plain upstream: those before `at` have
/// failed.
pub struct Attempt {
    pub ips: Vec<Ip>,
    pub port: u16,
    pub at: usize,
    pub last_err: String,
}

impl Attempt {
    pub open spec fn wf(&self) -> bool {
        self.at <= self.ips@.len()
    }

    pub fn begin(ips: Vec<Ip>, port: u16) -> (a: Self)
        ensures
            a.wf(),
            a.ips@ == ips@,
            a.port == port,
            a.at == 0,
            a.last_err@ == "no addresses"@,
    {
        Attempt { ips, port, at: 0, last_err: "no addresses".to_owned() }
    }

    /// The next address to ask, or the last error where there is none.
    pub fn next(&self) -> (r: Result<Endpoint, String>)
        requires
            self.wf(),
        ensures
            if self.at < self.ips@.len() {
                r == Ok::<Endpoint, String>(
                    Endpoint { ip: self.ips@[self.at as int], port: self.port },
                )
            } else {
                r matches Err(m) && m@ == self.last_err@
            },
    {
        if self.at < self.ips.len() {
            Ok(Endpoint { ip: self.ips[self.at], port: self.port })
        } else {
            Err(self.last_err.clone())
        }
    }

    /// Note that the address that came next has failed.
    pub fn failed(&mut self, error: String)
        requires
            old(self).wf(),
            old(self).at < old(self).ips@.len(),
        ensures
            final(self).wf(),
            final(self).at == old(self).at + 1,
            final(self).last_err@ == error@,
            final(self).ips@ == old(self).ips@,
            final(self).port == old(self).port,
    {
        let count: usize = self.ips.len();
        assert(self.at < count);
        self.at = self.at + 1;
        self.last_err = error;
    }
}

// ---------- laws ----------

/// How far a query has come after `n` failures.
pub open spec fn after_failures(upstreams: nat, fallback: Seq<Endpoint>, n: nat) -> Forwarding
    decreases n,
{
    if n == 0 {
        Forwarding { upstreams: 0, fallbacks: 0 }
    } else {
        after_failures(upstreams, fallback, (n - 1) as nat).one_further(upstreams, fallback)
    }
}

/// Every upstream is asked once, in order, before the first fallback server;
/// then every fallback server once, in order; then nobody.
pub proof fn law_failover_order(upstreams: nat, fallback: Seq<Endpoint>, n: nat)
    requires
        upstreams <= usize::MAX,
        fallback.len() <= usize::MAX,
    ensures
        after_failures(upstreams, fallback, n).turn(upstreams, fallback) == if n < upstreams {
            ForwardStep::Upstream(n as usize)
        } else if n < upstreams + fallback.len() {
            ForwardStep::Fallback(fallback[n - upstreams])
        } else {
            ForwardStep::Exhausted
        },
{
    lemma_after_failures(upstreams, fallback, n);
}

proof fn lemma_after_failures(upstreams: nat, fallback: Seq<Endpoint>, n: nat)
    requires
        upstreams <= usize::MAX,
        fallback.len() <= usize::MAX,
    ensures
        ({
            let f = after_failures(upstreams, fallback, n);
            &&& n <= upstreams ==> f.upstreams == n && f.fallbacks == 0
            &&& n > upstreams ==> f.upstreams == upstreams
            &&& upstreams < n <= upstreams + fallback.len() ==> f.fallbacks == n - upstreams
            &&& n > upstreams + fallback.len() ==> f.fallbacks == fallback.len()
        }),
    decreases n,
{
    if n > 0 {
        lemma_after_failures(upstreams, fallback, (n - 1) as nat);
    }
}

/// A manager never has an upstream whose known address is one of our own
/// listeners.
pub proof fn law_no_upstream_leads_back(ups: Seq<UpstreamView>, listeners: Seq<Endpoint>, i: int)
    requires
        0 <= i,
        first_self_loop(ups, listeners, i) is None,
    ensures
        forall|k: int| i <= k < ups.len() ==> !is_self_loop(#[trigger] ups[k], listeners),
    decreases ups.len() - i,
{
    if i < ups.len() {
        law_no_upstream_leads_back(ups, listeners, i + 1);
    }
}

} // verus!
