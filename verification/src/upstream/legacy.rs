//! Plain DNS over UDP/TCP port 53 (`legacy` upstream type).
//!
//! UDP first; TCP only to chase a TC-truncated response, and only for TCP
//! clients (UDP clients get the TC bit passed through and retry themselves).

use crate::proxy::{framed, tcp_frame};
use crate::wire::{response_check, validate_response, HEADER_LEN};
use vstd::prelude::*;
use vstd::slice::slice_to_vec;
use vstd::string::*;

verus! {

/// Whether two messages have the same ID.
pub open spec fn same_id(a: Seq<u8>, b: Seq<u8>) -> bool {
    a[0] == b[0] && a[1] == b[1]
}

/// Whether a datagram is the reply to a query: it has the query's ID and
/// answers its question (RFC 5452).
pub open spec fn is_reply(query: Seq<u8>, datagram: Seq<u8>) -> bool {
    &&& datagram.len() >= HEADER_LEN
    &&& same_id(query, datagram)
    &&& response_check(query, datagram) is Ok
}

/// Accept only a datagram matching our ID and our question (RFC 5452);
/// keep waiting on anything else so the genuine reply can still arrive.
pub fn accepts_datagram(query: &[u8], datagram: &[u8]) -> (r: bool)
    requires
        query@.len() >= 2,
    ensures
        r == is_reply(query@, datagram@),
{
    datagram.len() >= HEADER_LEN && datagram[0] == query[0] && datagram[1] == query[1]
        && validate_response(query, datagram).is_ok()
}

/// A query with its length before it, as TCP wants it.
pub fn tcp_request(query: &[u8]) -> (r: Result<Vec<u8>, String>)
    ensures
        if query@.len() <= 65535 {
            r matches Ok(bytes) && bytes@ == framed(query@)
        } else {
            r matches Err(m) && m@ == "query too large"@
        },
{
    if query.len() > 65535 {
        return Err("query too large".to_owned());
    }
    Ok(tcp_frame(query))
}

/// TCP has no stray-datagram problem, but the ID must still round-trip.
pub fn check_tcp_response(query: &[u8], response: &[u8]) -> (r: Result<(), String>)
    requires
        query@.len() >= 2,
    ensures
        if response@.len() >= HEADER_LEN && same_id(query@, response@) {
            r is Ok
        } else {
            r matches Err(m) && m@ == "tcp response ID mismatch"@
        },
{
    if response.len() < HEADER_LEN || response[0] != query[0] || response[1] != query[1] {
        return Err("tcp response ID mismatch".to_owned());
    }
    Ok(())
}

/// What the exchange with a server has brought so far.
pub struct LegacyFacts {
    /// Whether a truncated response is chased over TCP.
    pub tcp_retry: bool,
    pub udp: Option<Result<Vec<u8>, String>>,
    pub tcp: Option<Result<Vec<u8>, String>>,
}

/// What the exchange with a server does next.
pub enum LegacyStep {
    AskUdp,
    AskTcp,
    Finished(Result<Vec<u8>, String>),
}

/// Whether a response says that it was truncated.
pub open spec fn is_truncated(response: Seq<u8>) -> bool {
    response.len() >= HEADER_LEN && response[2] & 0x02 != 0
}

/// Whether `step` is what comes next: UDP; then, for a truncated response to a
/// TCP client, TCP, whose answer is taken where there is one.
pub open spec fn is_legacy_step(facts: LegacyFacts, step: LegacyStep) -> bool {
    match facts.udp {
        None => step is AskUdp,
        Some(Err(e)) => step matches LegacyStep::Finished(Err(m)) && m@ == e@,
        Some(Ok(response)) => if facts.tcp_retry && is_truncated(response@) {
            match facts.tcp {
                None => step is AskTcp,
                Some(Ok(full)) => step matches LegacyStep::Finished(Ok(got)) && got@ == full@,
                Some(Err(_)) => step matches LegacyStep::Finished(Ok(got)) && got@ == response@,
            }
        } else {
            step matches LegacyStep::Finished(Ok(got)) && got@ == response@
        },
    }
}

pub fn query(facts: &LegacyFacts) -> (step: LegacyStep)
    ensures
        is_legacy_step(*facts, step),
{
    let response: &Vec<u8> = match &facts.udp {
        None => return LegacyStep::AskUdp,
        Some(Err(e)) => return LegacyStep::Finished(Err(e.clone())),
        Some(Ok(response)) => response,
    };
    if facts.tcp_retry && response.len() >= HEADER_LEN && response[2] & 0x02 != 0 {
        match &facts.tcp {
            None => return LegacyStep::AskTcp,
            Some(Ok(full)) => return LegacyStep::Finished(Ok(slice_to_vec(full.as_slice()))),
            Some(Err(_)) => {},
        }
    }
    LegacyStep::Finished(Ok(slice_to_vec(response.as_slice())))
}

/// UDP clients get a truncated response as it is: TCP is tried for TCP clients
/// only, and only after a truncated response.
pub proof fn law_tcp_only_chases_truncation(facts: LegacyFacts, step: LegacyStep)
    requires
        is_legacy_step(facts, step),
        step is AskTcp,
    ensures
        facts.tcp_retry,
        facts.udp matches Some(Ok(response)) && is_truncated(response@),
{
}

} // verus!
