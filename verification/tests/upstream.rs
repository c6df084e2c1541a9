use dnsrivet::config::{IpStack, Proto, Upstream};
use dnsrivet::ip::{Endpoint, Ip};
use dnsrivet::upstream::bootstrap::{
    collect_answers, query_bytes, read_response, Bootstrap, Lookup, LookupStep, Resolution,
};
use dnsrivet::upstream::encrypted::{
    after_send, begin_acquire, budget_allows_redial, connect_limit, redial_failed, resolve_failed,
    Acquired, Channel, Dialing, Lease, Sent, Slot, Verdict,
};
use dnsrivet::upstream::legacy::{
    accepts_datagram, check_tcp_response, query, tcp_request, LegacyFacts, LegacyStep,
};
use dnsrivet::upstream::message::Parsed;
use dnsrivet::upstream::{
    accept, check_encrypted_query, deadline, safe_encrypted_query, Attempt, ForwardStep,
    Forwarding, Manager,
};
use hickory_proto::op::{Message, MessageType, OpCode, Query};
use hickory_proto::rr::rdata::{A, AAAA, CNAME};
use hickory_proto::rr::{Name, RData, Record, RecordType};
use std::str::FromStr;

const SECOND: u64 = 1_000_000_000;

fn query_for(id: u16) -> Vec<u8> {
    let mut message = Vec::from(id.to_be_bytes());
    message.extend_from_slice(&[0x01, 0x00, 0, 1, 0, 0, 0, 0, 0, 0]);
    message.extend_from_slice(&[1, b'a', 0, 0, 1, 0, 1]);
    message
}

fn response_for(id: u16) -> Vec<u8> {
    let mut message = query_for(id);
    message[2] |= 0x80;
    message
}

fn upstream(name: &str, bootstrap_ip: Option<Ip>, port: u16) -> Upstream {
    Upstream {
        name: name.to_string(),
        proto: Proto::Legacy,
        host: "resolver.example".to_string(),
        port,
        path: String::new(),
        bootstrap_ip,
        timeout_ms: 50,
        ip_stack: IpStack::Both,
    }
}

#[test]
fn encrypted_encoder_accepts_only_single_question_queries() {
    let name = Name::from_str("example.com.").unwrap();
    let mut query = Message::new();
    query
        .set_message_type(MessageType::Query)
        .set_op_code(OpCode::Query)
        .add_query(Query::query(name.clone(), RecordType::A));
    assert!(check_encrypted_query(&query.to_vec().unwrap()).is_ok());

    query.add_answer(Record::from_rdata(
        name,
        60,
        RData::A(A::new(192, 0, 2, 1)),
    ));
    assert_eq!(
        check_encrypted_query(&query.to_vec().unwrap()).unwrap_err(),
        "unsupported query shape for encrypted forwarding"
    );

    let mut parsed = Parsed {
        is_query: true,
        is_query_op: true,
        queries: 1,
        name_servers: 0,
        additionals: 0,
        signatures: 0,
        answers: vec![],
    };
    assert!(safe_encrypted_query(&parsed));
    parsed.answers.push((Some(vec![192, 0, 2, 1]), 60));
    assert!(!safe_encrypted_query(&parsed));
}

#[test]
fn question_less_queries_stay_away_from_encrypted_transports() {
    let mut query = Message::new();
    query.set_message_type(MessageType::Query).set_op_code(OpCode::Query);
    assert!(check_encrypted_query(&query.to_vec().unwrap()).is_err());
    let err = check_encrypted_query(&[1, 2, 3]).unwrap_err();
    assert!(err.starts_with("unparseable query: "));
    assert!(err.len() > "unparseable query: ".len());
}

#[test]
fn store_bumps_generation_and_clears_backoff_state() {
    let mut slot = Slot::<u8> {
        connect_failures: 3,
        cooldown_until: Some(0),
        ..Slot::default()
    };
    let generation = slot.store(1);
    assert_eq!(generation, 1);
    assert_eq!(slot.connect_failures, 0);
    assert!(slot.cooldown_until.is_none());
    assert_eq!(slot.lease(), Some((1, 1)));
}

#[test]
fn invalidate_ignores_stale_generations() {
    let mut slot: Slot<u8> = Slot::default();
    let old = slot.store(1);
    let new = slot.store(2);
    assert!(!slot.invalidate(old), "stale generation must be a no-op");
    assert_eq!(slot.lease(), Some((2, new)));
    assert!(slot.invalidate(new));
    assert!(slot.lease().is_none());
    assert!(!slot.invalidate(new), "second invalidation is a no-op");
}

#[test]
fn backoff_grows_exponentially_and_caps() {
    let mut slot: Slot<u8> = Slot::default();
    assert_eq!(slot.backoff(0), 2);
    assert_eq!(slot.backoff(0), 4);
    for _ in 0..10 {
        slot.backoff(0);
    }
    assert_eq!(slot.backoff(0), 32);
    assert_eq!(slot.cooldown_until, Some(32 * SECOND));
}

#[test]
fn redial_budget_respects_the_deadline() {
    let now = 10 * SECOND;
    assert!(budget_allows_redial(None, now));
    assert!(budget_allows_redial(Some(now + SECOND), now));
    assert!(!budget_allows_redial(Some(now + 50_000_000), now));
    assert!(!budget_allows_redial(Some(now - 1), now));
}

#[test]
fn stale_connections_are_redialed_once_without_backoff() {
    let mut slot: Slot<u8> = Slot::default();
    let generation = slot.store(1);
    let lease = Lease { generation, reused: true };
    let lost = || Sent::Transport("reset".to_string());
    match after_send(&mut slot, lease, false, lost(), None, 0) {
        Verdict::Redial(err) => assert_eq!(err, "reset"),
        Verdict::Finished(_) => panic!("expected a redial"),
    }
    assert!(slot.lease().is_none());
    assert_eq!(slot.connect_failures, 0);
    assert!(slot.cooldown_until.is_none());

    let generation = slot.store(2);
    let lease = Lease { generation, reused: false };
    match after_send(&mut slot, lease, true, lost(), None, 0) {
        Verdict::Finished(Err(err)) => assert_eq!(err, "reset"),
        _ => panic!("expected a failure"),
    }
    assert_eq!(slot.connect_failures, 1);
    assert_eq!(slot.cooldown_until, Some(2 * SECOND));
    assert_eq!(redial_failed("reset", "refused"), "reset; redial failed: refused");
}

#[test]
fn deadlines_rest_the_upstream_and_superseded_failures_do_not() {
    let mut slot: Slot<u8> = Slot::default();
    let old = slot.store(1);
    let new = slot.store(2);
    let stale = Lease { generation: old, reused: true };
    match after_send(&mut slot, stale, false, Sent::Deadline, None, 0) {
        Verdict::Finished(Err(err)) => assert_eq!(err, "no answer within the deadline"),
        _ => panic!("expected a failure"),
    }
    assert_eq!(slot.lease(), Some((2, new)));
    assert_eq!(slot.connect_failures, 0);

    let current = Lease { generation: new, reused: true };
    assert!(matches!(
        after_send(&mut slot, current, false, Sent::Deadline, None, 0),
        Verdict::Finished(Err(_))
    ));
    assert!(slot.lease().is_none());
    assert_eq!(slot.connect_failures, 1);

    assert!(matches!(
        after_send(&mut slot, current, false, Sent::Answer(vec![1]), None, 0),
        Verdict::Finished(Ok(bytes)) if bytes == [1]
    ));
}

#[test]
fn connections_are_reused_rested_or_dialed() {
    let mut slot: Slot<u8> = Slot::default();
    assert!(matches!(
        begin_acquire(&slot, Some(Ip::V4(192, 0, 2, 1)), 0),
        Acquired::Dial(Ip::V4(192, 0, 2, 1))
    ));
    assert!(matches!(begin_acquire(&slot, None, 0), Acquired::Resolve { afresh: false }));
    assert_eq!(
        resolve_failed(&mut slot, "no such host", 0),
        "no such host; backing off after bootstrap failure"
    );
    assert!(matches!(
        begin_acquire(&slot, None, SECOND),
        Acquired::Cooldown(1_000_000_000)
    ));
    assert!(matches!(
        begin_acquire(&slot, None, 2 * SECOND),
        Acquired::Resolve { afresh: true }
    ));
    slot.store(7);
    assert!(matches!(
        begin_acquire(&slot, None, 0),
        Acquired::Reuse { exchange: 7, generation: 1 }
    ));
    assert_eq!(connect_limit(None, 0), 5 * SECOND);
    assert_eq!(connect_limit(Some(3 * SECOND), SECOND), 2 * SECOND);
    assert_eq!(connect_limit(Some(SECOND), 2 * SECOND), 0);
}

#[test]
fn own_listeners_are_never_dialed() {
    let deny = [Endpoint { ip: Ip::V4(127, 0, 0, 1), port: 853 }];
    let ips = vec![Ip::V4(127, 0, 0, 2), Ip::V4(192, 0, 2, 1), Ip::V4(192, 0, 2, 2)];
    let mut dialing = Dialing::begin(ips, 853);
    assert_eq!(
        dialing.next(&deny),
        Some(Endpoint { ip: Ip::V4(192, 0, 2, 1), port: 853 })
    );
    dialing.failed("refused".to_string());
    assert_eq!(
        dialing.next(&deny),
        Some(Endpoint { ip: Ip::V4(192, 0, 2, 2), port: 853 })
    );
    dialing.failed("connect timeout".to_string());
    assert_eq!(dialing.next(&deny), None);
    let mut slot: Slot<u8> = Slot::default();
    assert_eq!(
        dialing.give_up(&mut slot, 0),
        "connect failed (connect timeout); backing off 2s"
    );
    let mut only_us = Dialing::begin(vec![Ip::V4(127, 0, 0, 1)], 853);
    assert_eq!(only_us.next(&deny), None);
    assert_eq!(
        only_us.give_up(&mut slot, 0),
        "connect failed (127.0.0.1:853 points back at our own listener); backing off 4s"
    );
}

#[test]
fn tcp_accepts_matching_id() {
    let sent = query_for(0x1234);
    assert_eq!(&tcp_request(&sent).unwrap()[..2], &[0, 19]);
    assert!(check_tcp_response(&sent, &response_for(0x1234)).is_ok());
}

#[test]
fn tcp_rejects_id_mismatch() {
    let err = check_tcp_response(&query_for(0x1234), &response_for(0xbeef)).unwrap_err();
    assert!(err.contains("ID mismatch"));
    assert_eq!(tcp_request(&vec![0u8; 65_536]).unwrap_err(), "query too large");
}

#[test]
fn only_genuine_datagrams_are_accepted() {
    let sent = query_for(0x1234);
    assert!(accepts_datagram(&sent, &response_for(0x1234)));
    assert!(!accepts_datagram(&sent, &response_for(0x1235)));
    assert!(!accepts_datagram(&sent, &sent));
    let mut other = response_for(0x1234);
    other[13] = b'b';
    assert!(!accepts_datagram(&sent, &other));
}

#[test]
fn truncated_answers_are_chased_over_tcp_for_tcp_clients() {
    let mut cut = response_for(1);
    cut[2] |= 0x02;
    let mut facts = LegacyFacts { tcp_retry: true, udp: None, tcp: None };
    assert!(matches!(query(&facts), LegacyStep::AskUdp));
    facts.udp = Some(Ok(cut.clone()));
    assert!(matches!(query(&facts), LegacyStep::AskTcp));
    facts.tcp = Some(Ok(response_for(1)));
    assert!(matches!(query(&facts), LegacyStep::Finished(Ok(r)) if r == response_for(1)));
    facts.tcp = Some(Err("refused".to_string()));
    assert!(matches!(query(&facts), LegacyStep::Finished(Ok(r)) if r == cut));
    facts.tcp_retry = false;
    facts.tcp = None;
    assert!(matches!(query(&facts), LegacyStep::Finished(Ok(r)) if r == cut));
    facts.udp = Some(Err("unreachable".to_string()));
    assert!(matches!(query(&facts), LegacyStep::Finished(Err(e)) if e == "unreachable"));
}

#[test]
fn bootstrap_queries_are_recursive_with_one_question() {
    let bytes = query_bytes(0x0102, "Dns.Example", true).unwrap();
    let message = Message::from_vec(&bytes).unwrap();
    assert_eq!(message.id(), 0x0102);
    assert!(message.recursion_desired());
    assert_eq!(message.queries().len(), 1);
    assert_eq!(message.queries()[0].query_type(), RecordType::AAAA);
    assert_eq!(&bytes[..12], &[1, 2, 1, 0, 0, 1, 0, 0, 0, 0, 0, 0]);
    assert_eq!(&bytes[bytes.len() - 4..], &[0, 28, 0, 1]);
    let v4 = Message::from_vec(&query_bytes(1, "dns.example", false).unwrap()).unwrap();
    assert_eq!(v4.queries()[0].query_type(), RecordType::A);
}

#[test]
fn bootstrap_answers_are_read_past_cname_links() {
    let name = Name::from_str("dns.example.").unwrap();
    let mut message = Message::new();
    message.set_message_type(MessageType::Response);
    message.add_answer(Record::from_rdata(
        name.clone(),
        5,
        RData::CNAME(CNAME(Name::from_str("other.example.").unwrap())),
    ));
    message.add_answer(Record::from_rdata(
        name.clone(),
        300,
        RData::A(A::new(192, 0, 2, 1)),
    ));
    message.add_answer(Record::from_rdata(
        name,
        200,
        RData::AAAA(AAAA::new(0x2001, 0xdb8, 0, 0, 0, 0, 0, 0x35)),
    ));
    let (ips, ttl) = read_response(&message.to_vec().unwrap()).unwrap();
    assert_eq!(
        ips,
        [
            Ip::V4(192, 0, 2, 1),
            Ip::V6(0x2001, 0xdb8, 0, 0, 0, 0, 0, 0x35)
        ]
    );
    assert_eq!(ttl, 200);
    assert!(read_response(&[0, 1, 2]).is_err());
    assert_eq!(collect_answers(&vec![(None, 1)]), (vec![], u32::MAX));
}

#[test]
fn the_first_bootstrap_server_that_answers_wins() {
    let mut lookup = match Lookup::begin("dns.example", IpStack::Both) {
        Ok(lookup) => lookup,
        Err(err) => panic!("{err}"),
    };
    assert!(matches!(
        lookup.next(),
        LookupStep::Ask { server: Ip::V4(1, 1, 1, 1), v6: false }
    ));
    lookup = lookup.report(Err("timed out".to_string()));
    assert!(matches!(
        lookup.next(),
        LookupStep::Ask { server: Ip::V4(1, 1, 1, 1), v6: true }
    ));
    lookup = lookup.report(Ok((vec![], u32::MAX)));
    assert!(matches!(
        lookup.next(),
        LookupStep::Ask { server: Ip::V4(8, 8, 8, 8), v6: false }
    ));
    lookup = lookup.report(Ok((vec![Ip::V4(192, 0, 2, 1), Ip::V4(192, 0, 2, 1)], 10)));
    lookup = lookup.report(Ok((vec![Ip::V6(1, 0, 0, 0, 0, 0, 0, 1)], 20)));
    match lookup.next() {
        LookupStep::Finished(Ok((ips, ttl))) => {
            assert_eq!(ips, [Ip::V4(192, 0, 2, 1), Ip::V6(1, 0, 0, 0, 0, 0, 0, 1)]);
            assert_eq!(ttl, 60);
        }
        _ => panic!("expected the end"),
    }
}

#[test]
fn bootstrap_failures_name_the_host_and_the_last_error() {
    let mut lookup = match Lookup::begin("dns.example", IpStack::V6) {
        Ok(lookup) => lookup,
        Err(err) => panic!("{err}"),
    };
    for _ in 0..2 {
        lookup = lookup.report(Err("timed out".to_string()));
    }
    match lookup.next() {
        LookupStep::Finished(Err(err)) => {
            assert_eq!(err, "bootstrap failed for dns.example: timed out")
        }
        _ => panic!("expected the end"),
    }
    let long = "a".repeat(64);
    match Lookup::begin(&long, IpStack::V4) {
        Err(err) => assert!(err.starts_with(&format!("invalid hostname {long:?}: "))),
        Ok(_) => panic!("a label of 64 characters was accepted"),
    }
}

#[test]
fn resolved_hosts_are_remembered_until_they_expire() {
    let mut bootstrap = Bootstrap::new();
    let ips = vec![Ip::V4(192, 0, 2, 1)];
    bootstrap.remember("DNS.Example", IpStack::V4, &ips, 60, 0);
    assert_eq!(bootstrap.lookup("dns.EXAMPLE", IpStack::V4, 59 * SECOND), Some(ips.clone()));
    assert_eq!(bootstrap.lookup("dns.example", IpStack::V4, 60 * SECOND), None);
    assert_eq!(bootstrap.lookup("dns.example", IpStack::Both, 0), None);
    bootstrap.remember("dns.example", IpStack::V4, &vec![], 60, 0);
    assert_eq!(bootstrap.lookup("dns.example", IpStack::V4, 0), Some(vec![]));
    bootstrap.remember("other.example", IpStack::V4, &ips, 60, 0);
    bootstrap.invalidate("DNS.example");
    assert_eq!(bootstrap.lookup("dns.example", IpStack::V4, 0), None);
    assert_eq!(bootstrap.lookup("other.example", IpStack::V4, 0), Some(ips));
}

#[test]
fn upstreams_are_asked_in_order_and_then_the_fallback_servers() {
    let fallback = Endpoint { ip: Ip::V4(192, 0, 2, 53), port: 53 };
    let mut manager = match Manager::new(
        vec![upstream("a", None, 53), upstream("b", None, 53)],
        &[],
        vec![fallback],
    ) {
        Ok(manager) => manager,
        Err(err) => panic!("{err}"),
    };
    let mut tried = Forwarding::new();
    assert!(matches!(manager.forward(tried), ForwardStep::Upstream(0)));
    tried = tried.failed(&manager);
    assert!(matches!(manager.forward(tried), ForwardStep::Upstream(1)));
    tried = tried.failed(&manager);
    assert!(matches!(manager.forward(tried), ForwardStep::Fallback(e) if e == fallback));
    tried = tried.failed(&manager);
    assert!(matches!(manager.forward(tried), ForwardStep::Exhausted));
    assert!(!manager.refresh_fallback(vec![]));
    assert_eq!(manager.fallback, [fallback]);
    let captured = Endpoint { ip: Ip::V4(192, 0, 2, 54), port: 53 };
    assert!(manager.refresh_fallback(vec![captured]));
    assert_eq!(manager.fallback, [captured]);
    manager.set_system_fallback(vec![]);
    let two = Forwarding { upstreams: 2, fallbacks: 0 };
    assert!(matches!(manager.forward(two), ForwardStep::Exhausted));
}

#[test]
fn upstreams_that_lead_back_to_us_are_refused() {
    let listeners = [Endpoint { ip: Ip::V4(127, 0, 0, 1), port: 5354 }];
    let looped = upstream("loop", Some(Ip::V4(127, 0, 0, 9)), 5354);
    match Manager::new(vec![upstream("ok", None, 5354), looped], &listeners, vec![]) {
        Err(err) => assert_eq!(
            err,
            "upstream loop: endpoint 127.0.0.9:5354 points at our own listener"
        ),
        Ok(_) => panic!("a self-loop was accepted"),
    }
    let other_port = upstream("fine", Some(Ip::V4(127, 0, 0, 9)), 5355);
    assert!(Manager::new(vec![other_port], &listeners, vec![]).is_ok());
}

#[test]
fn accepted_responses_get_the_clients_id() {
    let sent = query_for(0x1234);
    assert_eq!(accept(&sent, response_for(0)), Some(response_for(0x1234)));
    assert_eq!(accept(&sent, query_for(0)), None);
}

#[test]
fn the_addresses_of_a_plain_upstream_are_tried_in_order() {
    let mut attempt = Attempt::begin(vec![Ip::V4(192, 0, 2, 1)], 53);
    assert_eq!(
        attempt.next(),
        Ok(Endpoint { ip: Ip::V4(192, 0, 2, 1), port: 53 })
    );
    attempt.failed("unreachable".to_string());
    assert_eq!(attempt.next(), Err("unreachable".to_string()));
    assert_eq!(Attempt::begin(vec![], 53).next(), Err("no addresses".to_string()));
}

#[test]
fn channels_follow_the_event_table() {
    let known = Ip::V4(192, 0, 2, 1);
    let mut channel: Channel<u8> = Channel::new(upstream("a", Some(known), 853), vec![]);
    assert!(matches!(channel.acquire(0), Acquired::Dial(ip) if ip == known));
    let fresh = channel.connected(5);
    assert_eq!(fresh, Lease { generation: 1, reused: false });
    assert!(matches!(
        channel.acquire(0),
        Acquired::Reuse { exchange: 5, generation: 1 }
    ));
    let reused = Lease { generation: 1, reused: true };
    let lost = Sent::Transport("closed".to_string());
    assert!(matches!(
        channel.query(reused, false, lost, Some(SECOND), 0),
        Verdict::Redial(err) if err == "closed"
    ));
    assert!(matches!(channel.acquire(0), Acquired::Dial(_)));
    let second = channel.connected(6);
    let lost = Sent::Transport("closed".to_string());
    assert!(matches!(
        channel.query(second, true, lost, Some(SECOND), 0),
        Verdict::Finished(Err(err)) if err == "closed"
    ));
    assert!(matches!(channel.acquire(0), Acquired::Cooldown(2_000_000_000)));
    assert!(matches!(channel.acquire(2 * SECOND), Acquired::Dial(_)));
}

#[test]
fn hosts_are_resolved_from_memory_or_by_asking() {
    let mut bootstrap = Bootstrap::new();
    assert!(matches!(
        bootstrap.resolve("dns.example", IpStack::V4, 0),
        Ok(Resolution::Begun(lookup)) if lookup.host == "dns.example"
    ));
    let ips = vec![Ip::V4(192, 0, 2, 1)];
    bootstrap.remember("dns.example", IpStack::V4, &ips, 60, 0);
    assert!(matches!(
        bootstrap.resolve("DNS.example", IpStack::V4, SECOND),
        Ok(Resolution::Known(known)) if known == ips
    ));
    assert!(matches!(
        bootstrap.resolve("dns.example", IpStack::V4, 60 * SECOND),
        Ok(Resolution::Begun(_))
    ));
    assert!(bootstrap.resolve(&"a".repeat(64), IpStack::V4, 0).is_err());
}

#[test]
fn a_timeout_of_zero_is_no_deadline() {
    assert_eq!(deadline(0, 7), None);
    assert_eq!(deadline(5000, 7), Some(5 * SECOND + 7));
    assert_eq!(deadline(u64::MAX, 7), Some(u64::MAX));
}
