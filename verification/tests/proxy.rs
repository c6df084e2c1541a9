use dnsrivet::cache::Cache;
use dnsrivet::proxy::{
    begin_resolve, finish_resolve, fit_udp, formerr, servfail, tcp_frame, tcp_query_length, Begun,
    Cadence, Tick, Watchdog,
};
use dnsrivet::wire::parse_query_meta;

fn multi_question_query() -> Vec<u8> {
    let mut query = vec![0xab, 0xcd, 0x01, 0x00, 0x00, 0x02, 0, 0, 0, 0, 0, 0];
    query.extend_from_slice(&[1, b'a', 0, 0, 1, 0, 1]);
    query.extend_from_slice(&[1, b'b', 0, 0, 1, 0, 1]);
    query
}

fn plain_query() -> Vec<u8> {
    let mut query = vec![0xab, 0xcd, 0x01, 0x00, 0x00, 0x01, 0, 0, 0, 0, 0, 0];
    query.extend_from_slice(&[1, b'a', 0, 0, 1, 0, 1]);
    query
}

fn plain_response(ttl: u32) -> Vec<u8> {
    let mut message = plain_query();
    message[2] = 0x81;
    message[3] = 0x80;
    message[7] = 1;
    message.extend_from_slice(&[0xc0, 0x0c, 0, 1, 0, 1]);
    message.extend_from_slice(&ttl.to_be_bytes());
    message.extend_from_slice(&[0, 4, 1, 1, 1, 1]);
    message
}

#[test]
fn formerr_is_a_header_only_response() {
    let query = multi_question_query();
    let response = formerr(&query);
    assert_eq!(response.len(), 12);
    assert_eq!(&response[..2], &query[..2]);
    assert_ne!(response[2] & 0x80, 0); // QR
    assert_eq!(response[2] & 0x01, query[2] & 0x01); // RD echoed
    assert_eq!(response[3] & 0x0f, 1); // FORMERR
    assert_eq!(&response[4..12], &[0u8; 8]); // all four counts zero
}

#[test]
fn multi_question_queries_never_reach_an_upstream() {
    let mut cache = Cache::new(false, 1);
    let query = multi_question_query();
    let meta = parse_query_meta(&query);
    assert!(meta.is_none(), "multi-question queries must bypass the cache");

    for _ in 0..2 {
        let response = match begin_resolve(&mut cache, &query, meta.as_ref(), 0) {
            Begun::Answered(response) => response,
            Begun::Forward => panic!("a FORMERR-gated query was forwarded"),
        };
        assert_eq!(response.len(), 12);
        assert_eq!(&response[..2], &query[..2]);
        assert_ne!(response[2] & 0x80, 0);
        assert_eq!(response[3] & 0x0f, 1);
        assert_eq!(&response[4..12], &[0u8; 8]);
    }
}

#[test]
fn forwarded_answers_are_served_from_the_cache_next_time() {
    let mut cache = Cache::new(true, 4);
    let query = plain_query();
    let meta = parse_query_meta(&query);
    assert!(matches!(begin_resolve(&mut cache, &query, meta.as_ref(), 0), Begun::Forward));
    let answer = finish_resolve(&mut cache, &query, meta.as_ref(), Some(plain_response(60)), 0);
    assert_eq!(answer, plain_response(60));
    match begin_resolve(&mut cache, &query, meta.as_ref(), 0) {
        Begun::Answered(response) => assert_eq!(response, plain_response(60)),
        Begun::Forward => panic!("the answer was not cached"),
    }
}

#[test]
fn exhausted_upstreams_are_answered_with_servfail_and_not_cached() {
    let mut cache = Cache::new(true, 4);
    let query = plain_query();
    let meta = parse_query_meta(&query);
    let answer = finish_resolve(&mut cache, &query, meta.as_ref(), None, 0);
    assert_eq!(answer, servfail(&query));
    assert_eq!(answer[2], 0x81);
    assert_eq!(answer[3], 0x82);
    assert_eq!(&answer[4..], &query[4..]);
    assert!(matches!(begin_resolve(&mut cache, &query, meta.as_ref(), 0), Begun::Forward));
}

#[test]
fn udp_answers_are_cut_to_what_the_client_takes() {
    let query = plain_query();
    let meta = parse_query_meta(&query);
    let mut response = plain_response(60);
    response.extend_from_slice(&[0u8; 600]);
    fit_udp(&mut response, &query, meta.as_ref());
    assert_eq!(response.len(), 19);
    assert_ne!(response[2] & 0x02, 0);
    let mut small = plain_response(60);
    fit_udp(&mut small, &query, None);
    assert_eq!(small, plain_response(60));
}

#[test]
fn tcp_lengths_are_bounded() {
    assert_eq!(tcp_query_length(0, 11), None);
    assert_eq!(tcp_query_length(0, 12), Some(12));
    assert_eq!(tcp_query_length(0x10, 0), Some(4096));
    assert_eq!(tcp_query_length(0x10, 1), None);
    assert_eq!(tcp_frame(&[1, 2, 3]), [0, 3, 1, 2, 3]);
    let long = vec![7u8; 70_000];
    let framed = tcp_frame(&long);
    assert_eq!(framed.len(), 65_537);
    assert_eq!(&framed[..2], &[0xff, 0xff]);
}

#[test]
fn flapping_slows_the_watchdog_down_and_stability_speeds_it_up() {
    let mut watchdog = Watchdog::new();
    assert_eq!(watchdog.interval_secs(), 120);
    assert_eq!(watchdog.observe(Tick::Reasserted), Cadence::Unchanged);
    assert_eq!(watchdog.observe(Tick::Clean), Cadence::Unchanged);
    assert_eq!(watchdog.observe(Tick::Reasserted), Cadence::Unchanged);
    assert_eq!(watchdog.observe(Tick::Failed), Cadence::Unchanged);
    assert_eq!(watchdog.observe(Tick::Reasserted), Cadence::Slowed);
    assert_eq!(watchdog.interval_secs(), 1800);
    assert_eq!(watchdog.observe(Tick::Reasserted), Cadence::Unchanged);
    assert_eq!(watchdog.observe(Tick::NotActive), Cadence::Unchanged);
    assert_eq!(watchdog.observe(Tick::Clean), Cadence::BackToNormal);
    assert_eq!(watchdog.interval_secs(), 120);
    assert_eq!(watchdog, Watchdog::new());
}

#[test]
fn a_quiet_window_clears_the_strikes() {
    let mut watchdog = Watchdog::new();
    for _ in 0..5 {
        assert_eq!(watchdog.observe(Tick::Reasserted), Cadence::Unchanged);
        for _ in 0..3 {
            assert_eq!(watchdog.observe(Tick::Clean), Cadence::Unchanged);
        }
        assert_eq!(watchdog, Watchdog::new());
    }
}
