use dnsrivet::cache::{Cache, NANOS_PER_SEC};
use dnsrivet::wire::parse_query_meta;

fn named_query(id: u16, name: u8) -> Vec<u8> {
    let mut message = Vec::from(id.to_be_bytes());
    message.extend_from_slice(&[0x01, 0x00, 0, 1, 0, 0, 0, 0, 0, 0]);
    message.extend_from_slice(&[1, name, 0, 0, 1, 0, 1]);
    message
}

fn query(id: u16) -> Vec<u8> {
    named_query(id, b'a')
}

fn named_response(id: u16, name: u8, ttl: u32) -> Vec<u8> {
    let mut message = named_query(id, name);
    message[2] = 0x81;
    message[3] = 0x80;
    message[6..8].copy_from_slice(&1u16.to_be_bytes());
    message.extend_from_slice(&[0xc0, 0x0c, 0, 1, 0, 1]);
    message.extend_from_slice(&ttl.to_be_bytes());
    message.extend_from_slice(&[0, 4, 1, 1, 1, 1]);
    message
}

fn response(id: u16, ttl: u32) -> Vec<u8> {
    named_response(id, b'a', ttl)
}

#[test]
fn restores_each_clients_id() {
    let mut cache = Cache::new(true, 2);
    let first = query(1);
    let meta = parse_query_meta(&first).unwrap();
    cache.insert(&meta, &response(1, 60), 0);
    let got = cache.get(&meta, 0xabcdu16.to_be_bytes(), 0).unwrap();
    assert_eq!(&got[..2], &0xabcdu16.to_be_bytes());
}

#[test]
fn disabled_cache_is_a_noop() {
    let mut cache = Cache::new(false, 2);
    let query = query(1);
    let meta = parse_query_meta(&query).unwrap();
    cache.insert(&meta, &response(1, 60), 0);
    assert!(cache.get(&meta, [0, 1], 0).is_none());
}

#[test]
fn expired_entries_are_removed() {
    let mut cache = Cache::new(true, 2);
    let query = query(1);
    let meta = parse_query_meta(&query).unwrap();
    cache.insert(&meta, &response(1, 60), 0);
    assert!(cache.get(&meta, [0, 1], 62 * NANOS_PER_SEC).is_none());
    // Gone, not merely stale: even an earlier time does not bring it back.
    assert!(cache.get(&meta, [0, 1], 0).is_none());
}

#[test]
fn answers_age_by_whole_seconds() {
    let mut cache = Cache::new(true, 2);
    let meta = parse_query_meta(&query(1)).unwrap();
    cache.insert(&meta, &response(1, 60), 5 * NANOS_PER_SEC);
    let got = cache
        .get(&meta, [9, 9], 25 * NANOS_PER_SEC + NANOS_PER_SEC - 1)
        .unwrap();
    let mut expected = response(1, 40);
    expected[..2].copy_from_slice(&[9, 9]);
    assert_eq!(got, expected);
}

#[test]
fn names_are_found_without_regard_to_case() {
    let mut cache = Cache::new(true, 2);
    let meta = parse_query_meta(&query(1)).unwrap();
    cache.insert(&meta, &response(1, 60), 0);
    let upper = parse_query_meta(&named_query(3, b'A')).unwrap();
    assert!(cache.get(&upper, [0, 3], 0).is_some());
    let other = parse_query_meta(&named_query(3, b'b')).unwrap();
    assert!(cache.get(&other, [0, 3], 0).is_none());
}

#[test]
fn a_full_cache_gives_up_the_least_recently_used() {
    let mut cache = Cache::new(true, 2);
    let a = parse_query_meta(&named_query(1, b'a')).unwrap();
    let b = parse_query_meta(&named_query(1, b'b')).unwrap();
    let c = parse_query_meta(&named_query(1, b'c')).unwrap();
    cache.insert(&a, &named_response(1, b'a', 60), 0);
    cache.insert(&b, &named_response(1, b'b', 60), 0);
    assert!(cache.get(&a, [0, 1], 0).is_some());
    cache.insert(&c, &named_response(1, b'c', 60), 0);
    assert!(cache.get(&a, [0, 1], 0).is_some());
    assert!(cache.get(&b, [0, 1], 0).is_none());
    assert!(cache.get(&c, [0, 1], 0).is_some());
}

#[test]
fn a_capacity_of_zero_still_holds_one_entry() {
    let mut cache = Cache::new(true, 0);
    let meta = parse_query_meta(&query(1)).unwrap();
    cache.insert(&meta, &response(1, 60), 0);
    assert!(cache.get(&meta, [0, 1], 0).is_some());
}

#[test]
fn a_newer_response_replaces_the_older_one() {
    let mut cache = Cache::new(true, 2);
    let meta = parse_query_meta(&query(1)).unwrap();
    cache.insert(&meta, &response(1, 60), 0);
    cache.insert(&meta, &response(1, 30), 0);
    let mut expected = response(1, 30);
    expected[..2].copy_from_slice(&[0, 1]);
    assert_eq!(cache.get(&meta, [0, 1], 0).unwrap(), expected);
}

#[test]
fn uncacheable_responses_are_not_kept() {
    let mut cache = Cache::new(true, 2);
    let meta = parse_query_meta(&query(1)).unwrap();
    cache.insert(&meta, &response(1, 0), 0);
    assert!(cache.get(&meta, [0, 1], 0).is_none());
}
