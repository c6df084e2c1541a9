use dnsrivet::wire::{
    adjust_ttls, cache_ttl, is_multi_question_query, parse_query_meta, parse_rr, questions_end,
    read_name, read_u32, truncate_to, udp_payload_size, validate_response, ResponseError, TYPE_SOA,
};

fn question(id: u16, with_opt: bool) -> Vec<u8> {
    let mut message = Vec::from(id.to_be_bytes());
    message.extend_from_slice(&[0x01, 0x00, 0x00, 0x01, 0, 0, 0, 0, 0, u8::from(with_opt)]);
    message.extend_from_slice(&[7, b'E', b'x', b'A', b'm', b'P', b'l', b'E']);
    message.extend_from_slice(&[3, b'C', b'O', b'M', 0, 0, 1, 0, 1]);
    if with_opt {
        message.extend_from_slice(&[0, 0, 41, 0x10, 0, 0, 0, 0x80, 0, 0, 0]);
    }
    message
}

fn positive_response(id: u16, ttl: u32, with_opt: bool) -> Vec<u8> {
    let mut message = question(id, false);
    message[2] = 0x81;
    message[3] = 0x80;
    message[6..8].copy_from_slice(&1u16.to_be_bytes());
    message[10..12].copy_from_slice(&u16::from(with_opt).to_be_bytes());
    message.extend_from_slice(&[0xc0, 0x0c, 0, 1, 0, 1]);
    message.extend_from_slice(&ttl.to_be_bytes());
    message.extend_from_slice(&[0, 4, 1, 2, 3, 4]);
    if with_opt {
        message.extend_from_slice(&[0, 0, 41, 0x10, 0, 0, 0, 0x80, 0, 0, 0]);
    }
    message
}

fn negative_response(soa_ttl: u32, minimum: u32) -> Vec<u8> {
    let mut message = question(1, false);
    message[2] = 0x81;
    message[3] = 0x83;
    message[8..10].copy_from_slice(&1u16.to_be_bytes());
    message.extend_from_slice(&[0xc0, 0x0c, 0, TYPE_SOA as u8, 0, 1]);
    message.extend_from_slice(&soa_ttl.to_be_bytes());
    message.extend_from_slice(&24u16.to_be_bytes());
    message.extend_from_slice(&[0xc0, 0x0c, 0xc0, 0x0c]);
    message.extend_from_slice(&1u32.to_be_bytes());
    message.extend_from_slice(&2u32.to_be_bytes());
    message.extend_from_slice(&3u32.to_be_bytes());
    message.extend_from_slice(&4u32.to_be_bytes());
    message.extend_from_slice(&minimum.to_be_bytes());
    message
}

#[test]
fn parses_query_key_edns_size_and_do() {
    let meta = parse_query_meta(&question(0x1234, true)).unwrap();
    assert_eq!(meta.qname, b"\x07example\x03com\0");
    assert_eq!(meta.qtype, 1);
    assert_eq!(meta.qclass, 1);
    assert_eq!(meta.udp_size, 4096);
    assert!(meta.do_bit);
}

#[test]
fn bypasses_non_recursive_and_edns_option_queries() {
    let mut no_rd = question(1, false);
    no_rd[2] = 0;
    assert!(parse_query_meta(&no_rd).is_none());

    let mut option = question(1, true);
    *option.last_mut().unwrap() = 1;
    option.push(0);
    assert!(parse_query_meta(&option).is_none());
    assert_eq!(udp_payload_size(&option), 4096);
}

#[test]
fn ages_record_ttls_but_not_opt_flags() {
    let mut response = positive_response(1, 120, true);
    assert!(adjust_ttls(&mut response, 20));
    let answer_ttl = questions_end(&response).unwrap() + 6;
    assert_eq!(read_u32(&response, answer_ttl), Some(100));
    let opt = parse_rr(&response, questions_end(&response).unwrap() + 16).unwrap();
    assert_eq!(read_u32(&response, opt.ttl_offset), Some(0x8000));
}

#[test]
fn chooses_positive_ttl_and_truncates_at_question() {
    let mut response = positive_response(1, 120, false);
    assert_eq!(cache_ttl(&response, 1), Some(120));
    let question_end = questions_end(&response).unwrap();
    truncate_to(&mut response, question_end);
    assert_eq!(response.len(), question_end);
    assert_ne!(response[2] & 0x02, 0);
    assert_eq!(&response[6..12], &[0; 6]);
}

#[test]
fn clamps_rfc2308_negative_ttl() {
    assert_eq!(cache_ttl(&negative_response(30, 15), 1), Some(60));
    assert_eq!(cache_ttl(&negative_response(1200, 900), 1), Some(600));
}

#[test]
fn negative_ttl_is_the_smaller_of_ttl_and_minimum() {
    assert_eq!(cache_ttl(&negative_response(300, 120), 1), Some(120));
    assert_eq!(cache_ttl(&negative_response(120, 300), 1), Some(120));
}

#[test]
fn positive_ttl_is_capped_at_one_day_and_zero_is_not_cached() {
    assert_eq!(cache_ttl(&positive_response(1, 100_000, false), 1), Some(86_400));
    assert_eq!(cache_ttl(&positive_response(1, 0, false), 1), None);
    let mut servfail = positive_response(1, 60, false);
    servfail[3] = 0x82;
    assert_eq!(cache_ttl(&servfail, 1), None);
    let mut truncated = positive_response(1, 60, false);
    truncated[2] |= 0x02;
    assert_eq!(cache_ttl(&truncated, 1), None);
}

#[test]
fn aging_stops_at_zero() {
    let mut response = positive_response(1, 120, false);
    assert!(adjust_ttls(&mut response, u64::MAX));
    let answer_ttl = questions_end(&response).unwrap() + 6;
    assert_eq!(read_u32(&response, answer_ttl), Some(0));
}

#[test]
fn aging_reports_broken_messages() {
    let mut short = vec![0u8; 11];
    assert!(!adjust_ttls(&mut short, 1));
    let mut trailing = positive_response(1, 120, false);
    trailing.push(0);
    assert!(!adjust_ttls(&mut trailing, 1));
    let mut cut = positive_response(1, 120, false);
    cut.pop();
    assert!(!adjust_ttls(&mut cut, 1));
}

#[test]
fn truncates_to_the_header_when_the_question_does_not_fit() {
    let mut response = positive_response(0xabcd, 120, false);
    truncate_to(&mut response, 20);
    assert_eq!(response, [0xab, 0xcd, 0x83, 0x80, 0, 0, 0, 0, 0, 0, 0, 0]);
    let whole = positive_response(1, 120, false);
    let mut fits = whole.clone();
    truncate_to(&mut fits, whole.len());
    assert_eq!(fits, whole);
}

#[test]
fn reads_compressed_names_and_gives_up_on_loops() {
    let response = positive_response(1, 120, false);
    let (name, end) = read_name(&response, 29).unwrap();
    assert_eq!(name, b"\x07example\x03com\0");
    assert_eq!(end, 31);
    let looped = [0xc0u8, 0x00];
    assert!(read_name(&looped, 0).is_none());
    let reserved = [0x40u8, 0];
    assert!(read_name(&reserved, 0).is_none());
}

#[test]
fn detects_multi_question_queries() {
    let mut query = question(1, false);
    assert!(!is_multi_question_query(&query));
    query[5] = 2;
    assert!(is_multi_question_query(&query));
    assert!(parse_query_meta(&query).is_none());
    query[2] |= 0x80;
    assert!(!is_multi_question_query(&query));
    assert!(!is_multi_question_query(&query[..11]));
}

#[test]
fn responses_must_echo_the_question() {
    let query = question(1, true);
    let response = positive_response(7, 60, false);
    assert_eq!(validate_response(&query, &response), Ok(()));

    let mut other_case = response.clone();
    other_case[13] = b'e';
    assert_eq!(validate_response(&query, &other_case), Ok(()));

    let mut other_name = response.clone();
    other_name[13] = b'y';
    assert_eq!(
        validate_response(&query, &other_name),
        Err(ResponseError::QuestionMismatch)
    );

    let mut other_type = response.clone();
    other_type[26] = 28;
    assert_eq!(
        validate_response(&query, &other_type),
        Err(ResponseError::QuestionMismatch)
    );

    assert_eq!(validate_response(&query, &query), Err(ResponseError::NotAResponse));
    assert_eq!(
        validate_response(&query, &response[..11]),
        Err(ResponseError::NotAResponse)
    );
}

#[test]
fn aging_in_two_steps_is_aging_once() {
    let mut twice = positive_response(1, 120, true);
    let mut once = twice.clone();
    assert!(adjust_ttls(&mut twice, 20));
    assert!(adjust_ttls(&mut twice, 30));
    assert!(adjust_ttls(&mut once, 50));
    assert_eq!(twice, once);
    assert!(adjust_ttls(&mut twice, 60));
    assert!(adjust_ttls(&mut twice, 60));
    assert!(adjust_ttls(&mut once, 120));
    assert_eq!(twice, once);
}

#[test]
fn no_time_leaves_a_message_as_it_is() {
    let fresh = positive_response(1, 0x0102_0304, true);
    let mut same = fresh.clone();
    assert!(adjust_ttls(&mut same, 0));
    assert_eq!(same, fresh);
    let mut longer = fresh.clone();
    longer.push(0);
    let before = longer.clone();
    assert!(!adjust_ttls(&mut longer, 0));
    assert_eq!(longer, before);
    assert_eq!(cache_ttl(&longer, 1), None);
    assert_eq!(cache_ttl(&fresh, 1), Some(86_400));
}

#[test]
fn queries_are_told_apart_neither_by_id_nor_by_case() {
    let query = question(0x1234, true);
    let mut other = question(0x4321, true);
    for byte in &mut other[13..20] {
        *byte = byte.to_ascii_uppercase();
    }
    assert_ne!(query, other);
    assert_eq!(parse_query_meta(&query), parse_query_meta(&other));
    other[14] = b'z';
    assert_ne!(parse_query_meta(&query), parse_query_meta(&other));
}
