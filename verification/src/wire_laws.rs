//! What the fields of a message mean, said of its bytes.

use crate::aging::fills_exactly;
use crate::wire::{
    aged, be16, cache_ttl_of, first_opt_size, law_aging, lemma_name_end,
    lemma_questions_from_bounds, lemma_record_layout, lemma_records_chain, lemma_records_len,
    min_soa, min_ttl, name_at, name_from, names_avoid_ttls, older, payload_size, query_meta,
    question_list, questions_end_of, questions_from, questions_of, record_at, record_start,
    record_total, records_from, response_check, soa_minimum_of, truncated, Record, MAX_JUMPS,
    MAX_NAME_LEN,
};
use vstd::prelude::*;

verus! {

// ---------- names ----------

/// Whether `w` is a whole name as it goes over the wire: labels of 1 to 63 bytes
/// behind their lengths, and a zero at the end.
pub open spec fn is_wire_name(w: Seq<u8>) -> bool
    decreases w.len(),
{
    if w.len() == 0 {
        false
    } else if w[0] == 0 {
        w.len() == 1
    } else {
        w[0] <= 63 && w.len() > 1 + w[0] && is_wire_name(w.skip(1 + w[0]))
    }
}

/// Whether `name` is `w` with its capital letters made small.
pub open spec fn is_small_form(name: Seq<u8>, w: Seq<u8>) -> bool {
    &&& name.len() == w.len()
    &&& forall|i: int|
        0 <= i < w.len() ==> #[trigger] name[i] == if 65 <= w[i] <= 90 {
            w[i] + 32
        } else {
            w[i] as int
        }
}

proof fn lemma_plain_name(m: Seq<u8>, cursor: int, jumps: nat, taken: nat, w: Seq<u8>)
    requires
        is_wire_name(w),
        0 <= cursor,
        cursor + w.len() <= m.len(),
        m.subrange(cursor, cursor + w.len()) == w,
        jumps <= 128,
        taken + w.len() <= 255,
    ensures
        name_from(m, cursor, jumps, taken) matches Some((name, end)) && is_small_form(name, w)
            && end == cursor + w.len(),
    decreases w.len(),
{
    assert(m[cursor] == w[0]) by {
        assert(m.subrange(cursor, cursor + w.len())[0] == m[cursor]);
    }
    if w[0] != 0 {
        let len = w[0] as int;
        let rest = w.skip(1 + len);
        let next = cursor + 1 + len;
        assert(m.subrange(next, next + rest.len()) =~= rest) by {
            assert forall|i: int| 0 <= i < rest.len() implies m.subrange(
                next,
                next + rest.len(),
            )[i] == rest[i] by {
                assert(m.subrange(cursor, cursor + w.len())[1 + len + i] == w[1 + len + i]);
            }
        }
        lemma_plain_name(m, next, jumps, (taken + 1 + len) as nat, rest);
        let name = (name_from(m, cursor, jumps, taken)->0).0;
        let tail = (name_from(m, next, jumps, (taken + 1 + len) as nat)->0).0;
        assert forall|i: int| 0 <= i < w.len() implies #[trigger] name[i] == if 65 <= w[i] <= 90 {
            w[i] + 32
        } else {
            w[i] as int
        } by {
            if 0 < i <= len {
                assert(m.subrange(cursor, cursor + w.len())[i] == w[i]);
            } else if i > len {
                assert(name[i] == tail[i - 1 - len]);
                assert(rest[i - 1 - len] == w[i]);
            }
        }
    }
}

/// A name that stands in a message whole is read as it stands, with its capital
/// letters made small.
pub proof fn law_plain_names_are_read(m: Seq<u8>, cursor: int, w: Seq<u8>)
    requires
        is_wire_name(w),
        w.len() <= 255,
        0 <= cursor,
        cursor + w.len() <= m.len(),
        m.subrange(cursor, cursor + w.len()) == w,
    ensures
        name_at(m, cursor) matches Some((name, end)) && is_small_form(name, w) && end == cursor
            + w.len(),
{
    lemma_plain_name(m, cursor, 0, 0, w);
}

/// A pointer to a name that stands in a message whole is read as that name; what
/// comes next stands behind the pointer.
pub proof fn law_pointers_are_followed(m: Seq<u8>, cursor: int, w: Seq<u8>)
    requires
        0 <= cursor,
        cursor + 2 <= m.len(),
        m[cursor] >= 192,
        is_wire_name(w),
        w.len() <= 255,
        (m[cursor] - 192) * 256 + m[cursor + 1] + w.len() <= m.len(),
        m.subrange(
            (m[cursor] - 192) * 256 + m[cursor + 1],
            (m[cursor] - 192) * 256 + m[cursor + 1] + w.len(),
        ) == w,
    ensures
        name_at(m, cursor) matches Some((name, end)) && is_small_form(name, w) && end == cursor + 2,
{
    lemma_plain_name(m, (m[cursor] - 192) * 256 + m[cursor + 1], 1, 0, w);
}

/// Whatever is read as a name is one: labels of 1 to 63 bytes and a zero at the
/// end, 255 bytes at most. A byte from 64 to 191 starts no label.
pub proof fn law_names_have_wire_form(m: Seq<u8>, cursor: int)
    ensures
        name_at(m, cursor) matches Some((name, end)) ==> is_wire_name(name) && name.len() <= 255
            && cursor < end <= m.len(),
        0 <= cursor < m.len() && 64 <= m[cursor] < 192 ==> name_at(m, cursor) is None,
{
    lemma_wire_form(m, cursor, 0, 0);
    lemma_name_end(m, cursor, 0, 0);
}

proof fn lemma_wire_form(m: Seq<u8>, cursor: int, jumps: nat, taken: nat)
    ensures
        name_from(m, cursor, jumps, taken) matches Some((name, _)) ==> is_wire_name(name) && taken
            + name.len() <= 255,
    decreases (MAX_JUMPS - jumps) + (MAX_NAME_LEN - taken),
{
    if 0 <= cursor < m.len() && jumps <= MAX_JUMPS && taken < MAX_NAME_LEN {
        if m[cursor] >= 0xc0 {
            if cursor + 1 < m.len() && jumps < MAX_JUMPS {
                lemma_wire_form(m, (m[cursor] - 0xc0) * 256 + m[cursor + 1], jumps + 1, taken);
            }
        } else if 0 < m[cursor] < 0x40 {
            let len = m[cursor] as int;
            if cursor + 1 + len <= m.len() && taken + 1 + len < MAX_NAME_LEN {
                let more = (taken + 1 + len) as nat;
                lemma_wire_form(m, cursor + 1 + len, jumps, more);
                if let Some((rest, _)) = name_from(m, cursor + 1 + len, jumps, more) {
                    let name = (name_from(m, cursor, jumps, taken)->0).0;
                    assert(name[0] == m[cursor]);
                    assert(name.skip(1 + len) =~= rest);
                }
            }
        }
    }
}

// ---------- records and questions ----------

/// The number that two bytes stand for.
pub open spec fn pair(m: Seq<u8>, i: int) -> int {
    m[i] * 256 + m[i + 1]
}

/// A record is a name, a type, a class, a TTL and as many bytes of data as it
/// says; where those stand in the message, there is one.
pub proof fn law_records_are_read(m: Seq<u8>, offset: int)
    ensures
        record_at(m, offset) matches Some(rr) ==> {
            &&& name_at(m, offset) matches Some((_, at)) && rr.ttl_offset == at + 4
            &&& rr.kind == pair(m, rr.ttl_offset - 4)
            &&& rr.class == pair(m, rr.ttl_offset - 2)
            &&& rr.ttl == pair(m, rr.ttl_offset) * 65536 + pair(m, rr.ttl_offset + 2)
            &&& rr.rdlen == pair(m, rr.ttl_offset + 4)
            &&& rr.rdata_offset == rr.ttl_offset + 6
            &&& rr.end == rr.rdata_offset + rr.rdlen
            &&& rr.end <= m.len()
        },
        name_at(m, offset) matches Some((_, at)) ==> at + 10 <= m.len() && at + 10 + pair(m, at + 8)
            <= m.len() ==> record_at(m, offset) is Some,
{
}

/// Records follow each other without a gap, as many as are asked for.
pub proof fn law_records_follow_each_other(m: Seq<u8>, start: int, n: nat)
    ensures
        records_from(m, start, n) matches Some((rrs, end)) ==> {
            &&& rrs.len() == n
            &&& n == 0 ==> end == start
            &&& n > 0 ==> end == rrs[n - 1].end && record_at(m, start) == Some(rrs[0])
            &&& forall|i: int|
                0 <= i < n - 1 ==> record_at(m, (#[trigger] rrs[i]).end) == Some(rrs[i + 1])
        },
{
    if records_from(m, start, n) is Some {
        lemma_records_chain(m, start, n);
        let (rrs, end) = records_from(m, start, n)->0;
        assert(record_start(rrs, start, 0) == start);
        assert forall|i: int| 0 <= i < n - 1 implies record_at(m, (#[trigger] rrs[i]).end) == Some(
            rrs[i + 1],
        ) by {
            assert(record_start(rrs, start, i + 1) == rrs[i].end);
            assert(record_at(m, record_start(rrs, start, i + 1)) == Some(rrs[i + 1]));
        }
        if n > 0 {
            assert(record_at(m, record_start(rrs, start, 0)) == Some(rrs[0]));
        }
    }
}

/// A question section holds as many questions as the header says, and the first
/// is the name, the type and the class behind the header.
pub proof fn law_questions_are_read(m: Seq<u8>)
    ensures
        questions_of(m) matches Some(list) ==> {
            &&& m.len() >= 12
            &&& list.len() == pair(m, 4)
            &&& list.len() > 0 ==> {
                &&& name_at(m, 12) matches Some((name, at)) && list[0].0 == name && list[0].1
                    == pair(m, at) && list[0].2 == pair(m, at + 2)
            }
        },
        m.len() >= 12 && pair(m, 4) == 1 ==> (name_at(m, 12) matches Some((_, at)) ==> at + 4
            <= m.len() ==> questions_of(m) is Some),
{
    reveal_with_fuel(question_list, 2);
    if m.len() >= 12 {
        lemma_question_count(m, 12, be16(m, 4) as nat);
    }
}

proof fn lemma_question_count(m: Seq<u8>, offset: int, n: nat)
    ensures
        question_list(m, offset, n) matches Some(list) ==> list.len() == n,
    decreases n,
{
    if n > 0 {
        if let Some((_, at)) = name_at(m, offset) {
            lemma_question_count(m, at + 4, (n - 1) as nat);
        }
    }
}

/// A response that is taken for the answer to a query has its QR bit set and
/// holds the same questions; and one that does is taken for it.
pub proof fn law_answers_echo_the_question(query: Seq<u8>, response: Seq<u8>)
    ensures
        response_check(query, response) is Ok <==> {
            &&& response.len() >= 12
            &&& response[2] >= 128
            &&& questions_of(query) is Some
            &&& questions_of(response) == questions_of(query)
        },
        response_check(query, response) is Ok ==> pair(response, 4) == pair(query, 4),
{
    if response.len() >= 12 {
        let flags = response[2];
        assert(flags & 0x80 == 0 <==> flags < 128) by (bit_vector);
    }
    law_questions_are_read(query);
    law_questions_are_read(response);
}

// ---------- cache metadata ----------

/// The bits of the second header word that decide whether a query is ordinary.
proof fn lemma_flags(a: u8, b: u8)
    ensures
        ((a * 256 + b) as u16) & 0x8000 == 0 <==> a < 128,
        ((a * 256 + b) as u16) & 0x7800 == 0 <==> (a / 8) % 16 == 0,
        ((a * 256 + b) as u16) & 0x0100 != 0 <==> a % 2 == 1,
{
    let v = (a * 256 + b) as u16;
    assert(v & 0x8000 == 0 <==> v / 0x8000 == 0) by (bit_vector);
    assert(v & 0x7800 == 0 <==> (v / 0x800) % 16 == 0) by (bit_vector);
    assert(v & 0x0100 != 0 <==> (v / 0x100) % 2 == 1) by (bit_vector);
}

/// An ordinary query: opcode QUERY, no response, recursion desired, one question
/// with its type and class.
pub open spec fn is_ordinary(m: Seq<u8>) -> bool {
    &&& m.len() >= 12
    &&& m[2] < 128
    &&& (m[2] / 8) % 16 == 0
    &&& m[2] % 2 == 1
    &&& pair(m, 4) == 1
    &&& name_at(m, 12) matches Some((_, at)) && at + 4 <= m.len()
}

/// Whether `size` is what a client takes that advertises `class`: that very size,
/// but never less than 512 nor more than 4096.
pub open spec fn is_payload(size: int, class: u16) -> bool {
    &&& 512 <= class <= 4096 ==> size == class
    &&& class < 512 ==> size == 512
    &&& class > 4096 ==> size == 4096
}

/// Whether a record is an OPT record without options and of version 0 that ends
/// the message.
pub open spec fn is_last_plain_opt(m: Seq<u8>, rr: Record) -> bool {
    rr.kind == 41 && rr.rdlen == 0 && m[rr.ttl_offset + 1] == 0 && rr.end == m.len()
}

/// The metadata of a query is its name, type and class, the AD and CD bits, and,
/// of its OPT record, the DO bit and the advertised payload size; without an OPT
/// record that is 512. Exactly the ordinary queries have it that hold nothing
/// behind their records but at most one plain OPT record.
pub proof fn law_metadata_is_what_the_query_says(m: Seq<u8>)
    ensures
        query_meta(m) matches Some(meta) ==> {
            &&& is_ordinary(m)
            &&& name_at(m, 12) matches Some((name, at)) && meta.qname == name && meta.qtype == pair(
                m,
                at,
            ) && meta.qclass == pair(m, at + 2)
            &&& meta.dnssec_header_bits == (m[3] / 32) % 2 * 32 + (m[3] / 16) % 2 * 16
            &&& pair(m, 10) == 0 ==> meta.udp_size == 512 && !meta.do_bit
            &&& pair(m, 10) <= 1
            &&& pair(m, 10) == 1 ==> (opt_of(m) matches Some(rr) && is_last_plain_opt(m, rr)
                && is_payload(meta.udp_size, rr.class) && meta.do_bit == (m[rr.ttl_offset + 2]
                >= 128))
        },
        is_ordinary(m) && pair(m, 10) == 0 && opt_place(m) == Some(m.len() as int) ==> query_meta(m)
            is Some,
        is_ordinary(m) && pair(m, 10) == 1 && (opt_of(m) matches Some(rr) && is_last_plain_opt(
            m,
            rr,
        )) ==> query_meta(m) is Some,
{
    if m.len() >= 12 {
        lemma_flags(m[2], m[3]);
        let bits = m[3];
        assert((bits & 0x30) == (bits / 32) % 2 * 32 + (bits / 16) % 2 * 16) by (bit_vector);
        if let Some(rr) = opt_of(m) {
            lemma_record_layout(m, opt_place(m)->0);
            let ttl = rr.ttl;
            assert(ttl & 0x8000 != 0 <==> (ttl / 0x8000) % 2 == 1) by (bit_vector);
            let i = rr.ttl_offset;
            assert(ttl == m[i] * 0x100_0000 + m[i + 1] * 0x1_0000 + m[i + 2] * 0x100 + m[i + 3]);
            assert((ttl / 0x8000) % 2 == 1 <==> m[i + 2] >= 128);
        }
    }
}

/// Where the additional records of a query with one question begin.
pub open spec fn opt_place(m: Seq<u8>) -> Option<int> {
    match name_at(m, 12) {
        Some((_, at)) => match records_from(m, at + 4, (pair(m, 6) + pair(m, 8)) as nat) {
            Some((_, extra)) => Some(extra),
            None => None,
        },
        None => None,
    }
}

/// The first additional record of a query with one question.
pub open spec fn opt_of(m: Seq<u8>) -> Option<Record> {
    match opt_place(m) {
        Some(extra) => record_at(m, extra),
        None => None,
    }
}

/// The payload size that a client takes is the one its first OPT record
/// advertises, held to 512..=4096; a client without an OPT record takes 512.
pub proof fn law_payload_size_is_advertised(m: Seq<u8>, start: int, extra: int, j: nat)
    requires
        m.len() >= 12,
        questions_end_of(m) == Some(start),
        records_from(m, start, (pair(m, 6) + pair(m, 8)) as nat) matches Some((_, end)) && end
            == extra,
        j <= pair(m, 10),
        records_from(m, extra, j) is Some,
        forall|i: int|
            0 <= i < j ==> (#[trigger] (records_from(m, extra, j)->0).0[i]).kind != 41,
    ensures
        j == pair(m, 10) ==> payload_size(m) == 512,
        j < pair(m, 10) ==> (record_at(m, (records_from(m, extra, j)->0).1) matches Some(rr)
            ==> rr.kind == 41 ==> is_payload(payload_size(m), rr.class)),
        512 <= payload_size(m) <= 4096,
{
    lemma_first_opt(m, extra, pair(m, 10) as nat, j);
    lemma_payload_bounds(m, extra, pair(m, 10) as nat);
}

proof fn lemma_first_opt(m: Seq<u8>, offset: int, n: nat, j: nat)
    requires
        j <= n,
        records_from(m, offset, j) is Some,
        forall|i: int|
            0 <= i < j ==> (#[trigger] (records_from(m, offset, j)->0).0[i]).kind != 41,
    ensures
        first_opt_size(m, offset, n) == first_opt_size(
            m,
            (records_from(m, offset, j)->0).1,
            (n - j) as nat,
        ),
    decreases j,
{
    if j > 0 {
        let rrs = (records_from(m, offset, j)->0).0;
        let rr = record_at(m, offset)->0;
        let rest = (records_from(m, rr.end, (j - 1) as nat)->0).0;
        assert(rrs == seq![rr] + rest);
        assert(rrs[0] == rr);
        lemma_records_len(m, rr.end, (j - 1) as nat);
        assert forall|i: int| 0 <= i < j - 1 implies (#[trigger] rest[i]).kind != 41 by {
            assert(rrs[i + 1] == rest[i]);
        }
        lemma_first_opt(m, rr.end, (n - 1) as nat, (j - 1) as nat);
    }
}

proof fn lemma_payload_bounds(m: Seq<u8>, offset: int, n: nat)
    ensures
        512 <= first_opt_size(m, offset, n) <= 4096,
    decreases n,
{
    if n > 0 {
        if let Some(rr) = record_at(m, offset) {
            lemma_payload_bounds(m, rr.end, (n - 1) as nat);
        }
    }
}

// ---------- how long a response is kept ----------

proof fn lemma_min_ttl(rrs: Seq<Record>)
    ensures
        min_ttl(rrs) is None <==> rrs.len() == 0,
        min_ttl(rrs) matches Some(v) ==> forall|i: int|
            0 <= i < rrs.len() ==> v <= (#[trigger] rrs[i]).ttl,
        min_ttl(rrs) matches Some(v) ==> exists|i: int|
            0 <= i < rrs.len() && (#[trigger] rrs[i]).ttl == v,
    decreases rrs.len(),
{
    if rrs.len() > 0 {
        let shorter = rrs.drop_last();
        lemma_min_ttl(shorter);
        let v = min_ttl(rrs)->0;
        assert forall|i: int| 0 <= i < rrs.len() implies v <= (#[trigger] rrs[i]).ttl by {
            if i < shorter.len() {
                assert(shorter[i] == rrs[i]);
            }
        }
        if v == rrs.last().ttl {
            assert(rrs[rrs.len() - 1].ttl == v);
        } else {
            let i = choose|i: int| 0 <= i < shorter.len() && (#[trigger] shorter[i]).ttl == v;
            assert(rrs[i].ttl == v);
        }
    }
}

/// What an SOA record allows: the smaller of its TTL and its MINIMUM.
pub open spec fn soa_allows(m: Seq<u8>, rr: Record) -> int {
    match soa_minimum_of(m, rr) {
        Some(minimum) => if minimum < rr.ttl {
            minimum as int
        } else {
            rr.ttl as int
        },
        None => 0,
    }
}

proof fn lemma_min_soa(m: Seq<u8>, rrs: Seq<Record>)
    requires
        forall|i: int|
            0 <= i < rrs.len() && (#[trigger] rrs[i]).kind == 6 ==> soa_minimum_of(m, rrs[i])
                is Some,
    ensures
        min_soa(m, rrs) is None <==> forall|i: int|
            0 <= i < rrs.len() ==> (#[trigger] rrs[i]).kind != 6,
        min_soa(m, rrs) matches Some(v) ==> forall|i: int|
            0 <= i < rrs.len() && (#[trigger] rrs[i]).kind == 6 ==> v <= soa_allows(m, rrs[i]),
        min_soa(m, rrs) matches Some(v) ==> exists|i: int|
            0 <= i < rrs.len() && (#[trigger] rrs[i]).kind == 6 && soa_allows(m, rrs[i]) == v,
    decreases rrs.len(),
{
    if rrs.len() > 0 {
        let shorter = rrs.drop_last();
        let last = rrs.last();
        assert(rrs[rrs.len() - 1] == last);
        assert forall|i: int| 0 <= i < shorter.len() && (#[trigger] shorter[i]).kind == 6 implies
            soa_minimum_of(m, shorter[i]) is Some by {
            assert(rrs[i] == shorter[i]);
        }
        lemma_min_soa(m, shorter);
        assert forall|i: int| 0 <= i < shorter.len() implies #[trigger] rrs[i] == shorter[i] by {}
        if let Some(v) = min_soa(m, rrs) {
            if last.kind == 6 && soa_allows(m, last) == v {
            } else {
                let i = choose|i: int|
                    0 <= i < shorter.len() && (#[trigger] shorter[i]).kind == 6 && soa_allows(
                        m,
                        shorter[i],
                    ) == min_soa(m, shorter)->0;
                assert(rrs[i].kind == 6 && soa_allows(m, rrs[i]) == v);
            }
        } else if last.kind != 6 {
            assert(min_soa(m, shorter) is None);
        }
    }
}

/// The answer and authority records of a message, where all of it can be read.
pub open spec fn kept_records(m: Seq<u8>) -> Seq<Record> {
    match questions_end_of(m) {
        Some(start) => match records_from(
            m,
            start,
            (pair(m, 6) + pair(m, 8) + pair(m, 10)) as nat,
        ) {
            Some((rrs, _)) => rrs.take(pair(m, 6) + pair(m, 8)),
            None => Seq::empty(),
        },
        None => Seq::empty(),
    }
}

/// Whether some answer has the type that was asked for.
pub open spec fn answers_type(m: Seq<u8>, kind: u16) -> bool {
    exists|i: int| 0 <= i < pair(m, 6) && (#[trigger] kept_records(m)[i]).kind == kind
}

/// Whether the record `i` is an SOA record of the authority section.
pub open spec fn is_soa(m: Seq<u8>, i: int) -> bool {
    pair(m, 6) <= i < pair(m, 6) + pair(m, 8) && kept_records(m)[i].kind == 6
}

/// Whether a response says that there is nothing: NXDOMAIN, or an SOA record in
/// place of an answer of the type that was asked for.
pub open spec fn is_negative(m: Seq<u8>, query_type: u16) -> bool {
    m[3] % 16 == 3 || (exists|i: int| #[trigger] is_soa(m, i)) && !answers_type(m, query_type)
}

/// What may be cached at all: an untruncated response with NOERROR or NXDOMAIN
/// that its questions and records fill.
pub proof fn law_only_final_responses_are_kept(m: Seq<u8>, query_type: u16)
    requires
        cache_ttl_of(m, query_type) is Some,
    ensures
        m.len() >= 12,
        m[2] >= 128,
        (m[2] / 2) % 2 == 0,
        m[3] % 16 == 0 || m[3] % 16 == 3,
        fills_exactly(m),
        kept_records(m).len() == pair(m, 6) + pair(m, 8),
        kept_records(m).len() > 0,
{
    lemma_final(m);
    let start = questions_end_of(m)->0;
    let n = (pair(m, 6) + pair(m, 8) + pair(m, 10)) as nat;
    lemma_records_len(m, start, n);
    let rrs = (records_from(m, start, n)->0).0;
    let an = pair(m, 6);
    let ns = pair(m, 8);
    assert(rrs.subrange(0, an) + rrs.subrange(an, an + ns) =~= rrs.take(an + ns));
    lemma_min_ttl(rrs.take(an + ns));
}

proof fn lemma_final(m: Seq<u8>)
    requires
        m.len() >= 12,
    ensures
        m[2] & 0x80 != 0 <==> m[2] >= 128,
        m[2] & 0x02 == 0 <==> (m[2] / 2) % 2 == 0,
        m[3] & 0x0f == m[3] % 16,
{
    let a = m[2];
    let b = m[3];
    assert(a & 0x80 != 0 <==> a >= 128) by (bit_vector);
    assert(a & 0x02 == 0 <==> (a / 2) % 2 == 0) by (bit_vector);
    assert(b & 0x0f == b % 16) by (bit_vector);
}

/// The parts of `cache_ttl_of`, said of the records of the message.
proof fn lemma_parts(m: Seq<u8>, query_type: u16)
    requires
        m.len() >= 12,
        fills_exactly(m),
    ensures
        ({
            let all = kept_records(m);
            let an = pair(m, 6);
            let ns = pair(m, 8);
            let rrs = (records_from(
                m,
                questions_end_of(m)->0,
                (an + ns + pair(m, 10)) as nat,
            )->0).0;
            let answers = rrs.subrange(0, an);
            let authorities = rrs.subrange(an, an + ns);
            &&& all.len() == an + ns
            &&& answers.len() == an
            &&& authorities.len() == ns
            &&& answers + authorities == all
            &&& forall|i: int| 0 <= i < an ==> #[trigger] answers[i] == all[i]
            &&& forall|i: int| 0 <= i < ns ==> #[trigger] authorities[i] == all[an + i]
            &&& crate::wire::has_kind(answers, query_type) == answers_type(m, query_type)
        }),
{
    let an = pair(m, 6);
    let ns = pair(m, 8);
    let n = (an + ns + pair(m, 10)) as nat;
    lemma_records_len(m, questions_end_of(m)->0, n);
    let rrs = (records_from(m, questions_end_of(m)->0, n)->0).0;
    let answers = rrs.subrange(0, an);
    let authorities = rrs.subrange(an, an + ns);
    let all = kept_records(m);
    assert(answers + authorities =~= all);
    assert(forall|i: int| 0 <= i < an ==> #[trigger] answers[i] == all[i]);
    assert(forall|i: int| 0 <= i < ns ==> #[trigger] authorities[i] == all[an + i]);
    if crate::wire::has_kind(answers, query_type) {
        let i = choose|i: int| 0 <= i < answers.len() && (#[trigger] answers[i]).kind == query_type;
        assert(all[i].kind == query_type);
    }
    if answers_type(m, query_type) {
        let i = choose|i: int| 0 <= i < an && (#[trigger] all[i]).kind == query_type;
        assert(answers[i].kind == query_type);
    }
}

/// Whether every SOA record of the authority section has a readable MINIMUM.
pub open spec fn soas_are_whole(m: Seq<u8>) -> bool {
    forall|i: int| #[trigger] is_soa(m, i) ==> soa_minimum_of(m, kept_records(m)[i]) is Some
}

/// A positive response is kept no longer than any of its answer and authority
/// records allows, and not longer than a day: for the smallest TTL among them, or
/// a day where that is longer. It is not kept at all where a TTL is 0.
pub proof fn law_positive_responses_keep_to_every_ttl(m: Seq<u8>, query_type: u16)
    requires
        m.len() >= 12,
        !is_negative(m, query_type),
    ensures
        cache_ttl_of(m, query_type) matches Some(ttl) ==> {
            &&& 0 < ttl <= 86_400
            &&& forall|i: int|
                0 <= i < kept_records(m).len() ==> ttl <= (#[trigger] kept_records(m)[i]).ttl
            &&& ttl == 86_400 || exists|i: int|
                0 <= i < kept_records(m).len() && (#[trigger] kept_records(m)[i]).ttl == ttl
        },
        m[2] >= 128 && (m[2] / 2) % 2 == 0 && m[3] % 16 == 0 && fills_exactly(m) && soas_are_whole(
            m,
        ) && kept_records(m).len() > 0 && (forall|i: int|
            0 <= i < kept_records(m).len() ==> (#[trigger] kept_records(m)[i]).ttl > 0)
            ==> cache_ttl_of(m, query_type) is Some,
{
    lemma_final(m);
    if fills_exactly(m) {
        lemma_parts(m, query_type);
        lemma_authority(m);
        lemma_min_ttl(kept_records(m));
        if let Some(v) = min_ttl(kept_records(m)) {
            let i = choose|i: int|
                0 <= i < kept_records(m).len() && (#[trigger] kept_records(m)[i]).ttl == v;
            assert(kept_records(m)[i].ttl == v);
        }
    }
}

/// The SOA records of the authority section, said of the records of the message.
proof fn lemma_authority(m: Seq<u8>)
    requires
        m.len() >= 12,
        fills_exactly(m),
    ensures
        ({
            let an = pair(m, 6);
            let ns = pair(m, 8);
            let rrs = (records_from(
                m,
                questions_end_of(m)->0,
                (an + ns + pair(m, 10)) as nat,
            )->0).0;
            let authorities = rrs.subrange(an, an + ns);
            &&& crate::wire::soas_complete(m, authorities) == soas_are_whole(m)
            &&& soas_are_whole(m) ==> {
                &&& min_soa(m, authorities) is Some <==> exists|i: int| #[trigger] is_soa(m, i)
                &&& min_soa(m, authorities) matches Some(v) ==> {
                    &&& forall|i: int| #[trigger]
                        is_soa(m, i) ==> v <= soa_allows(m, kept_records(m)[i])
                    &&& exists|i: int| #[trigger]
                        is_soa(m, i) && soa_allows(m, kept_records(m)[i]) == v
                }
            }
        }),
{
    lemma_parts(m, 0);
    let an = pair(m, 6);
    let ns = pair(m, 8);
    let rrs = (records_from(m, questions_end_of(m)->0, (an + ns + pair(m, 10)) as nat)->0).0;
    let authorities = rrs.subrange(an, an + ns);
    let all = kept_records(m);
    assert forall|i: int| 0 <= i < ns && (#[trigger] authorities[i]).kind == 6 implies is_soa(
        m,
        an + i,
    ) by {}
    assert forall|i: int| #[trigger] is_soa(m, i) implies authorities[i - an] == all[i]
        && authorities[i - an].kind == 6 by {}
    if soas_are_whole(m) {
        assert forall|i: int| 0 <= i < ns && (#[trigger] authorities[i]).kind == 6 implies
            soa_minimum_of(m, authorities[i]) is Some by {
            assert(is_soa(m, an + i));
        }
        lemma_min_soa(m, authorities);
        if let Some(v) = min_soa(m, authorities) {
            let i = choose|i: int|
                0 <= i < authorities.len() && (#[trigger] authorities[i]).kind == 6 && soa_allows(
                    m,
                    authorities[i],
                ) == v;
            assert(is_soa(m, an + i));
        } else {
            assert forall|i: int| !(#[trigger] is_soa(m, i)) by {
                if is_soa(m, i) {
                    assert(authorities[i - an].kind == 6);
                }
            }
        }
    }
    if crate::wire::soas_complete(m, authorities) {
        assert forall|i: int| #[trigger] is_soa(m, i) implies soa_minimum_of(m, all[i]) is Some by {
            assert(authorities[i - an] == all[i]);
        }
    }
}

/// What a negative response is kept for, where it is kept: between one and ten
/// minutes, and no longer than any of its SOA records allows, or than any record
/// of a CNAME chain in it.
pub proof fn law_negative_responses_keep_to_the_soa(m: Seq<u8>, query_type: u16)
    requires
        m.len() >= 12,
        is_negative(m, query_type),
    ensures
        cache_ttl_of(m, query_type) matches Some(ttl) ==> {
            &&& 60 <= ttl <= 600
            &&& exists|i: int| #[trigger] is_soa(m, i)
            &&& forall|i: int| #[trigger]
                is_soa(m, i) ==> ttl == 60 || ttl <= soa_allows(m, kept_records(m)[i])
            &&& answers_type(m, 5) ==> forall|i: int|
                0 <= i < kept_records(m).len() ==> ttl == 60 || ttl <= (
                #[trigger] kept_records(m)[i]).ttl
            &&& ttl == 600 || (exists|i: int| #[trigger]
                is_soa(m, i) && is_held_to(soa_allows(m, kept_records(m)[i]), ttl as int)) || (
            answers_type(m, 5) && exists|i: int|
                0 <= i < kept_records(m).len() && is_held_to(
                    (#[trigger] kept_records(m)[i]).ttl as int,
                    ttl as int,
                ))
        },
        m[2] >= 128 && (m[2] / 2) % 2 == 0 && (m[3] % 16 == 0 || m[3] % 16 == 3) && fills_exactly(m)
            && soas_are_whole(m) && (exists|i: int| #[trigger] is_soa(m, i)) ==> cache_ttl_of(
            m,
            query_type,
        ) is Some,
{
    lemma_final(m);
    if fills_exactly(m) {
        lemma_parts(m, query_type);
        lemma_parts(m, 5);
        lemma_authority(m);
        let all = kept_records(m);
        lemma_min_ttl(all);
        if soas_are_whole(m) && (exists|i: int| #[trigger] is_soa(m, i)) {
            let s = choose|s: int| #[trigger] is_soa(m, s);
            assert(all.len() > 0);
            let an = pair(m, 6);
            let ns = pair(m, 8);
            let rrs = (records_from(
                m,
                questions_end_of(m)->0,
                (an + ns + pair(m, 10)) as nat,
            )->0).0;
            let v = min_soa(m, rrs.subrange(an, an + ns))->0;
            let i = choose|i: int| #[trigger] is_soa(m, i) && soa_allows(m, all[i]) == v;
            assert(is_soa(m, i));
            let p = min_ttl(all)->0;
            let k = choose|k: int| 0 <= k < all.len() && (#[trigger] all[k]).ttl == p;
            assert(all[k].ttl == p);
        }
    }
}

/// Whether `ttl` is `v`, raised to 60 where it is smaller.
pub open spec fn is_held_to(v: int, ttl: int) -> bool {
    v == ttl || v < 60 && ttl == 60
}

/// The MINIMUM of an SOA record is its last number: two names and four numbers
/// stand before it, and all of that inside its data.
pub proof fn law_soa_minimum_is_the_last_number(m: Seq<u8>, rr: Record)
    ensures
        soa_minimum_of(m, rr) matches Some(minimum) ==> {
            &&& name_at(m, rr.rdata_offset) matches Some((_, a)) && (name_at(m, a) matches Some(
                (_, b),
            ) && b + 20 <= rr.end && minimum == pair(m, b + 16) * 65536 + pair(m, b + 18))
        },
{
}

// ---------- aging ----------

/// Aging takes the seconds that have passed off the TTL of every record but OPT,
/// and stops at 0.
pub proof fn law_aging_takes_off_what_passed(
    m: Seq<u8>,
    start: int,
    n: nat,
    elapsed: int,
    i: int,
)
    requires
        questions_end_of(m) == Some(start),
        record_total(m) == Some(n as int),
        records_from(m, start, n) is Some,
        (records_from(m, start, n)->0).1 == m.len(),
        names_avoid_ttls(m, start, (records_from(m, start, n)->0).0),
        0 <= elapsed,
        0 <= i < n,
    ensures
        aged(m, elapsed).1,
        ({
            let rrs = (records_from(m, start, n)->0).0;
            let rr = record_at(aged(m, elapsed).0, record_start(rrs, start, i))->0;
            &&& record_at(aged(m, elapsed).0, record_start(rrs, start, i)) is Some
            &&& rr.kind == rrs[i].kind
            &&& rr.class == rrs[i].class
            &&& rr.end == rrs[i].end
            &&& rrs[i].kind == 41 ==> rr.ttl == rrs[i].ttl
            &&& rrs[i].kind != 41 && rrs[i].ttl <= elapsed ==> rr.ttl == 0
            &&& rrs[i].kind != 41 && rrs[i].ttl > elapsed ==> rr.ttl + elapsed == rrs[i].ttl
        }),
{
    let rrs = (records_from(m, start, n)->0).0;
    assert(aged(m, elapsed).1 && record_at(aged(m, elapsed).0, record_start(rrs, start, i)) == Some(
        older(rrs[i], elapsed),
    )) by {
        law_aging(m, start, n, elapsed);
    }
}

// ---------- truncation ----------

/// A message that is too long is cut to its header and its questions, or to its
/// header: what is left stood there before, but for the TC bit and the counts of
/// records, and of questions where those are gone.
pub proof fn law_truncation_keeps_the_front(m: Seq<u8>, limit: int)
    requires
        m.len() >= 12,
        m.len() > limit,
    ensures
        ({
            let out = truncated(m, limit);
            &&& 12 <= out.len() <= m.len()
            &&& out.len() > 12 ==> out.len() <= limit
            &&& out[0] == m[0] && out[1] == m[1] && out[3] == m[3]
            &&& (out[2] / 2) % 2 == 1
            &&& out[2] - 2 == m[2] || out[2] == m[2]
            &&& forall|k: int| 6 <= k < 12 ==> out[k] == 0
            &&& out.len() > 12 ==> out[4] == m[4] && out[5] == m[5]
            &&& out.len() == 12 ==> pair(out, 4) == 0 || pair(out, 4) == pair(m, 4)
            &&& forall|k: int| 12 <= k < out.len() ==> out[k] == m[k]
        }),
{
    let marked = crate::wire::marked_truncated(m);
    lemma_questions_from_bounds(marked, 12, be16(marked, 4) as nat);
    let f = m[2];
    assert(((f | 0x02) / 2) % 2 == 1) by (bit_vector);
    assert((f | 0x02) == f || (f | 0x02) - 2 == f) by (bit_vector);
}

/// A question that stands whole behind the header is kept where it fits.
pub proof fn law_truncation_keeps_the_question(m: Seq<u8>, limit: int, w: Seq<u8>)
    requires
        m.len() >= 12,
        m.len() > limit,
        pair(m, 4) == 1,
        is_wire_name(w),
        w.len() <= 255,
        16 + w.len() <= m.len(),
        m.subrange(12, 12 + w.len() as int) == w,
    ensures
        limit >= 16 + w.len() ==> truncated(m, limit).len() == 16 + w.len(),
        limit < 16 + w.len() ==> truncated(m, limit).len() == 12,
{
    let marked = crate::wire::marked_truncated(m);
    assert(marked.subrange(12, 12 + w.len() as int) =~= w) by {
        assert forall|i: int| 0 <= i < w.len() implies marked.subrange(
            12,
            12 + w.len() as int,
        )[i] == w[i] by {
            assert(m.subrange(12, 12 + w.len() as int)[i] == w[i]);
        }
    }
    lemma_plain_name(marked, 12, 0, 0, w);
    reveal_with_fuel(questions_from, 2);
}

} // verus!
