//! How messages age: which of them can be aged, and how the steps add up.

use crate::wire::{
    aged, aged_from, aged_record, aged_up_to, be16, be32, be32_bytes, cache_ttl_of, is_ttl_byte,
    law_aging_keeps_the_question, lemma_aged_run, lemma_be32_round_trip, lemma_name_end,
    lemma_name_steps, lemma_name_steps_inside, lemma_record_layout, lemma_records_chain, name_end,
    name_from, name_steps, names_avoid_ttls, overwrite, questions_end_of, questions_from,
    record_at, record_start, record_total, records_from, saturating, Record, HEADER_LEN, MAX_JUMPS,
    MAX_NAME_LEN, TYPE_OPT,
};
use vstd::prelude::*;

verus! {

// ---------- which messages can be aged ----------

/// The records from `offset` on: `n` of them, or those before the first that
/// cannot be read.
pub open spec fn readable(m: Seq<u8>, offset: int, n: nat) -> Seq<Record>
    decreases n,
{
    if n == 0 {
        Seq::empty()
    } else {
        match record_at(m, offset) {
            Some(rr) => seq![rr] + readable(m, rr.end, (n - 1) as nat),
            None => Seq::empty(),
        }
    }
}

/// Whether no owner name, that of a record that cannot be read among them, leads
/// through a TTL that aging rewrites.
pub open spec fn owners_avoid_ttls(m: Seq<u8>, start: int, n: nat) -> bool {
    let rrs = readable(m, start, n);
    forall|i: int, k: int|
        0 <= i <= rrs.len() && i < n && #[trigger] name_steps(
            m,
            record_start(rrs, start, i),
            0,
            0,
        ).contains(k) ==> !is_ttl_byte(rrs, k)
}

/// Whether the questions and the records of a message can be read back to back,
/// and end exactly where the message does.
pub open spec fn fills_exactly(m: Seq<u8>) -> bool {
    match (questions_end_of(m), record_total(m)) {
        (Some(start), Some(n)) => records_from(m, start, n as nat) matches Some((_, end)) && end
            == m.len(),
        _ => false,
    }
}

proof fn lemma_readable(m: Seq<u8>, start: int, n: nat)
    ensures
        ({
            let rrs = readable(m, start, n);
            let at = record_start(rrs, start, rrs.len() as int);
            &&& rrs.len() <= n
            &&& records_from(m, start, rrs.len()) == Some((rrs, at))
            &&& rrs.len() < n ==> record_at(m, at) is None && records_from(m, start, n) is None
        }),
    decreases n,
{
    let rrs = readable(m, start, n);
    if n > 0 {
        if let Some(rr) = record_at(m, start) {
            let rest = readable(m, rr.end, (n - 1) as nat);
            lemma_readable(m, rr.end, (n - 1) as nat);
            assert(rrs == seq![rr] + rest);
            assert(rrs.len() == rest.len() + 1);
            if rest.len() > 0 {
                assert(rrs[rrs.len() - 1] == rest[rest.len() - 1]);
            }
        }
    }
}

/// Aging `n` records is aging `j` of them and then the others.
proof fn lemma_aged_split(m: Seq<u8>, offset: int, n: nat, j: nat, elapsed: int)
    requires
        j <= n,
    ensures
        aged_from(m, offset, n, elapsed) == (match aged_from(m, offset, j, elapsed) {
            (o, Some(at)) => aged_from(o, at, (n - j) as nat, elapsed),
            (o, None) => (o, None),
        }),
    decreases j,
{
    if j > 0 {
        if let Some(rr) = record_at(m, offset) {
            lemma_aged_split(
                aged_record(m, rr, elapsed),
                rr.end,
                (n - 1) as nat,
                (j - 1) as nat,
                elapsed,
            );
        }
    }
}

/// The record behind the readable ones stays unreadable while those are aged.
proof fn lemma_unreadable_stays(m: Seq<u8>, o: Seq<u8>, start: int, n: nat, elapsed: int)
    requires
        owners_avoid_ttls(m, start, n),
        readable(m, start, n).len() < n,
        aged_up_to(
            m,
            o,
            readable(m, start, n),
            readable(m, start, n).len() as int,
            elapsed,
        ),
    ensures
        record_at(
            o,
            record_start(
                readable(m, start, n),
                start,
                readable(m, start, n).len() as int,
            ),
        ) is None,
{
    let rrs = readable(m, start, n);
    let j = rrs.len();
    let at = record_start(rrs, start, j as int);
    lemma_readable(m, start, n);
    lemma_records_chain(m, start, j);
    assert(rrs.take(j as int) =~= rrs);
    assert(o.len() == m.len() && forall|k: int|
        0 <= k < m.len() && !is_ttl_byte(rrs, k) ==> o[k] == m[k]) by {
        reveal(aged_up_to);
    }
    lemma_name_steps_inside(m, at, 0, 0);
    assert forall|k: int| #[trigger] name_steps(m, at, 0, 0).contains(k) implies o[k] == m[k] by {
        assert(!is_ttl_byte(rrs, k));
    }
    lemma_name_steps(m, o, at, 0, 0);
    lemma_name_end(m, at, 0, 0);
    if let Some(p) = name_end(m, at) {
        if p + 10 <= m.len() {
            assert forall|k: int| p <= k < p + 10 implies !is_ttl_byte(rrs, k) by {
                reveal(is_ttl_byte);
                assert forall|i: int| 0 <= i < rrs.len() implies (#[trigger] rrs[i]).end <= at by {
                    if i < rrs.len() - 1 {
                        assert(rrs[i].end < rrs[rrs.len() - 1].ttl_offset - 4);
                    }
                }
            }
        }
    }
}

/// A TTL that is written back as it was changes nothing.
proof fn lemma_same_ttl(m: Seq<u8>, offset: int)
    ensures
        record_at(m, offset) matches Some(rr) ==> aged_record(m, rr, 0) == m,
{
    lemma_record_layout(m, offset);
    if let Some(rr) = record_at(m, offset) {
        if rr.kind != TYPE_OPT {
            let i = rr.ttl_offset;
            let v = be32(m, i);
            assert(v == m[i] * 0x100_0000 + m[i + 1] * 0x1_0000 + m[i + 2] * 0x100 + m[i + 3]);
            assert(v / 0x100_0000 == m[i]);
            assert((v / 0x1_0000) % 0x100 == m[i + 1]);
            assert((v / 0x100) % 0x100 == m[i + 2]);
            assert(v % 0x100 == m[i + 3]);
            assert(overwrite(m, i, be32_bytes(v)) =~= m);
        }
    }
}

proof fn lemma_aged_by_nothing(m: Seq<u8>, offset: int, n: nat)
    ensures
        aged_from(m, offset, n, 0) == (
            m,
            match records_from(m, offset, n) {
                Some((_, end)) => Some(end),
                None => None,
            },
        ),
    decreases n,
{
    if n > 0 {
        lemma_same_ttl(m, offset);
        if let Some(rr) = record_at(m, offset) {
            lemma_aged_by_nothing(m, rr.end, (n - 1) as nat);
        }
    }
}

/// No time at all changes nothing, and a message is then aged in full exactly
/// where its questions and records fill it.
pub proof fn law_no_time_changes_nothing(m: Seq<u8>)
    ensures
        aged(m, 0) == (m, fills_exactly(m)),
{
    if let (Some(start), Some(n)) = (questions_end_of(m), record_total(m)) {
        lemma_aged_by_nothing(m, start, n as nat);
    }
}

/// A message is aged in full if and only if its questions and records can be
/// read back to back and end exactly where it does; so whatever may be cached
/// can be aged. Left out, unless no time has passed, are messages with an owner
/// name that leads, through a compression pointer, into the TTL of a record.
pub proof fn law_complete_aging(m: Seq<u8>, elapsed: int)
    requires
        0 <= elapsed,
        elapsed == 0 || (questions_end_of(m) is Some && record_total(m) is Some
            ==> owners_avoid_ttls(m, questions_end_of(m)->0, record_total(m)->0 as nat)),
    ensures
        aged(m, elapsed).1 == fills_exactly(m),
        forall|query_type: u16| #[trigger]
            cache_ttl_of(m, query_type) is Some ==> aged(m, elapsed).1,
{
    if elapsed == 0 {
        law_no_time_changes_nothing(m);
    } else if let (Some(start), Some(total)) = (questions_end_of(m), record_total(m)) {
        let n = total as nat;
        let rrs = readable(m, start, n);
        let j = rrs.len();
        lemma_readable(m, start, n);
        assert(names_avoid_ttls(m, start, rrs));
        assert(aged_up_to(m, m, rrs, 0, elapsed)) by {
            reveal(aged_up_to);
        }
        lemma_aged_run(m, m, start, j, 0, elapsed);
        if j < n {
            let (o, end) = aged_from(m, start, j, elapsed);
            lemma_aged_split(m, start, n, j, elapsed);
            lemma_unreadable_stays(m, o, start, n, elapsed);
        }
    }
}

// ---------- aging in two steps ----------

/// Where the part of a name ends that is stored at `cursor` itself, whatever a
/// compression pointer leads to.
spec fn inline_end(m: Seq<u8>, cursor: int) -> Option<int>
    decreases m.len() - cursor,
{
    if !(0 <= cursor < m.len()) {
        None
    } else if m[cursor] >= 0xc0 {
        if cursor + 2 <= m.len() {
            Some(cursor + 2)
        } else {
            None
        }
    } else if m[cursor] >= 0x40 {
        None
    } else if m[cursor] == 0 {
        Some(cursor + 1)
    } else if cursor + 1 + m[cursor] > m.len() {
        None
    } else {
        inline_end(m, cursor + 1 + m[cursor])
    }
}

/// A name that can be read ends where the part of it ends that is stored in
/// place.
proof fn lemma_inline_end(m: Seq<u8>, cursor: int, jumps: nat, taken: nat)
    ensures
        name_from(m, cursor, jumps, taken) matches Some((_, end)) ==> inline_end(m, cursor) == Some(
            end,
        ),
    decreases (MAX_JUMPS - jumps) + (MAX_NAME_LEN - taken),
{
    if 0 <= cursor < m.len() && jumps <= MAX_JUMPS && taken < MAX_NAME_LEN {
        if 0 < m[cursor] < 0x40 {
            let len = m[cursor] as int;
            if taken + 1 + len < MAX_NAME_LEN {
                lemma_inline_end(m, cursor + 1 + len, jumps, (taken + 1 + len) as nat);
            }
        }
    }
}

/// Where a name ends in place depends on the bytes from its start on; and, where
/// it does, on those up to its end alone.
proof fn lemma_inline_end_is_local(m: Seq<u8>, o: Seq<u8>, cursor: int, end: int)
    requires
        m.len() == o.len(),
        forall|k: int| cursor <= k < end && k < m.len() ==> m[k] == o[k],
        inline_end(m, cursor) == Some(end) || end >= m.len(),
    ensures
        inline_end(m, cursor) == inline_end(o, cursor),
        inline_end(m, cursor) matches Some(e) ==> cursor < e <= m.len(),
    decreases m.len() - cursor,
{
    if 0 <= cursor < m.len() {
        if 0 < m[cursor] < 0x40 && cursor + 1 + m[cursor] <= m.len() {
            lemma_inline_end_is_local(m, m, cursor + 1 + m[cursor], m.len() as int);
            assert(m[cursor] == o[cursor]);
            lemma_inline_end_is_local(m, o, cursor + 1 + m[cursor], end);
        } else {
            assert(m[cursor] == o[cursor]);
        }
    }
}

/// The record at `offset`, its owner name taken in place.
spec fn inline_record(m: Seq<u8>, offset: int) -> Option<Record> {
    match inline_end(m, offset) {
        Some(at) => {
            if at + 10 <= m.len() && at + 10 + be16(m, at + 8) <= m.len() {
                Some(
                    Record {
                        kind: be16(m, at),
                        class: be16(m, at + 2),
                        ttl: be32(m, at + 4),
                        ttl_offset: at + 4,
                        rdata_offset: at + 10,
                        rdlen: be16(m, at + 8) as int,
                        end: at + 10 + be16(m, at + 8),
                    },
                )
            } else {
                None
            }
        },
        None => None,
    }
}

/// A message with the TTLs of `n` records aged, owner names taken in place.
spec fn inline_aged(m: Seq<u8>, offset: int, n: nat, elapsed: int) -> Seq<u8>
    decreases n,
{
    if n == 0 {
        m
    } else {
        match inline_record(m, offset) {
            Some(rr) => inline_aged(
                aged_record(m, rr, elapsed),
                rr.end,
                (n - 1) as nat,
                elapsed,
            ),
            None => m,
        }
    }
}

/// Aging that comes to its end is aging with owner names taken in place.
proof fn lemma_inline_aged(m: Seq<u8>, offset: int, n: nat, elapsed: int)
    requires
        aged_from(m, offset, n, elapsed).1 is Some,
    ensures
        aged_from(m, offset, n, elapsed).0 == inline_aged(m, offset, n, elapsed),
    decreases n,
{
    if n > 0 {
        lemma_inline_end(m, offset, 0, 0);
        if let Some(rr) = record_at(m, offset) {
            assert(inline_record(m, offset) == Some(rr));
            lemma_inline_aged(aged_record(m, rr, elapsed), rr.end, (n - 1) as nat, elapsed);
        }
    }
}

proof fn lemma_inline_layout(m: Seq<u8>, offset: int)
    ensures
        inline_record(m, offset) matches Some(rr) ==> {
            &&& 0 <= offset < rr.ttl_offset - 4
            &&& rr.ttl_offset + 6 <= rr.end <= m.len()
            &&& rr.ttl == be32(m, rr.ttl_offset)
        },
{
    lemma_inline_end_is_local(m, m, offset, m.len() as int);
}

/// Bytes before a record have no part in it.
proof fn lemma_inline_record_after(m: Seq<u8>, p: int, bytes: Seq<u8>, offset: int)
    requires
        0 <= p,
        p + bytes.len() <= offset,
    ensures
        inline_record(overwrite(m, p, bytes), offset) == inline_record(m, offset),
{
    let o = overwrite(m, p, bytes);
    lemma_inline_end_is_local(m, o, offset, m.len() as int);
}

/// Bytes before the records stay apart from the aging of the records.
proof fn lemma_inline_aged_after(
    m: Seq<u8>,
    p: int,
    bytes: Seq<u8>,
    offset: int,
    n: nat,
    elapsed: int,
)
    requires
        0 <= p,
        p + bytes.len() <= offset,
    ensures
        inline_aged(overwrite(m, p, bytes), offset, n, elapsed) == overwrite(
            inline_aged(m, offset, n, elapsed),
            p,
            bytes,
        ),
    decreases n,
{
    let o = overwrite(m, p, bytes);
    if n > 0 {
        lemma_inline_record_after(m, p, bytes, offset);
        lemma_inline_layout(m, offset);
        if let Some(rr) = inline_record(m, offset) {
            assert(aged_record(o, rr, elapsed) =~= overwrite(
                aged_record(m, rr, elapsed),
                p,
                bytes,
            ));
            lemma_inline_aged_after(
                aged_record(m, rr, elapsed),
                p,
                bytes,
                rr.end,
                (n - 1) as nat,
                elapsed,
            );
        }
    }
}

/// A record with another TTL is the same record otherwise.
proof fn lemma_inline_record_aged(m: Seq<u8>, o: Seq<u8>, offset: int, ttl: u32)
    requires
        inline_record(m, offset) is Some,
        o.len() == m.len(),
        ({
            let rr = inline_record(m, offset)->0;
            forall|k: int|
                0 <= k < rr.end ==> o[k] == overwrite(m, rr.ttl_offset, be32_bytes(ttl))[k]
        }),
    ensures
        inline_record(o, offset) == Some(Record { ttl, ..inline_record(m, offset)->0 }),
{
    let rr = inline_record(m, offset)->0;
    lemma_inline_layout(m, offset);
    let at = rr.ttl_offset - 4;
    lemma_inline_end_is_local(m, o, offset, at);
    lemma_be32_round_trip(m, rr.ttl_offset, ttl);
}

/// With owner names taken in place, aging in two steps is aging once.
proof fn lemma_inline_aged_twice(m: Seq<u8>, offset: int, n: nat, a: int, b: int)
    requires
        0 <= a,
        0 <= b,
    ensures
        inline_aged(inline_aged(m, offset, n, a), offset, n, b) == inline_aged(
            m,
            offset,
            n,
            a + b,
        ),
    decreases n,
{
    if n > 0 {
        lemma_inline_layout(m, offset);
        if let Some(rr) = inline_record(m, offset) {
            let left = (n - 1) as nat;
            let p = rr.ttl_offset;
            let rest = inline_aged(m, rr.end, left, a);
            let x = inline_aged(m, offset, n, a);
            let once = aged_record(m, rr, a + b);
            lemma_inline_aged_twice(once, rr.end, left, a, b);
            lemma_inline_aged_bytes(m, rr.end, left, a);
            if rr.kind == TYPE_OPT {
                lemma_inline_record_same(m, x, offset);
            } else {
                let v = saturating(rr.ttl as int, a) as u32;
                let w = saturating(rr.ttl as int, a + b) as u32;
                assert(saturating(v as int, b) as u32 == w);
                lemma_inline_aged_after(m, p, be32_bytes(v), rr.end, left, a);
                assert(x == overwrite(rest, p, be32_bytes(v)));
                lemma_inline_record_aged(m, x, offset, v);
                lemma_inline_aged_after(m, p, be32_bytes(w), rr.end, left, a);
                assert(overwrite(x, p, be32_bytes(w)) =~= overwrite(rest, p, be32_bytes(w)));
            }
        }
    }
}

/// Aging with names taken in place touches nothing before the first record.
proof fn lemma_inline_aged_bytes(m: Seq<u8>, offset: int, n: nat, elapsed: int)
    ensures
        inline_aged(m, offset, n, elapsed).len() == m.len(),
        forall|k: int|
            0 <= k < m.len() && k < offset ==> inline_aged(m, offset, n, elapsed)[k] == m[k],
    decreases n,
{
    if n > 0 {
        lemma_inline_layout(m, offset);
        if let Some(rr) = inline_record(m, offset) {
            let next = aged_record(m, rr, elapsed);
            lemma_inline_aged_bytes(next, rr.end, (n - 1) as nat, elapsed);
            assert(forall|k: int| 0 <= k < m.len() && k < offset ==> next[k] == m[k]);
        }
    }
}

/// A record depends on its own bytes alone.
proof fn lemma_inline_record_same(m: Seq<u8>, o: Seq<u8>, offset: int)
    requires
        inline_record(m, offset) is Some,
        o.len() == m.len(),
        forall|k: int| 0 <= k < (inline_record(m, offset)->0).end ==> o[k] == m[k],
    ensures
        inline_record(o, offset) == inline_record(m, offset),
{
    lemma_inline_layout(m, offset);
    lemma_inline_end_is_local(m, o, offset, (inline_record(m, offset)->0).ttl_offset - 4);
}

/// Where the question section ends, names taken in place.
spec fn inline_questions(m: Seq<u8>, offset: int, n: nat) -> Option<int>
    decreases n,
{
    if n == 0 {
        Some(offset)
    } else {
        match inline_end(m, offset) {
            Some(end) => if end + 4 <= m.len() {
                inline_questions(m, end + 4, (n - 1) as nat)
            } else {
                None
            },
            None => None,
        }
    }
}

proof fn lemma_inline_questions(m: Seq<u8>, offset: int, n: nat)
    ensures
        questions_from(m, offset, n) matches Some(end) ==> inline_questions(m, offset, n) == Some(
            end,
        ),
        inline_questions(m, offset, n) matches Some(end) ==> offset <= end,
    decreases n,
{
    if n > 0 {
        lemma_inline_end(m, offset, 0, 0);
        lemma_inline_end_is_local(m, m, offset, m.len() as int);
        if let Some(end) = inline_end(m, offset) {
            lemma_inline_questions(m, end + 4, (n - 1) as nat);
        }
    }
}

/// Where the question section ends depends on its own bytes alone, as long as
/// it can be read.
proof fn lemma_inline_questions_are_local(m: Seq<u8>, o: Seq<u8>, offset: int, n: nat, end: int)
    requires
        m.len() == o.len(),
        inline_questions(m, offset, n) == Some(end),
        forall|k: int| 0 <= k < end && k < m.len() ==> o[k] == m[k],
    ensures
        inline_questions(o, offset, n) == Some(end),
    decreases n,
{
    if n > 0 {
        let at = inline_end(m, offset)->0;
        lemma_inline_questions(m, at + 4, (n - 1) as nat);
        lemma_inline_end_is_local(m, o, offset, at);
        lemma_inline_questions_are_local(m, o, at + 4, (n - 1) as nat, end);
    }
}

/// Aging in two steps is aging once: wherever all of it can be aged, `a` seconds
/// and then `b` seconds leave the message that `a + b` seconds leave.
pub proof fn law_aging_adds_up(m: Seq<u8>, a: int, b: int)
    requires
        0 <= a,
        0 <= b,
        aged(m, a).1,
        aged(aged(m, a).0, b).1,
        aged(m, a + b).1,
    ensures
        aged(aged(m, a).0, b) == aged(m, a + b),
{
    let start = questions_end_of(m)->0;
    let n = record_total(m)->0 as nat;
    let x = aged(m, a).0;
    let count = be16(m, 4) as nat;
    law_aging_keeps_the_question(m, a);
    lemma_inline_questions(m, HEADER_LEN as int, count);
    assert(forall|k: int| 0 <= k < HEADER_LEN ==> x[k] == m[k]);
    assert(be16(x, 4) == be16(m, 4));
    lemma_inline_questions_are_local(m, x, HEADER_LEN as int, count, start);
    lemma_inline_questions(x, HEADER_LEN as int, count);
    assert(questions_end_of(x) == Some(start));
    assert(record_total(x) == Some(n as int));
    lemma_inline_aged(m, start, n, a);
    lemma_inline_aged(x, start, n, b);
    lemma_inline_aged(m, start, n, a + b);
    lemma_inline_aged_twice(m, start, n, a, b);
}

} // verus!
