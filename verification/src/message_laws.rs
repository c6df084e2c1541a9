//! How names, questions and counts are read, step by step.

use crate::wire::{
    asks_many, be32_bytes, lemma_name_end, marked_truncated, name_at, name_from, overwrite,
    payload_size, question_list, questions_end_of, questions_from, questions_of, record_at,
    record_total, records_from, response_check, truncated, u16_at, u32_at, ResponseError,
};
use crate::wire_laws::pair;
use vstd::prelude::*;

verus! {

/// A label of 1 to 63 bytes stands before the rest of its name, with its capital
/// letters made small; from 192 on, a byte and the next one point to the rest,
/// and the name ends behind them; a zero ends the name. At most 128 pointers are
/// followed, and what does not stand in the message is not read.
pub proof fn law_names_step_by_step(m: Seq<u8>, cursor: int, jumps: nat, taken: nat)
    requires
        0 <= cursor < m.len(),
        jumps <= 128,
        taken < 255,
    ensures
        ({
            let r = name_from(m, cursor, jumps, taken);
            let len = m[cursor] as int;
            let rest = name_from(m, cursor + 1 + len, jumps, (taken + 1 + len) as nat);
            let target = (m[cursor] - 192) * 256 + m[cursor + 1];
            &&& m[cursor] == 0 ==> r == Some((seq![0u8], cursor + 1))
            &&& 1 <= len <= 63 && cursor + 1 + len <= m.len() && taken + 1 + len < 255 ==> {
                &&& rest is None ==> r is None
                &&& rest matches Some((tail, end)) ==> (r matches Some((name, at)) && at == end
                    && name.len() == 1 + len + tail.len() && name[0] == len && name.skip(1 + len)
                    == tail && forall|i: int|
                    1 <= i <= len ==> #[trigger] name[i] == if 65 <= m[cursor + i] <= 90 {
                        m[cursor + i] + 32
                    } else {
                        m[cursor + i] as int
                    })
            }
            &&& 1 <= len <= 63 && (cursor + 1 + len > m.len() || taken + 1 + len >= 255) ==> r
                is None
            &&& len >= 192 && cursor + 1 < m.len() && target < m.len() && jumps < 128 ==> {
                &&& name_from(m, target, jumps + 1, taken) is None ==> r is None
                &&& name_from(m, target, jumps + 1, taken) matches Some((name, _)) ==> r == Some(
                    (name, cursor + 2),
                )
            }
            &&& len >= 192 && (cursor + 1 >= m.len() || target >= m.len() || jumps == 128) ==> r
                is None
        }),
{
    let len = m[cursor] as int;
    if 1 <= len <= 63 && cursor + 1 + len <= m.len() && taken + 1 + len < 255 {
        if let Some((tail, end)) = name_from(m, cursor + 1 + len, jumps, (taken + 1 + len) as nat) {
            let name = (name_from(m, cursor, jumps, taken)->0).0;
            assert(name.skip(1 + len) =~= tail);
        }
    }
}

/// Questions follow each other: each is a name, a type and a class, and the next
/// one stands behind it.
pub proof fn law_questions_follow_each_other(m: Seq<u8>, offset: int, n: nat)
    requires
        n > 0,
    ensures
        ({
            let rest = (n - 1) as nat;
            &&& name_at(m, offset) is None ==> question_list(m, offset, n) is None
                && questions_from(m, offset, n) is None
            &&& name_at(m, offset) matches Some((name, at)) ==> {
                &&& at + 4 > m.len() ==> question_list(m, offset, n) is None && questions_from(
                    m,
                    offset,
                    n,
                ) is None
                &&& at + 4 <= m.len() ==> questions_from(m, offset, n) == questions_from(
                    m,
                    at + 4,
                    rest,
                )
                &&& at + 4 <= m.len() && question_list(m, at + 4, rest) is None ==> question_list(
                    m,
                    offset,
                    n,
                ) is None
                &&& at + 4 <= m.len() ==> (question_list(m, at + 4, rest) matches Some(others) ==> (
                question_list(m, offset, n) matches Some(list) && list.len() == others.len() + 1
                    && list[0].0 == name && list[0].1 == pair(m, at) && list[0].2 == pair(
                    m,
                    at + 2,
                ) && list.skip(1) == others))
            }
        }),
        question_list(m, offset, 0) == Some(Seq::<(Seq<u8>, u16, u16)>::empty()),
        questions_from(m, offset, 0) == Some(offset),
{
    if let Some((name, at)) = name_at(m, offset) {
        if at + 4 <= m.len() {
            if let Some(others) = question_list(m, at + 4, (n - 1) as nat) {
                let list = question_list(m, offset, n)->0;
                assert(list.skip(1) =~= others);
            }
        }
    }
}

/// The counts in a header: questions first, then answers, authority and additional
/// records; the questions stand behind the header.
pub proof fn law_header_counts(m: Seq<u8>)
    requires
        m.len() >= 12,
    ensures
        record_total(m) == Some(pair(m, 6) + pair(m, 8) + pair(m, 10)),
        questions_end_of(m) == questions_from(m, 12, pair(m, 4) as nat),
        questions_of(m) == question_list(m, 12, pair(m, 4) as nat),
{
}

/// A query that asks for more than one thing: opcode QUERY, no response, and a
/// question count above 1.
pub proof fn law_queries_that_ask_many(m: Seq<u8>)
    ensures
        asks_many(m) <==> m.len() >= 12 && m[2] < 128 && (m[2] / 8) % 16 == 0 && pair(m, 4) > 1,
{
    if m.len() >= 12 {
        let a = m[2];
        let v = (m[2] * 256 + m[3]) as u16;
        assert((v & 0x8000 == 0 <==> v / 0x8000 == 0) && (v & 0x7800 == 0 <==> (v / 0x800) % 16
            == 0)) by (bit_vector);
        assert(v / 0x8000 == 0 <==> a < 128);
        assert((v / 0x800) % 16 == (a / 8) % 16);
    }
}

/// Why a message is no answer: it is too short or not marked as a response; or
/// its question is another one.
pub proof fn law_refused_responses(query: Seq<u8>, response: Seq<u8>)
    ensures
        response.len() < 12 || response[2] < 128 ==> response_check(query, response) == Err::<
            (),
            ResponseError,
        >(ResponseError::NotAResponse),
        response.len() >= 12 && response[2] >= 128 && (questions_of(query) is None || questions_of(
            query,
        ) != questions_of(response)) ==> response_check(query, response) == Err::<
            (),
            ResponseError,
        >(ResponseError::QuestionMismatch),
{
    if response.len() >= 12 {
        let flags = response[2];
        assert(flags & 0x80 == 0 <==> flags < 128) by (bit_vector);
    }
}

/// What fits is left alone, and so is what has no whole header.
pub proof fn law_messages_that_fit(m: Seq<u8>, limit: int)
    ensures
        m.len() <= limit || m.len() < 12 ==> truncated(m, limit) == m,
        m.len() >= 12 && m.len() > limit ==> truncated(m, limit).len() <= 12 || truncated(
            m,
            limit,
        ).len() <= limit,
{
    crate::wire::law_truncation(m, limit);
}

/// A message that lost its questions announces none; one that kept them ends with
/// them.
pub proof fn law_truncated_counts(m: Seq<u8>, limit: int)
    requires
        m.len() >= 12,
        m.len() > limit,
    ensures
        truncated(m, limit).len() == 12 ==> pair(truncated(m, limit), 4) == 0,
        truncated(m, limit).len() > 12 ==> pair(truncated(m, limit), 4) == pair(m, 4) && pair(m, 4)
            > 0,
{
    let marked = marked_truncated(m);
    lemma_questions_take_room(marked, 12, pair(marked, 4) as nat);
    assert(pair(marked, 4) == pair(m, 4));
    crate::wire_laws::law_truncation_keeps_the_front(m, limit);
}

proof fn lemma_questions_take_room(m: Seq<u8>, offset: int, n: nat)
    ensures
        questions_from(m, offset, n) matches Some(end) ==> (n == 0 ==> end == offset) && (n > 0
            ==> offset < end <= m.len()),
    decreases n,
{
    if n > 0 {
        lemma_name_end(m, offset, 0, 0);
        if let Some((_, at)) = name_at(m, offset) {
            lemma_questions_take_room(m, at + 4, (n - 1) as nat);
        }
    }
}

/// A client takes 512 bytes where its query cannot be read that far: its questions,
/// its answer and authority records, or the first additional record.
pub proof fn law_unreadable_queries_take_512(m: Seq<u8>)
    ensures
        m.len() < 12 || questions_end_of(m) is None ==> payload_size(m) == 512,
        m.len() >= 12 ==> (questions_end_of(m) matches Some(start) ==> {
            let before = records_from(m, start, (pair(m, 6) + pair(m, 8)) as nat);
            &&& before is None ==> payload_size(m) == 512
            &&& before matches Some((_, extra)) ==> record_at(m, extra) is None ==> payload_size(m)
                == 512
        }),
{
}

/// Numbers in a message are two or four bytes, high byte first, where all of them
/// are there; written, they are those bytes in the place of others.
pub proof fn law_numbers_in_messages(m: Seq<u8>, i: int, v: u32)
    requires
        0 <= i,
    ensures
        i + 2 <= m.len() ==> (u16_at(m, i) matches Some(n) && n == pair(m, i)),
        i + 2 > m.len() ==> u16_at(m, i) is None,
        i + 4 <= m.len() ==> (u32_at(m, i) matches Some(n) && n == pair(m, i) * 65536 + pair(
            m,
            i + 2,
        )),
        i + 4 > m.len() ==> u32_at(m, i) is None,
        i + 4 <= m.len() ==> ({
            let out = overwrite(m, i, be32_bytes(v));
            &&& out.len() == m.len()
            &&& pair(out, i) * 65536 + pair(out, i + 2) == v
            &&& forall|k: int|
                0 <= k < m.len() && !(i <= k < i + 4) ==> #[trigger] out[k] == m[k]
        }),
{
    if i + 4 <= m.len() {
        crate::wire::lemma_be32_round_trip(m, i, v);
    }
}

} // verus!
