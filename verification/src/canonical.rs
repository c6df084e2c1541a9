//! Names and queries without regard to case and ID.

use crate::wire::{
    be16, lemma_name_end, lemma_name_steps, lemma_records_extend, lower, name_at, name_end,
    name_from, name_steps, query_meta, record_at, records_from, HEADER_LEN, MAX_JUMPS,
    MAX_NAME_LEN,
};
use vstd::prelude::*;

verus! {

/// A decoded name is in canonical form: it holds no uppercase letter.
pub proof fn law_names_are_canonical(m: Seq<u8>, cursor: int, jumps: nat, taken: nat)
    ensures
        name_from(m, cursor, jumps, taken) matches Some((name, _)) ==> forall|i: int|
            0 <= i < name.len() ==> lower(#[trigger] name[i]) == name[i],
    decreases (MAX_JUMPS - jumps) + (MAX_NAME_LEN - taken),
{
    if 0 <= cursor < m.len() && jumps <= MAX_JUMPS && taken < MAX_NAME_LEN {
        if m[cursor] >= 0xc0 {
            if cursor + 1 < m.len() && jumps < MAX_JUMPS {
                law_names_are_canonical(
                    m,
                    (m[cursor] - 0xc0) * 256 + m[cursor + 1],
                    jumps + 1,
                    taken,
                );
            }
        } else if 0 < m[cursor] < 0x40 {
            let len = m[cursor] as int;
            let label_end = cursor + 1 + len;
            if label_end <= m.len() && taken + 1 + len < MAX_NAME_LEN {
                let more = (taken + 1 + len) as nat;
                law_names_are_canonical(m, label_end, jumps, more);
                if let Some((rest, _)) = name_from(m, label_end, jumps, more) {
                    let label = m.subrange(cursor + 1, label_end).map_values(|b: u8| lower(b));
                    let name = seq![m[cursor]] + label + rest;
                    assert forall|i: int| 0 <= i < name.len() implies lower(#[trigger] name[i])
                        == name[i] by {
                        if 0 < i <= len {
                            assert(name[i] == lower(m[cursor + i]));
                        } else if i > len {
                            assert(name[i] == rest[i - 1 - len]);
                        }
                    }
                }
            }
        }
    }
}

/// Whether the byte at `k` is a character of the name whose next label starts at
/// `cursor`.
pub open spec fn is_name_letter(m: Seq<u8>, cursor: int, jumps: nat, taken: nat, k: int) -> bool
    decreases (MAX_JUMPS - jumps) + (MAX_NAME_LEN - taken),
{
    if !(0 <= cursor < m.len()) || jumps > MAX_JUMPS || taken >= MAX_NAME_LEN {
        false
    } else if m[cursor] >= 0xc0 {
        cursor + 1 < m.len() && jumps < MAX_JUMPS && is_name_letter(
            m,
            (m[cursor] - 0xc0) * 256 + m[cursor + 1],
            jumps + 1,
            taken,
            k,
        )
    } else if m[cursor] >= 0x40 || m[cursor] == 0 || taken + 1 + m[cursor] >= MAX_NAME_LEN {
        false
    } else {
        cursor < k <= cursor + m[cursor] || is_name_letter(
            m,
            cursor + 1 + m[cursor],
            jumps,
            (taken + 1 + m[cursor]) as nat,
            k,
        )
    }
}

/// Two messages hold the same name where they differ, of all the bytes that it
/// is read from, only in the case of its letters: whoever asks for EXAMPLE.com
/// finds what was kept for example.COM.
pub proof fn law_names_ignore_case(m: Seq<u8>, o: Seq<u8>, cursor: int, jumps: nat, taken: nat)
    requires
        m.len() == o.len(),
        forall|k: int| #[trigger] name_steps(m, cursor, jumps, taken).contains(k) ==> o[k] == m[k],
        forall|k: int|
            0 <= k < m.len() && #[trigger] is_name_letter(m, cursor, jumps, taken, k) ==> lower(
                o[k],
            ) == lower(m[k]),
    ensures
        name_from(m, cursor, jumps, taken) == name_from(o, cursor, jumps, taken),
    decreases (MAX_JUMPS - jumps) + (MAX_NAME_LEN - taken),
{
    let steps = name_steps(m, cursor, jumps, taken);
    if 0 <= cursor < m.len() && jumps <= MAX_JUMPS && taken < MAX_NAME_LEN {
        assert(steps.contains(cursor));
        if m[cursor] >= 0xc0 {
            if cursor + 1 < m.len() && jumps < MAX_JUMPS {
                assert(steps.contains(cursor + 1));
                let pointer = (m[cursor] - 0xc0) * 256 + m[cursor + 1];
                assert forall|k: int| #[trigger]
                    name_steps(m, pointer, jumps + 1, taken).contains(k) implies o[k] == m[k] by {
                    assert(steps.contains(k));
                }
                assert forall|k: int|
                    0 <= k < m.len() && #[trigger] is_name_letter(
                        m,
                        pointer,
                        jumps + 1,
                        taken,
                        k,
                    ) implies lower(o[k]) == lower(m[k]) by {
                    assert(is_name_letter(m, cursor, jumps, taken, k));
                }
                law_names_ignore_case(m, o, pointer, jumps + 1, taken);
            }
        } else if 0 < m[cursor] < 0x40 && taken + 1 + m[cursor] < MAX_NAME_LEN {
            let next = cursor + 1 + m[cursor];
            let more = (taken + 1 + m[cursor]) as nat;
            assert forall|k: int| #[trigger]
                name_steps(m, next, jumps, more).contains(k) implies o[k] == m[k] by {
                assert(steps.contains(k));
            }
            assert forall|k: int|
                0 <= k < m.len() && #[trigger] is_name_letter(
                    m,
                    next,
                    jumps,
                    more,
                    k,
                ) implies lower(o[k]) == lower(m[k]) by {
                assert(is_name_letter(m, cursor, jumps, taken, k));
            }
            law_names_ignore_case(m, o, next, jumps, more);
            if next <= m.len() {
                let here = m.subrange(cursor + 1, next).map_values(|b: u8| lower(b));
                let there = o.subrange(cursor + 1, next).map_values(|b: u8| lower(b));
                assert forall|i: int| 0 <= i < here.len() implies here[i] == there[i] by {
                    assert(is_name_letter(m, cursor, jumps, taken, cursor + 1 + i));
                }
                assert(here =~= there);
            }
        }
    }
}

/// Whether the owner names of `n` records from `offset` on, as far as those can
/// be read, lead through the same bytes in both messages.
pub open spec fn owners_alike(m: Seq<u8>, o: Seq<u8>, offset: int, n: nat) -> bool
    decreases n,
{
    n > 0 ==> {
        &&& forall|k: int| #[trigger] name_steps(m, offset, 0, 0).contains(k) ==> o[k] == m[k]
        &&& record_at(m, offset) matches Some(rr) ==> owners_alike(m, o, rr.end, (n - 1) as nat)
    }
}

/// Whether two queries differ only in the ID and in the case of the letters of
/// the name that is asked for, and no owner name of a record leads through a
/// byte in which they differ.
pub open spec fn asks_alike(m: Seq<u8>, o: Seq<u8>) -> bool {
    &&& m.len() == o.len()
    &&& forall|k: int| 2 <= k < HEADER_LEN && k < m.len() ==> o[k] == m[k]
    &&& forall|k: int| #[trigger]
        name_steps(m, HEADER_LEN as int, 0, 0).contains(k) ==> o[k] == m[k]
    &&& forall|k: int|
        0 <= k < m.len() && #[trigger] is_name_letter(m, HEADER_LEN as int, 0, 0, k) ==> lower(
            o[k],
        ) == lower(m[k])
    &&& name_end(m, HEADER_LEN as int) matches Some(at) ==> {
        &&& forall|k: int| at <= k < m.len() ==> o[k] == m[k]
        &&& owners_alike(m, o, at + 4, (be16(m, 6) + be16(m, 8) + be16(m, 10)) as nat)
    }
}

proof fn lemma_records_alike(m: Seq<u8>, o: Seq<u8>, from: int, offset: int, n: nat, j: nat)
    requires
        m.len() == o.len(),
        from <= offset,
        forall|k: int| from <= k < m.len() ==> o[k] == m[k],
        owners_alike(m, o, offset, n),
        j <= n,
    ensures
        records_from(m, offset, j) == records_from(o, offset, j),
    decreases j,
{
    if j > 0 {
        lemma_name_steps(m, o, offset, 0, 0);
        lemma_name_end(m, offset, 0, 0);
        assert(record_at(m, offset) == record_at(o, offset));
        if let Some(rr) = record_at(m, offset) {
            lemma_records_alike(m, o, from, rr.end, (n - 1) as nat, (j - 1) as nat);
        }
    }
}

/// Queries that differ only in the ID and in the case of the letters of the name
/// have the same cache metadata: they are answered by the same entry.
pub proof fn law_queries_ignore_case_and_id(m: Seq<u8>, o: Seq<u8>)
    requires
        asks_alike(m, o),
    ensures
        query_meta(m) == query_meta(o),
{
    if m.len() >= HEADER_LEN {
        law_names_ignore_case(m, o, HEADER_LEN as int, 0, 0);
        assert(name_at(m, HEADER_LEN as int) == name_at(o, HEADER_LEN as int));
        if let Some((_, at)) = name_at(m, HEADER_LEN as int) {
            lemma_name_end(m, HEADER_LEN as int, 0, 0);
            let first = (be16(m, 6) + be16(m, 8)) as nat;
            let all = (be16(m, 6) + be16(m, 8) + be16(m, 10)) as nat;
            lemma_records_alike(m, o, at, at + 4, all, first);
            if first < all {
                lemma_records_alike(m, o, at, at + 4, all, first + 1);
                lemma_records_extend(m, at + 4, first);
                lemma_records_extend(o, at + 4, first);
                if let Some((rrs, extra)) = records_from(m, at + 4, first) {
                    if let (Some(a), Some(b)) = (record_at(m, extra), record_at(o, extra)) {
                        assert(rrs.push(a).last() == rrs.push(b).last());
                    }
                }
            }
        }
    }
}

} // verus!
