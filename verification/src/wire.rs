//! Small DNS wire helpers used on the cache hot path.
//!
//! They deliberately parse only the fields needed for cache safety, TTL aging,
//! question matching and UDP response truncation.

use vstd::prelude::*;

verus! {

/// Length of the fixed DNS header.
pub const HEADER_LEN: usize = 12;

/// Record type CNAME.
pub const TYPE_CNAME: u16 = 5;

/// Record type SOA.
pub const TYPE_SOA: u16 = 6;

/// Pseudo record type OPT (EDNS).
pub const TYPE_OPT: u16 = 41;

/// Compression pointers followed before a name is given up.
pub const MAX_JUMPS: usize = 128;

/// Labels, with their length bytes and without the root label, of a name that
/// is still acceptable stay below this many bytes.
pub const MAX_NAME_LEN: usize = 255;

// ---------- big-endian integers ----------

/// The two bytes at `i`, read as a big-endian number.
pub open spec fn be16(m: Seq<u8>, i: int) -> u16 {
    (m[i] * 256 + m[i + 1]) as u16
}

/// The four bytes at `i`, read as a big-endian number.
pub open spec fn be32(m: Seq<u8>, i: int) -> u32 {
    (m[i] * 0x100_0000 + m[i + 1] * 0x1_0000 + m[i + 2] * 0x100 + m[i + 3]) as u32
}

/// `be16`, where both bytes exist.
pub open spec fn u16_at(m: Seq<u8>, i: int) -> Option<u16> {
    if 0 <= i && i + 2 <= m.len() {
        Some(be16(m, i))
    } else {
        None
    }
}

/// `be32`, where all four bytes exist.
pub open spec fn u32_at(m: Seq<u8>, i: int) -> Option<u32> {
    if 0 <= i && i + 4 <= m.len() {
        Some(be32(m, i))
    } else {
        None
    }
}

/// The big-endian bytes of `v`.
pub open spec fn be32_bytes(v: u32) -> Seq<u8> {
    seq![
        (v / 0x100_0000) as u8,
        ((v / 0x1_0000) % 0x100) as u8,
        ((v / 0x100) % 0x100) as u8,
        (v % 0x100) as u8,
    ]
}

/// `m` with the bytes from `i` on replaced by those of `bytes`.
pub open spec fn overwrite(m: Seq<u8>, i: int, bytes: Seq<u8>) -> Seq<u8> {
    Seq::new(
        m.len(),
        |k: int|
            if i <= k < i + bytes.len() {
                bytes[k - i]
            } else {
                m[k]
            },
    )
}

pub fn read_u16(message: &[u8], offset: usize) -> (value: Option<u16>)
    ensures
        value == u16_at(message@, offset as int),
{
    if offset >= message.len() || offset + 1 >= message.len() {
        return None;
    }
    Some(message[offset] as u16 * 256 + message[offset + 1] as u16)
}

pub fn read_u32(message: &[u8], offset: usize) -> (value: Option<u32>)
    ensures
        value == u32_at(message@, offset as int),
{
    if offset >= message.len() || message.len() - offset < 4 {
        return None;
    }
    Some(
        message[offset] as u32 * 0x100_0000 + message[offset + 1] as u32 * 0x1_0000 + message[offset
            + 2] as u32 * 0x100 + message[offset + 3] as u32,
    )
}

// ---------- names ----------

/// ASCII lowercase of one byte.
pub open spec fn lower(b: u8) -> u8 {
    if 65 <= b <= 90 {
        (b + 32) as u8
    } else {
        b
    }
}

/// The name whose next label starts at `cursor`, in canonical lowercase wire
/// form, together with the offset just past the part of it that is stored in
/// place. `jumps` compression pointers were followed and `taken` bytes of
/// labels were read on the way here.
pub open spec fn name_from(m: Seq<u8>, cursor: int, jumps: nat, taken: nat) -> Option<
    (Seq<u8>, int),
>
    decreases (MAX_JUMPS - jumps) + (MAX_NAME_LEN - taken),
{
    if !(0 <= cursor < m.len()) || jumps > MAX_JUMPS || taken >= MAX_NAME_LEN {
        None
    } else if m[cursor] >= 0xc0 {
        if cursor + 1 >= m.len() {
            None
        } else {
            let pointer = (m[cursor] - 0xc0) * 256 + m[cursor + 1];
            if pointer >= m.len() || jumps >= MAX_JUMPS {
                None
            } else {
                match name_from(m, pointer, jumps + 1, taken) {
                    Some((name, _)) => Some((name, cursor + 2)),
                    None => None,
                }
            }
        }
    } else if m[cursor] >= 0x40 {
        None
    } else if m[cursor] == 0 {
        Some((seq![0u8], cursor + 1))
    } else {
        let len = m[cursor] as int;
        let label_end = cursor + 1 + len;
        if label_end > m.len() || taken + 1 + len >= MAX_NAME_LEN {
            None
        } else {
            match name_from(m, label_end, jumps, (taken + 1 + len) as nat) {
                Some((name, end)) => Some(
                    (
                        seq![m[cursor]] + m.subrange(cursor + 1, label_end).map_values(
                            |b: u8| lower(b),
                        ) + name,
                        end,
                    ),
                ),
                None => None,
            }
        }
    }
}

/// The name stored at `start`: its canonical lowercase wire form and the
/// offset just past it.
pub open spec fn name_at(m: Seq<u8>, start: int) -> Option<(Seq<u8>, int)> {
    name_from(m, start, 0, 0)
}

/// A name ends past where it starts and inside the message.
pub proof fn lemma_name_end(m: Seq<u8>, cursor: int, jumps: nat, taken: nat)
    ensures
        name_from(m, cursor, jumps, taken) matches Some((_, end)) ==> cursor < end <= m.len(),
    decreases (MAX_JUMPS - jumps) + (MAX_NAME_LEN - taken),
{
    if 0 <= cursor < m.len() && jumps <= MAX_JUMPS && taken < MAX_NAME_LEN {
        if 0 < m[cursor] < 0x40 {
            let len = m[cursor] as int;
            if taken + 1 + len < MAX_NAME_LEN {
                lemma_name_end(m, cursor + 1 + len, jumps, (taken + 1 + len) as nat);
            }
        }
    }
}

fn lower_byte(b: u8) -> (r: u8)
    ensures
        r == lower(b),
{
    if 65 <= b && b <= 90 {
        b + 32
    } else {
        b
    }
}

/// Decode a possibly-compressed name into canonical lowercase wire form.
pub fn read_name(message: &[u8], start: usize) -> (r: Option<(Vec<u8>, usize)>)
    ensures
        match name_at(message@, start as int) {
            Some((name, end)) => r matches Some((n, e)) && n@ == name && e == end,
            None => r is None,
        },
{
    let mut name: Vec<u8> = Vec::new();
    let mut cursor: usize = start;
    let mut end: Option<usize> = None;
    let mut jumps: usize = 0;
    loop
        invariant
            jumps <= MAX_JUMPS,
            name@.len() < MAX_NAME_LEN,
            end is None ==> name_at(message@, start as int) == (match name_from(
                message@,
                cursor as int,
                jumps as nat,
                name@.len(),
            ) {
                Some((rest, e)) => Some((name@ + rest, e)),
                None => None,
            }),
            end matches Some(e0) ==> name_at(message@, start as int) == (match name_from(
                message@,
                cursor as int,
                jumps as nat,
                name@.len(),
            ) {
                Some((rest, _)) => Some((name@ + rest, e0 as int)),
                None => None,
            }),
        decreases (MAX_JUMPS - jumps) + (MAX_NAME_LEN - name@.len()),
    {
        if cursor >= message.len() {
            return None;
        }
        let len: u8 = message[cursor];
        if len >= 0xc0 {
            if cursor + 1 >= message.len() {
                return None;
            }
            let pointer: usize = (len - 0xc0) as usize * 256 + message[cursor + 1] as usize;
            if pointer >= message.len() || jumps >= MAX_JUMPS {
                return None;
            }
            if end.is_none() {
                end = Some(cursor + 2);
            }
            cursor = pointer;
            jumps = jumps + 1;
            continue ;
        }
        if len >= 0x40 {
            return None;
        }
        cursor = cursor + 1;
        if len == 0 {
            name.push(0);
            let stop: usize = match end {
                Some(e) => e,
                None => cursor,
            };
            return Some((name, stop));
        }
        if message.len() - cursor < len as usize {
            return None;
        }
        let label_end: usize = cursor + len as usize;
        if name.len() + 1 + len as usize >= MAX_NAME_LEN {
            return None;
        }
        let ghost before = name@;
        name.push(len);
        let mut i: usize = cursor;
        while i < label_end
            invariant
                cursor <= i <= label_end <= message@.len(),
                name@ == before + seq![len] + message@.subrange(cursor as int, i as int).map_values(
                    |b: u8| lower(b),
                ),
            decreases label_end - i,
        {
            name.push(lower_byte(message[i]));
            proof {
                assert(message@.subrange(cursor as int, i + 1).map_values(|b: u8| lower(b))
                    =~= message@.subrange(cursor as int, i as int).map_values(
                    |b: u8| lower(b),
                ).push(lower(message@[i as int])));
            }
            i = i + 1;
        }
        proof {
            let label = seq![len] + message@.subrange(cursor as int, label_end as int).map_values(
                |b: u8| lower(b),
            );
            assert(name@ =~= before + label);
            assert(name@.len() == before.len() + 1 + len);
            assert forall|rest: Seq<u8>| #[trigger] (name@ + rest) == before + (label + rest) by {
                assert(name@ + rest =~= before + (label + rest));
            }
        }
        cursor = label_end;
    }
}

/// The offset just past the name at `offset`.
pub open spec fn name_end(m: Seq<u8>, offset: int) -> Option<int> {
    match name_at(m, offset) {
        Some((_, end)) => Some(end),
        None => None,
    }
}

pub fn skip_name(message: &[u8], offset: usize) -> (r: Option<usize>)
    ensures
        match name_end(message@, offset as int) {
            Some(end) => r matches Some(e) && e == end && offset < end <= message@.len(),
            None => r is None,
        },
{
    proof {
        lemma_name_end(message@, offset as int, 0, 0);
    }
    match read_name(message, offset) {
        Some((_, end)) => Some(end),
        None => None,
    }
}

// ---------- sections ----------

/// The offset just past `n` questions that start at `offset`.
pub open spec fn questions_from(m: Seq<u8>, offset: int, n: nat) -> Option<int>
    decreases n,
{
    if n == 0 {
        Some(offset)
    } else {
        match name_end(m, offset) {
            Some(end) => if end + 4 <= m.len() {
                questions_from(m, end + 4, (n - 1) as nat)
            } else {
                None
            },
            None => None,
        }
    }
}

/// The offset just past the question section.
pub open spec fn questions_end_of(m: Seq<u8>) -> Option<int> {
    match u16_at(m, 4) {
        Some(count) => questions_from(m, HEADER_LEN as int, count as nat),
        None => None,
    }
}

pub fn questions_end(message: &[u8]) -> (r: Option<usize>)
    ensures
        match questions_end_of(message@) {
            Some(end) => r matches Some(e) && e == end && (end == HEADER_LEN || HEADER_LEN < end
                <= message@.len()),
            None => r is None,
        },
{
    let count: u16 = match read_u16(message, 4) {
        Some(count) => count,
        None => return None,
    };
    let mut offset: usize = HEADER_LEN;
    let mut left: u16 = count;
    while left > 0
        invariant
            questions_end_of(message@) == questions_from(message@, offset as int, left as nat),
            offset == HEADER_LEN || HEADER_LEN < offset <= message@.len(),
        decreases left,
    {
        let end: usize = match skip_name(message, offset) {
            Some(end) => end,
            None => return None,
        };
        if message.len() - end < 4 {
            return None;
        }
        offset = end + 4;
        left = left - 1;
    }
    Some(offset)
}

/// The fields of one resource record, and where they are stored.
pub struct Record {
    pub kind: u16,
    pub class: u16,
    pub ttl: u32,
    pub ttl_offset: int,
    pub rdata_offset: int,
    pub rdlen: int,
    pub end: int,
}

/// The resource record stored at `offset`.
pub open spec fn record_at(m: Seq<u8>, offset: int) -> Option<Record> {
    match name_end(m, offset) {
        Some(at) => {
            if at + 10 <= m.len() && at + 10 + be16(m, at + 8) <= m.len() {
                Some(
                    Record {
                        kind: be16(m, at),
                        class: be16(m, at + 2),
                        ttl: be32(m, at + 4),
                        ttl_offset: at + 4,
                        rdata_offset: at + 10,
                        rdlen: be16(m, at + 8) as int,
                        end: at + 10 + be16(m, at + 8),
                    },
                )
            } else {
                None
            }
        },
        None => None,
    }
}

/// A resource record parsed in place.
#[derive(Clone, Copy)]
pub struct ResourceRecord {
    pub kind: u16,
    pub class: u16,
    pub ttl: u32,
    pub ttl_offset: usize,
    pub rdata_offset: usize,
    pub rdlen: usize,
    pub end: usize,
}

impl View for ResourceRecord {
    type V = Record;

    open spec fn view(&self) -> Record {
        Record {
            kind: self.kind,
            class: self.class,
            ttl: self.ttl,
            ttl_offset: self.ttl_offset as int,
            rdata_offset: self.rdata_offset as int,
            rdlen: self.rdlen as int,
            end: self.end as int,
        }
    }
}

/// Where the parts of a record lie.
pub proof fn lemma_record_layout(m: Seq<u8>, offset: int)
    ensures
        record_at(m, offset) matches Some(rr) ==> {
            &&& 0 <= offset < rr.ttl_offset - 4
            &&& rr.ttl_offset + 6 == rr.rdata_offset
            &&& rr.rdata_offset + rr.rdlen == rr.end
            &&& rr.end <= m.len()
            &&& rr.rdlen >= 0
            &&& rr.ttl == be32(m, rr.ttl_offset)
        },
{
    lemma_name_end(m, offset, 0, 0);
}

pub fn parse_rr(message: &[u8], offset: usize) -> (r: Option<ResourceRecord>)
    ensures
        match record_at(message@, offset as int) {
            Some(rr) => r matches Some(got) && got@ == rr && offset < got.ttl_offset
                && got.ttl_offset + 6 <= got.end <= message@.len(),
            None => r is None,
        },
{
    let at: usize = match skip_name(message, offset) {
        Some(at) => at,
        None => return None,
    };
    if message.len() - at < 10 {
        return None;
    }
    let kind: u16 = message[at] as u16 * 256 + message[at + 1] as u16;
    let class: u16 = message[at + 2] as u16 * 256 + message[at + 3] as u16;
    let ttl: u32 = match read_u32(message, at + 4) {
        Some(ttl) => ttl,
        None => return None,
    };
    let rdlen: usize = message[at + 8] as usize * 256 + message[at + 9] as usize;
    if message.len() - (at + 10) < rdlen {
        return None;
    }
    Some(
        ResourceRecord {
            kind,
            class,
            ttl,
            ttl_offset: at + 4,
            rdata_offset: at + 10,
            rdlen,
            end: at + 10 + rdlen,
        },
    )
}

/// `n` records in a row from `offset` on, and the offset just past them.
pub open spec fn records_from(m: Seq<u8>, offset: int, n: nat) -> Option<(Seq<Record>, int)>
    decreases n,
{
    if n == 0 {
        Some((Seq::empty(), offset))
    } else {
        match record_at(m, offset) {
            Some(rr) => match records_from(m, rr.end, (n - 1) as nat) {
                Some((rest, end)) => Some((seq![rr] + rest, end)),
                None => None,
            },
            None => None,
        }
    }
}

/// One more record at the end of a run of records.
pub proof fn lemma_records_extend(m: Seq<u8>, offset: int, n: nat)
    ensures
        records_from(m, offset, n + 1) == (match records_from(m, offset, n) {
            Some((rrs, at)) => match record_at(m, at) {
                Some(rr) => Some((rrs.push(rr), rr.end)),
                None => None,
            },
            None => None,
        }),
    decreases n,
{
    reveal_with_fuel(records_from, 2);
    if n == 0 {
        if let Some(rr) = record_at(m, offset) {
            assert(seq![rr] + Seq::<Record>::empty() =~= Seq::<Record>::empty().push(rr));
        }
    } else {
        if let Some(first) = record_at(m, offset) {
            lemma_records_extend(m, first.end, (n - 1) as nat);
            if let Some((rest, at)) = records_from(m, first.end, (n - 1) as nat) {
                if let Some(rr) = record_at(m, at) {
                    assert(seq![first] + rest.push(rr) =~= (seq![first] + rest).push(rr));
                }
            }
        }
    }
}

/// A run of records that breaks off early stays broken.
proof fn lemma_records_prefix(m: Seq<u8>, offset: int, n: nat, k: nat)
    requires
        k <= n,
        records_from(m, offset, k) is None,
    ensures
        records_from(m, offset, n) is None,
    decreases n - k,
{
    if k < n {
        lemma_records_extend(m, offset, k);
        lemma_records_prefix(m, offset, n, k + 1);
    }
}

/// A run of `n` records has `n` records.
pub proof fn lemma_records_len(m: Seq<u8>, offset: int, n: nat)
    ensures
        records_from(m, offset, n) matches Some((rrs, _)) ==> rrs.len() == n,
    decreases n,
{
    if n > 0 {
        if let Some(rr) = record_at(m, offset) {
            lemma_records_len(m, rr.end, (n - 1) as nat);
        }
    }
}

/// The records of all three record sections together.
pub open spec fn record_total(m: Seq<u8>) -> Option<int> {
    if m.len() >= HEADER_LEN {
        Some(be16(m, 6) + be16(m, 8) + be16(m, 10))
    } else {
        None
    }
}

pub fn total_rr_count(message: &[u8]) -> (r: Option<usize>)
    ensures
        match record_total(message@) {
            Some(n) => r matches Some(k) && k == n && n <= 3 * 0xffff,
            None => r is None,
        },
{
    if message.len() < HEADER_LEN {
        return None;
    }
    let answers: usize = message[6] as usize * 256 + message[7] as usize;
    let authorities: usize = message[8] as usize * 256 + message[9] as usize;
    let additionals: usize = message[10] as usize * 256 + message[11] as usize;
    Some(answers + authorities + additionals)
}

/// Skip `count` records from `offset` on.
fn skip_records(message: &[u8], offset: usize, count: usize) -> (r: Option<usize>)
    ensures
        match records_from(message@, offset as int, count as nat) {
            Some((_, end)) => r matches Some(e) && e == end && (end == offset || offset < end
                <= message@.len()),
            None => r is None,
        },
{
    let mut at: usize = offset;
    let mut done: usize = 0;
    while done < count
        invariant
            done <= count,
            records_from(message@, offset as int, done as nat) matches Some((_, end)) && end == at,
            at == offset || offset < at <= message@.len(),
        decreases count - done,
    {
        proof {
            lemma_records_extend(message@, offset as int, done as nat);
        }
        match parse_rr(message, at) {
            Some(rr) => {
                at = rr.end;
            },
            None => {
                proof {
                    lemma_records_prefix(message@, offset as int, count as nat, (done + 1) as nat);
                }
                return None;
            },
        }
        done = done + 1;
    }
    Some(at)
}

// ---------- queries ----------

/// What identifies a conventional recursive query, and what its client takes.
#[derive(Clone, Debug, Eq, Hash, PartialEq)]
pub struct QueryMeta {
    pub qname: Vec<u8>,
    pub qtype: u16,
    pub qclass: u16,
    pub do_bit: bool,
    /// AD/CD request bits. They can change DNSSEC-aware upstream responses.
    pub dnssec_header_bits: u8,
    pub udp_size: usize,
}

/// `QueryMeta` as plain values.
pub struct Meta {
    pub qname: Seq<u8>,
    pub qtype: u16,
    pub qclass: u16,
    pub do_bit: bool,
    pub dnssec_header_bits: u8,
    pub udp_size: int,
}

impl View for QueryMeta {
    type V = Meta;

    open spec fn view(&self) -> Meta {
        Meta {
            qname: self.qname@,
            qtype: self.qtype,
            qclass: self.qclass,
            do_bit: self.do_bit,
            dnssec_header_bits: self.dnssec_header_bits,
            udp_size: self.udp_size as int,
        }
    }
}

/// An advertised UDP payload size, held to 512..=4096.
pub open spec fn clamp_udp(size: u16) -> int {
    if size < 512 {
        512
    } else if size > 4096 {
        4096
    } else {
        size as int
    }
}

/// An ordinary query header: a query with opcode QUERY, recursion desired and
/// one question.
pub open spec fn is_plain_query(m: Seq<u8>) -> bool {
    &&& m.len() >= HEADER_LEN
    &&& be16(m, 2) & 0x8000 == 0
    &&& be16(m, 2) & 0x7800 == 0
    &&& be16(m, 2) & 0x0100 != 0
    &&& be16(m, 4) == 1
}

/// An EDNS record that cannot change what the answer is: no options, version 0.
pub open spec fn is_plain_opt(m: Seq<u8>, rr: Record) -> bool {
    rr.kind == TYPE_OPT && rr.rdlen == 0 && m[rr.ttl_offset + 1] == 0
}

/// The cache metadata of a query, where the query is one that may be cached.
pub open spec fn query_meta(m: Seq<u8>) -> Option<Meta> {
    if !is_plain_query(m) {
        None
    } else {
        match name_at(m, HEADER_LEN as int) {
            None => None,
            Some((qname, at)) => if at + 4 > m.len() {
                None
            } else {
                match records_from(m, at + 4, (be16(m, 6) + be16(m, 8)) as nat) {
                    None => None,
                    Some((_, extra)) => {
                        let plain = Meta {
                            qname,
                            qtype: be16(m, at),
                            qclass: be16(m, at + 2),
                            do_bit: false,
                            dnssec_header_bits: m[3] & 0x30,
                            udp_size: 512,
                        };
                        if be16(m, 10) == 0 {
                            if extra == m.len() {
                                Some(plain)
                            } else {
                                None
                            }
                        } else if be16(m, 10) == 1 {
                            match record_at(m, extra) {
                                Some(rr) => if is_plain_opt(m, rr) && rr.end == m.len() {
                                    Some(
                                        Meta {
                                            do_bit: rr.ttl & 0x8000 != 0,
                                            udp_size: clamp_udp(rr.class),
                                            ..plain
                                        },
                                    )
                                } else {
                                    None
                                },
                                None => None,
                            }
                        } else {
                            None
                        }
                    },
                }
            },
        }
    }
}

fn clamp_udp_size(size: u16) -> (r: usize)
    ensures
        r == clamp_udp(size),
{
    if size < 512 {
        512
    } else if size > 4096 {
        4096
    } else {
        size as usize
    }
}

/// Return cache metadata for a conventional recursive, single-question query.
/// Queries with EDNS options, TSIG, unsupported EDNS versions, or unusual
/// header semantics bypass the cache rather than risk reusing the wrong reply.
pub fn parse_query_meta(message: &[u8]) -> (r: Option<QueryMeta>)
    ensures
        match query_meta(message@) {
            Some(meta) => r matches Some(got) && got@ == meta,
            None => r is None,
        },
{
    if message.len() < HEADER_LEN {
        return None;
    }
    let flags: u16 = message[2] as u16 * 256 + message[3] as u16;
    let questions: u16 = message[4] as u16 * 256 + message[5] as u16;
    if flags & 0x8000 != 0  // response
     || flags & 0x7800 != 0  // non-QUERY opcode
     || flags & 0x0100 == 0  // recursion not desired
     || questions != 1 {
        return None;
    }
    proof {
        lemma_name_end(message@, HEADER_LEN as int, 0, 0);
    }
    let (qname, at): (Vec<u8>, usize) = match read_name(message, HEADER_LEN) {
        Some(found) => found,
        None => return None,
    };
    if message.len() - at < 4 {
        return None;
    }
    let qtype: u16 = message[at] as u16 * 256 + message[at + 1] as u16;
    let qclass: u16 = message[at + 2] as u16 * 256 + message[at + 3] as u16;
    let answers: usize = message[6] as usize * 256 + message[7] as usize;
    let authorities: usize = message[8] as usize * 256 + message[9] as usize;
    let additionals: usize = message[10] as usize * 256 + message[11] as usize;
    let extra: usize = match skip_records(message, at + 4, answers + authorities) {
        Some(end) => end,
        None => return None,
    };

    let mut offset: usize = extra;
    let mut udp_size: usize = 512;
    let mut do_bit: bool = false;
    if additionals > 1 {
        return None;
    }
    if additionals == 1 {
        let rr: ResourceRecord = match parse_rr(message, offset) {
            Some(rr) => rr,
            None => return None,
        };
        // EDNS options such as ECS and COOKIE can affect the response and are
        // intentionally not represented in the cache key.
        if rr.kind != TYPE_OPT || rr.rdlen != 0 || message[rr.ttl_offset + 1] != 0 {
            return None;
        }
        offset = rr.end;
        udp_size = clamp_udp_size(rr.class);
        do_bit = rr.ttl & 0x8000 != 0;
    }
    if offset != message.len() {
        return None;
    }
    Some(
        QueryMeta {
            qname,
            qtype,
            qclass,
            do_bit,
            dnssec_header_bits: message[3] & 0x30,
            udp_size,
        },
    )
}

/// The size advertised by the first OPT record among `n` records from
/// `offset` on, 512 where there is none or a record before it is broken.
pub open spec fn first_opt_size(m: Seq<u8>, offset: int, n: nat) -> int
    decreases n,
{
    if n == 0 {
        512
    } else {
        match record_at(m, offset) {
            Some(rr) => if rr.kind == TYPE_OPT {
                clamp_udp(rr.class)
            } else {
                first_opt_size(m, rr.end, (n - 1) as nat)
            },
            None => 512,
        }
    }
}

/// The UDP payload size that the sender of a message takes.
pub open spec fn payload_size(m: Seq<u8>) -> int {
    match questions_end_of(m) {
        Some(start) => if m.len() < HEADER_LEN {
            512
        } else {
            match records_from(m, start, (be16(m, 6) + be16(m, 8)) as nat) {
                Some((_, extra)) => first_opt_size(m, extra, be16(m, 10) as nat),
                None => 512,
            }
        },
        None => 512,
    }
}

/// Extract the client's advertised UDP payload size even when the query must
/// bypass the cache (for example because it carries EDNS COOKIE or padding).
pub fn udp_payload_size(message: &[u8]) -> (r: usize)
    ensures
        r == payload_size(message@),
{
    let start: usize = match questions_end(message) {
        Some(start) => start,
        None => return 512,
    };
    if message.len() < HEADER_LEN {
        return 512;
    }
    let answers: usize = message[6] as usize * 256 + message[7] as usize;
    let authorities: usize = message[8] as usize * 256 + message[9] as usize;
    let additionals: usize = message[10] as usize * 256 + message[11] as usize;
    let mut offset: usize = match skip_records(message, start, answers + authorities) {
        Some(end) => end,
        None => return 512,
    };
    let mut left: usize = additionals;
    while left > 0
        invariant
            payload_size(message@) == first_opt_size(message@, offset as int, left as nat),
        decreases left,
    {
        match parse_rr(message, offset) {
            Some(rr) => {
                if rr.kind == TYPE_OPT {
                    return clamp_udp_size(rr.class);
                }
                offset = rr.end;
            },
            None => return 512,
        }
        left = left - 1;
    }
    512
}

// ---------- aging ----------

/// `a - b`, or 0 where that would be negative.
pub open spec fn saturating(a: int, b: int) -> int {
    if a > b {
        a - b
    } else {
        0
    }
}

/// One record's TTL after `elapsed` seconds, written into the message.
pub open spec fn aged_record(m: Seq<u8>, rr: Record, elapsed: int) -> Seq<u8> {
    if rr.kind == TYPE_OPT {
        m
    } else {
        overwrite(m, rr.ttl_offset, be32_bytes(saturating(rr.ttl as int, elapsed) as u32))
    }
}

/// `n` records from `offset` on, aged one after the other, and the offset just
/// past the last of them where none of them was broken.
pub open spec fn aged_from(m: Seq<u8>, offset: int, n: nat, elapsed: int) -> (Seq<u8>, Option<int>)
    decreases n,
{
    if n == 0 {
        (m, Some(offset))
    } else {
        match record_at(m, offset) {
            Some(rr) => aged_from(aged_record(m, rr, elapsed), rr.end, (n - 1) as nat, elapsed),
            None => (m, None),
        }
    }
}

/// A message after `elapsed` seconds, and whether all of it could be aged.
pub open spec fn aged(m: Seq<u8>, elapsed: int) -> (Seq<u8>, bool) {
    match (questions_end_of(m), record_total(m)) {
        (Some(start), Some(n)) => {
            let (out, end) = aged_from(m, start, n as nat, elapsed);
            (out, end == Some(m.len() as int))
        },
        _ => (m, false),
    }
}

/// Write `value` at `offset`, big-endian.
fn write_u32(message: &mut [u8], offset: usize, value: u32)
    requires
        offset + 4 <= old(message)@.len(),
    ensures
        final(message)@ == overwrite(old(message)@, offset as int, be32_bytes(value)),
{
    message[offset] = (value / 0x100_0000) as u8;
    message[offset + 1] = ((value / 0x1_0000) % 0x100) as u8;
    message[offset + 2] = ((value / 0x100) % 0x100) as u8;
    message[offset + 3] = (value % 0x100) as u8;
    assert(message@ =~= overwrite(old(message)@, offset as int, be32_bytes(value)));
}

/// Decrease every resource-record TTL by the number of whole seconds elapsed.
/// OPT's TTL-shaped field contains EDNS flags and must never be modified.
pub fn adjust_ttls(message: &mut [u8], elapsed_secs: u64) -> (complete: bool)
    ensures
        (final(message)@, complete) == aged(old(message)@, elapsed_secs as int),
{
    if message.len() < HEADER_LEN {
        return false;
    }
    let start: usize = match questions_end(message) {
        Some(start) => start,
        None => return false,
    };
    let count: usize = match total_rr_count(message) {
        Some(count) => count,
        None => return false,
    };
    let elapsed: u32 = if elapsed_secs > 0xffff_ffff {
        0xffff_ffff
    } else {
        elapsed_secs as u32
    };

    let mut offset: usize = start;
    let mut left: usize = count;
    while left > 0
        invariant
            aged_from(old(message)@, start as int, count as nat, elapsed_secs as int) == aged_from(
                message@,
                offset as int,
                left as nat,
                elapsed_secs as int,
            ),
            elapsed == if elapsed_secs > 0xffff_ffff {
                0xffff_ffff
            } else {
                elapsed_secs as int
            },
            message@.len() == old(message)@.len(),
            questions_end_of(old(message)@) == Some(start as int),
            record_total(old(message)@) == Some(count as int),
        decreases left,
    {
        let rr: ResourceRecord = match parse_rr(message, offset) {
            Some(rr) => rr,
            None => return false,
        };
        if rr.kind != TYPE_OPT {
            proof {
                lemma_record_layout(message@, offset as int);
            }
            let ttl: u32 = if rr.ttl > elapsed {
                rr.ttl - elapsed
            } else {
                0
            };
            write_u32(message, rr.ttl_offset, ttl);
        }
        offset = rr.end;
        left = left - 1;
    }
    offset == message.len()
}

// ---------- cacheability ----------

/// The MINIMUM field of an SOA record, where its RDATA holds one.
pub open spec fn soa_minimum_of(m: Seq<u8>, rr: Record) -> Option<u32> {
    match name_end(m, rr.rdata_offset) {
        Some(mname_end) => if mname_end <= rr.end {
            match name_end(m, mname_end) {
                Some(rname_end) => if rname_end + 20 <= rr.end {
                    Some(be32(m, rname_end + 16))
                } else {
                    None
                },
                None => None,
            }
        } else {
            None
        },
        None => None,
    }
}

fn soa_minimum(message: &[u8], rr: &ResourceRecord) -> (r: Option<u32>)
    requires
        rr.end <= message@.len(),
        rr.rdata_offset + rr.rdlen == rr.end,
    ensures
        r == soa_minimum_of(message@, rr@),
{
    let mname_end: usize = match skip_name(message, rr.rdata_offset) {
        Some(end) => end,
        None => return None,
    };
    if mname_end > rr.end {
        return None;
    }
    let rname_end: usize = match skip_name(message, mname_end) {
        Some(end) => end,
        None => return None,
    };
    // SERIAL, REFRESH, RETRY, EXPIRE, MINIMUM.
    if rname_end > rr.end || rr.end - rname_end < 20 {
        return None;
    }
    read_u32(message, rname_end + 16)
}

/// The smaller of two numbers, the first of which may be missing.
pub open spec fn least(a: Option<u32>, b: u32) -> u32 {
    match a {
        Some(x) => if x < b {
            x
        } else {
            b
        },
        None => b,
    }
}

/// The smallest TTL among the records.
pub open spec fn min_ttl(rrs: Seq<Record>) -> Option<u32>
    decreases rrs.len(),
{
    if rrs.len() == 0 {
        None
    } else {
        Some(least(min_ttl(rrs.drop_last()), rrs.last().ttl))
    }
}

/// The smallest negative-caching TTL, min(TTL, MINIMUM), that the SOA records
/// among the records give.
pub open spec fn min_soa(m: Seq<u8>, rrs: Seq<Record>) -> Option<u32>
    decreases rrs.len(),
{
    if rrs.len() == 0 {
        None
    } else {
        let before = min_soa(m, rrs.drop_last());
        match soa_minimum_of(m, rrs.last()) {
            Some(minimum) => if rrs.last().kind == TYPE_SOA {
                Some(least(before, least(Some(rrs.last().ttl), minimum)))
            } else {
                before
            },
            None => before,
        }
    }
}

/// Whether some record has the type `kind`.
pub open spec fn has_kind(rrs: Seq<Record>, kind: u16) -> bool {
    exists|i: int| 0 <= i < rrs.len() && (#[trigger] rrs[i]).kind == kind
}

/// Whether every SOA record has a readable MINIMUM.
pub open spec fn soas_complete(m: Seq<u8>, rrs: Seq<Record>) -> bool {
    forall|i: int|
        0 <= i < rrs.len() && (#[trigger] rrs[i]).kind == TYPE_SOA ==> soa_minimum_of(m, rrs[i])
            is Some
}

/// `v` held to `lo..=hi`.
pub open spec fn clamp_to(v: u32, lo: u32, hi: u32) -> u32 {
    if v < lo {
        lo
    } else if v > hi {
        hi
    } else {
        v
    }
}

/// A response that may be cached at all: an untruncated response with
/// NOERROR or NXDOMAIN.
pub open spec fn is_final_response(m: Seq<u8>) -> bool {
    &&& m.len() >= HEADER_LEN
    &&& m[2] & 0x80 != 0
    &&& m[2] & 0x02 == 0
    &&& m[3] & 0x0f == 0 || m[3] & 0x0f == 3
}

/// How long a response with these answer and authority records stays fresh.
pub open spec fn freshness(
    m: Seq<u8>,
    query_type: u16,
    answers: Seq<Record>,
    authorities: Seq<Record>,
) -> Option<u32> {
    let positive = min_ttl(answers + authorities);
    let soa = min_soa(m, authorities);
    if m[3] & 0x0f == 3 || soa is Some && !has_kind(answers, query_type) {
        match (soa, positive) {
            (Some(s), Some(p)) => Some(
                clamp_to(
                    if has_kind(answers, TYPE_CNAME) {
                        least(Some(s), p)
                    } else {
                        s
                    },
                    60,
                    600,
                ),
            ),
            _ => None,
        }
    } else {
        match positive {
            Some(p) => if p > 0 {
                Some(clamp_to(p, 0, 86_400))
            } else {
                None
            },
            None => None,
        }
    }
}

/// How long a response is safe to cache, where it is at all.
pub open spec fn cache_ttl_of(m: Seq<u8>, query_type: u16) -> Option<u32> {
    if !is_final_response(m) {
        None
    } else {
        match questions_end_of(m) {
            Some(start) => match records_from(m, start, record_total(m)->0 as nat) {
                Some((rrs, end)) => {
                    let an = be16(m, 6) as int;
                    let ns = be16(m, 8) as int;
                    if end == m.len() && soas_complete(m, rrs.subrange(an, an + ns)) {
                        freshness(m, query_type, rrs.subrange(0, an), rrs.subrange(an, an + ns))
                    } else {
                        None
                    }
                },
                None => None,
            },
            None => None,
        }
    }
}

/// The first `k` of `n` records are those of a run of `k`.
proof fn lemma_records_take(m: Seq<u8>, offset: int, n: nat, k: nat)
    requires
        k <= n,
        records_from(m, offset, n) is Some,
    ensures
        records_from(m, offset, k) is Some,
        (records_from(m, offset, k)->0).0 == (records_from(m, offset, n)->0).0.take(k as int),
        (records_from(m, offset, n)->0).0.len() == n,
    decreases n - k,
{
    lemma_records_len(m, offset, n);
    let full = (records_from(m, offset, n)->0).0;
    if k == n {
        assert(full.take(k as int) =~= full);
    } else {
        lemma_records_take(m, offset, n, k + 1);
        lemma_records_extend(m, offset, k);
        lemma_records_len(m, offset, k);
        let shorter = (records_from(m, offset, k)->0).0;
        assert(shorter =~= full.take(k as int + 1).drop_last());
        assert(full.take(k as int + 1).drop_last() =~= full.take(k as int));
    }
}

/// Determine how long a successful response is safe to cache.
///
/// Positive answers use the minimum answer/authority TTL, capped at one day.
/// NXDOMAIN/NODATA uses RFC 2308's min(SOA TTL, SOA.MINIMUM), clamped to the
/// project's 60–600 second negative-cache window.
pub fn cache_ttl(message: &[u8], query_type: u16) -> (ttl: Option<u32>)
    ensures
        ttl == cache_ttl_of(message@, query_type),
{
    if message.len() < HEADER_LEN || message[2] & 0x80 == 0 || message[2] & 0x02 != 0 {
        return None;
    }
    let rcode: u8 = message[3] & 0x0f;
    if rcode != 0 && rcode != 3 {
        return None;
    }
    let answers: usize = message[6] as usize * 256 + message[7] as usize;
    let authorities: usize = message[8] as usize * 256 + message[9] as usize;
    let additionals: usize = message[10] as usize * 256 + message[11] as usize;
    let total: usize = answers + authorities + additionals;
    let start: usize = match questions_end(message) {
        Some(start) => start,
        None => return None,
    };
    let ghost m = message@;
    let ghost mut rrs: Seq<Record> = Seq::empty();
    let mut offset: usize = start;
    let mut index: usize = 0;
    let mut positive_min: Option<u32> = None;
    let mut has_requested_answer: bool = false;
    let mut has_cname: bool = false;

    while index < answers
        invariant
            m == message@,
            index <= answers <= total,
            records_from(m, start as int, index as nat) == Some((rrs, offset as int)),
            rrs.len() == index,
            positive_min == min_ttl(rrs),
            has_requested_answer == has_kind(rrs, query_type),
            has_cname == has_kind(rrs, TYPE_CNAME),
            is_final_response(m),
            questions_end_of(m) == Some(start as int),
            record_total(m) == Some(total as int),
        decreases answers - index,
    {
        proof {
            lemma_records_extend(m, start as int, index as nat);
        }
        let rr: ResourceRecord = match parse_rr(message, offset) {
            Some(rr) => rr,
            None => {
                proof {
                    lemma_records_prefix(m, start as int, total as nat, (index + 1) as nat);
                }
                return None;
            },
        };
        proof {
            assert(rrs.push(rr@).drop_last() =~= rrs);
            lemma_has_kind_push(rrs, rr@, query_type);
            lemma_has_kind_push(rrs, rr@, TYPE_CNAME);
            rrs = rrs.push(rr@);
        }
        positive_min = Some(lesser(positive_min, rr.ttl));
        has_requested_answer = has_requested_answer || rr.kind == query_type;
        has_cname = has_cname || rr.kind == TYPE_CNAME;
        offset = rr.end;
        index = index + 1;
    }

    let ghost answer_rrs = rrs;
    let mut soa_min: Option<u32> = None;
    while index < answers + authorities
        invariant
            m == message@,
            answers <= index <= answers + authorities <= total,
            total <= 3 * 0xffff,
            answers == be16(m, 6),
            authorities == be16(m, 8),
            records_from(m, start as int, index as nat) == Some((rrs, offset as int)),
            rrs.len() == index,
            answer_rrs == rrs.take(answers as int),
            positive_min == min_ttl(rrs),
            soa_min == min_soa(m, rrs.subrange(answers as int, index as int)),
            soas_complete(m, rrs.subrange(answers as int, index as int)),
            is_final_response(m),
            questions_end_of(m) == Some(start as int),
            record_total(m) == Some(total as int),
        decreases answers + authorities - index,
    {
        proof {
            lemma_records_extend(m, start as int, index as nat);
            lemma_record_layout(m, offset as int);
        }
        let rr: ResourceRecord = match parse_rr(message, offset) {
            Some(rr) => rr,
            None => {
                proof {
                    lemma_records_prefix(m, start as int, total as nat, (index + 1) as nat);
                }
                return None;
            },
        };
        proof {
            let before = rrs.subrange(answers as int, index as int);
            let after = rrs.push(rr@).subrange(answers as int, index + 1);
            assert(after.drop_last() =~= before);
            assert(after =~= before.push(rr@));
            assert(rrs.push(rr@).drop_last() =~= rrs);
            assert(rrs.push(rr@).take(answers as int) =~= answer_rrs);
        }
        if rr.kind == TYPE_SOA {
            let minimum: u32 = match soa_minimum(message, &rr) {
                Some(minimum) => minimum,
                None => {
                    proof {
                        if records_from(m, start as int, total as nat) is Some {
                            lemma_records_take(m, start as int, total as nat, (index + 1) as nat);
                            let full = (records_from(m, start as int, total as nat)->0).0;
                            let part = full.subrange(answers as int, answers + authorities);
                            assert(full.take(index + 1)[index as int] == rr@);
                            assert(part[index - answers] == rr@);
                        }
                    }
                    return None;
                },
            };
            soa_min = Some(lesser(soa_min, lesser(Some(rr.ttl), minimum)));
        }
        proof {
            rrs = rrs.push(rr@);
        }
        positive_min = Some(lesser(positive_min, rr.ttl));
        offset = rr.end;
        index = index + 1;
    }

    let ghost head = rrs;
    proof {
        assert(head.take(answers as int) + head.subrange(answers as int, answers + authorities)
            =~= head);
    }
    while index < total
        invariant
            m == message@,
            answers + authorities <= index <= total,
            records_from(m, start as int, index as nat) == Some((rrs, offset as int)),
            rrs.len() == index,
            head == rrs.take(answers + authorities),
            is_final_response(m),
            questions_end_of(m) == Some(start as int),
            record_total(m) == Some(total as int),
        decreases total - index,
    {
        proof {
            lemma_records_extend(m, start as int, index as nat);
        }
        let rr: ResourceRecord = match parse_rr(message, offset) {
            Some(rr) => rr,
            None => {
                proof {
                    lemma_records_prefix(m, start as int, total as nat, (index + 1) as nat);
                }
                return None;
            },
        };
        proof {
            assert(rrs.push(rr@).take(answers + authorities) =~= head);
            rrs = rrs.push(rr@);
        }
        offset = rr.end;
        index = index + 1;
    }
    if offset != message.len() {
        return None;
    }
    proof {
        assert(rrs.subrange(0, answers as int) =~= answer_rrs);
        assert(rrs.subrange(answers as int, answers + authorities) =~= head.subrange(
            answers as int,
            answers + authorities,
        ));
    }

    if rcode == 3 || (soa_min.is_some() && !has_requested_answer) {
        let soa: u32 = match soa_min {
            Some(soa) => soa,
            None => return None,
        };
        let positive: u32 = match positive_min {
            Some(positive) => positive,
            None => return None,
        };
        let ttl: u32 = if has_cname && positive < soa {
            positive
        } else {
            soa
        };
        return Some(
            if ttl < 60 {
                60
            } else if ttl > 600 {
                600
            } else {
                ttl
            },
        );
    }
    match positive_min {
        Some(ttl) => if ttl == 0 {
            None
        } else if ttl > 86_400 {
            Some(86_400)
        } else {
            Some(ttl)
        },
        None => None,
    }
}

fn lesser(a: Option<u32>, b: u32) -> (r: u32)
    ensures
        r == least(a, b),
{
    match a {
        Some(x) => if x < b {
            x
        } else {
            b
        },
        None => b,
    }
}

proof fn lemma_has_kind_push(rrs: Seq<Record>, rr: Record, kind: u16)
    ensures
        has_kind(rrs.push(rr), kind) == (has_kind(rrs, kind) || rr.kind == kind),
{
    let longer = rrs.push(rr);
    if has_kind(rrs, kind) {
        let i = choose|i: int| 0 <= i < rrs.len() && (#[trigger] rrs[i]).kind == kind;
        assert(longer[i] == rrs[i]);
    }
    if rr.kind == kind {
        assert(longer[rrs.len() as int] == rr);
    }
    if has_kind(longer, kind) {
        let i = choose|i: int| 0 <= i < longer.len() && (#[trigger] longer[i]).kind == kind;
        if i < rrs.len() {
            assert(rrs[i] == longer[i]);
        }
    }
}

// ---------- truncation ----------

/// A message with TC set and its record sections emptied.
pub open spec fn marked_truncated(m: Seq<u8>) -> Seq<u8> {
    overwrite(m.update(2, m[2] | 0x02), 6, seq![0u8, 0, 0, 0, 0, 0])
}

/// What is left of a message that may take at most `limit` bytes: all of it
/// where it fits, else its header and questions, else its header alone.
pub open spec fn truncated(m: Seq<u8>, limit: int) -> Seq<u8> {
    if m.len() <= limit || m.len() < HEADER_LEN {
        m
    } else {
        let marked = marked_truncated(m);
        match questions_end_of(marked) {
            Some(end) if end <= limit => marked.take(end),
            _ => overwrite(marked, 4, seq![0u8, 0]).take(HEADER_LEN as int),
        }
    }
}

/// Truncate an oversized UDP response to its header and question section and
/// set TC so a conforming client retries over TCP.
pub fn truncate_to(message: &mut Vec<u8>, limit: usize)
    ensures
        final(message)@ == truncated(old(message)@, limit as int),
{
    if message.len() <= limit || message.len() < HEADER_LEN {
        return ;
    }
    let flags: u8 = message[2] | 0x02;
    message.set(2, flags);
    message.set(6, 0);
    message.set(7, 0);
    message.set(8, 0);
    message.set(9, 0);
    message.set(10, 0);
    message.set(11, 0);
    assert(message@ =~= marked_truncated(old(message)@));
    match questions_end(message.as_slice()) {
        Some(end) if end <= limit => {
            message.truncate(end);
        },
        _ => {
            message.set(4, 0);
            message.set(5, 0);
            assert(message@ =~= overwrite(marked_truncated(old(message)@), 4, seq![0u8, 0]));
            message.truncate(HEADER_LEN);
        },
    }
}

/// A truncated message keeps to the limit, as far as a whole header does; it
/// keeps its ID, says that it was truncated and announces no records. One that
/// fits is left alone.
pub proof fn law_truncation(m: Seq<u8>, limit: int)
    ensures
        ({
            let out = truncated(m, limit);
            &&& m.len() <= limit ==> out == m
            &&& out.len() <= limit || out.len() <= HEADER_LEN
            &&& m.len() >= 2 ==> out.take(2) == m.take(2)
            &&& m.len() > limit && m.len() >= HEADER_LEN ==> {
                &&& out.len() >= HEADER_LEN
                &&& out[2] & 0x02 != 0
                &&& record_total(out) == Some(0int)
            }
        }),
{
    let out = truncated(m, limit);
    if m.len() > limit && m.len() >= HEADER_LEN {
        let marked = marked_truncated(m);
        lemma_questions_from_bounds(marked, HEADER_LEN as int, be16(marked, 4) as nat);
        let flags = m[2];
        assert((flags | 0x02) & 0x02 != 0) by (bit_vector);
        assert(out.take(2) =~= m.take(2));
    }
}

/// The question section ends where it starts, or past that and inside the
/// message.
pub proof fn lemma_questions_from_bounds(m: Seq<u8>, offset: int, n: nat)
    ensures
        questions_from(m, offset, n) matches Some(end) ==> end == offset || offset < end <= m.len(),
    decreases n,
{
    if n > 0 {
        lemma_name_end(m, offset, 0, 0);
        if let Some(end) = name_end(m, offset) {
            lemma_questions_from_bounds(m, end + 4, (n - 1) as nat);
        }
    }
}

// ---------- what aging changes ----------

/// The big-endian bytes of a number read back as that number.
pub proof fn lemma_be32_round_trip(m: Seq<u8>, i: int, v: u32)
    requires
        0 <= i,
        i + 4 <= m.len(),
    ensures
        be32(overwrite(m, i, be32_bytes(v)), i) == v,
{
    let out = overwrite(m, i, be32_bytes(v));
    assert(out[i] == (v / 0x100_0000) as u8);
    assert(out[i + 1] == ((v / 0x1_0000) % 0x100) as u8);
    assert(out[i + 2] == ((v / 0x100) % 0x100) as u8);
    assert(out[i + 3] == (v % 0x100) as u8);
    assert(v == (v / 0x100_0000) * 0x100_0000 + ((v / 0x1_0000) % 0x100) * 0x1_0000 + ((v / 0x100)
        % 0x100) * 0x100 + (v % 0x100));
}

/// Aging keeps the length of a message and every byte up to the first record.
pub proof fn lemma_aged_prefix(m: Seq<u8>, offset: int, n: nat, elapsed: int)
    ensures
        ({
            let out = aged_from(m, offset, n, elapsed).0;
            &&& out.len() == m.len()
            &&& forall|k: int| 0 <= k < m.len() && k <= offset ==> out[k] == m[k]
        }),
    decreases n,
{
    if n > 0 {
        lemma_record_layout(m, offset);
        if let Some(rr) = record_at(m, offset) {
            lemma_aged_prefix(aged_record(m, rr, elapsed), rr.end, (n - 1) as nat, elapsed);
        }
    }
}

/// Aging never touches the header or the question section, whatever the
/// message holds, and keeps its length.
pub proof fn law_aging_keeps_the_question(m: Seq<u8>, elapsed: int)
    ensures
        aged(m, elapsed).0.len() == m.len(),
        questions_end_of(m) matches Some(start) ==> forall|k: int|
            0 <= k < m.len() && k < start ==> aged(m, elapsed).0[k] == m[k],
{
    if let (Some(start), Some(n)) = (questions_end_of(m), record_total(m)) {
        lemma_aged_prefix(m, start, n as nat, elapsed);
    }
}

/// The offsets of the length and pointer bytes that decide where a name ends.
pub open spec fn name_steps(m: Seq<u8>, cursor: int, jumps: nat, taken: nat) -> Set<int>
    decreases (MAX_JUMPS - jumps) + (MAX_NAME_LEN - taken),
{
    if !(0 <= cursor < m.len()) || jumps > MAX_JUMPS || taken >= MAX_NAME_LEN {
        Set::empty()
    } else if m[cursor] >= 0xc0 {
        if cursor + 1 >= m.len() || jumps >= MAX_JUMPS {
            set![cursor]
        } else {
            name_steps(
                m,
                (m[cursor] - 0xc0) * 256 + m[cursor + 1],
                jumps + 1,
                taken,
            ).insert(cursor).insert(cursor + 1)
        }
    } else if m[cursor] >= 0x40 || m[cursor] == 0 || taken + 1 + m[cursor] >= MAX_NAME_LEN {
        set![cursor]
    } else {
        name_steps(m, cursor + 1 + m[cursor], jumps, (taken + 1 + m[cursor]) as nat).insert(cursor)
    }
}

/// Two messages of one length that agree on the steps of a name agree on where
/// it ends.
pub proof fn lemma_name_steps(m: Seq<u8>, o: Seq<u8>, cursor: int, jumps: nat, taken: nat)
    requires
        m.len() == o.len(),
        forall|k: int| #[trigger] name_steps(m, cursor, jumps, taken).contains(k) ==> o[k] == m[k],
    ensures
        name_from(m, cursor, jumps, taken) is Some <==> name_from(o, cursor, jumps, taken) is Some,
        name_from(m, cursor, jumps, taken) is Some ==> (name_from(m, cursor, jumps, taken)->0).1 == (
        name_from(o, cursor, jumps, taken)->0).1,
    decreases (MAX_JUMPS - jumps) + (MAX_NAME_LEN - taken),
{
    let steps = name_steps(m, cursor, jumps, taken);
    if 0 <= cursor < m.len() && jumps <= MAX_JUMPS && taken < MAX_NAME_LEN {
        assert(steps.contains(cursor));
        if m[cursor] >= 0xc0 {
            if cursor + 1 < m.len() && jumps < MAX_JUMPS {
                assert(steps.contains(cursor + 1));
                let pointer = (m[cursor] - 0xc0) * 256 + m[cursor + 1];
                assert forall|k: int| #[trigger]
                    name_steps(m, pointer, jumps + 1, taken).contains(k) implies o[k] == m[k] by {
                    assert(steps.contains(k));
                }
                lemma_name_steps(m, o, pointer, jumps + 1, taken);
            }
        } else if m[cursor] < 0x40 && m[cursor] != 0 && taken + 1 + m[cursor] < MAX_NAME_LEN {
            let next = cursor + 1 + m[cursor];
            let more = (taken + 1 + m[cursor]) as nat;
            assert forall|k: int| #[trigger]
                name_steps(m, next, jumps, more).contains(k) implies o[k] == m[k] by {
                assert(steps.contains(k));
            }
            lemma_name_steps(m, o, next, jumps, more);
        }
    }
}

/// Whether the byte at `k` belongs to a TTL that aging rewrites.
#[verifier::opaque]
pub open spec fn is_ttl_byte(rrs: Seq<Record>, k: int) -> bool {
    exists|i: int|
        0 <= i < rrs.len() && (#[trigger] rrs[i]).kind != TYPE_OPT && rrs[i].ttl_offset <= k
            < rrs[i].ttl_offset + 4
}

/// Where the record `i` of a run that starts at `start` begins.
pub open spec fn record_start(rrs: Seq<Record>, start: int, i: int) -> int {
    if i == 0 {
        start
    } else {
        rrs[i - 1].end
    }
}

/// Whether no owner name leads through a TTL that aging rewrites.
pub open spec fn names_avoid_ttls(m: Seq<u8>, start: int, rrs: Seq<Record>) -> bool {
    forall|i: int, k: int|
        0 <= i < rrs.len() && #[trigger] name_steps(m, record_start(rrs, start, i), 0, 0).contains(k)
            ==> !is_ttl_byte(rrs, k)
}

/// The records of a run lie one behind the other.
pub proof fn lemma_records_chain(m: Seq<u8>, start: int, n: nat)
    requires
        records_from(m, start, n) is Some,
    ensures
        ({
            let (rrs, end) = records_from(m, start, n)->0;
            &&& rrs.len() == n
            &&& end == record_start(rrs, start, n as int)
            &&& forall|i: int|
                0 <= i < n ==> record_at(m, record_start(rrs, start, i)) == Some(#[trigger] rrs[i])
            &&& forall|i: int, j: int|
                0 <= i < j < n ==> (#[trigger] rrs[i]).end < (#[trigger] rrs[j]).ttl_offset - 4
            &&& forall|i: int|
                0 <= i < n ==> start < (#[trigger] rrs[i]).ttl_offset - 4 && 0 < rrs[i].ttl_offset
            &&& forall|i: int|
                0 <= i < n ==> (#[trigger] rrs[i]).ttl_offset + 6 <= rrs[i].end <= m.len()
        }),
    decreases n,
{
    if n > 0 {
        let rr = record_at(m, start)->0;
        lemma_record_layout(m, start);
        lemma_records_chain(m, rr.end, (n - 1) as nat);
        let (rest, end) = records_from(m, rr.end, (n - 1) as nat)->0;
        let rrs = (records_from(m, start, n)->0).0;
        assert(rrs == seq![rr] + rest);
        assert forall|i: int| 0 <= i < n implies record_at(m, record_start(rrs, start, i)) == Some(
            #[trigger] rrs[i],
        ) by {
            if i > 0 {
                assert(rrs[i] == rest[i - 1]);
                assert(record_start(rrs, start, i) == record_start(rest, rr.end, i - 1));
            }
        }
        assert forall|i: int, j: int| 0 <= i < j < n implies (#[trigger] rrs[i]).end < (
        #[trigger] rrs[j]).ttl_offset - 4 by {
            assert(rrs[j] == rest[j - 1]);
            if i > 0 {
                assert(rrs[i] == rest[i - 1]);
            }
        }
        assert forall|i: int| 0 <= i < n implies start < (#[trigger] rrs[i]).ttl_offset - 4 && 0
            < rrs[i].ttl_offset by {
            if i > 0 {
                assert(rrs[i] == rest[i - 1]);
            }
        }
        assert forall|i: int| 0 <= i < n implies (#[trigger] rrs[i]).ttl_offset + 6 <= rrs[i].end
            <= m.len() by {
            if i > 0 {
                assert(rrs[i] == rest[i - 1]);
            }
        }
    }
}

/// A message that differs from `m` in aged TTLs only still holds the record
/// `j` of `m`, up to its TTL.
#[verifier::rlimit(40)]
#[verifier::spinoff_prover]
proof fn lemma_record_survives(m: Seq<u8>, o: Seq<u8>, start: int, n: nat, j: int)
    requires
        records_from(m, start, n) is Some,
        0 <= j < n,
        m.len() == o.len(),
        names_avoid_ttls(m, start, (records_from(m, start, n)->0).0),
        forall|k: int|
            0 <= k < m.len() && !is_ttl_byte((records_from(m, start, n)->0).0, k) ==> o[k] == m[k],
    ensures
        ({
            let rr = (records_from(m, start, n)->0).0[j];
            record_at(o, record_start((records_from(m, start, n)->0).0, start, j)) == Some(
                Record { ttl: be32(o, rr.ttl_offset), ..rr },
            )
        }),
{
    let rrs = (records_from(m, start, n)->0).0;
    let offset = record_start(rrs, start, j);
    lemma_records_chain(m, start, n);
    let rr = rrs[j];
    assert(record_at(m, offset) == Some(rr));
    lemma_record_layout(m, offset);
    assert forall|k: int| #[trigger] name_steps(m, offset, 0, 0).contains(k) implies o[k]
        == m[k] by {
        assert(!is_ttl_byte(rrs, k));
        lemma_name_steps_inside(m, offset, 0, 0);
    }
    lemma_name_steps(m, o, offset, 0, 0);
    assert forall|k: int|
        rr.ttl_offset - 4 <= k < rr.ttl_offset || rr.ttl_offset + 4 <= k < rr.ttl_offset
            + 6 implies o[k] == m[k] by {
        reveal(is_ttl_byte);
        if is_ttl_byte(rrs, k) {
            let i = choose|i: int|
                0 <= i < rrs.len() && (#[trigger] rrs[i]).kind != TYPE_OPT && rrs[i].ttl_offset <= k
                    < rrs[i].ttl_offset + 4;
            if i < j {
                assert(rrs[i].end < rrs[j].ttl_offset - 4);
            } else if i > j {
                assert(rrs[j].end < rrs[i].ttl_offset - 4);
            }
        }
    }
}

/// The steps of a name lie inside the message.
pub proof fn lemma_name_steps_inside(m: Seq<u8>, cursor: int, jumps: nat, taken: nat)
    ensures
        forall|k: int| #[trigger]
            name_steps(m, cursor, jumps, taken).contains(k) ==> 0 <= k < m.len(),
    decreases (MAX_JUMPS - jumps) + (MAX_NAME_LEN - taken),
{
    if 0 <= cursor < m.len() && jumps <= MAX_JUMPS && taken < MAX_NAME_LEN {
        let (next, jumped, more) = if m[cursor] >= 0xc0 {
            ((m[cursor] - 0xc0) * 256 + m[cursor + 1], jumps + 1, taken)
        } else {
            (cursor + 1 + m[cursor], jumps, (taken + 1 + m[cursor]) as nat)
        };
        let steps = name_steps(m, cursor, jumps, taken);
        if steps != set![cursor] {
            lemma_name_steps_inside(m, next, jumped, more);
            let rest = name_steps(m, next, jumped, more);
            assert forall|k: int| #[trigger] steps.contains(k) implies 0 <= k < m.len() by {
                assert(k == cursor || k == cursor + 1 || rest.contains(k));
            }
        } else {
            assert forall|k: int| #[trigger] steps.contains(k) implies 0 <= k < m.len() by {
                assert(k == cursor);
            }
        }
    }
}

/// A record after `elapsed` seconds.
pub open spec fn older(rr: Record, elapsed: int) -> Record {
    if rr.kind == TYPE_OPT {
        rr
    } else {
        Record { ttl: saturating(rr.ttl as int, elapsed) as u32, ..rr }
    }
}

/// `o` is `m` with the first `j` of the records `rrs` aged.
#[verifier::opaque]
pub open spec fn aged_up_to(m: Seq<u8>, o: Seq<u8>, rrs: Seq<Record>, j: int, elapsed: int) -> bool {
    &&& o.len() == m.len()
    &&& forall|k: int| 0 <= k < m.len() && !is_ttl_byte(rrs.take(j), k) ==> o[k] == m[k]
    &&& forall|i: int|
        0 <= i < j ==> be32(o, (#[trigger] rrs[i]).ttl_offset) == older(rrs[i], elapsed).ttl
}

proof fn lemma_ttl_bytes_of_first(rrs: Seq<Record>, j: int, k: int)
    requires
        0 <= j < rrs.len(),
    ensures
        is_ttl_byte(rrs.take(j), k) ==> is_ttl_byte(rrs, k),
        is_ttl_byte(rrs.take(j), k) ==> exists|i: int|
            0 <= i < j && (#[trigger] rrs[i]).ttl_offset <= k < rrs[i].ttl_offset + 4,
        is_ttl_byte(rrs.take(j + 1), k) <==> is_ttl_byte(rrs.take(j), k) || rrs[j].kind != TYPE_OPT
            && rrs[j].ttl_offset <= k < rrs[j].ttl_offset + 4,
{
    reveal(is_ttl_byte);
    let part = rrs.take(j);
    let more = rrs.take(j + 1);
    if is_ttl_byte(part, k) {
        let i = choose|i: int|
            0 <= i < part.len() && (#[trigger] part[i]).kind != TYPE_OPT && part[i].ttl_offset <= k
                < part[i].ttl_offset + 4;
        assert(rrs[i] == part[i]);
        assert(more[i] == part[i]);
    }
    if rrs[j].kind != TYPE_OPT && rrs[j].ttl_offset <= k < rrs[j].ttl_offset + 4 {
        assert(more[j] == rrs[j]);
    }
    if is_ttl_byte(more, k) {
        let i = choose|i: int|
            0 <= i < more.len() && (#[trigger] more[i]).kind != TYPE_OPT && more[i].ttl_offset <= k
                < more[i].ttl_offset + 4;
        if i < j {
            assert(part[i] == more[i]);
        }
    }
}

proof fn lemma_aged_bytes(m: Seq<u8>, o: Seq<u8>, rrs: Seq<Record>, j: int, elapsed: int)
    requires
        0 <= j < rrs.len(),
        0 <= elapsed,
        aged_up_to(m, o, rrs, j, elapsed),
        forall|i: int|
            0 <= i < j ==> 0 <= (#[trigger] rrs[i]).ttl_offset && rrs[i].ttl_offset + 6
                <= rrs[i].end < rrs[j].ttl_offset,
        0 <= rrs[j].ttl_offset,
        rrs[j].ttl_offset + 4 <= m.len(),
        rrs[j].ttl == be32(m, rrs[j].ttl_offset),
    ensures
        forall|k: int| 0 <= k < m.len() && !is_ttl_byte(rrs, k) ==> o[k] == m[k],
        be32(o, rrs[j].ttl_offset) == rrs[j].ttl,
        aged_up_to(m, aged_record(o, rrs[j], elapsed), rrs, j + 1, elapsed),
{
    reveal(aged_up_to);
    let rr = rrs[j];
    let next = aged_record(o, rr, elapsed);
    assert forall|k: int| 0 <= k < m.len() && !is_ttl_byte(rrs, k) implies o[k] == m[k] by {
        lemma_ttl_bytes_of_first(rrs, j, k);
    }
    assert forall|k: int| rr.ttl_offset <= k < rr.ttl_offset + 4 implies o[k] == m[k] by {
        lemma_ttl_bytes_of_first(rrs, j, k);
    }
    if rr.kind != TYPE_OPT {
        lemma_be32_round_trip(o, rr.ttl_offset, older(rr, elapsed).ttl);
    }
    assert forall|k: int| 0 <= k < m.len() && !is_ttl_byte(rrs.take(j + 1), k) implies next[k]
        == m[k] by {
        lemma_ttl_bytes_of_first(rrs, j, k);
    }
    assert forall|i: int| 0 <= i < j + 1 implies be32(next, (#[trigger] rrs[i]).ttl_offset) == older(
        rrs[i],
        elapsed,
    ).ttl by {
        if i < j {
            assert(rrs[i].end < rrs[j].ttl_offset);
        }
    }
}

#[verifier::rlimit(40)]
#[verifier::spinoff_prover]
proof fn lemma_aged_step(m: Seq<u8>, o: Seq<u8>, start: int, n: nat, j: int, elapsed: int)
    requires
        records_from(m, start, n) is Some,
        0 <= j < n,
        0 <= elapsed,
        names_avoid_ttls(m, start, (records_from(m, start, n)->0).0),
        aged_up_to(m, o, (records_from(m, start, n)->0).0, j, elapsed),
    ensures
        ({
            let rrs = (records_from(m, start, n)->0).0;
            &&& record_at(o, record_start(rrs, start, j)) == Some(rrs[j])
            &&& aged_up_to(m, aged_record(o, rrs[j], elapsed), rrs, j + 1, elapsed)
        }),
{
    let rrs = (records_from(m, start, n)->0).0;
    lemma_records_chain(m, start, n);
    assert(record_at(m, record_start(rrs, start, j)) == Some(rrs[j]));
    lemma_record_layout(m, record_start(rrs, start, j));
    assert(o.len() == m.len()) by {
        reveal(aged_up_to);
    }
    lemma_aged_bytes(m, o, rrs, j, elapsed);
    lemma_record_survives(m, o, start, n, j);
}

pub proof fn lemma_aged_run(m: Seq<u8>, o: Seq<u8>, start: int, n: nat, j: int, elapsed: int)
    requires
        records_from(m, start, n) is Some,
        0 <= j <= n,
        0 <= elapsed,
        names_avoid_ttls(m, start, (records_from(m, start, n)->0).0),
        aged_up_to(m, o, (records_from(m, start, n)->0).0, j, elapsed),
    ensures
        ({
            let (rrs, end) = records_from(m, start, n)->0;
            let (out, out_end) = aged_from(o, record_start(rrs, start, j), (n - j) as nat, elapsed);
            &&& out_end == Some(end)
            &&& aged_up_to(m, out, rrs, n as int, elapsed)
        }),
    decreases n - j,
{
    let rrs = (records_from(m, start, n)->0).0;
    lemma_records_chain(m, start, n);
    if j < n {
        lemma_aged_step(m, o, start, n, j, elapsed);
        lemma_aged_run(m, aged_record(o, rrs[j], elapsed), start, n, j + 1, elapsed);
    }
}

/// Aging a message whose records are all readable succeeds, and it takes
/// `elapsed` seconds off the TTL of every record, never below zero, except
/// for OPT records; nothing else in the message changes. Left out are messages
/// with an owner name that leads, through a compression pointer, into the TTL
/// of a record.
pub proof fn law_aging(m: Seq<u8>, start: int, n: nat, elapsed: int)
    requires
        questions_end_of(m) == Some(start),
        record_total(m) == Some(n as int),
        records_from(m, start, n) is Some,
        (records_from(m, start, n)->0).1 == m.len(),
        names_avoid_ttls(m, start, (records_from(m, start, n)->0).0),
        0 <= elapsed,
    ensures
        ({
            let rrs = (records_from(m, start, n)->0).0;
            let (out, complete) = aged(m, elapsed);
            &&& complete
            &&& out.len() == m.len()
            &&& forall|k: int| 0 <= k < m.len() && !is_ttl_byte(rrs, k) ==> out[k] == m[k]
            &&& forall|i: int|
                0 <= i < n ==> record_at(out, record_start(rrs, start, i)) == Some(
                    older(#[trigger] rrs[i], elapsed),
                )
        }),
{
    let rrs = (records_from(m, start, n)->0).0;
    lemma_records_chain(m, start, n);
    reveal(aged_up_to);
    lemma_aged_run(m, m, start, n, 0, elapsed);
    let out = aged(m, elapsed).0;
    assert(rrs.take(n as int) =~= rrs);
    assert forall|i: int| 0 <= i < n implies record_at(out, record_start(rrs, start, i)) == Some(
        older(#[trigger] rrs[i], elapsed),
    ) by {
        lemma_record_survives(m, out, start, n, i);
    }
}

// ---------- questions ----------

/// An ordinary query (opcode QUERY, not a response) with more than one
/// question.
pub open spec fn asks_many(m: Seq<u8>) -> bool {
    &&& m.len() >= HEADER_LEN
    &&& be16(m, 2) & 0x8000 == 0
    &&& be16(m, 2) & 0x7800 == 0
    &&& be16(m, 4) > 1
}

/// Whether RFC 9619 makes this query malformed: a QUERY holds at most one
/// question.
pub fn is_multi_question_query(message: &[u8]) -> (r: bool)
    ensures
        r == asks_many(message@),
{
    if message.len() < HEADER_LEN {
        return false;
    }
    let flags: u16 = message[2] as u16 * 256 + message[3] as u16;
    let questions: u16 = message[4] as u16 * 256 + message[5] as u16;
    flags & 0x8000 == 0 && flags & 0x7800 == 0 && questions > 1
}

/// A query with more than one question has no cache metadata.
pub proof fn law_multi_question_queries_bypass_the_cache(m: Seq<u8>)
    requires
        asks_many(m),
    ensures
        query_meta(m) is None,
{
}

/// `n` questions from `offset` on: canonical name, type and class of each.
pub open spec fn question_list(m: Seq<u8>, offset: int, n: nat) -> Option<
    Seq<(Seq<u8>, u16, u16)>,
>
    decreases n,
{
    if n == 0 {
        Some(Seq::empty())
    } else {
        match name_at(m, offset) {
            Some((name, at)) => if at + 4 <= m.len() {
                match question_list(m, at + 4, (n - 1) as nat) {
                    Some(rest) => Some(seq![(name, be16(m, at), be16(m, at + 2))] + rest),
                    None => None,
                }
            } else {
                None
            },
            None => None,
        }
    }
}

/// The question section of a message, where all of it can be read.
pub open spec fn questions_of(m: Seq<u8>) -> Option<Seq<(Seq<u8>, u16, u16)>> {
    if m.len() >= HEADER_LEN {
        question_list(m, HEADER_LEN as int, be16(m, 4) as nat)
    } else {
        None
    }
}

/// Why a message is not an answer to a query.
#[derive(Clone, Copy, Debug, PartialEq, Eq, Structural)]
pub enum ResponseError {
    /// Shorter than a header, or not marked as a response.
    NotAResponse,
    /// One of the two question sections cannot be read, or they differ.
    QuestionMismatch,
}

/// Whether `response` answers `query`: it is a response and echoes the query's
/// question section, names taken without regard to case.
pub open spec fn response_check(query: Seq<u8>, response: Seq<u8>) -> Result<(), ResponseError> {
    if response.len() < HEADER_LEN || response[2] & 0x80 == 0 {
        Err(ResponseError::NotAResponse)
    } else if questions_of(query) is Some && questions_of(query) == questions_of(response) {
        Ok(())
    } else {
        Err(ResponseError::QuestionMismatch)
    }
}

/// Compare two byte strings.
pub fn same_bytes(a: &[u8], b: &[u8]) -> (r: bool)
    ensures
        r == (a@ == b@),
{
    if a.len() != b.len() {
        return false;
    }
    let mut i: usize = 0;
    while i < a.len()
        invariant
            i <= a@.len() == b@.len(),
            a@.take(i as int) == b@.take(i as int),
        decreases a@.len() - i,
    {
        if a[i] != b[i] {
            return false;
        }
        assert(a@.take(i + 1) =~= a@.take(i as int).push(a@[i as int]));
        assert(b@.take(i + 1) =~= b@.take(i as int).push(b@[i as int]));
        i = i + 1;
    }
    assert(a@.take(i as int) =~= a@);
    assert(b@.take(i as int) =~= b@);
    true
}

/// Read one question: canonical name, type, class, and the offset past it.
fn read_question(message: &[u8], offset: usize) -> (r: Option<(Vec<u8>, u16, u16, usize)>)
    ensures
        match name_at(message@, offset as int) {
            Some((name, at)) => if at + 4 <= message@.len() {
                r matches Some((n, t, c, e)) && n@ == name && t == be16(message@, at) && c == be16(
                    message@,
                    at + 2,
                ) && e == at + 4
            } else {
                r is None
            },
            None => r is None,
        },
{
    proof {
        lemma_name_end(message@, offset as int, 0, 0);
    }
    let (name, at): (Vec<u8>, usize) = match read_name(message, offset) {
        Some(found) => found,
        None => return None,
    };
    if message.len() - at < 4 {
        return None;
    }
    let kind: u16 = message[at] as u16 * 256 + message[at + 1] as u16;
    let class: u16 = message[at + 2] as u16 * 256 + message[at + 3] as u16;
    Some((name, kind, class, at + 4))
}

proof fn lemma_question_list_len(m: Seq<u8>, offset: int, n: nat)
    ensures
        question_list(m, offset, n) matches Some(list) ==> list.len() == n,
    decreases n,
{
    if n > 0 {
        if let Some((_, at)) = name_at(m, offset) {
            lemma_question_list_len(m, at + 4, (n - 1) as nat);
        }
    }
}

/// Check that a response echoes the question section of the query (RFC 5452).
/// The message ID is left to the transport.
pub fn validate_response(query: &[u8], response: &[u8]) -> (r: Result<(), ResponseError>)
    ensures
        r == response_check(query@, response@),
{
    if response.len() < HEADER_LEN || response[2] & 0x80 == 0 {
        return Err(ResponseError::NotAResponse);
    }
    if query.len() < HEADER_LEN {
        return Err(ResponseError::QuestionMismatch);
    }
    let asked: u16 = query[4] as u16 * 256 + query[5] as u16;
    let echoed: u16 = response[4] as u16 * 256 + response[5] as u16;
    proof {
        lemma_question_list_len(query@, HEADER_LEN as int, asked as nat);
        lemma_question_list_len(response@, HEADER_LEN as int, echoed as nat);
    }
    if asked != echoed {
        return Err(ResponseError::QuestionMismatch);
    }
    let mut left: u16 = asked;
    let mut at: usize = HEADER_LEN;
    let mut there: usize = HEADER_LEN;
    let ghost same = questions_of(query@) is Some && questions_of(query@) == questions_of(
        response@,
    );
    while left > 0
        invariant
            same == (question_list(query@, at as int, left as nat) is Some && question_list(
                query@,
                at as int,
                left as nat,
            ) == question_list(response@, there as int, left as nat)),
            same == (response_check(query@, response@) is Ok),
            response_check(query@, response@) != Err::<(), ResponseError>(
                ResponseError::NotAResponse,
            ),
        decreases left,
    {
        let (name, kind, class, next): (Vec<u8>, u16, u16, usize) = match read_question(query, at) {
            Some(question) => question,
            None => return Err(ResponseError::QuestionMismatch),
        };
        let (name2, kind2, class2, next2): (Vec<u8>, u16, u16, usize) = match read_question(
            response,
            there,
        ) {
            Some(question) => question,
            None => return Err(ResponseError::QuestionMismatch),
        };
        let ghost rest = question_list(query@, next as int, (left - 1) as nat);
        let ghost rest2 = question_list(response@, next2 as int, (left - 1) as nat);
        let ghost first = (name@, kind, class);
        let ghost first2 = (name2@, kind2, class2);
        proof {
            if rest is Some && rest2 is Some {
                let whole = seq![first] + rest->0;
                let whole2 = seq![first2] + rest2->0;
                assert(whole[0] == first && whole2[0] == first2);
                assert(whole.drop_first() =~= rest->0);
                assert(whole2.drop_first() =~= rest2->0);
            }
        }
        if kind != kind2 || class != class2 || !same_bytes(name.as_slice(), name2.as_slice()) {
            return Err(ResponseError::QuestionMismatch);
        }
        at = next;
        there = next2;
        left = left - 1;
    }
    Ok(())
}

} // verus!
