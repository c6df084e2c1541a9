//! IP and socket addresses as plain values, and their textual forms.

use crate::text::{
    all_digits, chars_of, decimal, digits_value, find_char, find_from, find_text, index_of,
    lemma_index_from, parse_number, show_number, views,
};
use vstd::prelude::*;
use vstd::slice::{slice_subrange, slice_to_vec};
use vstd::string::*;

verus! {

/// An IP address: the four bytes of an IPv4 address or the eight 16-bit groups
/// of an IPv6 address.
#[derive(Clone, Copy, Debug, PartialEq, Eq, Structural)]
pub enum Ip {
    V4(u8, u8, u8, u8),
    V6(u16, u16, u16, u16, u16, u16, u16, u16),
}

/// An IP address and a port.
#[derive(Clone, Copy, Debug, PartialEq, Eq, Structural)]
pub struct Endpoint {
    pub ip: Ip,
    pub port: u16,
}

impl Ip {
    pub open spec fn spec_is_v4(self) -> bool {
        self is V4
    }

    /// 127.0.0.0/8, or ::1.
    pub open spec fn spec_is_loopback(self) -> bool {
        match self {
            Ip::V4(a, _, _, _) => a == 127,
            Ip::V6(..) => self == Ip::V6(0, 0, 0, 0, 0, 0, 0, 1),
        }
    }

    /// 0.0.0.0, or ::.
    pub open spec fn spec_is_unspecified(self) -> bool {
        self == Ip::V4(0, 0, 0, 0) || self == Ip::V6(0, 0, 0, 0, 0, 0, 0, 0)
    }

    /// 224.0.0.0/4, or ff00::/8.
    pub open spec fn spec_is_multicast(self) -> bool {
        match self {
            Ip::V4(a, _, _, _) => 224 <= a <= 239,
            Ip::V6(a, _, _, _, _, _, _, _) => 0xff00 <= a,
        }
    }

    pub fn is_v4(self) -> (r: bool)
        ensures
            r == self.spec_is_v4(),
    {
        match self {
            Ip::V4(..) => true,
            Ip::V6(..) => false,
        }
    }

    pub fn is_loopback(self) -> (r: bool)
        ensures
            r == self.spec_is_loopback(),
    {
        match self {
            Ip::V4(a, _, _, _) => a == 127,
            Ip::V6(..) => self == Ip::V6(0, 0, 0, 0, 0, 0, 0, 1),
        }
    }

    pub fn is_unspecified(self) -> (r: bool)
        ensures
            r == self.spec_is_unspecified(),
    {
        self == Ip::V4(0, 0, 0, 0) || self == Ip::V6(0, 0, 0, 0, 0, 0, 0, 0)
    }

    pub fn is_multicast(self) -> (r: bool)
        ensures
            r == self.spec_is_multicast(),
    {
        match self {
            Ip::V4(a, _, _, _) => 224 <= a && a <= 239,
            Ip::V6(a, _, _, _, _, _, _, _) => 0xff00 <= a,
        }
    }
}

// ---------- reading ----------

/// The parts of a text between the characters `c`.
pub open spec fn parts(s: Seq<char>, c: char) -> Seq<Seq<char>>
    decreases s.len(),
    via parts_decreases
{
    match index_of(s, c) {
        Some(i) => seq![s.take(i)] + parts(s.skip(i + 1), c),
        None => seq![s],
    }
}

#[via_fn]
proof fn parts_decreases(s: Seq<char>, c: char) {
    lemma_index_from(s, c, 0);
}

pub fn split_chars(s: &[char], c: char) -> (out: Vec<Vec<char>>)
    ensures
        views(out@) == parts(s@, c),
        out@.len() > 0,
{
    let mut out: Vec<Vec<char>> = Vec::new();
    let mut rest: &[char] = s;
    proof {
        assert(views(out@) + parts(rest@, c) =~= parts(s@, c));
    }
    loop
        invariant
            views(out@) + parts(rest@, c) == parts(s@, c),
        decreases rest@.len(),
    {
        let ghost before = out@;
        let len: usize = rest.len();
        match find_char(rest, c) {
            Some(i) => {
                let part: Vec<char> = slice_to_vec(slice_subrange(rest, 0, i));
                let next: &[char] = slice_subrange(rest, i + 1, len);
                out.push(part);
                proof {
                    assert(part@ =~= rest@.take(i as int));
                    assert(next@ =~= rest@.skip(i + 1));
                    assert(views(out@) =~= views(before).push(part@));
                    assert(views(out@) + parts(next@, c) =~= views(before) + (seq![part@] + parts(
                        next@,
                        c,
                    )));
                }
                rest = next;
            },
            None => {
                out.push(slice_to_vec(rest));
                assert(views(out@) =~= views(before) + seq![rest@]);
                return out;
            },
        }
    }
}

/// One decimal part of an IPv4 address: one to three digits, no leading zero,
/// at most 255.
pub open spec fn octet_of(s: Seq<char>) -> Option<u8> {
    if s.len() <= 3 && all_digits(s) && (s.len() == 1 || s[0] != '0') && digits_value(s) <= 255 {
        Some(digits_value(s) as u8)
    } else {
        None
    }
}

/// The IPv4 address written in `s`.
pub open spec fn v4_of(s: Seq<char>) -> Option<(u8, u8, u8, u8)> {
    let p = parts(s, '.');
    if p.len() == 4 {
        match (octet_of(p[0]), octet_of(p[1]), octet_of(p[2]), octet_of(p[3])) {
            (Some(a), Some(b), Some(c), Some(d)) => Some((a, b, c, d)),
            _ => None,
        }
    } else {
        None
    }
}

pub open spec fn is_hex(c: char) -> bool {
    '0' <= c && c <= '9' || 'a' <= c && c <= 'f' || 'A' <= c && c <= 'F'
}

pub open spec fn hex_digit(c: char) -> nat {
    if c <= '9' {
        (c as u32 - '0' as u32) as nat
    } else if c <= 'F' {
        (c as u32 - 'A' as u32 + 10) as nat
    } else {
        (c as u32 - 'a' as u32 + 10) as nat
    }
}

/// The number that hexadecimal digits stand for.
pub open spec fn hex_value(s: Seq<char>) -> nat
    decreases s.len(),
{
    if s.len() == 0 {
        0
    } else {
        hex_value(s.drop_last()) * 16 + hex_digit(s.last())
    }
}

/// One group of an IPv6 address: one to four hexadecimal digits.
pub open spec fn group_of(s: Seq<char>) -> Option<u16> {
    if 1 <= s.len() <= 4 && (forall|i: int| 0 <= i < s.len() ==> is_hex(#[trigger] s[i])) {
        Some(hex_value(s) as u16)
    } else {
        None
    }
}

/// The groups written in the parts `p`.
pub open spec fn groups_of(p: Seq<Seq<char>>) -> Option<Seq<u16>>
    decreases p.len(),
{
    if p.len() == 0 {
        Some(Seq::empty())
    } else {
        match (groups_of(p.drop_last()), group_of(p.last())) {
            (Some(before), Some(group)) => Some(before.push(group)),
            _ => None,
        }
    }
}

/// The groups of an IPv6 address up to `::`.
pub open spec fn head_of(s: Seq<char>) -> Option<Seq<u16>> {
    if s.len() == 0 {
        Some(Seq::empty())
    } else {
        groups_of(parts(s, ':'))
    }
}

/// The groups of an IPv6 address from `::` on, or all of them: the last two
/// may be written as an IPv4 address.
pub open spec fn tail_of(s: Seq<char>) -> Option<Seq<u16>> {
    if s.len() == 0 {
        Some(Seq::empty())
    } else {
        let p = parts(s, ':');
        match v4_of(p.last()) {
            Some((a, b, c, d)) => match groups_of(p.drop_last()) {
                Some(before) => Some(
                    before.push((a * 256 + b) as u16).push((c * 256 + d) as u16),
                ),
                None => None,
            },
            None => groups_of(p),
        }
    }
}

/// Eight groups as an address.
pub open spec fn v6_from(g: Seq<u16>) -> Ip {
    Ip::V6(g[0], g[1], g[2], g[3], g[4], g[5], g[6], g[7])
}

/// `n` groups of zero.
pub open spec fn zeros(n: nat) -> Seq<u16> {
    Seq::new(n, |i: int| 0u16)
}

/// The IPv6 address written in `s`: eight groups, or fewer around one `::`
/// that stands for at least one group of zero.
pub open spec fn v6_of(s: Seq<char>) -> Option<Ip> {
    match find_from(s, seq![':', ':'], 0) {
        Some(i) => match (head_of(s.take(i)), tail_of(s.skip(i + 2))) {
            (Some(h), Some(t)) => if h.len() + t.len() <= 7 {
                Some(v6_from(h + zeros((8 - h.len() - t.len()) as nat) + t))
            } else {
                None
            },
            _ => None,
        },
        None => match tail_of(s) {
            Some(g) => if g.len() == 8 {
                Some(v6_from(g))
            } else {
                None
            },
            None => None,
        },
    }
}

/// The IP address written in `s`.
pub open spec fn ip_of(s: Seq<char>) -> Option<Ip> {
    match v4_of(s) {
        Some((a, b, c, d)) => Some(Ip::V4(a, b, c, d)),
        None => v6_of(s),
    }
}

fn parse_octet(s: &[char]) -> (r: Option<u8>)
    ensures
        r == octet_of(s@),
{
    if s.len() == 0 || s.len() > 3 || s[0] == '+' || (s.len() > 1 && s[0] == '0') {
        return None;
    }
    match parse_number(s, 255) {
        Some(n) => Some(n as u8),
        None => None,
    }
}

fn parse_v4(s: &[char]) -> (r: Option<(u8, u8, u8, u8)>)
    ensures
        r == v4_of(s@),
{
    let p: Vec<Vec<char>> = split_chars(s, '.');
    if p.len() != 4 {
        return None;
    }
    proof {
        assert(views(p@)[0] == p@[0]@);
        assert(views(p@)[1] == p@[1]@);
        assert(views(p@)[2] == p@[2]@);
        assert(views(p@)[3] == p@[3]@);
    }
    match (
        parse_octet(p[0].as_slice()),
        parse_octet(p[1].as_slice()),
        parse_octet(p[2].as_slice()),
        parse_octet(p[3].as_slice()),
    ) {
        (Some(a), Some(b), Some(c), Some(d)) => Some((a, b, c, d)),
        _ => None,
    }
}

fn parse_group(s: &[char]) -> (r: Option<u16>)
    ensures
        r == group_of(s@),
{
    if s.len() == 0 || s.len() > 4 {
        return None;
    }
    let mut n: u32 = 0;
    let mut bound: u32 = 1;
    let mut i: usize = 0;
    while i < s.len()
        invariant
            i <= s@.len() <= 4,
            n == hex_value(s@.take(i as int)),
            n < bound,
            bound == if i == 0 {
                1int
            } else if i == 1 {
                16
            } else if i == 2 {
                256
            } else if i == 3 {
                4096
            } else {
                65536
            },
            forall|k: int| 0 <= k < i ==> is_hex(#[trigger] s@[k]),
        decreases s@.len() - i,
    {
        let c: char = s[i];
        let digit: u32 = if '0' <= c && c <= '9' {
            c as u32 - '0' as u32
        } else if 'a' <= c && c <= 'f' {
            c as u32 - 'a' as u32 + 10
        } else if 'A' <= c && c <= 'F' {
            c as u32 - 'A' as u32 + 10
        } else {
            return None;
        };
        proof {
            assert(s@.take(i + 1).drop_last() =~= s@.take(i as int));
        }
        n = n * 16 + digit;
        bound = bound * 16;
        i = i + 1;
    }
    assert(s@.take(i as int) =~= s@);
    Some(n as u16)
}

/// Broken parts make broken groups.
proof fn lemma_groups_prefix(p: Seq<Seq<char>>, k: int)
    requires
        0 <= k <= p.len(),
        groups_of(p.take(k)) is None,
    ensures
        groups_of(p) is None,
    decreases p.len() - k,
{
    if k < p.len() {
        assert(p.take(k + 1).drop_last() =~= p.take(k));
        lemma_groups_prefix(p, k + 1);
    } else {
        assert(p.take(k) =~= p);
    }
}

fn parse_groups(p: &Vec<Vec<char>>, count: usize) -> (r: Option<Vec<u16>>)
    requires
        count <= p@.len(),
    ensures
        match groups_of(views(p@).take(count as int)) {
            Some(g) => r matches Some(v) && v@ == g,
            None => r is None,
        },
{
    let ghost wanted = views(p@).take(count as int);
    let mut out: Vec<u16> = Vec::new();
    let mut i: usize = 0;
    while i < count
        invariant
            i <= count <= p@.len(),
            wanted == views(p@).take(count as int),
            groups_of(wanted.take(i as int)) == Some(out@),
        decreases count - i,
    {
        proof {
            assert(wanted.take(i + 1).drop_last() =~= wanted.take(i as int));
            assert(wanted[i as int] == p@[i as int]@);
        }
        match parse_group(p[i].as_slice()) {
            Some(group) => out.push(group),
            None => {
                proof {
                    lemma_groups_prefix(wanted, i + 1);
                }
                return None;
            },
        }
        i = i + 1;
    }
    assert(wanted.take(i as int) =~= wanted);
    Some(out)
}

fn parse_head(s: &[char]) -> (r: Option<Vec<u16>>)
    ensures
        match head_of(s@) {
            Some(g) => r matches Some(v) && v@ == g,
            None => r is None,
        },
{
    if s.len() == 0 {
        return Some(Vec::new());
    }
    let p: Vec<Vec<char>> = split_chars(s, ':');
    assert(views(p@).take(p@.len() as int) =~= views(p@));
    parse_groups(&p, p.len())
}

fn parse_tail(s: &[char]) -> (r: Option<Vec<u16>>)
    ensures
        match tail_of(s@) {
            Some(g) => r matches Some(v) && v@ == g,
            None => r is None,
        },
{
    if s.len() == 0 {
        return Some(Vec::new());
    }
    let p: Vec<Vec<char>> = split_chars(s, ':');
    let last: usize = p.len() - 1;
    proof {
        assert(views(p@).last() == p@[last as int]@);
        assert(views(p@).drop_last() =~= views(p@).take(last as int));
        assert(views(p@).take(p@.len() as int) =~= views(p@));
    }
    match parse_v4(p[last].as_slice()) {
        Some((a, b, c, d)) => match parse_groups(&p, last) {
            Some(mut before) => {
                before.push(a as u16 * 256 + b as u16);
                before.push(c as u16 * 256 + d as u16);
                Some(before)
            },
            None => None,
        },
        None => parse_groups(&p, p.len()),
    }
}

fn v6_of_groups(g: &Vec<u16>) -> (ip: Ip)
    requires
        g@.len() == 8,
    ensures
        ip == v6_from(g@),
{
    Ip::V6(g[0], g[1], g[2], g[3], g[4], g[5], g[6], g[7])
}

fn parse_v6(s: &[char]) -> (r: Option<Ip>)
    ensures
        r == v6_of(s@),
{
    let gap: Vec<char> = vec![':', ':'];
    assert(gap@ =~= seq![':', ':']);
    let len: usize = s.len();
    match find_text(s, gap.as_slice()) {
        Some(i) => {
            let before: &[char] = slice_subrange(s, 0, i);
            let after: &[char] = slice_subrange(s, i + 2, len);
            proof {
                assert(before@ =~= s@.take(i as int));
                assert(after@ =~= s@.skip(i + 2));
            }
            let mut head: Vec<u16> = match parse_head(before) {
                Some(head) => head,
                None => return None,
            };
            let mut tail: Vec<u16> = match parse_tail(after) {
                Some(tail) => tail,
                None => return None,
            };
            if head.len() > 7 || tail.len() > 7 - head.len() {
                return None;
            }
            let ghost h = head@;
            let ghost t = tail@;
            let missing: usize = 8 - head.len() - tail.len();
            let mut k: usize = 0;
            while k < missing
                invariant
                    k <= missing,
                    head@ == h + zeros(k as nat),
                decreases missing - k,
            {
                head.push(0);
                assert(zeros((k + 1) as nat) =~= zeros(k as nat).push(0));
                k = k + 1;
            }
            head.append(&mut tail);
            assert(head@ =~= h + zeros(missing as nat) + t);
            Some(v6_of_groups(&head))
        },
        None => match parse_tail(s) {
            Some(g) => if g.len() == 8 {
                Some(v6_of_groups(&g))
            } else {
                None
            },
            None => None,
        },
    }
}

/// Read an IP address. Both families are accepted in their usual textual
/// forms; an IPv4 part with a leading zero is not, nor is an IPv6 zone.
pub fn parse_ip(s: &[char]) -> (r: Option<Ip>)
    ensures
        r == ip_of(s@),
{
    match parse_v4(s) {
        Some((a, b, c, d)) => Some(Ip::V4(a, b, c, d)),
        None => parse_v6(s),
    }
}

/// `parse_ip` on a text.
pub fn parse_ip_text(s: &str) -> (r: Option<Ip>)
    ensures
        r == ip_of(s@),
{
    parse_ip(chars_of(s).as_slice())
}

// ---------- writing ----------

/// The lowercase hexadecimal digit for `d`.
pub open spec fn hex_char(d: nat) -> char {
    if d < 10 {
        (('0' as u32) + d) as u32 as char
    } else {
        (('a' as u32) + d - 10) as u32 as char
    }
}

/// `n` in lowercase hexadecimal, without leading zeros.
pub open spec fn hexadecimal(n: nat) -> Seq<char>
    decreases n,
{
    if n < 16 {
        seq![hex_char(n)]
    } else {
        hexadecimal(n / 16).push(hex_char(n % 16))
    }
}

/// The groups `g`, with colons between them.
pub open spec fn joined(g: Seq<u16>) -> Seq<char>
    decreases g.len(),
{
    if g.len() == 0 {
        Seq::empty()
    } else if g.len() == 1 {
        hexadecimal(g[0] as nat)
    } else {
        joined(g.drop_last()).push(':') + hexadecimal(g.last() as nat)
    }
}

/// How many groups of zero follow each other from `i` on.
pub open spec fn zero_run(g: Seq<u16>, i: int) -> nat
    decreases g.len() - i,
{
    if 0 <= i < g.len() && g[i] == 0 {
        1 + zero_run(g, i + 1)
    } else {
        0
    }
}

/// The longest run of zero groups that starts before `k`, the first of several
/// equally long ones: its start and its length.
pub open spec fn longest_zeros(g: Seq<u16>, k: int) -> (int, nat)
    decreases k,
{
    if k <= 0 {
        (0, 0)
    } else {
        let best = longest_zeros(g, k - 1);
        if zero_run(g, k - 1) > best.1 {
            (k - 1, zero_run(g, k - 1))
        } else {
            best
        }
    }
}

/// An IPv4 address in dotted decimal.
pub open spec fn v4_text(a: u8, b: u8, c: u8, d: u8) -> Seq<char> {
    decimal(a as nat) + "."@ + decimal(b as nat) + "."@ + decimal(c as nat) + "."@ + decimal(
        d as nat,
    )
}

/// The canonical form of an IPv6 address: IPv4-mapped addresses in mixed
/// notation; otherwise the first longest run of at least two zero groups is
/// written as `::`.
pub open spec fn v6_text(g: Seq<u16>) -> Seq<char> {
    if g.take(6) == seq![0u16, 0, 0, 0, 0, 0xffff] {
        "::ffff:"@ + v4_text(
            (g[6] / 256) as u8,
            (g[6] % 256) as u8,
            (g[7] / 256) as u8,
            (g[7] % 256) as u8,
        )
    } else {
        let (start, len) = longest_zeros(g, 8);
        if len > 1 {
            joined(g.take(start)) + "::"@ + joined(g.skip(start + len))
        } else {
            joined(g)
        }
    }
}

/// The groups of an IPv6 address.
pub open spec fn groups(ip: Ip) -> Seq<u16> {
    match ip {
        Ip::V6(a, b, c, d, e, f, g, h) => seq![a, b, c, d, e, f, g, h],
        Ip::V4(..) => Seq::empty(),
    }
}

/// The canonical textual form of an address.
pub open spec fn ip_text(ip: Ip) -> Seq<char> {
    match ip {
        Ip::V4(a, b, c, d) => v4_text(a, b, c, d),
        Ip::V6(..) => v6_text(groups(ip)),
    }
}

/// An address and a port: `1.2.3.4:53`, `[::1]:53`.
pub open spec fn endpoint_text(e: Endpoint) -> Seq<char> {
    if e.ip.spec_is_v4() {
        ip_text(e.ip) + ":"@ + decimal(e.port as nat)
    } else {
        "["@ + ip_text(e.ip) + "]:"@ + decimal(e.port as nat)
    }
}

fn show_hex(n: u16) -> (out: String)
    ensures
        out@ == hexadecimal(n as nat),
    decreases n,
{
    let d: u8 = (n % 16) as u8;
    let digit: char = if d < 10 {
        (d + 48) as char
    } else {
        (d + 87) as char
    };
    let mut out: String = if n < 16 {
        String::new()
    } else {
        show_hex(n / 16)
    };
    out.push(digit);
    assert(n < 16 ==> out@ =~= seq![digit]);
    out
}

fn show_v4(a: u8, b: u8, c: u8, d: u8) -> (out: String)
    ensures
        out@ == v4_text(a, b, c, d),
{
    let mut out: String = show_number(a as u64);
    out.append(".");
    out.append(show_number(b as u64).as_str());
    out.append(".");
    out.append(show_number(c as u64).as_str());
    out.append(".");
    out.append(show_number(d as u64).as_str());
    out
}

fn show_groups(g: &Vec<u16>, from: usize, to: usize) -> (out: String)
    requires
        from <= to <= g@.len(),
    ensures
        out@ == joined(g@.subrange(from as int, to as int)),
{
    let mut out: String = String::new();
    let mut i: usize = from;
    while i < to
        invariant
            from <= i <= to <= g@.len(),
            out@ == joined(g@.subrange(from as int, i as int)),
        decreases to - i,
    {
        proof {
            assert(g@.subrange(from as int, i + 1).drop_last() =~= g@.subrange(
                from as int,
                i as int,
            ));
        }
        if i > from {
            out.push(':');
        }
        let ghost before = out@;
        out.append(show_hex(g[i]).as_str());
        proof {
            if i == from {
                assert(out@ =~= hexadecimal(g@[i as int] as nat));
            }
        }
        i = i + 1;
    }
    out
}

fn run_of_zeros(g: &Vec<u16>, i: usize) -> (n: usize)
    ensures
        n == zero_run(g@, i as int),
        i <= g@.len() ==> i + n <= g@.len(),
    decreases g@.len() - i,
{
    if i < g.len() && g[i] == 0 {
        1 + run_of_zeros(g, i + 1)
    } else {
        0
    }
}

fn show_v6(g: &Vec<u16>) -> (out: String)
    requires
        g@.len() == 8,
    ensures
        out@ == v6_text(g@),
{
    let mapped: bool = g[0] == 0 && g[1] == 0 && g[2] == 0 && g[3] == 0 && g[4] == 0 && g[5]
        == 0xffff;
    proof {
        if mapped {
            assert(g@.take(6) =~= seq![0u16, 0, 0, 0, 0, 0xffff]);
        } else {
            assert forall|k: int| 0 <= k < 6 implies g@.take(6)[k] == #[trigger] g@[k] by {}
            let m = seq![0u16, 0, 0, 0, 0, 0xffff];
            if g@.take(6) == m {
                assert(g@[0] == m[0] && g@[1] == m[1] && g@[2] == m[2] && g@[3] == m[3] && g@[4]
                    == m[4] && g@[5] == m[5]);
            }
        }
    }
    if mapped {
        let mut out: String = "::ffff:".to_owned();
        out.append(
            show_v4(
                (g[6] / 256) as u8,
                (g[6] % 256) as u8,
                (g[7] / 256) as u8,
                (g[7] % 256) as u8,
            ).as_str(),
        );
        return out;
    }
    let mut start: usize = 0;
    let mut len: usize = 0;
    let mut k: usize = 0;
    while k < 8
        invariant
            k <= 8,
            g@.len() == 8,
            (start as int, len as nat) == longest_zeros(g@, k as int),
            start + len <= 8,
        decreases 8 - k,
    {
        let n: usize = run_of_zeros(g, k);
        if n > len {
            start = k;
            len = n;
        }
        k = k + 1;
    }
    if len > 1 {
        let mut out: String = show_groups(g, 0, start);
        out.append("::");
        out.append(show_groups(g, start + len, 8).as_str());
        proof {
            assert(g@.subrange(0, start as int) =~= g@.take(start as int));
            assert(g@.subrange(start + len, 8) =~= g@.skip(start + len));
        }
        out
    } else {
        assert(g@.subrange(0, 8) =~= g@);
        show_groups(g, 0, 8)
    }
}

/// The canonical textual form of an address.
pub fn show_ip(ip: Ip) -> (out: String)
    ensures
        out@ == ip_text(ip),
{
    match ip {
        Ip::V4(a, b, c, d) => show_v4(a, b, c, d),
        Ip::V6(a, b, c, d, e, f, g, h) => {
            let v: Vec<u16> = vec![a, b, c, d, e, f, g, h];
            assert(v@ =~= groups(ip));
            show_v6(&v)
        },
    }
}

/// The textual form of an address and a port.
pub fn show_endpoint(e: Endpoint) -> (out: String)
    ensures
        out@ == endpoint_text(e),
{
    if e.ip.is_v4() {
        let mut out: String = show_ip(e.ip);
        out.append(":");
        out.append(show_number(e.port as u64).as_str());
        out
    } else {
        let mut out: String = "[".to_owned();
        out.append(show_ip(e.ip).as_str());
        out.append("]:");
        out.append(show_number(e.port as u64).as_str());
        out
    }
}

} // verus!
