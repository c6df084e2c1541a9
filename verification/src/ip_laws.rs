//! An address reads back from the text that it is written as.

use crate::ip::{
    endpoint_text, group_of, groups, groups_of, head_of, hex_char, hex_digit, hex_value,
    hexadecimal, ip_of, ip_text, is_hex, joined, longest_zeros, octet_of, parts, tail_of, v4_of, v4_text, v6_from,
    v6_of, v6_text, zero_run, zeros, Endpoint, Ip,
};
use crate::text::{
    all_digits, decimal, digit_char, digits_value, find_from, index_from, index_of, is_digit,
    lemma_decimal_round_trip, lemma_index_from,
};
use vstd::prelude::*;

verus! {

/// Whether `c` occurs nowhere in `s`.
pub open spec fn lacks(s: Seq<char>, c: char) -> bool {
    forall|i: int| 0 <= i < s.len() ==> s[i] != c
}

proof fn lemma_index_is(s: Seq<char>, c: char, i: int, k: int)
    requires
        0 <= i <= k < s.len(),
        s[k] == c,
        forall|j: int| i <= j < k ==> s[j] != c,
    ensures
        index_from(s, c, i) == Some(k),
    decreases k - i,
{
    if i < k {
        lemma_index_is(s, c, i + 1, k);
    }
}

proof fn lemma_index_none(s: Seq<char>, c: char)
    requires
        lacks(s, c),
    ensures
        index_of(s, c) is None,
        parts(s, c) == seq![s],
{
    lemma_index_from(s, c, 0);
}

/// The parts of two texts with the separator between them.
proof fn lemma_parts_of_two(x: Seq<char>, c: char, y: Seq<char>)
    ensures
        parts(x.push(c) + y, c) == parts(x, c) + parts(y, c),
    decreases x.len(),
{
    let s = x.push(c) + y;
    lemma_index_from(x, c, 0);
    match index_of(x, c) {
        None => {
            lemma_index_is(s, c, 0, x.len() as int);
            assert(s.take(x.len() as int) =~= x);
            assert(s.skip(x.len() as int + 1) =~= y);
        },
        Some(k) => {
            lemma_index_is(s, c, 0, k);
            assert(s.take(k) =~= x.take(k));
            let rest = x.skip(k + 1);
            assert(s.skip(k + 1) =~= rest.push(c) + y);
            lemma_parts_of_two(rest, c, y);
            assert(seq![x.take(k)] + (parts(rest, c) + parts(y, c)) =~= parts(x, c) + parts(y, c));
        },
    }
}

// ---------- IPv4 ----------

proof fn lemma_decimal_shape(n: nat)
    ensures
        decimal(n).len() > 0,
        n > 0 ==> decimal(n)[0] != '0',
        n < 10 ==> decimal(n).len() == 1,
        n < 100 ==> decimal(n).len() <= 2,
        n < 1000 ==> decimal(n).len() <= 3,
    decreases n,
{
    if n >= 10 {
        lemma_decimal_shape(n / 10);
    }
}

proof fn lemma_octet(n: u8)
    ensures
        octet_of(decimal(n as nat)) == Some(n),
        lacks(decimal(n as nat), '.'),
        lacks(decimal(n as nat), ':'),
        decimal(n as nat).len() > 0,
{
    lemma_decimal_shape(n as nat);
    lemma_decimal_round_trip(n as nat);
    let s = decimal(n as nat);
    assert forall|i: int| 0 <= i < s.len() implies s[i] != '.' && s[i] != ':' by {
        assert(is_digit(s[i]));
    }
}

proof fn lemma_v4(a: u8, b: u8, c: u8, d: u8)
    ensures
        v4_of(v4_text(a, b, c, d)) == Some((a, b, c, d)),
        lacks(v4_text(a, b, c, d), ':'),
        parts(v4_text(a, b, c, d), '.') == seq![
            decimal(a as nat),
            decimal(b as nat),
            decimal(c as nat),
            decimal(d as nat),
        ],
{
    reveal_strlit(".");
    lemma_octet(a);
    lemma_octet(b);
    lemma_octet(c);
    lemma_octet(d);
    let x = decimal(a as nat);
    let y = decimal(b as nat);
    let z = decimal(c as nat);
    let w = decimal(d as nat);
    lemma_index_none(x, '.');
    lemma_index_none(y, '.');
    lemma_index_none(z, '.');
    lemma_index_none(w, '.');
    let xy = x.push('.') + y;
    let xyz = xy.push('.') + z;
    lemma_parts_of_two(x, '.', y);
    lemma_parts_of_two(xy, '.', z);
    lemma_parts_of_two(xyz, '.', w);
    assert(v4_text(a, b, c, d) =~= xyz.push('.') + w);
    assert(parts(v4_text(a, b, c, d), '.') =~= seq![x, y, z, w]);
}

// ---------- groups ----------

proof fn lemma_hex_shape(n: nat)
    ensures
        hexadecimal(n).len() > 0,
        n < 16 ==> hexadecimal(n).len() == 1,
        n < 0x100 ==> hexadecimal(n).len() <= 2,
        n < 0x1000 ==> hexadecimal(n).len() <= 3,
        n < 0x1_0000 ==> hexadecimal(n).len() <= 4,
        hex_value(hexadecimal(n)) == n,
        forall|i: int| 0 <= i < hexadecimal(n).len() ==> is_hex(#[trigger] hexadecimal(n)[i]),
    decreases n,
{
    reveal_with_fuel(hex_value, 2);
    assert(hex_digit(hex_char(n % 16)) == n % 16 && is_hex(hex_char(n % 16)));
    if n < 16 {
        assert(hexadecimal(n).drop_last() =~= Seq::<char>::empty());
    } else {
        lemma_hex_shape(n / 16);
        let head = hexadecimal(n / 16);
        assert(hexadecimal(n).drop_last() =~= head);
        assert forall|i: int| 0 <= i < hexadecimal(n).len() implies is_hex(
            #[trigger] hexadecimal(n)[i],
        ) by {
            if i < head.len() {
                assert(hexadecimal(n)[i] == head[i]);
            }
        }
    }
}

proof fn lemma_group(n: u16)
    ensures
        group_of(hexadecimal(n as nat)) == Some(n),
        lacks(hexadecimal(n as nat), ':'),
        lacks(hexadecimal(n as nat), '.'),
        hexadecimal(n as nat).len() > 0,
{
    lemma_hex_shape(n as nat);
    let s = hexadecimal(n as nat);
    assert forall|i: int| 0 <= i < s.len() implies s[i] != ':' && s[i] != '.' by {
        assert(is_hex(s[i]));
    }
}

/// Whether two colons meet at `i`.
spec fn meets(s: Seq<char>, i: int) -> bool {
    s[i] == ':' && s[i + 1] == ':'
}

/// The groups `g`, each in hexadecimal.
spec fn in_hex(g: Seq<u16>) -> Seq<Seq<char>> {
    g.map_values(|n: u16| hexadecimal(n as nat))
}

proof fn lemma_groups_read_back(g: Seq<u16>)
    ensures
        groups_of(in_hex(g)) == Some(g),
    decreases g.len(),
{
    if g.len() > 0 {
        lemma_groups_read_back(g.drop_last());
        lemma_group(g.last());
        assert(in_hex(g).drop_last() =~= in_hex(g.drop_last()));
        assert(g.drop_last().push(g.last()) =~= g);
    } else {
        assert(in_hex(g) =~= Seq::<Seq<char>>::empty());
        assert(g =~= Seq::<u16>::empty());
    }
}

/// Joined groups split into the groups; they hold no dot, do not begin or end
/// with a colon, and no two colons meet.
proof fn lemma_joined(g: Seq<u16>)
    requires
        g.len() > 0,
    ensures
        parts(joined(g), ':') == in_hex(g),
        lacks(joined(g), '.'),
        joined(g).len() > 0,
        joined(g)[0] != ':',
        joined(g).last() != ':',
        forall|i: int| 0 <= i < joined(g).len() - 1 ==> !#[trigger] meets(joined(g), i),
    decreases g.len(),
{
    lemma_group(g.last());
    let y = hexadecimal(g.last() as nat);
    lemma_index_none(y, ':');
    if g.len() == 1 {
        assert(in_hex(g) =~= seq![y]);
    } else {
        let x = joined(g.drop_last());
        lemma_joined(g.drop_last());
        lemma_parts_of_two(x, ':', y);
        assert(in_hex(g) =~= in_hex(g.drop_last()) + seq![y]);
        let s = joined(g);
        assert(s == x.push(':') + y);
        assert forall|i: int| 0 <= i < s.len() - 1 implies !#[trigger] meets(s, i) by {
            if i < x.len() - 1 {
                assert(s[i] == x[i] && s[i + 1] == x[i + 1]);
                assert(!meets(x, i));
            } else if i == x.len() - 1 {
                assert(s[i] == x.last());
            } else if i == x.len() {
                assert(s[i + 1] == y[0]);
            } else {
                assert(s[i] == y[i - x.len() - 1]);
            }
        }
        assert forall|i: int| 0 <= i < s.len() implies s[i] != '.' by {
            if i < x.len() {
                assert(s[i] == x[i]);
            } else if i > x.len() {
                assert(s[i] == y[i - x.len() - 1]);
            }
        }
    }
}

proof fn lemma_no_dot_no_v4(s: Seq<char>)
    requires
        lacks(s, '.'),
    ensures
        v4_of(s) is None,
{
    lemma_index_none(s, '.');
}

proof fn lemma_head_reads_back(g: Seq<u16>)
    ensures
        head_of(joined(g)) == Some(g),
        tail_of(joined(g)) == Some(g),
{
    if g.len() == 0 {
        assert(g =~= Seq::<u16>::empty());
    } else {
        lemma_joined(g);
        lemma_groups_read_back(g);
        let p = parts(joined(g), ':');
        assert(p.last() == hexadecimal(g.last() as nat));
        lemma_group(g.last());
        lemma_no_dot_no_v4(p.last());
    }
}

// ---------- the gap ----------

spec fn gap() -> Seq<char> {
    seq![':', ':']
}

/// The first two colons that meet, at or after `i`.
proof fn lemma_gap_at(s: Seq<char>, i: int, k: int)
    requires
        0 <= i <= k,
        k + 2 <= s.len(),
        s[k] == ':' && s[k + 1] == ':',
        forall|j: int| i <= j < k ==> !#[trigger] meets(s, j),
    ensures
        find_from(s, gap(), i) == Some(k),
    decreases k - i,
{
    if i == k {
        assert(s.subrange(i, i + 2) =~= gap());
    } else {
        if s.subrange(i, i + 2) == gap() {
            assert(s.subrange(i, i + 2)[0] == s[i]);
            assert(s.subrange(i, i + 2)[1] == s[i + 1]);
            assert(gap()[0] == ':' && gap()[1] == ':');
            assert(meets(s, i));
        }
        lemma_gap_at(s, i + 1, k);
    }
}

proof fn lemma_no_gap(s: Seq<char>, i: int)
    requires
        0 <= i,
        forall|j: int| 0 <= j < s.len() - 1 ==> !#[trigger] meets(s, j),
    ensures
        find_from(s, gap(), i) is None,
    decreases s.len() + 1 - i,
{
    if i + 2 <= s.len() {
        if s.subrange(i, i + 2) == gap() {
            assert(s.subrange(i, i + 2)[0] == s[i]);
            assert(s.subrange(i, i + 2)[1] == s[i + 1]);
            assert(gap()[0] == ':' && gap()[1] == ':');
            assert(meets(s, i));
        }
        lemma_no_gap(s, i + 1);
    }
}

proof fn lemma_zero_run(g: Seq<u16>, i: int)
    requires
        0 <= i <= g.len(),
    ensures
        i + zero_run(g, i) <= g.len(),
        forall|k: int| i <= k < i + zero_run(g, i) ==> g[k] == 0,
    decreases g.len() - i,
{
    if i < g.len() && g[i] == 0 {
        lemma_zero_run(g, i + 1);
    }
}

proof fn lemma_longest_zeros(g: Seq<u16>, k: int)
    requires
        0 <= k <= g.len(),
    ensures
        ({
            let (start, len) = longest_zeros(g, k);
            &&& 0 <= start
            &&& start + len <= g.len()
            &&& forall|i: int| start <= i < start + len ==> g[i] == 0
        }),
    decreases k,
{
    if k > 0 {
        lemma_longest_zeros(g, k - 1);
        lemma_zero_run(g, k - 1);
    }
}

proof fn lemma_around_gap(a: Seq<char>, b: Seq<char>)
    requires
        a.len() > 0 ==> a.last() != ':',
        forall|i: int| 0 <= i < a.len() - 1 ==> !#[trigger] meets(a, i),
    ensures
        ({
            let s = a + gap() + b;
            &&& find_from(s, gap(), 0) == Some(a.len() as int)
            &&& s.take(a.len() as int) == a
            &&& s.skip(a.len() as int + 2) == b
            &&& lacks(a, '.') && lacks(b, '.') ==> lacks(s, '.')
        }),
{
    let s = a + gap() + b;
    assert forall|j: int| 0 <= j < a.len() implies !#[trigger] meets(s, j) by {
        assert(s[j] == a[j]);
        if j < a.len() - 1 {
            assert(s[j + 1] == a[j + 1]);
            assert(!meets(a, j));
        } else {
            assert(a[j] == a.last());
        }
    }
    assert(s[a.len() as int] == gap()[0]);
    assert(s[a.len() as int + 1] == gap()[1]);
    lemma_gap_at(s, 0, a.len() as int);
    assert(s.take(a.len() as int) =~= a);
    assert(s.skip(a.len() as int + 2) =~= b);
    if lacks(a, '.') && lacks(b, '.') {
        assert forall|i: int| 0 <= i < s.len() implies s[i] != '.' by {
            if i < a.len() {
                assert(s[i] == a[i]);
            } else if i < a.len() + 2 {
                assert(s[i] == gap()[i - a.len()]);
            } else {
                assert(s[i] == b[i - a.len() - 2]);
            }
        }
    }
}

/// What is joined has no dot, no colon at its end, and no two colons that meet.
proof fn lemma_joined_is_plain(g: Seq<u16>)
    ensures
        lacks(joined(g), '.'),
        joined(g).len() > 0 ==> joined(g).last() != ':',
        forall|i: int| 0 <= i < joined(g).len() - 1 ==> !#[trigger] meets(joined(g), i),
{
    if g.len() > 0 {
        lemma_joined(g);
    }
}

#[verifier::rlimit(50)]
#[verifier::spinoff_prover]
proof fn lemma_compressed(g: Seq<u16>, start: int, len: int)
    requires
        g.len() == 8,
        0 <= start,
        2 <= len,
        start + len <= 8,
        forall|i: int| start <= i < start + len ==> g[i] == 0,
    ensures
        ({
            let s = joined(g.take(start)) + gap() + joined(g.skip(start + len));
            &&& v6_of(s) == Some(v6_from(g))
            &&& lacks(s, '.')
        }),
{
    let h = g.take(start);
    let t = g.skip(start + len);
    lemma_head_reads_back(h);
    lemma_head_reads_back(t);
    lemma_joined_is_plain(h);
    lemma_joined_is_plain(t);
    lemma_around_gap(joined(h), joined(t));
    lemma_v6_of_parts(joined(h), joined(t), h, t);
    assert(h + zeros((8 - h.len() - t.len()) as nat) + t =~= g);
}

proof fn lemma_v6_of_parts(a: Seq<char>, b: Seq<char>, h: Seq<u16>, t: Seq<u16>)
    requires
        head_of(a) == Some(h),
        tail_of(b) == Some(t),
        h.len() + t.len() <= 7,
        ({
            let s = a + gap() + b;
            &&& find_from(s, gap(), 0) == Some(a.len() as int)
            &&& s.take(a.len() as int) == a
            &&& s.skip(a.len() as int + 2) == b
        }),
    ensures
        v6_of(a + gap() + b) == Some(
            v6_from(h + zeros((8 - h.len() - t.len()) as nat) + t),
        ),
{
}

spec fn ffff() -> Seq<char> {
    seq!['f', 'f', 'f', 'f']
}

proof fn lemma_mapped_tail(v4: Seq<char>, a: u8, b: u8, c: u8, d: u8)
    requires
        v4_of(v4) == Some((a, b, c, d)),
        lacks(v4, ':'),
    ensures
        tail_of(ffff().push(':') + v4) == Some(
            seq![0xffffu16].push((a * 256 + b) as u16).push((c * 256 + d) as u16),
        ),
{
    let tail = ffff().push(':') + v4;
    lemma_index_none(ffff(), ':');
    lemma_index_none(v4, ':');
    lemma_parts_of_two(ffff(), ':', v4);
    let p = parts(tail, ':');
    assert(p =~= seq![ffff(), v4]);
    assert(p.drop_last() =~= seq![ffff()]);
    lemma_ffff();
}

/// A text that begins with a colon is no IPv4 address.
proof fn lemma_colon_is_no_v4(s: Seq<char>)
    requires
        s.len() > 0,
        s[0] == ':',
    ensures
        v4_of(s) is None,
{
    lemma_index_from(s, '.', 0);
    let first = parts(s, '.')[0];
    assert(first[0] == ':');
    assert(!is_digit(first[0]));
}

proof fn lemma_mapped(g: Seq<u16>)
    requires
        g.len() == 8,
        g.take(6) == seq![0u16, 0, 0, 0, 0, 0xffff],
    ensures
        v6_of(v6_text(g)) == Some(v6_from(g)),
        v4_of(v6_text(g)) is None,
{
    let a = (g[6] / 256) as u8;
    let b = (g[6] % 256) as u8;
    let c = (g[7] / 256) as u8;
    let d = (g[7] % 256) as u8;
    let v4 = v4_text(a, b, c, d);
    let none = Seq::<char>::empty();
    let tail = ffff().push(':') + v4;
    let t = seq![0xffffu16].push((a * 256 + b) as u16).push((c * 256 + d) as u16);
    lemma_v4(a, b, c, d);
    lemma_mapped_tail(v4, a, b, c, d);
    reveal_strlit("::ffff:");
    assert(v6_text(g) =~= none + gap() + tail);
    lemma_around_gap(none, tail);
    lemma_v6_of_parts(none, tail, Seq::empty(), t);
    assert(g.take(6)[0] == g[0] && g.take(6)[1] == g[1] && g.take(6)[2] == g[2] && g.take(6)[3]
        == g[3] && g.take(6)[4] == g[4] && g.take(6)[5] == g[5]);
    assert(Seq::<u16>::empty() + zeros(5) + t =~= g);
    assert(v6_text(g)[0] == gap()[0]);
    lemma_colon_is_no_v4(v6_text(g));
}

proof fn lemma_ffff()
    ensures
        groups_of(seq![seq!['f', 'f', 'f', 'f']]) == Some(seq![0xffffu16]),
{
    let f = seq!['f', 'f', 'f', 'f'];
    reveal_with_fuel(hex_value, 5);
    assert(f.drop_last() =~= seq!['f', 'f', 'f']);
    assert(f.drop_last().drop_last() =~= seq!['f', 'f']);
    assert(f.drop_last().drop_last().drop_last() =~= seq!['f']);
    assert(f.drop_last().drop_last().drop_last().drop_last() =~= Seq::<char>::empty());
    assert(hex_value(f) == 0xffff);
    let p = seq![f];
    reveal_with_fuel(groups_of, 2);
    assert(p.drop_last() =~= Seq::<Seq<char>>::empty());
    assert(Seq::<u16>::empty().push(0xffff) =~= seq![0xffffu16]);
}

/// The text of an address is read as that address.
pub proof fn law_addresses_read_back(ip: Ip)
    ensures
        ip_of(ip_text(ip)) == Some(ip),
{
    match ip {
        Ip::V4(a, b, c, d) => {
            lemma_v4(a, b, c, d);
        },
        Ip::V6(..) => {
            let g = groups(ip);
            assert(v6_from(g) == ip);
            if g.take(6) == seq![0u16, 0, 0, 0, 0, 0xffff] {
                lemma_mapped(g);
            } else {
                lemma_longest_zeros(g, 8);
                let (start, len) = longest_zeros(g, 8);
                if len > 1 {
                    reveal_strlit("::");
                    assert("::"@ =~= gap());
                    lemma_compressed(g, start, len as int);
                    lemma_no_dot_no_v4(v6_text(g));
                } else {
                    lemma_joined(g);
                    lemma_head_reads_back(g);
                    lemma_no_gap(joined(g), 0);
                    lemma_no_dot_no_v4(joined(g));
                }
            }
        },
    }
}

/// Two addresses with the same text are the same.
pub proof fn law_address_texts_are_unique(a: Ip, b: Ip)
    requires
        ip_text(a) == ip_text(b),
    ensures
        a == b,
{
    law_addresses_read_back(a);
    law_addresses_read_back(b);
}

/// Which addresses are special: 127.0.0.0/8 and ::1 are loopback, all zeros is
/// unspecified, and 224.0.0.0/4 and ff00::/8 are multicast.
pub proof fn law_special_addresses(a: u8, b: u8, c: u8, d: u8, g: Seq<u16>)
    requires
        g.len() == 8,
    ensures
        Ip::V4(a, b, c, d).spec_is_loopback() == (a == 127),
        Ip::V4(a, b, c, d).spec_is_unspecified() == (a + b + c + d == 0),
        Ip::V4(a, b, c, d).spec_is_multicast() == (a / 16 == 14),
        Ip::V4(a, b, c, d).spec_is_v4(),
        v6_from(g).spec_is_loopback() == (g.take(7) == zeros(7) && g[7] == 1),
        v6_from(g).spec_is_unspecified() == (g == zeros(8)),
        v6_from(g).spec_is_multicast() == (g[0] / 256 == 255),
        !v6_from(g).spec_is_v4(),
{
    assert(forall|i: int| 0 <= i < 7 ==> g.take(7)[i] == g[i]);
    if v6_from(g).spec_is_loopback() {
        assert(g.take(7) =~= zeros(7));
    }
    if g.take(7) == zeros(7) {
        assert(forall|i: int| 0 <= i < 7 ==> zeros(7)[i] == 0);
        assert(g.take(7)[0] == 0 && g.take(7)[1] == 0 && g.take(7)[2] == 0 && g.take(7)[3] == 0
            && g.take(7)[4] == 0 && g.take(7)[5] == 0 && g.take(7)[6] == 0);
    }
    if v6_from(g).spec_is_unspecified() {
        assert(g =~= zeros(8));
    }
    if g == zeros(8) {
        assert(g[0] == 0 && g[1] == 0 && g[2] == 0 && g[3] == 0 && g[4] == 0 && g[5] == 0 && g[6]
            == 0 && g[7] == 0);
    }
}

/// An IPv4 address is written as its four numbers with dots between them; a port
/// stands behind a colon, and an IPv6 address before it in brackets.
pub proof fn law_dotted_and_bracketed(a: u8, b: u8, c: u8, d: u8, ip: Ip, port: u16)
    ensures
        ip_text(Ip::V4(a, b, c, d)) == decimal(a as nat).push('.') + decimal(b as nat).push('.')
            + decimal(c as nat).push('.') + decimal(d as nat),
        ip is V4 ==> endpoint_text(Endpoint { ip, port }) == ip_text(ip).push(':') + decimal(
            port as nat,
        ),
        ip is V6 ==> endpoint_text(Endpoint { ip, port }) == (seq!['['] + ip_text(ip)).push(
            ']',
        ).push(':') + decimal(port as nat),
{
    reveal_strlit(".");
    reveal_strlit(":");
    reveal_strlit("[");
    reveal_strlit("]:");
    assert(ip_text(Ip::V4(a, b, c, d)) =~= decimal(a as nat).push('.') + decimal(b as nat).push('.')
        + decimal(c as nat).push('.') + decimal(d as nat));
    if ip is V4 {
        assert(endpoint_text(Endpoint { ip, port }) =~= ip_text(ip).push(':') + decimal(
            port as nat,
        ));
    } else {
        assert(endpoint_text(Endpoint { ip, port }) =~= (seq!['['] + ip_text(ip)).push(']').push(
            ':',
        ) + decimal(port as nat));
    }
}

/// A group of an IPv6 address is written with the digits from 0 to 9 and from a
/// to f, high digits first; capital letters are read as the small ones are.
pub proof fn law_hexadecimal_digits(n: nat, digit: nat, c: char)
    requires
        digit < 16,
    ensures
        hexadecimal(digit).len() == 1,
        digit < 10 ==> hexadecimal(digit)[0] as u32 == 48 + digit,
        digit >= 10 ==> hexadecimal(digit)[0] as u32 == 87 + digit,
        n > 0 ==> hexadecimal(16 * n + digit) == hexadecimal(n) + hexadecimal(digit),
        65 <= c as u32 <= 70 ==> is_hex(c) && hex_digit(c) == c as u32 - 55,
        97 <= c as u32 <= 102 ==> is_hex(c) && hex_digit(c) == c as u32 - 87,
        48 <= c as u32 <= 57 ==> is_hex(c) && hex_digit(c) == c as u32 - 48,
        is_hex(c) ==> 65 <= c as u32 <= 70 || 97 <= c as u32 <= 102 || 48 <= c as u32 <= 57,
{
    if n > 0 {
        let whole = 16 * n + digit;
        assert(whole / 16 == n && whole % 16 == digit);
        assert(hexadecimal(whole) =~= hexadecimal(n) + hexadecimal(digit));
    }
}

// ---------- which texts are addresses ----------

proof fn lemma_leading_digit(s: Seq<char>)
    requires
        all_digits(s),
        s[0] != '0',
    ensures
        digits_value(s) > 0,
    decreases s.len(),
{
    assert(is_digit(s[0]));
    if s.len() == 1 {
        reveal_with_fuel(digits_value, 2);
        assert(s.drop_last() =~= Seq::<char>::empty());
        assert(s.last() == s[0]);
    } else {
        let shorter = s.drop_last();
        assert forall|i: int| 0 <= i < shorter.len() implies is_digit(#[trigger] shorter[i]) by {
            assert(shorter[i] == s[i]);
        }
        lemma_leading_digit(shorter);
    }
}

proof fn lemma_digits_are_decimal(s: Seq<char>)
    requires
        all_digits(s),
        s.len() == 1 || s[0] != '0',
    ensures
        decimal(digits_value(s)) == s,
    decreases s.len(),
{
    let d = (s.last() as u32 - '0' as u32) as nat;
    assert(is_digit(s[s.len() - 1]));
    assert(digit_char(d) == s.last());
    let shorter = s.drop_last();
    if s.len() == 1 {
        reveal_with_fuel(digits_value, 2);
        assert(shorter =~= Seq::<char>::empty());
        assert(decimal(d) =~= s);
    } else {
        assert forall|i: int| 0 <= i < shorter.len() implies is_digit(#[trigger] shorter[i]) by {
            assert(shorter[i] == s[i]);
        }
        lemma_digits_are_decimal(shorter);
        lemma_leading_digit(shorter);
        let v = digits_value(shorter);
        let whole = v * 10 + d;
        assert(whole / 10 == v && whole % 10 == d);
        assert(decimal(whole) =~= shorter.push(s.last()));
        assert(s =~= shorter.push(s.last()));
    }
}

/// A part of an IPv4 address is a number up to 255 as it is written, without
/// leading zeros or a sign; and every such number is one.
pub proof fn law_octets(s: Seq<char>, n: nat)
    ensures
        octet_of(s) matches Some(v) ==> s == decimal(v as nat),
        n <= 255 ==> octet_of(decimal(n)) == Some(n as u8),
        n > 255 ==> octet_of(decimal(n)) is None,
{
    if octet_of(s) is Some {
        lemma_digits_are_decimal(s);
    }
    if n <= 255 {
        lemma_octet(n as u8);
    }
    lemma_decimal_round_trip(n);
}

proof fn lemma_first_part(s: Seq<char>, c: char)
    ensures
        parts(s, c).len() > 0,
        parts(s, c).len() == 1 ==> parts(s, c)[0] == s,
        parts(s, c).len() > 1 ==> ({
            let rest = s.skip(parts(s, c)[0].len() as int + 1);
            &&& s == parts(s, c)[0].push(c) + rest
            &&& parts(s, c) == seq![parts(s, c)[0]] + parts(rest, c)
        }),
{
    lemma_index_from(s, c, 0);
    if let Some(i) = index_of(s, c) {
        let rest = s.skip(i + 1);
        lemma_has_parts(rest, c);
        assert(parts(s, c) == seq![s.take(i)] + parts(rest, c));
        assert(parts(s, c)[0] == s.take(i));
        assert(s =~= s.take(i).push(c) + rest);
    }
}

proof fn lemma_has_parts(s: Seq<char>, c: char)
    ensures
        parts(s, c).len() > 0,
{
    lemma_index_from(s, c, 0);
}

/// A text is an IPv4 address exactly where it is how that address is written.
pub proof fn law_dotted_texts(s: Seq<char>, a: u8, b: u8, c: u8, d: u8)
    ensures
        v4_of(s) == Some((a, b, c, d)) <==> s == decimal(a as nat).push('.') + decimal(
            b as nat,
        ).push('.') + decimal(c as nat).push('.') + decimal(d as nat),
{
    lemma_v4(a, b, c, d);
    reveal_strlit(".");
    let text = decimal(a as nat).push('.') + decimal(b as nat).push('.') + decimal(c as nat).push(
        '.',
    ) + decimal(d as nat);
    assert(v4_text(a, b, c, d) =~= text);
    if v4_of(s) == Some((a, b, c, d)) {
        let p = parts(s, '.');
        law_octets(p[0], 0);
        law_octets(p[1], 0);
        law_octets(p[2], 0);
        law_octets(p[3], 0);
        lemma_four_parts(s, '.');
    }
}

proof fn lemma_two_parts(s: Seq<char>, c: char)
    requires
        parts(s, c).len() == 2,
    ensures
        s == parts(s, c)[0].push(c) + parts(s, c)[1],
{
    let p = parts(s, c);
    lemma_first_part(s, c);
    let rest = s.skip(p[0].len() as int + 1);
    lemma_first_part(rest, c);
    assert(parts(rest, c).len() == 1);
    assert(p[1] == parts(rest, c)[0]);
}

proof fn lemma_three_parts(s: Seq<char>, c: char)
    requires
        parts(s, c).len() == 3,
    ensures
        s == parts(s, c)[0].push(c) + (parts(s, c)[1].push(c) + parts(s, c)[2]),
{
    let p = parts(s, c);
    lemma_first_part(s, c);
    let rest = s.skip(p[0].len() as int + 1);
    let q = parts(rest, c);
    assert(p[1] == q[0] && p[2] == q[1]);
    lemma_two_parts(rest, c);
}

proof fn lemma_four_parts(s: Seq<char>, c: char)
    requires
        parts(s, c).len() == 4,
    ensures
        s == parts(s, c)[0].push(c) + parts(s, c)[1].push(c) + parts(s, c)[2].push(c) + parts(
            s,
            c,
        )[3],
{
    let p = parts(s, c);
    lemma_first_part(s, c);
    let rest = s.skip(p[0].len() as int + 1);
    let q = parts(rest, c);
    assert(p[1] == q[0] && p[2] == q[1] && p[3] == q[2]);
    lemma_three_parts(rest, c);
    assert(p[0].push(c) + (p[1].push(c) + (p[2].push(c) + p[3])) =~= p[0].push(c) + p[1].push(c)
        + p[2].push(c) + p[3]);
}

/// A group is one to four hexadecimal digits, high digits first.
pub proof fn law_groups(s: Seq<char>, c: char)
    ensures
        group_of(s) is Some <==> 1 <= s.len() <= 4 && forall|i: int|
            0 <= i < s.len() ==> (48 <= (#[trigger] s[i]) as u32 <= 57 || 65 <= s[i] as u32 <= 70
                || 97 <= s[i] as u32 <= 102),
        group_of(s) matches Some(n) ==> n == hex_value(s),
        hex_value(Seq::empty()) == 0,
        hex_value(s.push(c)) == hex_value(s) * 16 + hex_digit(c),
{
    assert(s.push(c).drop_last() =~= s);
    if group_of(s) is Some {
        lemma_four_digits(s);
        assert forall|i: int| 0 <= i < s.len() implies (48 <= (#[trigger] s[i]) as u32 <= 57 || 65
            <= s[i] as u32 <= 70 || 97 <= s[i] as u32 <= 102) by {
            assert(is_hex(s[i]));
        }
    }
    if 1 <= s.len() <= 4 && (forall|i: int|
        0 <= i < s.len() ==> (48 <= (#[trigger] s[i]) as u32 <= 57 || 65 <= s[i] as u32 <= 70 || 97
            <= s[i] as u32 <= 102)) {
        assert forall|i: int| 0 <= i < s.len() implies is_hex(#[trigger] s[i]) by {
            law_hexadecimal_digits(0, 0, s[i]);
        }
    }
}

proof fn lemma_four_digits(s: Seq<char>)
    requires
        s.len() <= 4,
        forall|i: int| 0 <= i < s.len() ==> is_hex(#[trigger] s[i]),
    ensures
        s.len() == 0 ==> hex_value(s) == 0,
        s.len() <= 1 ==> hex_value(s) < 16,
        s.len() <= 2 ==> hex_value(s) < 0x100,
        s.len() <= 3 ==> hex_value(s) < 0x1000,
        hex_value(s) < 0x1_0000,
    decreases s.len(),
{
    if s.len() > 0 {
        let shorter = s.drop_last();
        assert forall|i: int| 0 <= i < shorter.len() implies is_hex(#[trigger] shorter[i]) by {
            assert(shorter[i] == s[i]);
        }
        lemma_four_digits(shorter);
        assert(is_hex(s[s.len() - 1]));
        assert(hex_digit(s.last()) < 16);
    }
}

/// Eight groups with colons between them are an address; two colons that meet stand
/// for the groups of zero that are missing, at least one.
pub proof fn law_gaps_stand_for_zeros(h: Seq<u16>, t: Seq<u16>)
    ensures
        h.len() == 8 ==> v6_of(joined(h)) == Some(v6_from(h)),
        h.len() != 8 && h.len() > 0 ==> v6_of(joined(h)) is None,
        h.len() + t.len() <= 7 ==> v6_of(joined(h) + seq![':', ':'] + joined(t)) == Some(
            v6_from(h + Seq::new((8 - h.len() - t.len()) as nat, |i: int| 0u16) + t),
        ),
        h.len() + t.len() > 7 ==> v6_of(joined(h) + seq![':', ':'] + joined(t)) is None,
{
    lemma_head_reads_back(h);
    lemma_head_reads_back(t);
    lemma_joined_is_plain(h);
    lemma_joined_is_plain(t);
    lemma_around_gap(joined(h), joined(t));
    lemma_no_gap(joined(h), 0);
    if h.len() + t.len() <= 7 {
        lemma_v6_of_parts(joined(h), joined(t), h, t);
        let n = (8 - h.len() - t.len()) as nat;
        assert(zeros(n) =~= Seq::new(n, |i: int| 0u16));
    }
}

// ---------- the canonical form ----------

/// Whether `len` groups from `i` on are zero.
pub open spec fn is_zero_run(g: Seq<u16>, i: int, len: int) -> bool {
    0 <= i && i + len <= g.len() && forall|k: int| i <= k < i + len ==> g[k] == 0
}

proof fn lemma_run_is_at_least(g: Seq<u16>, i: int, len: int)
    requires
        is_zero_run(g, i, len),
        0 <= len,
    ensures
        zero_run(g, i) >= len,
    decreases len,
{
    if len > 0 {
        assert(g[i] == 0);
        lemma_run_is_at_least(g, i + 1, len - 1);
    }
}

proof fn lemma_longest_is(g: Seq<u16>, start: int, len: int, k: int)
    requires
        0 < len,
        is_zero_run(g, start, len),
        forall|i: int| !#[trigger] is_zero_run(g, i, len + 1),
        forall|i: int| i < start ==> !#[trigger] is_zero_run(g, i, len),
        0 <= k <= g.len(),
    ensures
        k <= start ==> longest_zeros(g, k).1 < len,
        k > start ==> longest_zeros(g, k) == (start, len as nat),
    decreases k,
{
    if k > 0 {
        lemma_longest_is(g, start, len, k - 1);
        let r = zero_run(g, k - 1);
        lemma_zero_run(g, k - 1);
        if r > len {
            assert(is_zero_run(g, k - 1, len + 1));
        }
        if k - 1 < start && r >= len {
            assert(is_zero_run(g, k - 1, len));
        }
        if k - 1 == start {
            lemma_run_is_at_least(g, start, len);
        }
    }
}

/// The canonical form of an IPv6 address: the longest run of two or more zero
/// groups, the first of several, is written as two colons, and all other groups
/// stand there in hexadecimal; an IPv4-mapped one ends in dotted decimal.
pub proof fn law_canonical_form(g: Seq<u16>, start: int, len: int)
    requires
        g.len() == 8,
    ensures
        g[0] == 0 && g[1] == 0 && g[2] == 0 && g[3] == 0 && g[4] == 0 && g[5] == 0xffff
            ==> ip_text(v6_from(g)) == "::ffff:"@ + (decimal((g[6] / 256) as nat).push('.')
            + decimal((g[6] % 256) as nat).push('.') + decimal((g[7] / 256) as nat).push('.')
            + decimal((g[7] % 256) as nat)),
        !(g[0] == 0 && g[1] == 0 && g[2] == 0 && g[3] == 0 && g[4] == 0 && g[5] == 0xffff) && len
            >= 2 && is_zero_run(g, start, len) && (forall|i: int| !#[trigger] is_zero_run(
            g,
            i,
            len + 1,
        )) && (forall|i: int| i < start ==> !#[trigger] is_zero_run(g, i, len)) ==> ip_text(
            v6_from(g),
        ) == joined(g.take(start)) + "::"@ + joined(g.skip(start + len)),
        !(g[0] == 0 && g[1] == 0 && g[2] == 0 && g[3] == 0 && g[4] == 0 && g[5] == 0xffff) && (
        forall|i: int| !#[trigger] is_zero_run(g, i, 2)) ==> ip_text(v6_from(g)) == joined(g),
{
    let all = groups(v6_from(g));
    assert(all =~= g);
    let mapped = seq![0u16, 0, 0, 0, 0, 0xffff];
    let head = g.take(6);
    assert(head[0] == g[0] && head[1] == g[1] && head[2] == g[2] && head[3] == g[3] && head[4]
        == g[4] && head[5] == g[5]);
    if g[0] == 0 && g[1] == 0 && g[2] == 0 && g[3] == 0 && g[4] == 0 && g[5] == 0xffff {
        assert(head =~= mapped);
        reveal_strlit(".");
        let a = (g[6] / 256) as u8;
        let b = (g[6] % 256) as u8;
        let c = (g[7] / 256) as u8;
        let d = (g[7] % 256) as u8;
        assert(v4_text(a, b, c, d) =~= decimal(a as nat).push('.') + decimal(b as nat).push('.')
            + decimal(c as nat).push('.') + decimal(d as nat));
    } else {
        assert(head != mapped) by {
            assert(mapped[0] == 0 && mapped[1] == 0 && mapped[2] == 0 && mapped[3] == 0
                && mapped[4] == 0 && mapped[5] == 0xffff);
        }
        if len >= 2 && is_zero_run(g, start, len) && (forall|i: int| !#[trigger] is_zero_run(
            g,
            i,
            len + 1,
        )) && (forall|i: int| i < start ==> !#[trigger] is_zero_run(g, i, len)) {
            lemma_longest_is(g, start, len, 8);
        }
        if forall|i: int| !#[trigger] is_zero_run(g, i, 2) {
            lemma_longest_zeros(g, 8);
            let (at, n) = longest_zeros(g, 8);
            if n > 1 {
                assert(is_zero_run(g, at, 2));
            }
        }
    }
}

/// Groups are joined in order, with a colon between two of them.
pub proof fn law_joined_groups(g: Seq<u16>, n: u16)
    ensures
        joined(Seq::empty()) == Seq::<char>::empty(),
        g.len() == 0 ==> joined(g.push(n)) == hexadecimal(n as nat),
        g.len() > 0 ==> joined(g.push(n)) == joined(g).push(':') + hexadecimal(n as nat),
{
    assert(g.push(n).drop_last() =~= g);
}

} // verus!
