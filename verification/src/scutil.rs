//! The global resolvers in what `scutil --dns` prints.

use crate::ip::{ip_of, parse_ip, Ip};
use crate::text::{
    begins_with, chars_of, find_char, has_prefix, index_of, lines_of, same_chars, split_at_first,
    split_lines, trim, trimmed, views,
};
use vstd::prelude::*;
use vstd::slice::slice_subrange;

verus! {

/// What a line of the output is.
#[derive(Clone, Copy, PartialEq, Eq, Structural)]
pub enum Line {
    /// The title of the global section.
    Global,
    /// The title of a section for scoped or service-specific queries.
    Scoped,
    /// The start of a resolver block.
    Resolver,
    /// A restriction of the block to one domain.
    Domain,
    /// The address of a server.
    Server(Ip),
    Other,
}

/// The address behind the colon of a `nameserver[N]` line. One with a zone is
/// none.
pub open spec fn server_on(line: Seq<char>) -> Option<Ip> {
    match split_at_first(line, ':') {
        Some((_, value)) => if index_of(trimmed(value), '%') is None {
            ip_of(trimmed(value))
        } else {
            None
        },
        None => None,
    }
}

/// What a trimmed line is.
pub open spec fn line_of(line: Seq<char>) -> Line {
    if line == "DNS configuration"@ {
        Line::Global
    } else if begins_with(line, "DNS configuration ("@) {
        Line::Scoped
    } else if begins_with(line, "resolver #"@) {
        Line::Resolver
    } else if begins_with(line, "domain"@) {
        Line::Domain
    } else if begins_with(line, "nameserver["@) {
        match server_on(line) {
            Some(ip) => Line::Server(ip),
            None => Line::Other,
        }
    } else {
        Line::Other
    }
}

/// Whether a line is the title of a section.
pub open spec fn is_title(line: Line) -> bool {
    line is Global || line is Scoped
}

/// Whether a line starts a new block.
pub open spec fn is_boundary(line: Line) -> bool {
    is_title(line) || line is Resolver
}

/// Whether the line `i` stands in the global section: the last title before it
/// is the global one.
pub open spec fn in_global(lines: Seq<Line>, i: int) -> bool {
    exists|t: int|
        0 <= t < i && (#[trigger] lines[t]) is Global && forall|k: int|
            t < k < i ==> !is_title(#[trigger] lines[k])
}

/// Whether the lines `i` and `j` stand in the same block: no block starts
/// between them.
pub open spec fn same_block(lines: Seq<Line>, i: int, j: int) -> bool {
    forall|k: int|
        (i < k <= j || j < k <= i) ==> !is_boundary(#[trigger] lines[k])
}

/// Whether the block of the line `i` is restricted to a domain.
pub open spec fn is_restricted(lines: Seq<Line>, i: int) -> bool {
    exists|j: int|
        0 <= j < lines.len() && (#[trigger] lines[j]) is Domain && same_block(lines, i, j)
}

/// Whether the line `i` names a global resolver: a server in the global
/// section whose block is not restricted to a domain.
pub open spec fn is_accepted(lines: Seq<Line>, i: int) -> bool {
    lines[i] is Server && in_global(lines, i) && !is_restricted(lines, i)
}

/// The global resolvers on the first `n` lines.
pub open spec fn accepted(lines: Seq<Line>, n: int) -> Seq<Ip>
    decreases n,
{
    if n <= 0 {
        Seq::empty()
    } else if is_accepted(lines, n - 1) {
        accepted(lines, n - 1).push(lines[n - 1]->Server_0)
    } else {
        accepted(lines, n - 1)
    }
}

/// What the lines of a text are.
pub open spec fn kinds(text: Seq<char>) -> Seq<Line> {
    lines_of(text).map_values(|line: Seq<char>| line_of(trimmed(line)))
}

/// The global resolvers in the output of `scutil --dns`, in the order in which
/// they stand there.
pub open spec fn global_dns(text: Seq<char>) -> Seq<Ip> {
    accepted(kinds(text), kinds(text).len() as int)
}

// ---------- reading line by line ----------

/// What is known after some lines.
pub struct Scan {
    pub servers: Seq<Ip>,
    pub pending: Seq<Ip>,
    pub restricted: bool,
    pub global: bool,
}

/// The servers, with those of the block at hand where they count.
spec fn settled(s: Scan) -> Seq<Ip> {
    if s.restricted {
        s.servers
    } else {
        s.servers + s.pending
    }
}

spec fn scan(lines: Seq<Line>, n: int) -> Scan
    decreases n,
{
    if n <= 0 {
        Scan { servers: Seq::empty(), pending: Seq::empty(), restricted: false, global: false }
    } else {
        let s = scan(lines, n - 1);
        let cut = Scan {
            servers: settled(s),
            pending: Seq::empty(),
            restricted: false,
            global: s.global,
        };
        match lines[n - 1] {
            Line::Global => Scan { global: true, ..cut },
            Line::Scoped => Scan { global: false, ..cut },
            Line::Resolver => if s.global {
                cut
            } else {
                s
            },
            Line::Domain => if s.global {
                Scan { restricted: true, ..s }
            } else {
                s
            },
            Line::Server(ip) => if s.global {
                Scan { pending: s.pending.push(ip), ..s }
            } else {
                s
            },
            Line::Other => s,
        }
    }
}

/// Where the block that holds the line before `n` starts.
spec fn block_start(lines: Seq<Line>, n: int) -> int
    decreases n,
{
    if n <= 0 {
        0
    } else if is_boundary(lines[n - 1]) {
        n - 1
    } else {
        block_start(lines, n - 1)
    }
}

proof fn lemma_block_start(lines: Seq<Line>, n: int)
    requires
        0 <= n <= lines.len(),
    ensures
        0 <= block_start(lines, n) <= n,
        n > 0 ==> block_start(lines, n) < n,
        forall|k: int| block_start(lines, n) < k < n ==> !is_boundary(#[trigger] lines[k]),
        block_start(lines, n) > 0 ==> is_boundary(lines[block_start(lines, n)]),
    decreases n,
{
    if n > 0 && !is_boundary(lines[n - 1]) {
        lemma_block_start(lines, n - 1);
    }
}

/// The servers among the lines `from..n`.
spec fn servers_between(lines: Seq<Line>, from: int, n: int) -> Seq<Ip>
    decreases n - from,
{
    if n <= from {
        Seq::empty()
    } else if lines[n - 1] is Server {
        servers_between(lines, from, n - 1).push(lines[n - 1]->Server_0)
    } else {
        servers_between(lines, from, n - 1)
    }
}

/// Whether a domain restriction stands among the lines `from..n`.
spec fn domain_between(lines: Seq<Line>, from: int, n: int) -> bool {
    exists|j: int| from <= j < n && (#[trigger] lines[j]) is Domain
}

/// The accepted lines before the block that holds the line before `n`.
proof fn lemma_scan(lines: Seq<Line>, n: int)
    requires
        0 <= n <= lines.len(),
    ensures
        ({
            let s = scan(lines, n);
            let b = block_start(lines, n);
            &&& s.global == in_global(lines, n)
            &&& s.servers == accepted(lines, b)
            &&& s.global ==> s.pending == servers_between(lines, b, n)
            &&& s.global ==> s.restricted == domain_between(lines, b, n)
            &&& !s.global ==> s.pending == Seq::<Ip>::empty() && !s.restricted
        }),
    decreases n,
{
    let b = block_start(lines, n);
    lemma_block_start(lines, n);
    if n > 0 {
        let last = lines[n - 1];
        let s = scan(lines, n - 1);
        let b0 = block_start(lines, n - 1);
        lemma_scan(lines, n - 1);
        lemma_block_start(lines, n - 1);
        lemma_in_global_step(lines, n);
        if is_boundary(last) {
            lemma_closed_block(lines, n - 1);
            assert(accepted(lines, b0) + Seq::<Ip>::empty() =~= accepted(lines, b0));
            assert(!domain_between(lines, n - 1, n));
            assert(servers_between(lines, n - 1, n - 1) =~= Seq::<Ip>::empty());
            assert(settled(s) =~= accepted(lines, n - 1));
            if last is Resolver && !s.global {
                assert(s.servers =~= accepted(lines, n - 1));
            }
        } else {
            assert(domain_between(lines, b, n) == (domain_between(lines, b, n - 1)
                || last is Domain)) by {
                if domain_between(lines, b, n - 1) {
                    let j = choose|j: int| b <= j < n - 1 && (#[trigger] lines[j]) is Domain;
                    assert(lines[j] is Domain);
                }
                if last is Domain {
                    assert(lines[n - 1] is Domain);
                }
            }
        }
    } else {
        assert(!domain_between(lines, 0, 0));
        assert(!in_global(lines, 0));
    }
}

proof fn lemma_in_global_step(lines: Seq<Line>, n: int)
    requires
        0 < n <= lines.len(),
    ensures
        in_global(lines, n) == (if is_title(lines[n - 1]) {
            lines[n - 1] is Global
        } else {
            in_global(lines, n - 1)
        }),
{
    if lines[n - 1] is Global {
        assert(in_global(lines, n)) by {
            assert(lines[n - 1] is Global);
        }
    }
    if in_global(lines, n - 1) && !is_title(lines[n - 1]) {
        let t = choose|t: int|
            0 <= t < n - 1 && (#[trigger] lines[t]) is Global && forall|k: int|
                t < k < n - 1 ==> !is_title(#[trigger] lines[k]);
        assert(lines[t] is Global);
        assert forall|k: int| t < k < n implies !is_title(#[trigger] lines[k]) by {}
    }
    if in_global(lines, n) && !(lines[n - 1] is Global) {
        let t = choose|t: int|
            0 <= t < n && (#[trigger] lines[t]) is Global && forall|k: int|
                t < k < n ==> !is_title(#[trigger] lines[k]);
        assert(lines[t] is Global);
        assert(t < n - 1);
        assert(!is_title(lines[n - 1]));
        assert(in_global(lines, n - 1));
    }
}

/// A block that ends at the boundary `n`: its servers are accepted as one.
proof fn lemma_closed_block(lines: Seq<Line>, n: int)
    requires
        0 <= n <= lines.len(),
        n == lines.len() || is_boundary(lines[n]),
    ensures
        ({
            let b = block_start(lines, n);
            accepted(lines, n) == if in_global(lines, n) && !domain_between(lines, b, n) {
                accepted(lines, b) + servers_between(lines, b, n)
            } else {
                accepted(lines, b)
            }
        }),
{
    lemma_block_start(lines, n);
    lemma_closed_block_upto(lines, n, n);
}

proof fn lemma_closed_block_upto(lines: Seq<Line>, n: int, m: int)
    requires
        0 <= n <= lines.len(),
        n == lines.len() || is_boundary(lines[n]),
        block_start(lines, n) <= m <= n,
    ensures
        ({
            let b = block_start(lines, n);
            accepted(lines, m) == if in_global(lines, n) && !domain_between(lines, b, n) {
                accepted(lines, b) + servers_between(lines, b, m)
            } else {
                accepted(lines, b)
            }
        }),
    decreases m,
{
    let b = block_start(lines, n);
    lemma_block_start(lines, n);
    if m == b {
        assert(accepted(lines, b) + Seq::<Ip>::empty() =~= accepted(lines, b));
    } else {
        lemma_closed_block_upto(lines, n, m - 1);
        let i = m - 1;
        if lines[i] is Server {
            lemma_global_in_block(lines, n, i);
            assert(is_restricted(lines, i) == domain_between(lines, b, n)) by {
                if domain_between(lines, b, n) {
                    let j = choose|j: int| b <= j < n && (#[trigger] lines[j]) is Domain;
                    assert(same_block(lines, i, j));
                }
                if is_restricted(lines, i) {
                    let j = choose|j: int|
                        0 <= j < lines.len() && (#[trigger] lines[j]) is Domain && same_block(
                            lines,
                            i,
                            j,
                        );
                    if j < b {
                        assert(is_boundary(lines[b]));
                    }
                    if j >= n {
                        assert(is_boundary(lines[n]));
                    }
                    assert(b <= j < n);
                }
            }
            assert(accepted(lines, b) + servers_between(lines, b, m) =~= (accepted(lines, b)
                + servers_between(lines, b, i)).push(lines[i]->Server_0));
        }
    }
}

/// All lines of a block that are no title stand in the same section.
proof fn lemma_global_in_block(lines: Seq<Line>, n: int, i: int)
    requires
        0 <= n <= lines.len(),
        block_start(lines, n) <= i < n,
        !is_boundary(lines[i]),
    ensures
        in_global(lines, i) == in_global(lines, n),
    decreases n - i,
{
    lemma_block_start(lines, n);
    let b = block_start(lines, n);
    lemma_in_global_step(lines, i + 1);
    lemma_global_after(lines, b, i + 1, n);
}

proof fn lemma_global_after(lines: Seq<Line>, b: int, i: int, n: int)
    requires
        0 <= b < i <= n <= lines.len(),
        forall|k: int| b < k < n ==> !is_boundary(#[trigger] lines[k]),
    ensures
        in_global(lines, i) == in_global(lines, n),
    decreases n - i,
{
    if i < n {
        lemma_in_global_step(lines, i + 1);
        assert(!is_boundary(lines[i]));
        lemma_global_after(lines, b, i + 1, n);
    }
}

fn server_line(line: &[char]) -> (r: Option<Ip>)
    ensures
        r == server_on(line@),
{
    let len: usize = line.len();
    let at: usize = match find_char(line, ':') {
        Some(at) => at,
        None => return None,
    };
    let rest: &[char] = slice_subrange(line, at + 1, len);
    assert(rest@ =~= line@.skip(at + 1));
    let value: &[char] = trim(rest);
    if find_char(value, '%').is_some() {
        return None;
    }
    parse_ip(value)
}

fn read_line(line: &[char]) -> (r: Line)
    ensures
        r == line_of(line@),
{
    if same_chars(line, chars_of("DNS configuration").as_slice()) {
        Line::Global
    } else if has_prefix(line, "DNS configuration (") {
        Line::Scoped
    } else if has_prefix(line, "resolver #") {
        Line::Resolver
    } else if has_prefix(line, "domain") {
        Line::Domain
    } else if has_prefix(line, "nameserver[") {
        match server_line(line) {
            Some(ip) => Line::Server(ip),
            None => Line::Other,
        }
    } else {
        Line::Other
    }
}

/// Move the servers of a finished block to the others, unless the block is
/// restricted to a domain.
fn commit(pending: &mut Vec<Ip>, restricted: &mut bool, out: &mut Vec<Ip>)
    ensures
        final(out)@ == if *old(restricted) {
            old(out)@
        } else {
            old(out)@ + old(pending)@
        },
        final(pending)@ == Seq::<Ip>::empty(),
        !*final(restricted),
{
    if !*restricted {
        out.append(pending);
    }
    pending.clear();
    *restricted = false;
}

/// Global default resolvers only. Accepted resolver blocks must sit in the
/// section titled exactly `DNS configuration` — every `DNS configuration
/// (...)` variant (scoped or service-specific) is excluded — and must carry
/// no `domain` restriction: a split-DNS VPN resolver in the main section
/// serves only its own domain and must never become a global fallback.
pub fn parse_scutil_global_dns(text: &str) -> (out: Vec<Ip>)
    ensures
        out@ == global_dns(text@),
{
    let chars: Vec<char> = chars_of(text);
    let lines: Vec<Vec<char>> = split_lines(chars.as_slice());
    let ghost all = kinds(text@);
    let mut servers: Vec<Ip> = Vec::new();
    let mut pending: Vec<Ip> = Vec::new();
    let mut restricted: bool = false;
    let mut global: bool = false;
    let mut i: usize = 0;
    while i < lines.len()
        invariant
            i <= lines@.len(),
            views(lines@) == lines_of(text@),
            all == kinds(text@),
            scan(all, i as int) == (Scan {
                servers: servers@,
                pending: pending@,
                restricted,
                global,
            }),
        decreases lines@.len() - i,
    {
        proof {
            assert(lines_of(text@)[i as int] == lines@[i as int]@);
        }
        match read_line(trim(lines[i].as_slice())) {
            Line::Global => {
                commit(&mut pending, &mut restricted, &mut servers);
                global = true;
            },
            Line::Scoped => {
                commit(&mut pending, &mut restricted, &mut servers);
                global = false;
            },
            Line::Resolver => {
                if global {
                    commit(&mut pending, &mut restricted, &mut servers);
                }
            },
            Line::Domain => {
                if global {
                    restricted = true;
                }
            },
            Line::Server(ip) => {
                if global {
                    pending.push(ip);
                }
            },
            Line::Other => {},
        }
        i = i + 1;
    }
    proof {
        lemma_scan(all, i as int);
        lemma_closed_block(all, i as int);
        assert(servers@ + pending@ =~= settled(scan(all, i as int)) || restricted);
        if !global {
            assert(servers@ + pending@ =~= servers@);
        }
    }
    commit(&mut pending, &mut restricted, &mut servers);
    servers
}

} // verus!
