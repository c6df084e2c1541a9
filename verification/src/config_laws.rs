//! What the sections of a configuration mean, said of their fields.

use crate::config::{
    config_of, host_port, listeners_of, ordered, scheme_of, section_before, service_of,
    service_warnings, text_before, upstream_of, upstream_section, upstream_warnings, upstreams_of,
    IpStack, LogLevel, Proto, RawConfig, RawListener, RawService, RawUpstream, DEFAULT_TIMEOUT_MS,
};
use crate::ip::{ip_of, Endpoint, Ip};
use crate::text::{
    decimal, find_from, index_of, lemma_decimal_round_trip, lemma_index_from, lowered, number_in,
    occurrences, split_at_first,
};
use crate::text_laws::{law_finding_a_pattern, law_numbers_read_back, law_occurrences_add_up};
use vstd::prelude::*;
use vstd::string::*;

verus! {

// ---------- [service] ----------

/// The names of the levels, without regard to case: an empty one is `info`,
/// `warning` is `warn` and `fatal` is `error`; any other name is refused.
pub proof fn law_log_levels(raw: RawService)
    ensures
        ({
            let name = lowered(raw.log_level@);
            let r = service_of(raw);
            &&& name.len() == 0 ==> (r matches Ok(s) && s.log_level == LogLevel::Info)
            &&& name == "info"@ ==> (r matches Ok(s) && s.log_level == LogLevel::Info)
            &&& name == "trace"@ ==> (r matches Ok(s) && s.log_level == LogLevel::Trace)
            &&& name == "debug"@ ==> (r matches Ok(s) && s.log_level == LogLevel::Debug)
            &&& name == "warn"@ ==> (r matches Ok(s) && s.log_level == LogLevel::Warn)
            &&& name == "warning"@ ==> (r matches Ok(s) && s.log_level == LogLevel::Warn)
            &&& name == "error"@ ==> (r matches Ok(s) && s.log_level == LogLevel::Error)
            &&& name == "fatal"@ ==> (r matches Ok(s) && s.log_level == LogLevel::Error)
            &&& r is Ok ==> name.len() == 0 || name == "info"@ || name == "trace"@ || name
                == "debug"@ || name == "warn"@ || name == "warning"@ || name == "error"@ || name
                == "fatal"@
        }),
{
    reveal_strlit("info");
    reveal_strlit("trace");
    reveal_strlit("debug");
    reveal_strlit("warn");
    reveal_strlit("warning");
    reveal_strlit("error");
    reveal_strlit("fatal");
    assert("trace"@[0] == 't' && "debug"@[0] == 'd' && "error"@[0] == 'e' && "fatal"@[0] == 'f');
    assert("info"@[0] == 'i' && "warn"@[0] == 'w' && "warning"@.len() == 7);
}

/// The log goes to the file that is named, if one is; the cache is on where it
/// is enabled and has a size, and its size is the one that is given, at least 1.
pub proof fn law_service_fields(raw: RawService)
    requires
        service_of(raw) is Ok,
    ensures
        ({
            let s = service_of(raw)->Ok_0;
            &&& raw.log_path@.len() == 0 ==> s.log_path is None
            &&& raw.log_path@.len() > 0 ==> s.log_path == Some(raw.log_path@)
            &&& s.cache_enable ==> raw.cache_enable && raw.cache_size > 0
            &&& raw.cache_enable && raw.cache_size > 0 ==> s.cache_enable
            &&& raw.cache_size > 0 ==> s.cache_size == raw.cache_size
            &&& s.cache_size >= 1
        }),
{
}

/// What is said about a service: that `fatal` is taken for `error`, and that an
/// enabled cache without a size is off; nothing else.
pub proof fn law_service_warnings(raw: RawService)
    requires
        service_of(raw) is Ok,
    ensures
        ({
            let told = service_warnings(raw);
            let fatal = lowered(raw.log_level@) == "fatal"@;
            let sizeless = raw.cache_enable && raw.cache_size == 0;
            &&& fatal ==> told.contains("[service] log_level \"fatal\" treated as \"error\""@)
            &&& sizeless ==> told.contains(
                "[service] cache_size must be positive; cache disabled"@,
            )
            &&& !fatal && !sizeless ==> told.len() == 0
            &&& told.len() <= 2
        }),
{
    let told = service_warnings(raw);
    let fatal = lowered(raw.log_level@) == "fatal"@;
    if fatal {
        assert(told[0] == "[service] log_level \"fatal\" treated as \"error\""@);
    }
    if raw.cache_enable && raw.cache_size == 0 {
        let k = if fatal {
            1int
        } else {
            0
        };
        assert(told[k] == "[service] cache_size must be positive; cache disabled"@);
    }
}

// ---------- endpoints ----------

/// A scheme stands before `://`, and the rest behind it; a text without a colon
/// has none.
pub proof fn law_schemes(a: Seq<char>, b: Seq<char>)
    requires
        !a.contains(':'),
    ensures
        scheme_of(a + "://"@ + b) == (Some(a), b),
        scheme_of(a) == (None::<Seq<char>>, a),
{
    reveal_strlit("://");
    let mark = "://"@;
    let s = a + mark + b;
    law_finding_a_pattern(s, mark, 0);
    law_finding_a_pattern(a, mark, 0);
    assert(s.subrange(a.len() as int, a.len() as int + 3) =~= mark);
    if let Some(k) = find_from(s, mark, 0) {
        if k < a.len() {
            assert(s.subrange(k, k + 3)[0] == s[k]);
            assert(mark[0] == ':');
            assert(a[k] == ':');
            assert(a.contains(':'));
        }
        if k > a.len() {
            assert(s.subrange(a.len() as int, a.len() as int + 3) != mark);
        }
    } else {
        assert(s.subrange(a.len() as int, a.len() as int + 3) != mark);
    }
    assert(s.take(a.len() as int) =~= a);
    assert(s.skip(a.len() as int + 3) =~= b);
    if let Some(k) = find_from(a, mark, 0) {
        assert(a.subrange(k, k + 3)[0] == a[k]);
        assert(mark[0] == ':');
        assert(a.contains(':'));
    }
}

proof fn lemma_none_occur(s: Seq<char>, c: char)
    requires
        !s.contains(c),
    ensures
        occurrences(s, c) == 0,
    decreases s.len(),
{
    if s.len() > 0 {
        assert forall|i: int| 0 <= i < s.drop_last().len() implies s.drop_last()[i] != c by {
            assert(s.contains(s[i]));
        }
        lemma_none_occur(s.drop_last(), c);
        assert(s.contains(s.last())) by {
            assert(s[s.len() - 1] == s.last());
        }
    }
}

/// Occurrences in a text are those in its parts.
proof fn lemma_occur_in_parts(a: Seq<char>, b: Seq<char>, c: char)
    ensures
        occurrences(a + b, c) == occurrences(a, c) + occurrences(b, c),
    decreases b.len(),
{
    if b.len() == 0 {
        assert(a + b =~= a);
    } else {
        lemma_occur_in_parts(a, b.drop_last(), c);
        assert((a + b).drop_last() =~= a + b.drop_last());
    }
}

/// A port stands behind a colon; a host without one gets the default. What has
/// more colons is an IPv6 literal, whose port stands behind brackets.
pub proof fn law_hosts_and_ports(host: Seq<char>, port: u16, default_port: u16)
    requires
        host.len() > 0,
    ensures
        host[0] != '[' && !host.contains(':') ==> {
            &&& host_port(host, default_port) == Some((host, default_port))
            &&& host_port(host.push(':') + decimal(port as nat), default_port) == Some((host, port))
        },
        host[0] != '[' && occurrences(host, ':') > 1 ==> host_port(host, default_port) == Some(
            (host, default_port),
        ),
        !host.contains(']') ==> {
            &&& host_port((seq!['['] + host).push(']'), default_port) == Some((host, default_port))
            &&& host_port(
                (seq!['['] + host).push(']').push(':') + decimal(port as nat),
                default_port,
            ) == Some((host, port))
        },
        host_port(Seq::empty(), default_port) is None,
{
    let digits = decimal(port as nat);
    law_numbers_read_back(port as nat, 65535, digits);
    lemma_decimal_round_trip(port as nat);
    assert(forall|i: int| 0 <= i < digits.len() ==> crate::text::is_digit(#[trigger] digits[i]));
    if host[0] != '[' && !host.contains(':') {
        lemma_none_occur(host, ':');
        lemma_index_from(host, ':', 0);
        if let Some(i) = index_of(host, ':') {
            assert(host.contains(host[i]));
        }
        let s = host.push(':') + digits;
        lemma_occur_in_parts(host.push(':'), digits, ':');
        law_occurrences_add_up(host, ':', ':');
        assert(!digits.contains(':')) by {
            if digits.contains(':') {
                let i = choose|i: int| 0 <= i < digits.len() && digits[i] == ':';
                assert(crate::text::is_digit(digits[i]));
            }
        }
        lemma_none_occur(digits, ':');
        assert(occurrences(s, ':') == 1);
        lemma_split(s, host, ':', digits);
    }
    if !host.contains(']') {
        let s = (seq!['['] + host).push(']');
        let t = (seq!['['] + host).push(']').push(':') + digits;
        assert(s.skip(1) =~= host.push(']') + Seq::<char>::empty());
        lemma_split(s.skip(1), host, ']', Seq::empty());
        let tail = seq![':'] + digits;
        assert(t.skip(1) =~= host.push(']') + tail);
        lemma_split(t.skip(1), host, ']', tail);
        assert(tail.skip(1) =~= digits);
    }
}

proof fn lemma_split(s: Seq<char>, a: Seq<char>, c: char, b: Seq<char>)
    requires
        s == a.push(c) + b,
        !a.contains(c),
    ensures
        split_at_first(s, c) == Some((a, b)),
{
    lemma_index_from(s, c, 0);
    assert(s[a.len() as int] == c);
    assert forall|i: int| 0 <= i < a.len() implies s[i] != c by {
        assert(a.contains(a[i]));
    }
    assert(index_of(s, c) == Some(a.len() as int));
    assert(s.take(a.len() as int) =~= a);
    assert(s.skip(a.len() as int + 1) =~= b);
}

// ---------- [upstream.N] ----------

/// The families that `ip_stack` names, without regard to case; any other name is
/// refused.
pub proof fn law_ip_stacks(key: Seq<char>, raw: RawUpstream)
    requires
        upstream_of(key, raw) is Ok,
    ensures
        ({
            let name = lowered(raw.ip_stack@);
            let stack = (upstream_of(key, raw)->Ok_0).ip_stack;
            &&& name == "v4"@ ==> stack == IpStack::V4
            &&& name == "v6"@ ==> stack == IpStack::V6
            &&& name.len() == 0 || name == "both"@ || name == "split"@ ==> stack == IpStack::Both
            &&& name.len() == 0 || name == "both"@ || name == "split"@ || name == "v4"@ || name
                == "v6"@
        }),
{
    reveal(upstream_of);
    reveal_strlit("v4");
    reveal_strlit("v6");
    reveal_strlit("both");
    reveal_strlit("split");
    assert("v4"@[1] == '4' && "v6"@[1] == '6');
}

/// The protocol of an upstream: the one that `type` names, without regard to
/// case; where there is no type, the one that the scheme stands for; and where
/// there is neither, the endpoint is an IP literal and the protocol plain DNS. A
/// type and a scheme have to agree, but `https` carries doh3 too.
pub proof fn law_protocols(key: Seq<char>, raw: RawUpstream)
    requires
        upstream_of(key, raw) is Ok,
    ensures
        ({
            let kind = lowered(raw.kind@);
            let proto = (upstream_of(key, raw)->Ok_0).proto;
            let scheme = scheme_of(raw.endpoint@).0;
            &&& kind == "doh"@ ==> proto == Proto::Doh
            &&& kind == "doh3"@ ==> proto == Proto::Doh3
            &&& kind == "dot"@ ==> proto == Proto::Dot
            &&& kind == "doq"@ ==> proto == Proto::Doq
            &&& kind == "legacy"@ ==> proto == Proto::Legacy
            &&& kind.len() == 0 || kind == "doh"@ || kind == "doh3"@ || kind == "dot"@ || kind
                == "doq"@ || kind == "legacy"@
            &&& scheme == Some("https"@) ==> proto == Proto::Doh || proto == Proto::Doh3 && kind
                == "doh3"@
            &&& scheme == Some("h3"@) ==> proto == Proto::Doh3
            &&& scheme == Some("quic"@) ==> proto == Proto::Doq
            &&& scheme == Some("tls"@) || scheme == Some("dot"@) ==> proto == Proto::Dot
            &&& scheme is None && kind.len() == 0 ==> proto == Proto::Legacy && (ip_of(
                raw.endpoint@,
            ) is Some || (host_port(raw.endpoint@, 53) matches Some((h, _)) && ip_of(h) is Some))
            &&& scheme matches Some(text) ==> text == "https"@ || text == "h3"@ || text == "quic"@
                || text == "tls"@ || text == "dot"@
        }),
{
    reveal(upstream_of);
    reveal_strlit("doh");
    reveal_strlit("doh3");
    reveal_strlit("dot");
    reveal_strlit("doq");
    reveal_strlit("legacy");
    reveal_strlit("https");
    reveal_strlit("h3");
    reveal_strlit("quic");
    reveal_strlit("tls");
    assert("doh"@[2] == 'h' && "dot"@[2] == 't' && "doq"@[2] == 'q' && "tls"@[0] == 't');
    assert("dot"@[0] == 'd');
    assert("https"@.len() == 5 && "h3"@.len() == 2 && "quic"@.len() == 4 && "tls"@.len() == 3);
}

/// The other fields of an upstream: its name, or one made of its number; its
/// timeout; its known address, which is the one that is given or else the host
/// itself where that is an address.
pub proof fn law_upstream_fields(key: Seq<char>, raw: RawUpstream)
    requires
        upstream_of(key, raw) is Ok,
    ensures
        ({
            let up = upstream_of(key, raw)->Ok_0;
            &&& raw.name@.len() > 0 ==> up.name == raw.name@
            &&& raw.name@.len() == 0 ==> up.name == "upstream."@ + key
            &&& up.timeout_ms == raw.timeout
            &&& raw.bootstrap_ip@.len() > 0 ==> up.bootstrap_ip is Some && up.bootstrap_ip == ip_of(
                raw.bootstrap_ip@,
            )
            &&& raw.bootstrap_ip@.len() == 0 ==> up.bootstrap_ip == ip_of(up.host)
            &&& raw.endpoint@.len() > 0
        }),
{
    reveal(upstream_of);
}

/// Host, port and path of a doh or doh3 endpoint, where it is a URL with a path,
/// and the path that is asked for where it has none.
pub proof fn law_url_endpoints(key: Seq<char>, raw: RawUpstream, host: Seq<char>, path: Seq<char>)
    requires
        upstream_of(key, raw) is Ok,
        (upstream_of(key, raw)->Ok_0).proto == Proto::Doh || (upstream_of(key, raw)->Ok_0).proto
            == Proto::Doh3,
        host.len() > 0,
        host[0] != '[',
        !host.contains(':'),
        !host.contains('/'),
        scheme_of(raw.endpoint@).1 == host + path,
        path.len() == 0 || path[0] == '/',
    ensures
        ({
            let up = upstream_of(key, raw)->Ok_0;
            &&& up.host == host
            &&& up.port == 443
            &&& path.len() > 1 ==> up.path == path
            &&& path.len() <= 1 ==> up.path == "/dns-query"@
        }),
{
    reveal(upstream_of);
    reveal_strlit("/");
    let rest = host + path;
    lemma_index_from(rest, '/', 0);
    law_hosts_and_ports(host, 0, 443);
    assert forall|i: int| 0 <= i < host.len() implies rest[i] != '/' by {
        assert(host.contains(host[i]));
    }
    if path.len() > 0 {
        assert(rest[host.len() as int] == '/');
        assert(index_of(rest, '/') == Some(host.len() as int));
        assert(rest.take(host.len() as int) =~= host);
        assert(rest.skip(host.len() as int) =~= path);
        if path.len() == 1 {
            assert(path =~= "/"@);
        }
    } else {
        assert(rest =~= host);
    }
}

/// Host and port of a plain, dot or doq endpoint: the default ports are 53 and
/// 853, and there is no path.
pub proof fn law_plain_endpoints(key: Seq<char>, raw: RawUpstream, host: Seq<char>, port: u16)
    requires
        upstream_of(key, raw) is Ok,
        !((upstream_of(key, raw)->Ok_0).proto == Proto::Doh),
        !((upstream_of(key, raw)->Ok_0).proto == Proto::Doh3),
        host.len() > 0,
        host[0] != '[',
        !host.contains(':'),
    ensures
        ({
            let up = upstream_of(key, raw)->Ok_0;
            let rest = scheme_of(raw.endpoint@).1;
            &&& up.path.len() == 0
            &&& rest == host ==> up.host == host && up.port == if up.proto == Proto::Legacy {
                53u16
            } else {
                853u16
            }
            &&& rest == host.push(':') + decimal(port as nat) ==> up.host == host && up.port == port
        }),
{
    reveal(upstream_of);
    law_hosts_and_ports(host, port, 53);
    law_hosts_and_ports(host, port, 853);
}

/// A plain hostname with a type is accepted, whatever the type and the stack.
pub proof fn law_typed_hosts_are_accepted(key: Seq<char>, raw: RawUpstream)
    requires
        raw.endpoint@.len() > 0,
        raw.endpoint@[0] != '[',
        !raw.endpoint@.contains(':'),
        !raw.endpoint@.contains('/'),
        raw.bootstrap_ip@.len() == 0,
        ({
            let kind = lowered(raw.kind@);
            kind == "doh"@ || kind == "doh3"@ || kind == "dot"@ || kind == "doq"@ || kind
                == "legacy"@
        }),
        ({
            let name = lowered(raw.ip_stack@);
            name.len() == 0 || name == "both"@ || name == "split"@ || name == "v4"@ || name == "v6"@
        }),
    ensures
        upstream_of(key, raw) matches Ok(up) && up.host == raw.endpoint@,
{
    reveal(upstream_of);
    reveal_strlit("doh");
    reveal_strlit("doh3");
    reveal_strlit("dot");
    reveal_strlit("doq");
    reveal_strlit("legacy");
    let e = raw.endpoint@;
    law_schemes(e, Seq::empty());
    law_hosts_and_ports(e, 0, 443);
    law_hosts_and_ports(e, 0, 853);
    law_hosts_and_ports(e, 0, 53);
    lemma_index_from(e, '/', 0);
    if let Some(i) = index_of(e, '/') {
        assert(e.contains(e[i]));
    }
}

/// What is said about an accepted upstream: that a `split` stack is taken for
/// `both`, and that a URL was made of an endpoint without a scheme and a path.
pub proof fn law_upstream_warnings(key: Seq<char>, raw: RawUpstream)
    requires
        upstream_of(key, raw) is Ok,
    ensures
        ({
            let up = upstream_of(key, raw)->Ok_0;
            let told = upstream_warnings(key, raw);
            let split = lowered(raw.ip_stack@) == "split"@;
            let schemeless = scheme_of(raw.endpoint@).0 is None;
            &&& split ==> told.contains(
                "[upstream."@ + key + "]"@ + " ip_stack \"split\" treated as \"both\" in this build"@,
            )
            &&& !split && !schemeless ==> told.len() == 0
            &&& !split && up.path.len() == 0 ==> told.len() == 0
            &&& told.len() <= 2
        }),
{
    reveal(upstream_of);
    reveal(upstream_warnings);
    reveal_strlit("/dns-query");
    lemma_index_from(scheme_of(raw.endpoint@).1, '/', 0);
    let told = upstream_warnings(key, raw);
    if lowered(raw.ip_stack@) == "split"@ {
        assert(told.last() == upstream_section(key)
            + " ip_stack \"split\" treated as \"both\" in this build"@);
        assert(told[told.len() - 1] == told.last());
    }
}

// ---------- the order of sections ----------

/// Sections with numbers come in the order of their numbers, whatever the number
/// of digits, and before those without one.
pub proof fn law_numbers_decide_the_order(a: nat, b: nat, other: Seq<char>)
    requires
        a < u64::MAX,
        b < u64::MAX,
        number_in(other, u64::MAX as nat) is None,
    ensures
        a < b ==> section_before(decimal(a), decimal(b)),
        a < b ==> !section_before(decimal(b), decimal(a)),
        section_before(decimal(a), other),
        !section_before(other, decimal(a)),
{
    law_numbers_read_back(a, u64::MAX as nat, other);
    law_numbers_read_back(b, u64::MAX as nat, other);
}

/// Of two texts that agree up to a place, the one with the smaller character
/// there comes first; and a text comes before whatever it begins.
pub proof fn law_texts_are_ordered_by_the_first_difference(
    p: Seq<char>,
    a: char,
    b: char,
    x: Seq<char>,
    y: Seq<char>,
)
    ensures
        a < b ==> text_before(p.push(a) + x, p.push(b) + y),
        a < b ==> !text_before(p.push(b) + y, p.push(a) + x),
        text_before(p, p.push(b) + y),
        !text_before(p.push(b) + y, p),
    decreases p.len(),
{
    let s = p.push(a) + x;
    let t = p.push(b) + y;
    assert(s[p.len() as int] == a && t[p.len() as int] == b);
    if p.len() > 0 {
        let q = p.drop_first();
        law_texts_are_ordered_by_the_first_difference(q, a, b, x, y);
        assert(s.drop_first() =~= q.push(a) + x);
        assert(t.drop_first() =~= q.push(b) + y);
        assert(s[0] == p[0] && t[0] == p[0]);
    }
}

// ---------- the whole configuration ----------

/// Every listener section gives the address and the port it names, in order; all
/// are accepted exactly where every address is one.
pub proof fn law_listeners_are_what_they_say(s: Seq<(String, RawListener)>)
    ensures
        listeners_of(s) matches Ok(list) ==> list.len() == s.len() && forall|i: int|
            0 <= i < s.len() ==> ip_of((#[trigger] s[i]).1.ip@) == Some(list[i].ip) && list[i].port
                == s[i].1.port,
        (forall|i: int| 0 <= i < s.len() ==> ip_of((#[trigger] s[i]).1.ip@) is Some)
            ==> listeners_of(s) is Ok,
    decreases s.len(),
{
    if s.len() > 0 {
        let shorter = s.drop_last();
        law_listeners_are_what_they_say(shorter);
        assert(forall|i: int| 0 <= i < shorter.len() ==> shorter[i] == #[trigger] s[i]);
        assert(s[s.len() - 1] == s.last());
        if forall|i: int| 0 <= i < s.len() ==> ip_of((#[trigger] s[i]).1.ip@) is Some {
            assert forall|i: int| 0 <= i < shorter.len() implies ip_of(
                (#[trigger] shorter[i]).1.ip@,
            ) is Some by {
                assert(shorter[i] == s[i]);
            }
        }
        if let Ok(list) = listeners_of(s) {
            let before = listeners_of(shorter)->Ok_0;
            assert forall|i: int| 0 <= i < s.len() implies ip_of((#[trigger] s[i]).1.ip@) == Some(
                list[i].ip,
            ) && list[i].port == s[i].1.port by {
                if i < shorter.len() {
                    assert(shorter[i] == s[i]);
                    assert(list[i] == before[i]);
                }
            }
        }
    }
}

/// Every upstream section gives its upstream, in order; all are accepted exactly
/// where each of them is.
pub proof fn law_upstreams_are_what_they_say(s: Seq<(String, RawUpstream)>)
    ensures
        upstreams_of(s) matches Ok(list) ==> list.len() == s.len() && forall|i: int|
            0 <= i < s.len() ==> (upstream_of((#[trigger] s[i]).0@, s[i].1) matches Ok(up) && up
                == list[i]),
        (forall|i: int| 0 <= i < s.len() ==> upstream_of((#[trigger] s[i]).0@, s[i].1) is Ok)
            ==> upstreams_of(s) is Ok,
    decreases s.len(),
{
    if s.len() > 0 {
        let shorter = s.drop_last();
        law_upstreams_are_what_they_say(shorter);
        assert(s[s.len() - 1] == s.last());
        if forall|i: int| 0 <= i < s.len() ==> upstream_of((#[trigger] s[i]).0@, s[i].1) is Ok {
            assert forall|i: int| 0 <= i < shorter.len() implies upstream_of(
                (#[trigger] shorter[i]).0@,
                shorter[i].1,
            ) is Ok by {
                assert(shorter[i] == s[i]);
            }
        }
        if let Ok(list) = upstreams_of(s) {
            let before = upstreams_of(shorter)->Ok_0;
            assert forall|i: int| 0 <= i < s.len() implies (upstream_of(
                (#[trigger] s[i]).0@,
                s[i].1,
            ) matches Ok(up) && up == list[i]) by {
                if i < shorter.len() {
                    assert(shorter[i] == s[i]);
                    assert(list[i] == before[i]);
                }
            }
        }
    }
}

/// A configuration holds what its sections say; without a listener it listens on
/// 127.0.0.1, port 53; without an upstream it is refused.
pub proof fn law_configurations_hold_their_sections(raw: RawConfig)
    ensures
        config_of(raw) matches Ok(config) ==> {
            &&& service_of(raw.service) == Ok::<_, Seq<char>>(config.service)
            &&& upstreams_of(ordered(raw.upstream@)) == Ok::<_, Seq<char>>(config.upstreams)
            &&& config.upstreams.len() > 0
            &&& raw.listener@.len() == 0 ==> config.listeners == seq![
                Endpoint { ip: Ip::V4(127, 0, 0, 1), port: 53 },
            ]
            &&& raw.listener@.len() > 0 ==> listeners_of(ordered(raw.listener@)) == Ok::<
                _,
                Seq<char>,
            >(config.listeners)
        },
        service_of(raw.service) is Ok && listeners_of(ordered(raw.listener@)) is Ok && upstreams_of(
            ordered(raw.upstream@),
        ) is Ok && raw.upstream@.len() > 0 ==> config_of(raw) is Ok,
{
    law_listeners_are_what_they_say(ordered(raw.listener@));
    law_upstreams_are_what_they_say(ordered(raw.upstream@));
    crate::config::law_sections_are_put_in_order(raw.listener@);
    crate::config::law_sections_are_put_in_order(raw.upstream@);
}

/// An upstream that gives no timeout has five seconds.
pub proof fn law_default_timeout()
    ensures
        DEFAULT_TIMEOUT_MS == 5000,
{
}

} // verus!
