//! Configuration from command-line options: the TOML text that they stand for.

use crate::config::{
    host_port, named_proto, proto_named, section_before, split_host_port, texts, Proto,
};
use crate::ip::{ip_of, ip_text, parse_ip_text, show_ip, Endpoint};
use crate::text::{
    chars_of, debug_text, decimal, find_char, join, join3, lemma_decimal_round_trip, lowered,
    show_debug, show_number, split_at_first, text_of, to_lower,
};
use vstd::prelude::*;
use vstd::string::*;

verus! {

// ---------- TOML strings ----------

/// The uppercase hexadecimal digit for `d`.
pub open spec fn upper_hex(d: nat) -> char {
    if d < 10 {
        (('0' as u32) + d) as u32 as char
    } else {
        (('A' as u32) + d - 10) as u32 as char
    }
}

/// One character inside a TOML basic string. Quotes, backslashes and control
/// characters are escaped.
pub open spec fn toml_char(c: char) -> Seq<char> {
    if c == '"' {
        seq!['\\', '"']
    } else if c == '\\' {
        seq!['\\', '\\']
    } else if '\u{0}' <= c && c < ' ' || c == '\u{7f}' {
        seq![
            '\\',
            'u',
            '0',
            '0',
            upper_hex(c as u32 as nat / 16),
            upper_hex(c as u32 as nat % 16),
        ]
    } else {
        seq![c]
    }
}

/// The characters `s` inside a TOML basic string.
pub open spec fn toml_chars(s: Seq<char>) -> Seq<char>
    decreases s.len(),
{
    if s.len() == 0 {
        Seq::empty()
    } else {
        toml_chars(s.drop_last()) + toml_char(s.last())
    }
}

/// A text as a TOML basic string.
pub open spec fn toml_string(s: Seq<char>) -> Seq<char> {
    "\""@ + toml_chars(s) + "\""@
}

fn hex_of(d: u8) -> (r: char)
    requires
        d < 16,
    ensures
        r == upper_hex(d as nat),
{
    if d < 10 {
        (d + 48) as char
    } else {
        (d + 55) as char
    }
}

fn show_toml(s: &str) -> (out: String)
    ensures
        out@ == toml_string(s@),
{
    let chars: Vec<char> = chars_of(s);
    let mut out: String = "\"".to_owned();
    let mut i: usize = 0;
    assert("\""@ + Seq::<char>::empty() =~= "\""@);
    while i < chars.len()
        invariant
            i <= chars@.len(),
            out@ == "\""@ + toml_chars(chars@.take(i as int)),
        decreases chars@.len() - i,
    {
        let c: char = chars[i];
        let ghost before = out@;
        if c == '"' || c == '\\' {
            out.push('\\');
            out.push(c);
        } else if ('\u{0}' <= c && c < ' ') || c == '\u{7f}' {
            let code: u32 = c as u32;
            out.push('\\');
            out.push('u');
            out.push('0');
            out.push('0');
            out.push(hex_of((code / 16) as u8));
            out.push(hex_of((code % 16) as u8));
        } else {
            out.push(c);
        }
        proof {
            assert(chars@.take(i + 1).drop_last() =~= chars@.take(i as int));
            assert(out@ =~= before + toml_char(c));
            assert(out@ =~= "\""@ + toml_chars(chars@.take(i + 1)));
        }
        i = i + 1;
    }
    assert(chars@.take(i as int) =~= s@);
    out.append("\"");
    out
}

// ---------- options ----------

/// The address that `--listen` names; the port may be left out.
pub open spec fn listen_option(s: Seq<char>) -> Option<Endpoint> {
    match host_port(s, 53) {
        Some((host, port)) => match ip_of(host) {
            Some(ip) => Some(Endpoint { ip, port }),
            None => None,
        },
        None => None,
    }
}

/// Protocol and endpoint of `--upstream TYPE=ENDPOINT`.
pub open spec fn upstream_option(s: Seq<char>) -> Option<(Proto, Seq<char>)> {
    match split_at_first(s, '=') {
        Some((kind, endpoint)) => match named_proto(lowered(kind)) {
            Some(Some(proto)) => if endpoint.len() > 0 {
                Some((proto, endpoint))
            } else {
                None
            },
            _ => None,
        },
        None => None,
    }
}

fn parse_listen(s: &str) -> (r: Option<Endpoint>)
    ensures
        r == listen_option(s@),
{
    match split_host_port(s, 53) {
        Some((host, port)) => match parse_ip_text(host.as_str()) {
            Some(ip) => Some(Endpoint { ip, port }),
            None => None,
        },
        None => None,
    }
}

fn parse_upstream_option(s: &str) -> (r: Option<(Proto, String)>)
    ensures
        match upstream_option(s@) {
            Some((proto, endpoint)) => r matches Some((p, e)) && p == proto && e@ == endpoint,
            None => r is None,
        },
{
    let chars: Vec<char> = chars_of(s);
    let len: usize = chars.len();
    let at: usize = match find_char(chars.as_slice(), '=') {
        Some(at) => at,
        None => return None,
    };
    let kind: String = text_of(chars.as_slice(), 0, at);
    let endpoint: String = text_of(chars.as_slice(), at + 1, len);
    proof {
        assert(kind@ =~= s@.take(at as int));
        assert(endpoint@ =~= s@.skip(at + 1));
    }
    match proto_named(to_lower(kind.as_str()).as_str()) {
        Some(Some(proto)) => if endpoint.as_str().is_empty() {
            None
        } else {
            Some((proto, endpoint))
        },
        _ => None,
    }
}

// ---------- the text ----------

/// The `[service]` section, where an option asks for one.
pub open spec fn service_text(cache_size: Option<usize>, no_cache: bool) -> Seq<char> {
    if cache_size is None && !no_cache {
        Seq::empty()
    } else {
        "[service]\n"@ + (if no_cache {
            "cache_enable = false\n"@
        } else {
            Seq::empty()
        }) + (match cache_size {
            Some(size) => "cache_size = "@ + decimal(size as nat) + "\n"@,
            None => Seq::empty(),
        }) + "\n"@
    }
}

/// The section for the listener `i`.
pub open spec fn listener_text(i: nat, e: Endpoint) -> Seq<char> {
    "[listener."@ + decimal(i) + "]\nip = \""@ + ip_text(e.ip) + "\"\nport = "@ + decimal(
        e.port as nat,
    ) + "\n\n"@
}

/// The section for the upstream `i`.
pub open spec fn upstream_text(
    i: nat,
    proto: Proto,
    endpoint: Seq<char>,
    timeout_ms: Option<u64>,
) -> Seq<char> {
    "[upstream."@ + decimal(i) + "]\ntype = \""@ + proto.spec_as_str() + "\"\nendpoint = "@
        + toml_string(endpoint) + "\n"@ + (match timeout_ms {
        Some(ms) => "timeout = "@ + decimal(ms as nat) + "\n"@,
        None => Seq::empty(),
    }) + "\n"@
}

/// The listener sections, or what is wrong with the first bad option.
pub open spec fn listeners_text(listeners: Seq<Seq<char>>) -> Result<Seq<char>, Seq<char>>
    decreases listeners.len(),
{
    if listeners.len() == 0 {
        Ok(Seq::empty())
    } else {
        match listeners_text(listeners.drop_last()) {
            Err(message) => Err(message),
            Ok(before) => match listen_option(listeners.last()) {
                Some(e) => Ok(before + listener_text((listeners.len() - 1) as nat, e)),
                None => Err("invalid --listen address: "@ + debug_text(listeners.last())),
            },
        }
    }
}

/// The upstream sections, or what is wrong with the first bad option.
pub open spec fn upstreams_text(upstreams: Seq<Seq<char>>, timeout_ms: Option<u64>) -> Result<
    Seq<char>,
    Seq<char>,
>
    decreases upstreams.len(),
{
    if upstreams.len() == 0 {
        Ok(Seq::empty())
    } else {
        match upstreams_text(upstreams.drop_last(), timeout_ms) {
            Err(message) => Err(message),
            Ok(before) => match upstream_option(upstreams.last()) {
                Some((proto, endpoint)) => Ok(
                    before + upstream_text(
                        (upstreams.len() - 1) as nat,
                        proto,
                        endpoint,
                        timeout_ms,
                    ),
                ),
                None => Err(
                    "invalid --upstream "@ + debug_text(upstreams.last())
                        + ": expected TYPE=ENDPOINT with TYPE one of doh, doh3, dot, doq or legacy"@,
                ),
            },
        }
    }
}

/// The configuration text that the options stand for, or why there is none.
pub open spec fn quick_text(
    listeners: Seq<Seq<char>>,
    upstreams: Seq<Seq<char>>,
    timeout_ms: Option<u64>,
    cache_size: Option<usize>,
    no_cache: bool,
) -> Result<Seq<char>, Seq<char>> {
    if upstreams.len() == 0 {
        Err("at least one --upstream TYPE=ENDPOINT is required"@)
    } else {
        match listeners_text(listeners) {
            Err(message) => Err(message),
            Ok(first) => match upstreams_text(upstreams, timeout_ms) {
                Err(message) => Err(message),
                Ok(second) => Ok(service_text(cache_size, no_cache) + first + second),
            },
        }
    }
}

proof fn lemma_listeners_text_prefix(s: Seq<Seq<char>>, k: int)
    requires
        0 <= k <= s.len(),
        listeners_text(s.take(k)) is Err,
    ensures
        listeners_text(s) == listeners_text(s.take(k)),
    decreases s.len() - k,
{
    if k < s.len() {
        assert(s.take(k + 1).drop_last() =~= s.take(k));
        lemma_listeners_text_prefix(s, k + 1);
    } else {
        assert(s.take(k) =~= s);
    }
}

proof fn lemma_upstreams_text_prefix(s: Seq<Seq<char>>, timeout_ms: Option<u64>, k: int)
    requires
        0 <= k <= s.len(),
        upstreams_text(s.take(k), timeout_ms) is Err,
    ensures
        upstreams_text(s, timeout_ms) == upstreams_text(s.take(k), timeout_ms),
    decreases s.len() - k,
{
    if k < s.len() {
        assert(s.take(k + 1).drop_last() =~= s.take(k));
        lemma_upstreams_text_prefix(s, timeout_ms, k + 1);
    } else {
        assert(s.take(k) =~= s);
    }
}

fn show_service(cache_size: Option<usize>, no_cache: bool) -> (out: String)
    ensures
        out@ == service_text(cache_size, no_cache),
{
    if cache_size.is_none() && !no_cache {
        return String::new();
    }
    let mut out: String = "[service]\n".to_owned();
    let ghost start = out@;
    if no_cache {
        out.append("cache_enable = false\n");
    }
    let ghost enabled = out@;
    match cache_size {
        Some(size) => {
            out.append(
                join3("cache_size = ", show_number(size as u64).as_str(), "\n").as_str(),
            );
        },
        None => {},
    }
    proof {
        assert(!no_cache ==> enabled =~= start + Seq::<char>::empty());
        assert(cache_size is None ==> out@ =~= enabled + Seq::<char>::empty());
    }
    out.append("\n");
    out
}

fn show_listener(i: usize, e: Endpoint) -> (out: String)
    ensures
        out@ == listener_text(i as nat, e),
{
    let mut out: String = join3("[listener.", show_number(i as u64).as_str(), "]\nip = \"");
    out.append(show_ip(e.ip).as_str());
    out.append("\"\nport = ");
    out.append(show_number(e.port as u64).as_str());
    out.append("\n\n");
    out
}

fn show_upstream(i: usize, proto: Proto, endpoint: &str, timeout_ms: Option<u64>) -> (out: String)
    ensures
        out@ == upstream_text(i as nat, proto, endpoint@, timeout_ms),
{
    let mut out: String = join3("[upstream.", show_number(i as u64).as_str(), "]\ntype = \"");
    out.append(proto.as_str());
    out.append("\"\nendpoint = ");
    out.append(show_toml(endpoint).as_str());
    out.append("\n");
    let ghost before = out@;
    match timeout_ms {
        Some(ms) => {
            out.append(join3("timeout = ", show_number(ms).as_str(), "\n").as_str());
        },
        None => {},
    }
    assert(timeout_ms is None ==> out@ =~= before + Seq::<char>::empty());
    out.append("\n");
    out
}

fn show_listeners(listeners: &Vec<String>) -> (r: Result<String, String>)
    ensures
        match listeners_text(texts(listeners@)) {
            Ok(text) => r matches Ok(got) && got@ == text,
            Err(message) => r matches Err(got) && got@ == message,
        },
{
    let ghost all = texts(listeners@);
    let mut out: String = String::new();
    let mut i: usize = 0;
    while i < listeners.len()
        invariant
            i <= listeners@.len(),
            all == texts(listeners@),
            listeners_text(all.take(i as int)) == Ok::<Seq<char>, Seq<char>>(out@),
        decreases listeners@.len() - i,
    {
        proof {
            assert(all.take(i + 1).drop_last() =~= all.take(i as int));
            assert(all[i as int] == listeners@[i as int]@);
        }
        match parse_listen(listeners[i].as_str()) {
            Some(e) => out.append(show_listener(i, e).as_str()),
            None => {
                proof {
                    lemma_listeners_text_prefix(all, i + 1);
                }
                return Err(
                    join(
                        "invalid --listen address: ",
                        show_debug(listeners[i].as_str()).as_str(),
                    ),
                );
            },
        }
        i = i + 1;
    }
    assert(all.take(i as int) =~= all);
    Ok(out)
}

fn show_upstreams(upstreams: &Vec<String>, timeout_ms: Option<u64>) -> (r: Result<String, String>)
    ensures
        match upstreams_text(texts(upstreams@), timeout_ms) {
            Ok(text) => r matches Ok(got) && got@ == text,
            Err(message) => r matches Err(got) && got@ == message,
        },
{
    let ghost all = texts(upstreams@);
    let mut out: String = String::new();
    let mut i: usize = 0;
    while i < upstreams.len()
        invariant
            i <= upstreams@.len(),
            all == texts(upstreams@),
            upstreams_text(all.take(i as int), timeout_ms) == Ok::<Seq<char>, Seq<char>>(out@),
        decreases upstreams@.len() - i,
    {
        proof {
            assert(all.take(i + 1).drop_last() =~= all.take(i as int));
            assert(all[i as int] == upstreams@[i as int]@);
        }
        match parse_upstream_option(upstreams[i].as_str()) {
            Some((proto, endpoint)) => out.append(
                show_upstream(i, proto, endpoint.as_str(), timeout_ms).as_str(),
            ),
            None => {
                proof {
                    lemma_upstreams_text_prefix(all, timeout_ms, i + 1);
                }
                return Err(
                    join3(
                        "invalid --upstream ",
                        show_debug(upstreams[i].as_str()).as_str(),
                        ": expected TYPE=ENDPOINT with TYPE one of doh, doh3, dot, doq or legacy",
                    ),
                );
            },
        }
        i = i + 1;
    }
    assert(all.take(i as int) =~= all);
    Ok(out)
}

/// The configuration text that command-line options stand for: one section per
/// `--listen` and per `--upstream`, in the order given.
pub fn quick_toml(
    listeners: &Vec<String>,
    upstreams: &Vec<String>,
    timeout_ms: Option<u64>,
    cache_size: Option<usize>,
    no_cache: bool,
) -> (r: Result<String, String>)
    ensures
        match quick_text(texts(listeners@), texts(upstreams@), timeout_ms, cache_size, no_cache) {
            Ok(text) => r matches Ok(got) && got@ == text,
            Err(message) => r matches Err(got) && got@ == message,
        },
{
    if upstreams.len() == 0 {
        return Err("at least one --upstream TYPE=ENDPOINT is required".to_owned());
    }
    let first: String = match show_listeners(listeners) {
        Ok(text) => text,
        Err(message) => return Err(message),
    };
    let second: String = match show_upstreams(upstreams, timeout_ms) {
        Ok(text) => text,
        Err(message) => return Err(message),
    };
    Ok(join3(show_service(cache_size, no_cache).as_str(), first.as_str(), second.as_str()))
}

/// Inside a TOML basic string no bare quote, backslash or control character is
/// left: what a user writes as an endpoint stays inside its string.
pub proof fn law_toml_strings_hold_no_bare_specials(c: char)
    ensures
        toml_char(c).len() >= 1,
        toml_char(c).len() == 1 ==> toml_char(c)[0] == c && c != '"' && c != '\\' && !('\u{0}' <= c && c
            < ' ') && c != '\u{7f}',
        toml_char(c).len() > 1 ==> toml_char(c)[0] == '\\' && forall|i: int|
            2 <= i < toml_char(c).len() ==> '0' <= #[trigger] toml_char(c)[i] && toml_char(c)[i]
                <= 'F',
{
}

/// The sections of a generated text keep the order of the options: the number
/// of an earlier one comes first, in whatever order the sections are read.
pub proof fn law_sections_keep_the_order_of_the_options(i: nat, j: nat)
    requires
        i < j <= u64::MAX,
    ensures
        section_before(decimal(i), decimal(j)),
        !section_before(decimal(j), decimal(i)),
{
    lemma_decimal_round_trip(i);
    lemma_decimal_round_trip(j);
}

} // verus!
