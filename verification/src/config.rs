//! Configuration: what the sections and fields mean, and what is refused.

use crate::ip::{ip_of, parse_ip_text, Endpoint, Ip};
use crate::text::{
    chars_of, count_char, debug_text, find_char, find_from, find_text, index_of, join, join3,
    lemma_index_from, lowered, number_in, occurrences, parse_number, same_text, show_debug,
    split_at_first, text_of, to_lower,
};
use vstd::prelude::*;
use vstd::slice::slice_subrange;
use vstd::string::*;

verus! {

// ---------- the raw layer ----------

/// The `[service]` section as written.
pub struct RawService {
    pub log_level: String,
    pub log_path: String,
    pub cache_enable: bool,
    pub cache_size: usize,
}

impl Default for RawService {
    fn default() -> (r: Self)
        ensures
            r.log_level@ == "info"@,
            r.log_path@ == Seq::<char>::empty(),
            r.cache_enable,
            r.cache_size == 4096,
    {
        Self {
            log_level: "info".to_owned(),
            log_path: String::new(),
            cache_enable: true,
            cache_size: 4096,
        }
    }
}

/// A `[listener.N]` section as written.
pub struct RawListener {
    pub ip: String,
    pub port: u16,
}

impl Default for RawListener {
    fn default() -> (r: Self)
        ensures
            r.ip@ == "127.0.0.1"@,
            r.port == 53,
    {
        Self { ip: "127.0.0.1".to_owned(), port: 53 }
    }
}

/// The timeout of an upstream that gives none, in milliseconds.
pub const DEFAULT_TIMEOUT_MS: u64 = 5000;

/// An `[upstream.N]` section as written.
pub struct RawUpstream {
    pub name: String,
    /// The field `type`.
    pub kind: String,
    pub endpoint: String,
    pub bootstrap_ip: String,
    /// Milliseconds; 0 turns the timeout off.
    pub timeout: u64,
    pub ip_stack: String,
}

impl Default for RawUpstream {
    fn default() -> (r: Self)
        ensures
            r.name@ == Seq::<char>::empty(),
            r.kind@ == Seq::<char>::empty(),
            r.endpoint@ == Seq::<char>::empty(),
            r.bootstrap_ip@ == Seq::<char>::empty(),
            r.timeout == DEFAULT_TIMEOUT_MS,
            r.ip_stack@ == Seq::<char>::empty(),
    {
        Self {
            name: String::new(),
            kind: String::new(),
            endpoint: String::new(),
            bootstrap_ip: String::new(),
            timeout: DEFAULT_TIMEOUT_MS,
            ip_stack: String::new(),
        }
    }
}

// ---------- the validated layer ----------

/// How much is logged.
#[derive(Clone, Copy, Debug, PartialEq, Eq, Structural)]
pub enum LogLevel {
    Error,
    Warn,
    Info,
    Debug,
    Trace,
}

/// The `[service]` section, checked.
pub struct Service {
    pub log_level: LogLevel,
    pub log_path: Option<String>,
    pub cache_enable: bool,
    pub cache_size: usize,
}

/// `Service` as plain values.
#[verifier::ext_equal]
pub struct ServiceView {
    pub log_level: LogLevel,
    pub log_path: Option<Seq<char>>,
    pub cache_enable: bool,
    pub cache_size: usize,
}

impl View for Service {
    type V = ServiceView;

    open spec fn view(&self) -> ServiceView {
        ServiceView {
            log_level: self.log_level,
            log_path: match self.log_path {
                Some(path) => Some(path@),
                None => None,
            },
            cache_enable: self.cache_enable,
            cache_size: self.cache_size,
        }
    }
}

/// The protocol that an upstream speaks.
#[derive(Clone, Copy, Debug, PartialEq, Eq, Structural)]
pub enum Proto {
    Doh,
    Doh3,
    Dot,
    Doq,
    Legacy,
}

impl Proto {
    pub open spec fn spec_as_str(self) -> Seq<char> {
        match self {
            Proto::Doh => "doh"@,
            Proto::Doh3 => "doh3"@,
            Proto::Dot => "dot"@,
            Proto::Doq => "doq"@,
            Proto::Legacy => "legacy"@,
        }
    }

    pub open spec fn spec_default_port(self) -> u16 {
        match self {
            Proto::Doh => 443,
            Proto::Doh3 => 443,
            Proto::Dot => 853,
            Proto::Doq => 853,
            Proto::Legacy => 53,
        }
    }

    pub fn as_str(self) -> (r: &'static str)
        ensures
            r@ == self.spec_as_str(),
    {
        match self {
            Proto::Doh => "doh",
            Proto::Doh3 => "doh3",
            Proto::Dot => "dot",
            Proto::Doq => "doq",
            Proto::Legacy => "legacy",
        }
    }

    pub fn default_port(self) -> (r: u16)
        ensures
            r == self.spec_default_port(),
    {
        match self {
            Proto::Doh => 443,
            Proto::Doh3 => 443,
            Proto::Dot => 853,
            Proto::Doq => 853,
            Proto::Legacy => 53,
        }
    }
}

/// The address families that a hostname is resolved to.
#[derive(Clone, Copy, Debug, PartialEq, Eq, Hash, Structural)]
pub enum IpStack {
    Both,
    V4,
    V6,
}

/// An `[upstream.N]` section, checked.
#[derive(Clone, Debug)]
pub struct Upstream {
    pub name: String,
    pub proto: Proto,
    /// Hostname or IP literal: TLS server name and connect target.
    pub host: String,
    pub port: u16,
    /// URL path and query for doh and doh3; empty otherwise.
    pub path: String,
    /// Known address; from `bootstrap_ip` or a host that is an IP literal.
    pub bootstrap_ip: Option<Ip>,
    /// 0 = no timeout.
    pub timeout_ms: u64,
    pub ip_stack: IpStack,
}

/// `Upstream` as plain values.
#[verifier::ext_equal]
pub struct UpstreamView {
    pub name: Seq<char>,
    pub proto: Proto,
    pub host: Seq<char>,
    pub port: u16,
    pub path: Seq<char>,
    pub bootstrap_ip: Option<Ip>,
    pub timeout_ms: u64,
    pub ip_stack: IpStack,
}

impl View for Upstream {
    type V = UpstreamView;

    open spec fn view(&self) -> UpstreamView {
        UpstreamView {
            name: self.name@,
            proto: self.proto,
            host: self.host@,
            port: self.port,
            path: self.path@,
            bootstrap_ip: self.bootstrap_ip,
            timeout_ms: self.timeout_ms,
            ip_stack: self.ip_stack,
        }
    }
}

/// The texts in a list.
pub open spec fn texts(v: Seq<String>) -> Seq<Seq<char>> {
    v.map_values(|s: String| s@)
}

/// A list of texts grows by one.
pub proof fn lemma_texts_push(v: Seq<String>, s: String)
    ensures
        texts(v.push(s)) == texts(v).push(s@),
{
    assert(texts(v.push(s)) =~= texts(v).push(s@));
}

/// Append a warning.
pub fn warn(warnings: &mut Vec<String>, text: String)
    ensures
        texts(final(warnings)@) == texts(old(warnings)@).push(text@),
{
    warnings.push(text);
    proof {
        lemma_texts_push(old(warnings)@, text);
    }
}

// ---------- [service] ----------

pub open spec fn level_of(name: Seq<char>) -> Option<LogLevel> {
    if name.len() == 0 || name == "info"@ {
        Some(LogLevel::Info)
    } else if name == "trace"@ {
        Some(LogLevel::Trace)
    } else if name == "debug"@ {
        Some(LogLevel::Debug)
    } else if name == "warn"@ || name == "warning"@ {
        Some(LogLevel::Warn)
    } else if name == "error"@ || name == "fatal"@ {
        Some(LogLevel::Error)
    } else {
        None
    }
}

/// What a `[service]` section means, or why it is refused. The level names are
/// taken without regard to case; a cache of size 0 is no cache.
pub open spec fn service_of(raw: RawService) -> Result<ServiceView, Seq<char>> {
    match level_of(lowered(raw.log_level@)) {
        Some(log_level) => Ok(
            ServiceView {
                log_level,
                log_path: if raw.log_path@.len() == 0 {
                    None
                } else {
                    Some(raw.log_path@)
                },
                cache_enable: raw.cache_enable && raw.cache_size > 0,
                cache_size: if raw.cache_size == 0 {
                    1
                } else {
                    raw.cache_size
                },
            },
        ),
        None => Err("[service] invalid log_level: "@ + debug_text(lowered(raw.log_level@))),
    }
}

/// What is said about a `[service]` section.
pub open spec fn service_warnings(raw: RawService) -> Seq<Seq<char>> {
    let level = if lowered(raw.log_level@) == "fatal"@ {
        seq!["[service] log_level \"fatal\" treated as \"error\""@]
    } else {
        seq![]
    };
    let cache = if level_of(lowered(raw.log_level@)) is Some && raw.cache_enable && raw.cache_size
        == 0 {
        seq!["[service] cache_size must be positive; cache disabled"@]
    } else {
        seq![]
    };
    level + cache
}

/// Check the `[service]` section. The level names are taken without regard to
/// case, and an empty one is `info`.
pub fn parse_service(raw: RawService, warnings: &mut Vec<String>) -> (r: Result<Service, String>)
    ensures
        texts(final(warnings)@) == texts(old(warnings)@) + service_warnings(raw),
        match service_of(raw) {
            Ok(service) => r matches Ok(got) && got@ == service,
            Err(message) => r matches Err(got) && got@ == message,
        },
{
    let ghost before = texts(warnings@);
    let level: String = to_lower(raw.log_level.as_str());
    let name: &str = level.as_str();
    let log_level: LogLevel = if name.is_empty() || same_text(name, "info") {
        LogLevel::Info
    } else if same_text(name, "trace") {
        LogLevel::Trace
    } else if same_text(name, "debug") {
        LogLevel::Debug
    } else if same_text(name, "warn") || same_text(name, "warning") {
        LogLevel::Warn
    } else if same_text(name, "error") || same_text(name, "fatal") {
        LogLevel::Error
    } else {
        assert(texts(warnings@) =~= before + service_warnings(raw));
        return Err(join("[service] invalid log_level: ", show_debug(name).as_str()));
    };
    if same_text(name, "fatal") {
        warn(warnings, "[service] log_level \"fatal\" treated as \"error\"".to_owned());
    }
    if raw.cache_enable && raw.cache_size == 0 {
        warn(warnings, "[service] cache_size must be positive; cache disabled".to_owned());
    }
    assert(texts(warnings@) =~= before + service_warnings(raw));
    Ok(
        Service {
            log_level,
            cache_enable: raw.cache_enable && raw.cache_size > 0,
            cache_size: if raw.cache_size == 0 {
                1
            } else {
                raw.cache_size
            },
            log_path: if raw.log_path.as_str().is_empty() {
                None
            } else {
                Some(raw.log_path)
            },
        },
    )
}

// ---------- endpoints ----------

/// The scheme of an endpoint, where it has one, and what follows it.
pub open spec fn scheme_of(endpoint: Seq<char>) -> (Option<Seq<char>>, Seq<char>) {
    match find_from(endpoint, "://"@, 0) {
        Some(i) => (Some(endpoint.take(i)), endpoint.skip(i + 3)),
        None => (None, endpoint),
    }
}

pub fn split_scheme(endpoint: &str) -> (r: (Option<String>, String))
    ensures
        r.1@ == scheme_of(endpoint@).1,
        match scheme_of(endpoint@).0 {
            Some(scheme) => r.0 matches Some(got) && got@ == scheme,
            None => r.0 is None,
        },
{
    let chars: Vec<char> = chars_of(endpoint);
    let mark: Vec<char> = chars_of("://");
    proof {
        reveal_strlit("://");
    }
    match find_text(chars.as_slice(), mark.as_slice()) {
        Some(i) => {
            let len: usize = chars.len();
            let scheme: String = text_of(chars.as_slice(), 0, i);
            let rest: String = text_of(chars.as_slice(), i + 3, len);
            proof {
                assert(scheme@ =~= endpoint@.take(i as int));
                assert(rest@ =~= endpoint@.skip(i + 3));
            }
            (Some(scheme), rest)
        },
        None => (None, endpoint.to_owned()),
    }
}

/// The port written in `s`.
pub open spec fn port_of(s: Seq<char>) -> Option<u16> {
    match number_in(s, 65535) {
        Some(n) => Some(n as u16),
        None => None,
    }
}

/// Host and port of `host`, `host:port`, `[v6]`, `[v6]:port`, or a bare IPv6
/// literal, which has no port.
pub open spec fn host_port(s: Seq<char>, default_port: u16) -> Option<(Seq<char>, u16)> {
    if s.len() == 0 {
        None
    } else if s[0] == '[' {
        match split_at_first(s.skip(1), ']') {
            Some((host, tail)) => if tail.len() == 0 {
                Some((host, default_port))
            } else if tail[0] == ':' {
                match port_of(tail.skip(1)) {
                    Some(port) => Some((host, port)),
                    None => None,
                }
            } else {
                None
            },
            None => None,
        }
    } else if occurrences(s, ':') > 1 {
        Some((s, default_port))
    } else {
        match split_at_first(s, ':') {
            Some((host, port)) => match port_of(port) {
                Some(port) => Some((host, port)),
                None => None,
            },
            None => Some((s, default_port)),
        }
    }
}

fn parse_port(s: &[char]) -> (r: Option<u16>)
    ensures
        r == port_of(s@),
{
    match parse_number(s, 65535) {
        Some(n) => Some(n as u16),
        None => None,
    }
}

/// `host`, `host:port`, `[v6]`, `[v6]:port`, bare `v6` (no port).
pub fn split_host_port(s: &str, default_port: u16) -> (r: Option<(String, u16)>)
    ensures
        match host_port(s@, default_port) {
            Some((host, port)) => r matches Some((h, p)) && h@ == host && p == port,
            None => r is None,
        },
{
    let chars: Vec<char> = chars_of(s);
    let len: usize = chars.len();
    if len == 0 {
        return None;
    }
    if chars[0] == '[' {
        let inner: &[char] = slice_subrange(chars.as_slice(), 1, len);
        assert(inner@ =~= s@.skip(1));
        let close: usize = match find_char(inner, ']') {
            Some(close) => close,
            None => return None,
        };
        let host: String = text_of(inner, 0, close);
        let tail: &[char] = slice_subrange(inner, close + 1, len - 1);
        proof {
            assert(host@ =~= inner@.take(close as int));
            assert(tail@ =~= inner@.skip(close + 1));
        }
        if tail.len() == 0 {
            return Some((host, default_port));
        }
        if tail[0] != ':' {
            return None;
        }
        let digits: &[char] = slice_subrange(tail, 1, tail.len());
        assert(digits@ =~= tail@.skip(1));
        return match parse_port(digits) {
            Some(port) => Some((host, port)),
            None => None,
        };
    }
    if count_char(chars.as_slice(), ':') > 1 {
        // A bare IPv6 literal without brackets.
        return Some((s.to_owned(), default_port));
    }
    match find_char(chars.as_slice(), ':') {
        Some(i) => {
            let host: String = text_of(chars.as_slice(), 0, i);
            let digits: &[char] = slice_subrange(chars.as_slice(), i + 1, len);
            proof {
                assert(host@ =~= s@.take(i as int));
                assert(digits@ =~= s@.skip(i + 1));
            }
            match parse_port(digits) {
                Some(port) => Some((host, port)),
                None => None,
            }
        },
        None => Some((s.to_owned(), default_port)),
    }
}

// ---------- [upstream.N] ----------

/// How messages name the section of an upstream.
pub open spec fn upstream_section(key: Seq<char>) -> Seq<char> {
    "[upstream."@ + key + "]"@
}

/// The protocol that the field `type` names; the field may be empty.
pub open spec fn named_proto(kind: Seq<char>) -> Option<Option<Proto>> {
    if kind.len() == 0 {
        Some(None)
    } else if kind == "doh"@ {
        Some(Some(Proto::Doh))
    } else if kind == "doh3"@ {
        Some(Some(Proto::Doh3))
    } else if kind == "dot"@ {
        Some(Some(Proto::Dot))
    } else if kind == "doq"@ {
        Some(Some(Proto::Doq))
    } else if kind == "legacy"@ {
        Some(Some(Proto::Legacy))
    } else {
        None
    }
}

pub fn proto_named(kind: &str) -> (r: Option<Option<Proto>>)
    ensures
        r == named_proto(kind@),
{
    if kind.is_empty() {
        Some(None)
    } else if same_text(kind, "doh") {
        Some(Some(Proto::Doh))
    } else if same_text(kind, "doh3") {
        Some(Some(Proto::Doh3))
    } else if same_text(kind, "dot") {
        Some(Some(Proto::Dot))
    } else if same_text(kind, "doq") {
        Some(Some(Proto::Doq))
    } else if same_text(kind, "legacy") {
        Some(Some(Proto::Legacy))
    } else {
        None
    }
}

/// The protocol that the scheme of an endpoint stands for.
pub open spec fn scheme_proto(scheme: Seq<char>) -> Option<Proto> {
    if scheme == "https"@ {
        Some(Proto::Doh)
    } else if scheme == "h3"@ {
        Some(Proto::Doh3)
    } else if scheme == "quic"@ {
        Some(Proto::Doq)
    } else if scheme == "tls"@ || scheme == "dot"@ {
        Some(Proto::Dot)
    } else {
        None
    }
}

fn proto_of_scheme(scheme: &str) -> (r: Option<Proto>)
    ensures
        r == scheme_proto(scheme@),
{
    if same_text(scheme, "https") {
        Some(Proto::Doh)
    } else if same_text(scheme, "h3") {
        Some(Proto::Doh3)
    } else if same_text(scheme, "quic") {
        Some(Proto::Doq)
    } else if same_text(scheme, "tls") || same_text(scheme, "dot") {
        Some(Proto::Dot)
    } else {
        None
    }
}

/// Whether `rest` is an IP literal, with or without a port.
pub open spec fn is_ip_endpoint(rest: Seq<char>) -> bool {
    ip_of(rest) is Some || (host_port(rest, 53) matches Some((host, _)) && ip_of(host) is Some)
}

/// The protocol of an upstream: an explicit `type` wins; otherwise it follows
/// from the scheme of the endpoint; an IP literal alone is plain DNS.
pub open spec fn proto_of(ctx: Seq<char>, kind: Seq<char>, endpoint: Seq<char>) -> Result<
    Proto,
    Seq<char>,
> {
    let (scheme, rest) = scheme_of(endpoint);
    match named_proto(lowered(kind)) {
        None => Err(
            ctx + " invalid type "@ + debug_text(lowered(kind))
                + " (expected doh, doh3, dot, doq or legacy)"@,
        ),
        Some(named) => match scheme {
            Some(scheme) => match scheme_proto(scheme) {
                None => Err(ctx + " unsupported endpoint scheme "@ + debug_text(scheme) + "://"@),
                Some(inferred) => match named {
                    None => Ok(inferred),
                    // https:// carries both doh and doh3.
                    Some(named) => if inferred == named || inferred == Proto::Doh && named
                        == Proto::Doh3 {
                        Ok(named)
                    } else {
                        Err(
                            ctx + " endpoint scheme "@ + scheme + ":// conflicts with type "@
                                + debug_text(kind),
                        )
                    },
                },
            },
            None => match named {
                Some(named) => Ok(named),
                None => if is_ip_endpoint(rest) {
                    Ok(Proto::Legacy)
                } else {
                    Err(ctx + " type is required for endpoint "@ + debug_text(endpoint))
                },
            },
        },
    }
}

fn choose_proto(
    ctx: &str,
    kind: &str,
    endpoint: &str,
    scheme: &Option<String>,
    rest: &str,
) -> (r: Result<Proto, String>)
    requires
        rest@ == scheme_of(endpoint@).1,
        match scheme_of(endpoint@).0 {
            Some(text) => scheme matches Some(got) && got@ == text,
            None => scheme is None,
        },
    ensures
        match proto_of(ctx@, kind@, endpoint@) {
            Ok(proto) => r == Ok::<Proto, String>(proto),
            Err(message) => r matches Err(got) && got@ == message,
        },
{
    let lower: String = to_lower(kind);
    let named: Option<Proto> = match proto_named(lower.as_str()) {
        Some(named) => named,
        None => {
            let mut message: String = join3(
                ctx,
                " invalid type ",
                show_debug(lower.as_str()).as_str(),
            );
            message.append(" (expected doh, doh3, dot, doq or legacy)");
            return Err(message);
        },
    };
    match scheme {
        Some(scheme) => match proto_of_scheme(scheme.as_str()) {
            None => {
                let mut message: String = join3(
                    ctx,
                    " unsupported endpoint scheme ",
                    show_debug(scheme.as_str()).as_str(),
                );
                message.append("://");
                Err(message)
            },
            Some(inferred) => match named {
                None => Ok(inferred),
                Some(named) => if inferred == named || (inferred == Proto::Doh && named
                    == Proto::Doh3) {
                    Ok(named)
                } else {
                    let mut message: String = join3(ctx, " endpoint scheme ", scheme.as_str());
                    message.append(":// conflicts with type ");
                    message.append(show_debug(kind).as_str());
                    Err(message)
                },
            },
        },
        None => match named {
            Some(named) => Ok(named),
            None => {
                let literal: bool = match parse_ip_text(rest) {
                    Some(_) => true,
                    None => match split_host_port(rest, 53) {
                        Some((host, _)) => parse_ip_text(host.as_str()).is_some(),
                        None => false,
                    },
                };
                if literal {
                    Ok(Proto::Legacy)
                } else {
                    Err(join3(ctx, " type is required for endpoint ", show_debug(endpoint).as_str()))
                }
            },
        },
    }
}

pub open spec fn is_url_proto(proto: Proto) -> bool {
    proto == Proto::Doh || proto == Proto::Doh3
}

/// Host and port part of an endpoint, and the URL path for doh and doh3.
pub open spec fn target_of(ctx: Seq<char>, proto: Proto, rest: Seq<char>) -> Result<
    (Seq<char>, Seq<char>),
    Seq<char>,
> {
    let slash = index_of(rest, '/');
    if is_url_proto(proto) {
        match slash {
            Some(i) => if rest.skip(i) == "/"@ {
                Ok((rest.take(i), "/dns-query"@))
            } else {
                Ok((rest.take(i), rest.skip(i)))
            },
            None => Ok((rest, "/dns-query"@)),
        }
    } else if slash is Some {
        Err(ctx + " "@ + proto.spec_as_str() + " endpoint must be host[:port], not a URL"@)
    } else {
        Ok((rest, Seq::empty()))
    }
}

/// Whether the default path had to be filled in for an endpoint that does not
/// even say `https://`.
pub open spec fn assumes_url(proto: Proto, scheme: Option<Seq<char>>, rest: Seq<char>) -> bool {
    is_url_proto(proto) && scheme is None && (index_of(rest, '/') matches Some(i) ==> rest.skip(i)
        == "/"@)
}

fn choose_target(ctx: &str, proto: Proto, rest: &str) -> (r: Result<(String, String, bool), String>)
    ensures
        match target_of(ctx@, proto, rest@) {
            Ok((host, path)) => r matches Ok((h, p, filled)) && h@ == host && p@ == path && filled
                == assumes_url(proto, None, rest@),
            Err(message) => r matches Err(got) && got@ == message && !is_url_proto(proto),
        },
{
    let chars: Vec<char> = chars_of(rest);
    let len: usize = chars.len();
    let slash: Option<usize> = find_char(chars.as_slice(), '/');
    if proto == Proto::Doh || proto == Proto::Doh3 {
        match slash {
            Some(i) => {
                let host: String = text_of(chars.as_slice(), 0, i);
                let path: String = text_of(chars.as_slice(), i, len);
                proof {
                    assert(host@ =~= rest@.take(i as int));
                    assert(path@ =~= rest@.skip(i as int));
                }
                if same_text(path.as_str(), "/") {
                    Ok((host, "/dns-query".to_owned(), true))
                } else {
                    Ok((host, path, false))
                }
            },
            None => Ok((rest.to_owned(), "/dns-query".to_owned(), true)),
        }
    } else if slash.is_some() {
        let mut message: String = join3(ctx, " ", proto.as_str());
        message.append(" endpoint must be host[:port], not a URL");
        Err(message)
    } else {
        Ok((rest.to_owned(), String::new(), false))
    }
}

/// The address families that the field `ip_stack` names.
pub open spec fn stack_of(name: Seq<char>) -> Option<IpStack> {
    if name.len() == 0 || name == "both"@ || name == "split"@ {
        Some(IpStack::Both)
    } else if name == "v4"@ {
        Some(IpStack::V4)
    } else if name == "v6"@ {
        Some(IpStack::V6)
    } else {
        None
    }
}

/// The address that an upstream needs not be resolved for, where it is known.
pub open spec fn known_address(bootstrap_ip: Seq<char>, host: Seq<char>) -> Option<Ip> {
    if bootstrap_ip.len() == 0 {
        ip_of(host)
    } else {
        ip_of(bootstrap_ip)
    }
}

/// What an `[upstream.N]` section means, or why it is refused.
#[verifier::opaque]
pub open spec fn upstream_of(key: Seq<char>, raw: RawUpstream) -> Result<UpstreamView, Seq<char>> {
    let ctx = upstream_section(key);
    if raw.endpoint@.len() == 0 {
        Err(ctx + " endpoint is required"@)
    } else {
        match proto_of(ctx, raw.kind@, raw.endpoint@) {
            Err(message) => Err(message),
            Ok(proto) => match target_of(ctx, proto, scheme_of(raw.endpoint@).1) {
                Err(message) => Err(message),
                Ok((target, path)) => match host_port(target, proto.spec_default_port()) {
                    None => Err(ctx + " invalid endpoint host: "@ + debug_text(target)),
                    Some((host, port)) => if raw.bootstrap_ip@.len() > 0 && ip_of(raw.bootstrap_ip@)
                        is None {
                        Err(ctx + " invalid bootstrap_ip: "@ + debug_text(raw.bootstrap_ip@))
                    } else {
                        match stack_of(lowered(raw.ip_stack@)) {
                            None => Err(
                                ctx + " invalid ip_stack: "@ + debug_text(lowered(raw.ip_stack@)),
                            ),
                            Some(ip_stack) => Ok(
                                UpstreamView {
                                    name: if raw.name@.len() == 0 {
                                        "upstream."@ + key
                                    } else {
                                        raw.name@
                                    },
                                    proto,
                                    host,
                                    port,
                                    path,
                                    bootstrap_ip: known_address(raw.bootstrap_ip@, host),
                                    timeout_ms: raw.timeout,
                                    ip_stack,
                                },
                            ),
                        }
                    },
                },
            },
        }
    }
}

/// What is said about an `[upstream.N]` section.
#[verifier::opaque]
pub open spec fn upstream_warnings(key: Seq<char>, raw: RawUpstream) -> Seq<Seq<char>> {
    let ctx = upstream_section(key);
    let (scheme, rest) = scheme_of(raw.endpoint@);
    match proto_of(ctx, raw.kind@, raw.endpoint@) {
        Ok(proto) => match target_of(ctx, proto, rest) {
            Ok((target, _)) => {
                let bare = if assumes_url(proto, scheme, rest) {
                    seq![
                        ctx + " bare "@ + proto.spec_as_str() + " endpoint; assuming https://"@
                            + target + "/dns-query"@,
                    ]
                } else {
                    seq![]
                };
                let split = if upstream_of(key, raw) is Ok && lowered(raw.ip_stack@) == "split"@ {
                    seq![ctx + " ip_stack \"split\" treated as \"both\" in this build"@]
                } else {
                    seq![]
                };
                bare + split
            },
            Err(_) => seq![],
        },
        Err(_) => seq![],
    }
}

/// Check an `[upstream.N]` section.
pub fn parse_upstream(key: &str, raw: RawUpstream, warnings: &mut Vec<String>) -> (r: Result<
    Upstream,
    String,
>)
    ensures
        match upstream_of(key@, raw) {
            Ok(upstream) => r matches Ok(got) && got@ == upstream,
            Err(message) => r matches Err(got) && got@ == message,
        },
        texts(final(warnings)@) == texts(old(warnings)@) + (if raw.endpoint@.len() == 0 {
            seq![]
        } else {
            upstream_warnings(key@, raw)
        }),
{
    reveal(upstream_of);
    reveal(upstream_warnings);
    let ghost before = texts(warnings@);
    let ctx: String = join3("[upstream.", key, "]");
    if raw.endpoint.as_str().is_empty() {
        assert(before + Seq::<Seq<char>>::empty() =~= before);
        return Err(join(ctx.as_str(), " endpoint is required"));
    }
    let (scheme, rest): (Option<String>, String) = split_scheme(raw.endpoint.as_str());
    let proto: Proto = match choose_proto(
        ctx.as_str(),
        raw.kind.as_str(),
        raw.endpoint.as_str(),
        &scheme,
        rest.as_str(),
    ) {
        Ok(proto) => proto,
        Err(message) => {
            assert(before + Seq::<Seq<char>>::empty() =~= before);
            return Err(message);
        },
    };
    let (target, path, filled): (String, String, bool) = match choose_target(
        ctx.as_str(),
        proto,
        rest.as_str(),
    ) {
        Ok(target) => target,
        Err(message) => {
            assert(before + Seq::<Seq<char>>::empty() =~= before);
            return Err(message);
        },
    };
    if filled && scheme.is_none() {
        let mut text: String = join3(ctx.as_str(), " bare ", proto.as_str());
        text.append(" endpoint; assuming https://");
        text.append(target.as_str());
        text.append("/dns-query");
        warn(warnings, text);
    }
    let ghost told = texts(warnings@);
    proof {
        let all = upstream_warnings(key@, raw);
        if upstream_of(key@, raw) is Err || lowered(raw.ip_stack@) != "split"@ {
            assert(told =~= before + all);
        } else {
            assert(told.push(ctx@ + " ip_stack \"split\" treated as \"both\" in this build"@)
                =~= before + all);
        }
    }
    let (host, port): (String, u16) = match split_host_port(target.as_str(), proto.default_port()) {
        Some(found) => found,
        None => {
            return Err(
                join3(
                    ctx.as_str(),
                    " invalid endpoint host: ",
                    show_debug(target.as_str()).as_str(),
                ),
            );
        },
    };
    // Hosts that are IP literals are already resolved.
    let bootstrap_ip: Option<Ip> = if raw.bootstrap_ip.as_str().is_empty() {
        parse_ip_text(host.as_str())
    } else {
        match parse_ip_text(raw.bootstrap_ip.as_str()) {
            Some(ip) => Some(ip),
            None => {
                return Err(
                    join3(
                        ctx.as_str(),
                        " invalid bootstrap_ip: ",
                        show_debug(raw.bootstrap_ip.as_str()).as_str(),
                    ),
                );
            },
        }
    };
    let stack: String = to_lower(raw.ip_stack.as_str());
    let name: &str = stack.as_str();
    let ip_stack: IpStack = if same_text(name, "split") {
        warn(
            warnings,
            join(ctx.as_str(), " ip_stack \"split\" treated as \"both\" in this build"),
        );
        IpStack::Both
    } else if name.is_empty() || same_text(name, "both") {
        IpStack::Both
    } else if same_text(name, "v4") {
        IpStack::V4
    } else if same_text(name, "v6") {
        IpStack::V6
    } else {
        return Err(join3(ctx.as_str(), " invalid ip_stack: ", show_debug(name).as_str()));
    };
    Ok(
        Upstream {
            name: if raw.name.as_str().is_empty() {
                join("upstream.", key)
            } else {
                raw.name
            },
            proto,
            host,
            port,
            path,
            bootstrap_ip,
            timeout_ms: raw.timeout,
            ip_stack,
        },
    )
}

// ---------- the order of sections ----------

/// Whether `a` comes before `b` in the order of their characters.
pub open spec fn text_before(a: Seq<char>, b: Seq<char>) -> bool
    decreases a.len(),
{
    if b.len() == 0 {
        false
    } else if a.len() == 0 {
        true
    } else if a[0] == b[0] {
        text_before(a.drop_first(), b.drop_first())
    } else {
        a[0] < b[0]
    }
}

/// The number that the key of a section is, the largest where it is none.
pub open spec fn section_number(key: Seq<char>) -> nat {
    match number_in(key, u64::MAX as nat) {
        Some(n) => n,
        None => u64::MAX as nat,
    }
}

/// Sections come in the order of their numbers: "2" before "10".
pub open spec fn section_before(a: Seq<char>, b: Seq<char>) -> bool {
    section_number(a) < section_number(b) || section_number(a) == section_number(b) && text_before(
        a,
        b,
    )
}

/// Where in the ordered sections `s` one with the key `key` goes, at or after
/// `i`.
pub open spec fn place<T>(s: Seq<(String, T)>, key: Seq<char>, i: int) -> int
    decreases s.len() - i,
{
    if i >= s.len() || section_before(key, s[i].0@) {
        i
    } else {
        place(s, key, i + 1)
    }
}

/// The sections `s` in order.
pub open spec fn ordered<T>(s: Seq<(String, T)>) -> Seq<(String, T)>
    decreases s.len(),
{
    if s.len() == 0 {
        s
    } else {
        let before = ordered(s.drop_last());
        before.insert(place(before, s.last().0@, 0), s.last())
    }
}

fn is_text_before(a: &[char], b: &[char]) -> (r: bool)
    ensures
        r == text_before(a@, b@),
{
    let mut i: usize = 0;
    proof {
        assert(a@.skip(0) =~= a@);
        assert(b@.skip(0) =~= b@);
    }
    loop
        invariant
            i <= a@.len(),
            i <= b@.len(),
            text_before(a@, b@) == text_before(a@.skip(i as int), b@.skip(i as int)),
        decreases a@.len() - i,
    {
        if i >= b.len() {
            return false;
        }
        if i >= a.len() {
            return true;
        }
        if a[i] != b[i] {
            return a[i] < b[i];
        }
        proof {
            assert(a@.skip(i as int).drop_first() =~= a@.skip(i + 1));
            assert(b@.skip(i as int).drop_first() =~= b@.skip(i + 1));
        }
        i = i + 1;
    }
}

fn is_section_before(a: &str, b: &str) -> (r: bool)
    ensures
        r == section_before(a@, b@),
{
    let x: Vec<char> = chars_of(a);
    let y: Vec<char> = chars_of(b);
    let m: u64 = match parse_number(x.as_slice(), u64::MAX) {
        Some(m) => m,
        None => u64::MAX,
    };
    let n: u64 = match parse_number(y.as_slice(), u64::MAX) {
        Some(n) => n,
        None => u64::MAX,
    };
    m < n || (m == n && is_text_before(x.as_slice(), y.as_slice()))
}

/// "0", "1", "10" should order numerically, not lexically.
pub fn sorted_numeric<T>(map: Vec<(String, T)>) -> (entries: Vec<(String, T)>)
    ensures
        entries@ == ordered(map@),
{
    let mut left: Vec<(String, T)> = map;
    let mut out: Vec<(String, T)> = Vec::new();
    let ghost mut done: int = 0;
    assert(map@.skip(0) =~= map@);
    while left.len() > 0
        invariant
            0 <= done <= map@.len(),
            left@ == map@.skip(done),
            out@ == ordered(map@.take(done)),
            out@.len() == done,
        decreases left@.len(),
    {
        let item: (String, T) = left.remove(0);
        proof {
            assert(map@.take(done + 1).drop_last() =~= map@.take(done));
            assert(left@ =~= map@.skip(done + 1));
        }
        let mut i: usize = 0;
        while i < out.len() && !is_section_before(item.0.as_str(), out[i].0.as_str())
            invariant
                i <= out@.len(),
                place(out@, item.0@, 0) == place(out@, item.0@, i as int),
            decreases out@.len() - i,
        {
            i = i + 1;
        }
        out.insert(i, item);
        proof {
            done = done + 1;
        }
    }
    assert(map@.take(done) =~= map@);
    out
}

// ---------- the whole configuration ----------

/// All sections as written.
pub struct RawConfig {
    pub service: RawService,
    pub listener: Vec<(String, RawListener)>,
    pub upstream: Vec<(String, RawUpstream)>,
}

/// Whether no key occurs twice among the sections.
pub open spec fn distinct_sections<T>(s: Seq<(String, T)>) -> bool {
    forall|i: int, j: int|
        0 <= i < j < s.len() ==> (#[trigger] s[i]).0@ != (#[trigger] s[j]).0@
}

impl RawConfig {
    /// What holds of the sections of a TOML text: no key occurs twice among the
    /// listeners, nor among the upstreams.
    pub open spec fn wf(&self) -> bool {
        distinct_sections(self.listener@) && distinct_sections(self.upstream@)
    }
}

/// All sections, checked.
pub struct Config {
    pub service: Service,
    pub listeners: Vec<Endpoint>,
    pub upstreams: Vec<Upstream>,
}

/// A configuration and what there is to say about it.
pub struct Loaded {
    pub config: Config,
    /// Deferred to the caller so they can be emitted once the logger is up.
    pub warnings: Vec<String>,
}

/// The addresses of the `[listener.N]` sections `s`.
pub open spec fn listeners_of(s: Seq<(String, RawListener)>) -> Result<Seq<Endpoint>, Seq<char>>
    decreases s.len(),
{
    if s.len() == 0 {
        Ok(Seq::empty())
    } else {
        match listeners_of(s.drop_last()) {
            Err(message) => Err(message),
            Ok(before) => match ip_of(s.last().1.ip@) {
                Some(ip) => Ok(before.push(Endpoint { ip, port: s.last().1.port })),
                None => Err(
                    "[listener."@ + s.last().0@ + "] invalid ip: "@ + debug_text(s.last().1.ip@),
                ),
            },
        }
    }
}

/// The upstreams of the `[upstream.N]` sections `s`.
pub open spec fn upstreams_of(s: Seq<(String, RawUpstream)>) -> Result<
    Seq<UpstreamView>,
    Seq<char>,
>
    decreases s.len(),
{
    if s.len() == 0 {
        Ok(Seq::empty())
    } else {
        match upstreams_of(s.drop_last()) {
            Err(message) => Err(message),
            Ok(before) => match upstream_of(s.last().0@, s.last().1) {
                Ok(upstream) => Ok(before.push(upstream)),
                Err(message) => Err(message),
            },
        }
    }
}

/// What is said about the `[upstream.N]` sections `s`.
pub open spec fn all_upstream_warnings(s: Seq<(String, RawUpstream)>) -> Seq<Seq<char>>
    decreases s.len(),
{
    if s.len() == 0 {
        Seq::empty()
    } else {
        all_upstream_warnings(s.drop_last()) + upstream_warnings(s.last().0@, s.last().1)
    }
}

/// The views of several upstreams.
pub open spec fn upstream_views(v: Seq<Upstream>) -> Seq<UpstreamView> {
    v.map_values(|u: Upstream| u@)
}

/// 127.0.0.1:53.
pub open spec fn default_listener() -> Endpoint {
    Endpoint { ip: Ip::V4(127, 0, 0, 1), port: 53 }
}

/// `Config` as plain values.
#[verifier::ext_equal]
pub struct ConfigView {
    pub service: ServiceView,
    pub listeners: Seq<Endpoint>,
    pub upstreams: Seq<UpstreamView>,
}

impl View for Config {
    type V = ConfigView;

    open spec fn view(&self) -> ConfigView {
        ConfigView {
            service: self.service@,
            listeners: self.listeners@,
            upstreams: upstream_views(self.upstreams@),
        }
    }
}

/// What a configuration means, or why it is refused: sections are checked in
/// the order service, listeners, upstreams, and the first fault counts.
pub open spec fn config_of(raw: RawConfig) -> Result<ConfigView, Seq<char>> {
    match service_of(raw.service) {
        Err(message) => Err(message),
        Ok(service) => match listeners_of(ordered(raw.listener@)) {
            Err(message) => Err(message),
            Ok(listeners) => match upstreams_of(ordered(raw.upstream@)) {
                Err(message) => Err(message),
                Ok(upstreams) => if upstreams.len() == 0 {
                    Err("at least one [upstream.N] section is required"@)
                } else {
                    Ok(
                        ConfigView {
                            service,
                            listeners: if listeners.len() == 0 {
                                seq![default_listener()]
                            } else {
                                listeners
                            },
                            upstreams,
                        },
                    )
                },
            },
        },
    }
}

/// A fault among the first sections is a fault of all of them.
proof fn lemma_listeners_prefix(s: Seq<(String, RawListener)>, k: int)
    requires
        0 <= k <= s.len(),
        listeners_of(s.take(k)) is Err,
    ensures
        listeners_of(s) == listeners_of(s.take(k)),
    decreases s.len() - k,
{
    if k < s.len() {
        assert(s.take(k + 1).drop_last() =~= s.take(k));
        lemma_listeners_prefix(s, k + 1);
    } else {
        assert(s.take(k) =~= s);
    }
}

proof fn lemma_upstreams_prefix(s: Seq<(String, RawUpstream)>, k: int)
    requires
        0 <= k <= s.len(),
        upstreams_of(s.take(k)) is Err,
    ensures
        upstreams_of(s) == upstreams_of(s.take(k)),
    decreases s.len() - k,
{
    if k < s.len() {
        assert(s.take(k + 1).drop_last() =~= s.take(k));
        lemma_upstreams_prefix(s, k + 1);
    } else {
        assert(s.take(k) =~= s);
    }
}

fn parse_listeners(sections: Vec<(String, RawListener)>) -> (r: Result<Vec<Endpoint>, String>)
    ensures
        match listeners_of(sections@) {
            Ok(list) => r matches Ok(got) && got@ == list,
            Err(message) => r matches Err(got) && got@ == message,
        },
{
    let mut out: Vec<Endpoint> = Vec::new();
    let mut i: usize = 0;
    while i < sections.len()
        invariant
            i <= sections@.len(),
            listeners_of(sections@.take(i as int)) == Ok::<Seq<Endpoint>, Seq<char>>(out@),
        decreases sections@.len() - i,
    {
        proof {
            assert(sections@.take(i + 1).drop_last() =~= sections@.take(i as int));
        }
        match parse_ip_text(sections[i].1.ip.as_str()) {
            Some(ip) => out.push(Endpoint { ip, port: sections[i].1.port }),
            None => {
                proof {
                    lemma_listeners_prefix(sections@, i + 1);
                }
                let mut message: String = join3(
                    "[listener.",
                    sections[i].0.as_str(),
                    "] invalid ip: ",
                );
                message.append(show_debug(sections[i].1.ip.as_str()).as_str());
                return Err(message);
            },
        }
        i = i + 1;
    }
    assert(sections@.take(i as int) =~= sections@);
    Ok(out)
}

/// An upstream that is accepted has an endpoint.
proof fn lemma_accepted_has_endpoint(key: Seq<char>, raw: RawUpstream)
    requires
        upstream_of(key, raw) is Ok,
    ensures
        raw.endpoint@.len() > 0,
{
    reveal(upstream_of);
}

fn parse_upstreams(
    sections: Vec<(String, RawUpstream)>,
    warnings: &mut Vec<String>,
) -> (r: Result<Vec<Upstream>, String>)
    ensures
        match upstreams_of(sections@) {
            Ok(list) => r matches Ok(got) && upstream_views(got@) == list && texts(
                final(warnings)@,
            ) == texts(old(warnings)@) + all_upstream_warnings(sections@),
            Err(message) => r matches Err(got) && got@ == message,
        },
{
    let ghost told = texts(warnings@);
    let mut left: Vec<(String, RawUpstream)> = sections;
    let mut out: Vec<Upstream> = Vec::new();
    let ghost mut done: int = 0;
    proof {
        assert(sections@.skip(0) =~= sections@);
        assert(upstream_views(out@) =~= Seq::<UpstreamView>::empty());
        assert(told + Seq::<Seq<char>>::empty() =~= told);
    }
    while left.len() > 0
        invariant
            0 <= done <= sections@.len(),
            left@ == sections@.skip(done),
            upstreams_of(sections@.take(done)) == Ok::<Seq<UpstreamView>, Seq<char>>(
                upstream_views(out@),
            ),
            texts(warnings@) == told + all_upstream_warnings(sections@.take(done)),
        decreases left@.len(),
    {
        let (key, raw): (String, RawUpstream) = left.remove(0);
        let ghost heard = texts(warnings@);
        proof {
            assert(sections@.take(done + 1).drop_last() =~= sections@.take(done));
            assert(sections@.take(done + 1).last() == (key, raw));
            assert(left@ =~= sections@.skip(done + 1));
        }
        match parse_upstream(key.as_str(), raw, warnings) {
            Ok(upstream) => {
                let ghost before = out@;
                out.push(upstream);
                proof {
                    lemma_accepted_has_endpoint(key@, raw);
                    assert(upstream_views(out@) =~= upstream_views(before).push(upstream@));
                    assert(heard + upstream_warnings(key@, raw) =~= told + (all_upstream_warnings(
                        sections@.take(done),
                    ) + upstream_warnings(key@, raw)));
                    done = done + 1;
                }
            },
            Err(message) => {
                proof {
                    lemma_upstreams_prefix(sections@, done + 1);
                }
                return Err(message);
            },
        }
    }
    assert(sections@.take(done) =~= sections@);
    Ok(out)
}

/// Check all sections and put the configuration together. `warnings` holds what
/// was already said about the text that the sections come from.
pub fn assemble(raw: RawConfig, warnings: Vec<String>) -> (r: Result<Loaded, String>)
    ensures
        match config_of(raw) {
            Ok(config) => r matches Ok(loaded) && loaded.config@ == config && texts(
                loaded.warnings@,
            ) == texts(warnings@) + service_warnings(raw.service) + all_upstream_warnings(
                ordered(raw.upstream@),
            ),
            Err(message) => r matches Err(got) && got@ == message,
        },
{
    let mut told: Vec<String> = warnings;
    let service: Service = match parse_service(raw.service, &mut told) {
        Ok(service) => service,
        Err(message) => return Err(message),
    };
    let mut listeners: Vec<Endpoint> = match parse_listeners(sorted_numeric(raw.listener)) {
        Ok(listeners) => listeners,
        Err(message) => return Err(message),
    };
    let ghost listed = listeners@;
    if listeners.len() == 0 {
        listeners.push(Endpoint { ip: Ip::V4(127, 0, 0, 1), port: 53 });
        assert(listeners@ =~= seq![default_listener()]);
    }
    let upstreams: Vec<Upstream> = match parse_upstreams(sorted_numeric(raw.upstream), &mut told) {
        Ok(upstreams) => upstreams,
        Err(message) => return Err(message),
    };
    if upstreams.len() == 0 {
        return Err("at least one [upstream.N] section is required".to_owned());
    }
    Ok(Loaded { config: Config { service, listeners, upstreams }, warnings: told })
}

// ---------- laws ----------

proof fn lemma_text_before_is_strict(a: Seq<char>)
    ensures
        !text_before(a, a),
    decreases a.len(),
{
    if a.len() > 0 {
        lemma_text_before_is_strict(a.drop_first());
    }
}

proof fn lemma_text_before_is_transitive(a: Seq<char>, b: Seq<char>, c: Seq<char>)
    requires
        text_before(a, b),
        text_before(b, c),
    ensures
        text_before(a, c),
    decreases a.len(),
{
    if a.len() > 0 && a[0] == b[0] && b[0] == c[0] {
        lemma_text_before_is_transitive(a.drop_first(), b.drop_first(), c.drop_first());
    }
}

proof fn lemma_section_order(a: Seq<char>, b: Seq<char>, c: Seq<char>)
    ensures
        !section_before(a, a),
        section_before(a, b) && section_before(b, c) ==> section_before(a, c),
{
    lemma_text_before_is_strict(a);
    if text_before(a, b) && text_before(b, c) {
        lemma_text_before_is_transitive(a, b, c);
    }
}

/// Whether no section stands behind one that it should come before.
pub open spec fn in_order<T>(s: Seq<(String, T)>) -> bool {
    forall|i: int, j: int|
        0 <= i < j < s.len() ==> !section_before((#[trigger] s[j]).0@, (#[trigger] s[i]).0@)
}

proof fn lemma_place<T>(s: Seq<(String, T)>, key: Seq<char>, i: int)
    requires
        0 <= i <= s.len(),
    ensures
        i <= place(s, key, i) <= s.len(),
        forall|k: int|
            i <= k < place(s, key, i) ==> !section_before(key, (#[trigger] s[k]).0@),
        place(s, key, i) < s.len() ==> section_before(key, s[place(s, key, i)].0@),
    decreases s.len() - i,
{
    if i < s.len() && !section_before(key, s[i].0@) {
        lemma_place(s, key, i + 1);
    }
}

/// Putting the sections in order loses none, adds none, and leaves none behind
/// one with a larger number.
pub proof fn law_sections_are_put_in_order<T>(s: Seq<(String, T)>)
    ensures
        in_order(ordered(s)),
        ordered(s).to_multiset() == s.to_multiset(),
        ordered(s).len() == s.len(),
    decreases s.len(),
{
    if s.len() > 0 {
        let before = ordered(s.drop_last());
        let item = s.last();
        law_sections_are_put_in_order(s.drop_last());
        let at = place(before, item.0@, 0);
        lemma_place(before, item.0@, 0);
        let out = before.insert(at, item);
        assert forall|i: int, j: int| 0 <= i < j < out.len() implies !section_before(
            (#[trigger] out[j]).0@,
            (#[trigger] out[i]).0@,
        ) by {
            let x = if i < at {
                before[i]
            } else {
                before[i - 1]
            };
            let y = if j < at {
                before[j]
            } else {
                before[j - 1]
            };
            if i == at {
                lemma_section_order(y.0@, item.0@, before[at].0@);
                lemma_section_order(before[at].0@, item.0@, item.0@);
                if j - 1 > at {
                    assert(!section_before(before[j - 1].0@, before[at].0@));
                }
            } else if j == at {
                assert(out[i] == before[i]);
            }
        }
        before.to_multiset_ensures();
        vstd::seq_lib::to_multiset_insert(before, at, item);
        assert(s =~= s.drop_last().push(item));
        s.drop_last().to_multiset_ensures();
    }
}

/// Of two different texts one comes before the other.
proof fn lemma_text_before_is_total(a: Seq<char>, b: Seq<char>)
    requires
        a != b,
    ensures
        text_before(a, b) || text_before(b, a),
    decreases a.len(),
{
    if a.len() == 0 || b.len() == 0 {
        if a.len() == b.len() {
            assert(a =~= b);
        }
    } else if a[0] == b[0] {
        if a.drop_first() == b.drop_first() {
            assert(a =~= seq![a[0]] + a.drop_first());
            assert(b =~= seq![b[0]] + b.drop_first());
        }
        lemma_text_before_is_total(a.drop_first(), b.drop_first());
    }
}

/// What the sections are put in order from is all that is in order.
proof fn lemma_ordered_from<T>(s: Seq<(String, T)>)
    ensures
        forall|i: int| 0 <= i < ordered(s).len() ==> s.contains(#[trigger] ordered(s)[i]),
    decreases s.len(),
{
    if s.len() > 0 {
        let shorter = s.drop_last();
        let before = ordered(shorter);
        let item = s.last();
        let at = place(before, item.0@, 0);
        lemma_ordered_from(shorter);
        lemma_place(before, item.0@, 0);
        let out = ordered(s);
        assert forall|i: int| 0 <= i < out.len() implies s.contains(#[trigger] out[i]) by {
            if i == at {
                assert(s[s.len() - 1] == out[i]);
            } else {
                let x = if i < at {
                    before[i]
                } else {
                    before[i - 1]
                };
                assert(out[i] == x);
                assert(shorter.contains(x));
                let k = choose|k: int| 0 <= k < shorter.len() && shorter[k] == x;
                assert(s[k] == x);
            }
        }
    }
}

/// Whether every section comes before all those behind it.
pub open spec fn strictly_in_order<T>(s: Seq<(String, T)>) -> bool {
    forall|i: int, j: int|
        0 <= i < j < s.len() ==> section_before((#[trigger] s[i]).0@, (#[trigger] s[j]).0@)
}

proof fn lemma_strictly_in_order<T>(s: Seq<(String, T)>)
    requires
        distinct_sections(s),
    ensures
        strictly_in_order(ordered(s)),
    decreases s.len(),
{
    if s.len() > 0 {
        let shorter = s.drop_last();
        let before = ordered(shorter);
        let item = s.last();
        let at = place(before, item.0@, 0);
        let out = ordered(s);
        assert(distinct_sections(shorter)) by {
            assert forall|i: int, j: int| 0 <= i < j < shorter.len() implies (
            #[trigger] shorter[i]).0@ != (#[trigger] shorter[j]).0@ by {
                assert(s[i] == shorter[i] && s[j] == shorter[j]);
            }
        }
        lemma_strictly_in_order(shorter);
        lemma_ordered_from(shorter);
        lemma_place(before, item.0@, 0);
        assert forall|k: int| 0 <= k < before.len() implies (#[trigger] before[k]).0@
            != item.0@ by {
            assert(shorter.contains(before[k]));
            let i = choose|i: int| 0 <= i < shorter.len() && shorter[i] == before[k];
            assert(s[i] == before[k]);
            assert(s[s.len() - 1] == item);
        }
        assert forall|k: int| 0 <= k < at implies section_before(
            (#[trigger] before[k]).0@,
            item.0@,
        ) by {
            lemma_text_before_is_total(before[k].0@, item.0@);
        }
        assert forall|k: int| at <= k < before.len() implies section_before(
            item.0@,
            (#[trigger] before[k]).0@,
        ) by {
            if k > at {
                lemma_section_order(item.0@, before[at].0@, before[k].0@);
            }
        }
        assert forall|i: int, j: int| 0 <= i < j < out.len() implies section_before(
            (#[trigger] out[i]).0@,
            (#[trigger] out[j]).0@,
        ) by {
            assert(out[i] == if i < at {
                before[i]
            } else if i == at {
                item
            } else {
                before[i - 1]
            });
            assert(out[j] == if j < at {
                before[j]
            } else if j == at {
                item
            } else {
                before[j - 1]
            });
        }
    }
}

/// The order of the sections of a configuration is strict: every listener and
/// every upstream comes before all those behind it, by its number, and by its key
/// where the numbers are the same.
pub proof fn law_sections_are_strictly_ordered(raw: RawConfig)
    requires
        raw.wf(),
    ensures
        strictly_in_order(ordered(raw.listener@)),
        strictly_in_order(ordered(raw.upstream@)),
{
    lemma_strictly_in_order(raw.listener@);
    lemma_strictly_in_order(raw.upstream@);
}

/// Sections in strict order are told apart by what they hold alone.
proof fn lemma_strict_order_is_unique<T>(s: Seq<(String, T)>, t: Seq<(String, T)>)
    requires
        strictly_in_order(s),
        strictly_in_order(t),
        forall|x: (String, T)| #[trigger] s.contains(x) == t.contains(x),
    ensures
        s == t,
    decreases s.len(),
{
    if s.len() == 0 || t.len() == 0 {
        assert(s.len() > 0 ==> t.contains(s[0])) by {
            if s.len() > 0 {
                assert(s.contains(s[0]));
            }
        }
        assert(t.len() > 0 ==> s.contains(t[0])) by {
            if t.len() > 0 {
                assert(t.contains(t[0]));
            }
        }
        assert(s =~= t);
    } else {
        let a = s.last();
        let b = t.last();
        assert(s[s.len() - 1] == a && t[t.len() - 1] == b);
        assert(s.contains(a) && t.contains(b));
        assert(t.contains(a) && s.contains(b));
        let i = choose|i: int| 0 <= i < t.len() && t[i] == a;
        let j = choose|j: int| 0 <= j < s.len() && s[j] == b;
        if i < t.len() - 1 && j < s.len() - 1 {
            assert(section_before(t[i].0@, t[t.len() - 1].0@));
            assert(section_before(s[j].0@, s[s.len() - 1].0@));
            lemma_section_order(a.0@, b.0@, a.0@);
        }
        assert(a == b);
        let u = s.drop_last();
        let v = t.drop_last();
        assert forall|x: (String, T)| #[trigger] u.contains(x) == v.contains(x) by {
            lemma_section_order(a.0@, a.0@, a.0@);
            if u.contains(x) {
                let k = choose|k: int| 0 <= k < u.len() && u[k] == x;
                assert(s[k] == x);
                assert(s.contains(x));
                assert(section_before(s[k].0@, s[s.len() - 1].0@));
                let l = choose|l: int| 0 <= l < t.len() && t[l] == x;
                assert(v[l] == x);
            }
            if v.contains(x) {
                let k = choose|k: int| 0 <= k < v.len() && v[k] == x;
                assert(t[k] == x);
                assert(t.contains(x));
                assert(section_before(t[k].0@, t[t.len() - 1].0@));
                assert(s.contains(x));
                let l = choose|l: int| 0 <= l < s.len() && s[l] == x;
                assert(u[l] == x);
            }
        }
        lemma_strict_order_is_unique(u, v);
        assert(s =~= u.push(a));
        assert(t =~= v.push(b));
    }
}

/// It does not matter in which order sections with different keys are given:
/// the same sections end up in the same order.
pub proof fn law_given_order_does_not_matter<T>(s: Seq<(String, T)>, t: Seq<(String, T)>)
    requires
        distinct_sections(s),
        distinct_sections(t),
        s.to_multiset() == t.to_multiset(),
    ensures
        ordered(s) == ordered(t),
{
    lemma_strictly_in_order(s);
    lemma_strictly_in_order(t);
    law_sections_are_put_in_order(s);
    law_sections_are_put_in_order(t);
    let a = ordered(s);
    let b = ordered(t);
    a.to_multiset_ensures();
    b.to_multiset_ensures();
    assert forall|x: (String, T)| #[trigger] a.contains(x) == b.contains(x) by {
        assert(a.contains(x) == (a.to_multiset().count(x) > 0));
        assert(b.contains(x) == (b.to_multiset().count(x) > 0));
    }
    lemma_strict_order_is_unique(a, b);
}

/// A configuration that is accepted listens somewhere and has an upstream.
pub proof fn law_accepted_configurations_can_serve(raw: RawConfig)
    requires
        config_of(raw) is Ok,
    ensures
        (config_of(raw)->Ok_0).listeners.len() > 0,
        (config_of(raw)->Ok_0).upstreams.len() > 0,
{
}

/// An explicit `type` decides the protocol of an accepted upstream; without one
/// the scheme does, and an endpoint without either is an IP literal spoken to
/// in plain DNS.
pub proof fn law_explicit_type_wins(key: Seq<char>, raw: RawUpstream)
    requires
        upstream_of(key, raw) is Ok,
    ensures
        ({
            let up = upstream_of(key, raw)->Ok_0;
            let scheme = scheme_of(raw.endpoint@).0;
            &&& named_proto(lowered(raw.kind@)) matches Some(Some(named)) ==> up.proto == named
            &&& named_proto(lowered(raw.kind@)) == Some(None::<Proto>) ==> (match scheme {
                Some(text) => scheme_proto(text) == Some(up.proto),
                None => up.proto == Proto::Legacy && is_ip_endpoint(raw.endpoint@),
            })
        }),
{
    reveal(upstream_of);
}

/// An endpoint without a port gets the default port of its protocol: 443 for
/// doh and doh3, 853 for dot and doq, 53 for plain DNS. Only doh and doh3 have
/// a path, and theirs is never empty.
pub proof fn law_ports_and_paths(key: Seq<char>, raw: RawUpstream)
    requires
        upstream_of(key, raw) is Ok,
    ensures
        ({
            let up = upstream_of(key, raw)->Ok_0;
            let rest = scheme_of(raw.endpoint@).1;
            &&& !is_url_proto(up.proto) ==> up.path.len() == 0
            &&& is_url_proto(up.proto) ==> up.path.len() > 0
            &&& rest.len() > 0 && rest[0] != '[' && index_of(rest, ':') is None ==> up.port
                == up.proto.spec_default_port()
        }),
{
    reveal(upstream_of);
    reveal_strlit("/dns-query");
    let ctx = upstream_section(key);
    let up = upstream_of(key, raw)->Ok_0;
    let rest = scheme_of(raw.endpoint@).1;
    lemma_index_from(rest, '/', 0);
    lemma_index_from(rest, ':', 0);
    let target = (target_of(ctx, up.proto, rest)->Ok_0).0;
    if rest.len() > 0 && rest[0] != '[' && index_of(rest, ':') is None {
        lemma_index_from(target, ':', 0);
        lemma_no_occurrence(target, ':');
    }
}

/// A character that occurs nowhere occurs zero times.
proof fn lemma_no_occurrence(s: Seq<char>, c: char)
    requires
        forall|i: int| 0 <= i < s.len() ==> s[i] != c,
    ensures
        occurrences(s, c) == 0,
    decreases s.len(),
{
    if s.len() > 0 {
        lemma_no_occurrence(s.drop_last(), c);
    }
}

} // verus!
