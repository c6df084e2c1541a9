//! What a configuration is refused for, and what is said about one that is not.

use crate::config::{
    all_upstream_warnings, config_of, host_port, listeners_of, ordered, scheme_of, service_of,
    upstream_of, upstream_warnings, upstreams_of, Proto, RawConfig, RawListener, RawService,
    RawUpstream,
};
use crate::config_laws::law_schemes;
use crate::ip::{ip_of, Endpoint};
use crate::text::{
    debug_text, index_of, lemma_index_from, lowered, number_in, occurrences, split_at_first,
};
use crate::text_laws::law_splitting_at_the_first;
use vstd::prelude::*;
use vstd::string::*;

verus! {

/// Whether a section is refused with this message.
pub open spec fn is_refused<T>(r: Result<T, Seq<char>>, message: Seq<char>) -> bool {
    r matches Err(said) && said == message
}

/// A level that is none is refused by its name.
pub proof fn law_refused_levels(raw: RawService)
    ensures
        ({
            let name = lowered(raw.log_level@);
            name.len() > 0 && name != "info"@ && name != "trace"@ && name != "debug"@ && name
                != "warn"@ && name != "warning"@ && name != "error"@ && name != "fatal"@
                ==> is_refused(service_of(raw), "[service] invalid log_level: "@ + debug_text(name))
        }),
{
}

/// The names and the default ports of the protocols.
pub proof fn law_protocol_names(proto: Proto)
    ensures
        proto == Proto::Doh ==> proto.spec_as_str() == "doh"@ && proto.spec_default_port() == 443,
        proto == Proto::Doh3 ==> proto.spec_as_str() == "doh3"@ && proto.spec_default_port() == 443,
        proto == Proto::Dot ==> proto.spec_as_str() == "dot"@ && proto.spec_default_port() == 853,
        proto == Proto::Doq ==> proto.spec_as_str() == "doq"@ && proto.spec_default_port() == 853,
        proto == Proto::Legacy ==> proto.spec_as_str() == "legacy"@ && proto.spec_default_port()
            == 53,
{
}

/// No host has a port that is no number up to 65535, an opening bracket without a
/// closing one, or anything but a port behind the closing one.
pub proof fn law_refused_hosts(s: Seq<char>, default_port: u16)
    requires
        s.len() > 0,
    ensures
        s[0] != '[' && occurrences(s, ':') == 1 ==> (split_at_first(s, ':') matches Some(
            (host, port),
        ) ==> number_in(port, 65535) is None ==> host_port(s, default_port) is None),
        s[0] == '[' && !s.skip(1).contains(']') ==> host_port(s, default_port) is None,
        s[0] == '[' ==> (split_at_first(s.skip(1), ']') matches Some((host, tail)) ==> {
            &&& tail.len() > 0 && tail[0] != ':' ==> host_port(s, default_port) is None
            &&& tail.len() > 0 && tail[0] == ':' && number_in(tail.skip(1), 65535) is None
                ==> host_port(s, default_port) is None
        }),
{
    law_splitting_at_the_first(s.skip(1), ']');
}

/// Whether `kind` names a protocol, or none at all.
pub open spec fn is_kind(kind: Seq<char>) -> bool {
    kind.len() == 0 || kind == "doh"@ || kind == "doh3"@ || kind == "dot"@ || kind == "doq"@ || kind
        == "legacy"@
}

proof fn lemma_kinds_differ()
    ensures
        "doh"@.len() == 3 && "doh"@[2] == 'h',
        "dot"@.len() == 3 && "dot"@[2] == 't' && "dot"@[0] == 'd',
        "doq"@.len() == 3 && "doq"@[2] == 'q',
        "doh3"@.len() == 4,
        "legacy"@.len() == 6,
        "https"@.len() == 5,
        "h3"@.len() == 2,
        "quic"@.len() == 4,
        "tls"@.len() == 3 && "tls"@[0] == 't',
{
    reveal_strlit("doh");
    reveal_strlit("dot");
    reveal_strlit("doq");
    reveal_strlit("doh3");
    reveal_strlit("legacy");
    reveal_strlit("https");
    reveal_strlit("h3");
    reveal_strlit("quic");
    reveal_strlit("tls");
}

/// An upstream needs an endpoint; its type has to be one, its scheme too, and the
/// two have to agree; where there is neither, the endpoint has to be an address.
pub proof fn law_refused_types(key: Seq<char>, raw: RawUpstream)
    ensures
        ({
            let r = upstream_of(key, raw);
            let ctx = "[upstream."@ + key + "]"@;
            let kind = lowered(raw.kind@);
            let endpoint = raw.endpoint@;
            let scheme = scheme_of(endpoint).0;
            &&& endpoint.len() == 0 ==> is_refused(r, ctx + " endpoint is required"@)
            &&& endpoint.len() > 0 && !is_kind(kind) ==> is_refused(r, ctx + " invalid type "@ + debug_text(kind)
                    + " (expected doh, doh3, dot, doq or legacy)"@)
            &&& endpoint.len() > 0 && is_kind(kind) ==> (scheme matches Some(text) ==> {
                let conflict = ctx + " endpoint scheme "@ + text + ":// conflicts with type "@
                    + debug_text(raw.kind@);
                &&& text != "https"@ && text != "h3"@ && text != "quic"@ && text != "tls"@ && text
                    != "dot"@ ==> is_refused(r, ctx + " unsupported endpoint scheme "@ + debug_text(text) + "://"@)
                &&& text == "https"@ && kind.len() > 0 && kind != "doh"@ && kind != "doh3"@ ==> is_refused(r, conflict)
                &&& text == "h3"@ && kind.len() > 0 && kind != "doh3"@ ==> is_refused(r, conflict)
                &&& text == "quic"@ && kind.len() > 0 && kind != "doq"@ ==> is_refused(r, conflict)
                &&& (text == "tls"@ || text == "dot"@) && kind.len() > 0 && kind != "dot"@ ==> is_refused(r, conflict)
            })
            &&& endpoint.len() > 0 && kind.len() == 0 && scheme is None && ip_of(endpoint) is None
                && !(host_port(endpoint, 53) matches Some((h, _)) && ip_of(h) is Some) ==> is_refused(r, ctx + " type is required for endpoint "@ + debug_text(endpoint))
        }),
{
    reveal(upstream_of);
    lemma_kinds_differ();
}

/// An upstream without a scheme that is no URL: what its endpoint, its known
/// address and its stack are refused for, in this order.
pub proof fn law_refused_endpoints(key: Seq<char>, raw: RawUpstream)
    requires
        raw.endpoint@.len() > 0,
        scheme_of(raw.endpoint@).0 is None,
        lowered(raw.kind@) == "dot"@ || lowered(raw.kind@) == "doq"@ || lowered(raw.kind@)
            == "legacy"@,
    ensures
        ({
            let r = upstream_of(key, raw);
            let ctx = "[upstream."@ + key + "]"@;
            let kind = lowered(raw.kind@);
            let endpoint = raw.endpoint@;
            let stack = lowered(raw.ip_stack@);
            let hosted = !endpoint.contains('/') && host_port(endpoint, 53) is Some;
            let known = raw.bootstrap_ip@.len() == 0 || ip_of(raw.bootstrap_ip@) is Some;
            &&& endpoint.contains('/') ==> is_refused(r, ctx + " "@ + kind + " endpoint must be host[:port], not a URL"@)
            &&& !endpoint.contains('/') && host_port(endpoint, 53) is None ==> is_refused(r, ctx + " invalid endpoint host: "@ + debug_text(endpoint))
            &&& hosted && !known ==> is_refused(r, ctx + " invalid bootstrap_ip: "@ + debug_text(raw.bootstrap_ip@))
            &&& hosted && known && stack.len() > 0 && stack != "both"@ && stack != "split"@ && stack
                != "v4"@ && stack != "v6"@ ==> is_refused(r, ctx + " invalid ip_stack: "@ + debug_text(stack))
        }),
{
    reveal(upstream_of);
    lemma_kinds_differ();
    let e = raw.endpoint@;
    lemma_index_from(e, '/', 0);
    if let Some(i) = index_of(e, '/') {
        assert(e.contains(e[i]));
    }
    lemma_default_port_is_for_hosts(e, 53, 853);
}

/// Whether there is a host does not depend on the default port.
proof fn lemma_default_port_is_for_hosts(s: Seq<char>, a: u16, b: u16)
    ensures
        host_port(s, a) is Some <==> host_port(s, b) is Some,
{
}

/// A doh or doh3 upstream that is a bare host is told which URL it is taken for.
pub proof fn law_bare_hosts_are_told(key: Seq<char>, raw: RawUpstream)
    requires
        raw.endpoint@.len() > 0,
        !raw.endpoint@.contains(':'),
        !raw.endpoint@.contains('/'),
        lowered(raw.kind@) == "doh"@ || lowered(raw.kind@) == "doh3"@,
    ensures
        upstream_warnings(key, raw).contains(
            "[upstream."@ + key + "]"@ + " bare "@ + lowered(raw.kind@)
                + " endpoint; assuming https://"@ + raw.endpoint@ + "/dns-query"@,
        ),
{
    reveal(upstream_warnings);
    lemma_kinds_differ();
    let e = raw.endpoint@;
    law_schemes(e, Seq::empty());
    lemma_index_from(e, '/', 0);
    if let Some(i) = index_of(e, '/') {
        assert(e.contains(e[i]));
    }
    let told = upstream_warnings(key, raw);
    assert(told[0] == "[upstream."@ + key + "]"@ + " bare "@ + lowered(raw.kind@)
        + " endpoint; assuming https://"@ + e + "/dns-query"@);
}

/// Sections are read in order, and the first fault among them is the fault of all;
/// what there is to say about upstreams is said one after the other.
pub proof fn law_first_fault_counts(
    listeners: Seq<(String, RawListener)>,
    listener: (String, RawListener),
    upstreams: Seq<(String, RawUpstream)>,
    upstream: (String, RawUpstream),
)
    ensures
        listeners_of(listeners) matches Err(message) ==> listeners_of(listeners.push(listener))
            == Err::<Seq<Endpoint>, Seq<char>>(message),
        listeners_of(listeners) is Ok && ip_of(listener.1.ip@) is None ==> listeners_of(
            listeners.push(listener),
        ) == Err::<Seq<Endpoint>, Seq<char>>(
            "[listener."@ + listener.0@ + "] invalid ip: "@ + debug_text(listener.1.ip@),
        ),
        upstreams_of(upstreams) matches Err(message) ==> is_refused(upstreams_of(upstreams.push(upstream)), message),
        upstreams_of(upstreams) is Ok ==> (upstream_of(upstream.0@, upstream.1) matches Err(message)
            ==> is_refused(upstreams_of(upstreams.push(upstream)), message)),
        all_upstream_warnings(Seq::empty()) == Seq::<Seq<char>>::empty(),
        all_upstream_warnings(upstreams.push(upstream)) == all_upstream_warnings(upstreams)
            + upstream_warnings(upstream.0@, upstream.1),
{
    assert(listeners.push(listener).drop_last() =~= listeners);
    assert(upstreams.push(upstream).drop_last() =~= upstreams);
}

/// A configuration is refused for its service first, then for its listeners, then
/// for its upstreams, and last for having none.
pub proof fn law_refused_configurations(raw: RawConfig)
    ensures
        ({
            let r = config_of(raw);
            let service = service_of(raw.service);
            let listeners = listeners_of(ordered(raw.listener@));
            let upstreams = upstreams_of(ordered(raw.upstream@));
            &&& service matches Err(message) ==> is_refused(r, message)
            &&& service is Ok ==> (listeners matches Err(message) ==> is_refused(r, message))
            &&& service is Ok && listeners is Ok ==> (upstreams matches Err(message) ==> is_refused(r, message))
            &&& service is Ok && listeners is Ok && raw.upstream@.len() == 0 ==> is_refused(r, "at least one [upstream.N] section is required"@)
        }),
{
    crate::config::law_sections_are_put_in_order(raw.upstream@);
}

} // verus!
