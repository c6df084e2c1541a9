//! The system's DNS settings: what the system tools print, what is taken over
//! and how it is given back.

use crate::config::texts;
use crate::ip::{ip_of, ip_text, parse_ip, parse_ip_text, show_ip, Endpoint, Ip};
use crate::text::{
    begins_with, chars_of, debug_text, has_prefix, join, join3, lines_of, same_text, show_debug,
    split_lines, text_of, trim, trimmed, views,
};
use vstd::prelude::*;
use vstd::slice::slice_subrange;
use vstd::string::*;

verus! {

pub const NETWORKSETUP: &'static str = "/usr/sbin/networksetup";

pub const SCUTIL: &'static str = "/usr/sbin/scutil";

pub const BACKUP_PATH: &'static str = "/Library/Application Support/DNSRivet/dns-backup.toml";

/// Created only after a takeover applied to every service; its absence next
/// to a backup means the takeover state is not trustworthy.
pub const MARKER_PATH: &'static str = "/Library/Application Support/DNSRivet/takeover-active";

pub const LOCK_PATH: &'static str = "/Library/Application Support/DNSRivet/.lock";

/// What the backup and the marker say about the system's DNS.
#[derive(Clone, Copy, Debug, Eq, PartialEq, Structural)]
pub enum TakeoverState {
    NotTakenOver,
    Active,
    /// Backup without marker: a takeover attempt did not complete.
    Indeterminate,
    /// Marker without backup: restore data is gone.
    Corrupted,
}

pub open spec fn state_of(backup: bool, marker: bool) -> TakeoverState {
    if backup && marker {
        TakeoverState::Active
    } else if backup {
        TakeoverState::Indeterminate
    } else if marker {
        TakeoverState::Corrupted
    } else {
        TakeoverState::NotTakenOver
    }
}

pub fn classify(backup: bool, marker: bool) -> (r: TakeoverState)
    ensures
        r == state_of(backup, marker),
{
    match (backup, marker) {
        (false, false) => TakeoverState::NotTakenOver,
        (true, true) => TakeoverState::Active,
        (true, false) => TakeoverState::Indeterminate,
        (false, true) => TakeoverState::Corrupted,
    }
}

/// The takeover state, from whether the backup and the marker exist.
pub fn takeover_state(backup_exists: bool, marker_exists: bool) -> (r: TakeoverState)
    ensures
        r == state_of(backup_exists, marker_exists),
{
    classify(backup_exists, marker_exists)
}

// ---------- network services ----------

/// All lines but the first, trimmed, and without the empty ones.
pub open spec fn listed(lines: Seq<Seq<char>>) -> Seq<Seq<char>>
    decreases lines.len(),
{
    if lines.len() <= 1 {
        Seq::empty()
    } else {
        let before = listed(lines.drop_last());
        let line = trimmed(lines.last());
        if line.len() == 0 {
            before
        } else {
            before.push(line)
        }
    }
}

/// The lines that do not begin with an asterisk.
pub open spec fn unstarred(lines: Seq<Seq<char>>) -> Seq<Seq<char>>
    decreases lines.len(),
{
    if lines.len() == 0 {
        Seq::empty()
    } else {
        let before = unstarred(lines.drop_last());
        if lines.last()[0] == '*' {
            before
        } else {
            before.push(lines.last())
        }
    }
}

/// A line without the asterisk that marks a disabled service.
pub open spec fn service_name(line: Seq<char>) -> Seq<char> {
    if line.len() > 0 && line[0] == '*' {
        trimmed(line.skip(1))
    } else {
        trimmed(line)
    }
}

/// The enabled network services that `networksetup` lists: one per line after
/// the heading, disabled ones with an asterisk.
pub open spec fn enabled_services(text: Seq<char>) -> Seq<Seq<char>> {
    unstarred(listed(lines_of(text)))
}

/// All network services that `networksetup` lists.
pub open spec fn all_services(text: Seq<char>) -> Seq<Seq<char>> {
    listed(lines_of(text)).map_values(|line: Seq<char>| service_name(line))
}

/// No listed line is empty.
proof fn lemma_listed_nonempty(lines: Seq<Seq<char>>)
    ensures
        forall|i: int| 0 <= i < listed(lines).len() ==> (#[trigger] listed(lines)[i]).len() > 0,
    decreases lines.len(),
{
    if lines.len() > 1 {
        lemma_listed_nonempty(lines.drop_last());
        let before = listed(lines.drop_last());
        assert forall|i: int| 0 <= i < listed(lines).len() implies (#[trigger] listed(
            lines,
        )[i]).len() > 0 by {
            if i < before.len() {
                assert(listed(lines)[i] == before[i]);
            }
        }
    }
}

fn listed_lines(text: &str) -> (out: Vec<Vec<char>>)
    ensures
        views(out@) == listed(lines_of(text@)),
{
    let chars: Vec<char> = chars_of(text);
    let lines: Vec<Vec<char>> = split_lines(chars.as_slice());
    let ghost all = lines_of(text@);
    let mut out: Vec<Vec<char>> = Vec::new();
    if lines.len() == 0 {
        assert(views(out@) =~= listed(all));
        return out;
    }
    let mut i: usize = 1;
    assert(views(out@) =~= listed(all.take(1)));
    while i < lines.len()
        invariant
            1 <= i <= lines@.len(),
            views(lines@) == all,
            views(out@) == listed(all.take(i as int)),
        decreases lines@.len() - i,
    {
        proof {
            assert(all.take(i + 1).drop_last() =~= all.take(i as int));
            assert(all[i as int] == lines@[i as int]@);
        }
        let ghost before = out@;
        let line: &[char] = trim(lines[i].as_slice());
        if line.len() > 0 {
            out.push(vstd::slice::slice_to_vec(line));
            assert(views(out@) =~= views(before).push(line@));
        }
        i = i + 1;
    }
    assert(all.take(i as int) =~= all);
    out
}

pub fn parse_services(text: &str) -> (out: Vec<String>)
    ensures
        texts(out@) == enabled_services(text@),
{
    let lines: Vec<Vec<char>> = listed_lines(text);
    let ghost all = listed(lines_of(text@));
    proof {
        lemma_listed_nonempty(lines_of(text@));
    }
    let mut out: Vec<String> = Vec::new();
    let mut i: usize = 0;
    assert(texts(out@) =~= unstarred(all.take(0)));
    while i < lines.len()
        invariant
            i <= lines@.len(),
            views(lines@) == all,
            forall|k: int| 0 <= k < all.len() ==> (#[trigger] all[k]).len() > 0,
            texts(out@) == unstarred(all.take(i as int)),
        decreases lines@.len() - i,
    {
        proof {
            assert(all.take(i + 1).drop_last() =~= all.take(i as int));
            assert(all[i as int] == lines@[i as int]@);
        }
        let ghost before = out@;
        if lines[i][0] != '*' {
            let name: String = text_of(lines[i].as_slice(), 0, lines[i].len());
            assert(name@ =~= all[i as int]);
            out.push(name);
            assert(texts(out@) =~= texts(before).push(name@));
        }
        i = i + 1;
    }
    assert(all.take(i as int) =~= all);
    out
}

pub fn parse_all_services(text: &str) -> (out: Vec<String>)
    ensures
        texts(out@) == all_services(text@),
{
    let lines: Vec<Vec<char>> = listed_lines(text);
    let ghost all = listed(lines_of(text@));
    let mut out: Vec<String> = Vec::new();
    let mut i: usize = 0;
    while i < lines.len()
        invariant
            i <= lines@.len(),
            views(lines@) == all,
            texts(out@) == all.take(i as int).map_values(|line: Seq<char>| service_name(line)),
        decreases lines@.len() - i,
    {
        proof {
            assert(all[i as int] == lines@[i as int]@);
        }
        let line: &[char] = lines[i].as_slice();
        let name: &[char] = if line.len() > 0 && line[0] == '*' {
            let rest: &[char] = slice_subrange(line, 1, line.len());
            assert(rest@ =~= line@.skip(1));
            trim(rest)
        } else {
            trim(line)
        };
        let ghost before = out@;
        let text: String = text_of(name, 0, name.len());
        assert(text@ =~= name@);
        out.push(text);
        proof {
            assert(texts(out@) =~= texts(before).push(text@));
            assert(all.take(i + 1).map_values(|line: Seq<char>| service_name(line))
                =~= all.take(i as int).map_values(|line: Seq<char>| service_name(line)).push(
                text@,
            ));
        }
        i = i + 1;
    }
    assert(all.take(i as int) =~= all);
    out
}

// ---------- the DNS servers of a service ----------

/// The lines, trimmed, and without the empty ones.
pub open spec fn filled_lines(lines: Seq<Seq<char>>) -> Seq<Seq<char>>
    decreases lines.len(),
{
    if lines.len() == 0 {
        Seq::empty()
    } else {
        let before = filled_lines(lines.drop_last());
        let line = trimmed(lines.last());
        if line.len() == 0 {
            before
        } else {
            before.push(line)
        }
    }
}

/// The addresses on the lines, in canonical form, where each line is one.
pub open spec fn addresses_on(lines: Seq<Seq<char>>) -> Option<Seq<Seq<char>>>
    decreases lines.len(),
{
    if lines.len() == 0 {
        Some(Seq::empty())
    } else {
        match (addresses_on(lines.drop_last()), ip_of(lines.last())) {
            (Some(before), Some(ip)) => Some(before.push(ip_text(ip))),
            _ => None,
        }
    }
}

/// The DNS servers that `networksetup` prints for a service: one address per
/// line, or a sentence that there are none.
pub open spec fn dns_servers(text: Seq<char>) -> Option<Seq<Seq<char>>> {
    let lines = filled_lines(lines_of(text));
    if lines.len() == 1 && begins_with(lines[0], "There aren't any DNS Servers set on"@) {
        Some(Seq::empty())
    } else {
        addresses_on(lines)
    }
}

fn nonempty_lines(text: &str) -> (out: Vec<Vec<char>>)
    ensures
        views(out@) == filled_lines(lines_of(text@)),
{
    let chars: Vec<char> = chars_of(text);
    let lines: Vec<Vec<char>> = split_lines(chars.as_slice());
    let ghost all = lines_of(text@);
    let mut out: Vec<Vec<char>> = Vec::new();
    let mut i: usize = 0;
    assert(views(out@) =~= filled_lines(all.take(0)));
    while i < lines.len()
        invariant
            i <= lines@.len(),
            views(lines@) == all,
            views(out@) == filled_lines(all.take(i as int)),
        decreases lines@.len() - i,
    {
        proof {
            assert(all.take(i + 1).drop_last() =~= all.take(i as int));
            assert(all[i as int] == lines@[i as int]@);
        }
        let ghost before = out@;
        let line: &[char] = trim(lines[i].as_slice());
        if line.len() > 0 {
            out.push(vstd::slice::slice_to_vec(line));
            assert(views(out@) =~= views(before).push(line@));
        }
        i = i + 1;
    }
    assert(all.take(i as int) =~= all);
    out
}

proof fn lemma_addresses_prefix(lines: Seq<Seq<char>>, k: int)
    requires
        0 <= k <= lines.len(),
        addresses_on(lines.take(k)) is None,
    ensures
        addresses_on(lines) is None,
    decreases lines.len() - k,
{
    if k < lines.len() {
        assert(lines.take(k + 1).drop_last() =~= lines.take(k));
        lemma_addresses_prefix(lines, k + 1);
    } else {
        assert(lines.take(k) =~= lines);
    }
}

pub fn parse_dns_servers(text: &str) -> (r: Option<Vec<String>>)
    ensures
        match dns_servers(text@) {
            Some(servers) => r matches Some(got) && texts(got@) == servers,
            None => r is None,
        },
{
    let lines: Vec<Vec<char>> = nonempty_lines(text);
    let ghost all = filled_lines(lines_of(text@));
    if lines.len() == 1 {
        assert(all[0] == lines@[0]@);
        if has_prefix(lines[0].as_slice(), "There aren't any DNS Servers set on") {
            let none: Vec<String> = Vec::new();
            assert(texts(none@) =~= Seq::<Seq<char>>::empty());
            return Some(none);
        }
    }
    let mut out: Vec<String> = Vec::new();
    let mut i: usize = 0;
    assert(texts(out@) =~= Seq::<Seq<char>>::empty());
    while i < lines.len()
        invariant
            i <= lines@.len(),
            views(lines@) == all,
            all == filled_lines(lines_of(text@)),
            !(all.len() == 1 && begins_with(all[0], "There aren't any DNS Servers set on"@)),
            addresses_on(all.take(i as int)) == Some(texts(out@)),
        decreases lines@.len() - i,
    {
        proof {
            assert(all.take(i + 1).drop_last() =~= all.take(i as int));
            assert(all[i as int] == lines@[i as int]@);
        }
        match parse_ip(lines[i].as_slice()) {
            Some(ip) => {
                let ghost before = out@;
                let shown: String = show_ip(ip);
                out.push(shown);
                assert(texts(out@) =~= texts(before).push(shown@));
            },
            None => {
                proof {
                    lemma_addresses_prefix(all, i + 1);
                }
                return None;
            },
        }
        i = i + 1;
    }
    assert(all.take(i as int) =~= all);
    Some(out)
}

// ---------- fallback servers ----------

/// Whether a server can be asked directly without coming back here: it is no
/// loopback, unspecified, multicast or denied address.
pub open spec fn is_usable(ip: Ip, denied: Seq<Ip>) -> bool {
    &&& !ip.spec_is_loopback()
    &&& !ip.spec_is_unspecified()
    &&& !ip.spec_is_multicast()
    &&& !denied.contains(ip)
}

/// The usable servers, each where it first occurs.
pub open spec fn usable(servers: Seq<Ip>, denied: Seq<Ip>) -> Seq<Ip>
    decreases servers.len(),
{
    if servers.len() == 0 {
        Seq::empty()
    } else {
        let before = usable(servers.drop_last(), denied);
        if is_usable(servers.last(), denied) && !before.contains(servers.last()) {
            before.push(servers.last())
        } else {
            before
        }
    }
}

pub fn contains_ip(list: &[Ip], ip: Ip) -> (r: bool)
    ensures
        r == list@.contains(ip),
{
    let mut i: usize = 0;
    while i < list.len()
        invariant
            i <= list@.len(),
            forall|k: int| 0 <= k < i ==> list@[k] != ip,
        decreases list@.len() - i,
    {
        if list[i] == ip {
            assert(list@[i as int] == ip);
            return true;
        }
        i = i + 1;
    }
    false
}

pub fn filter_fallback_servers(servers: Vec<Ip>, denied: &[Ip]) -> (out: Vec<Ip>)
    ensures
        out@ == usable(servers@, denied@),
{
    let mut out: Vec<Ip> = Vec::new();
    let mut i: usize = 0;
    while i < servers.len()
        invariant
            i <= servers@.len(),
            out@ == usable(servers@.take(i as int), denied@),
        decreases servers@.len() - i,
    {
        proof {
            assert(servers@.take(i + 1).drop_last() =~= servers@.take(i as int));
        }
        let ip: Ip = servers[i];
        if !ip.is_loopback() && !ip.is_unspecified() && !ip.is_multicast() && !contains_ip(
            denied,
            ip,
        ) && !contains_ip(out.as_slice(), ip) {
            out.push(ip);
        }
        i = i + 1;
    }
    assert(servers@.take(i as int) =~= servers@);
    out
}

/// A fallback server never leads back here: what is left after filtering is
/// usable, was offered, and occurs once; and nothing usable was left out.
pub proof fn law_fallback_cannot_recurse(servers: Seq<Ip>, denied: Seq<Ip>)
    ensures
        forall|i: int|
            0 <= i < usable(servers, denied).len() ==> is_usable(
                #[trigger] usable(servers, denied)[i],
                denied,
            ) && servers.contains(usable(servers, denied)[i]),
        usable(servers, denied).no_duplicates(),
        forall|ip: Ip| #[trigger]
            servers.contains(ip) && is_usable(ip, denied) ==> usable(servers, denied).contains(ip),
    decreases servers.len(),
{
    if servers.len() > 0 {
        let shorter = servers.drop_last();
        let last = servers.last();
        law_fallback_cannot_recurse(shorter, denied);
        let before = usable(shorter, denied);
        let out = usable(servers, denied);
        assert forall|i: int| 0 <= i < out.len() implies is_usable(#[trigger] out[i], denied)
            && servers.contains(out[i]) by {
            if i < before.len() {
                assert(out[i] == before[i]);
                let k = choose|k: int| 0 <= k < shorter.len() && shorter[k] == before[i];
                assert(servers[k] == out[i]);
            } else {
                assert(servers[servers.len() - 1] == out[i]);
            }
        }
        assert forall|ip: Ip| #[trigger]
            servers.contains(ip) && is_usable(ip, denied) implies out.contains(ip) by {
            let k = choose|k: int| 0 <= k < servers.len() && servers[k] == ip;
            if k < shorter.len() {
                assert(shorter[k] == ip);
                assert(shorter.contains(ip));
                let j = choose|j: int| 0 <= j < before.len() && before[j] == ip;
                assert(out[j] == ip);
            } else if !before.contains(ip) {
                assert(out[out.len() - 1] == ip);
            } else {
                assert(out == before);
            }
        }
    }
}

/// The addresses with the DNS port.
pub open spec fn on_port_53(ips: Seq<Ip>) -> Seq<Endpoint> {
    ips.map_values(|ip: Ip| Endpoint { ip, port: 53 })
}

pub fn with_port_53(ips: &Vec<Ip>) -> (out: Vec<Endpoint>)
    ensures
        out@ == on_port_53(ips@),
{
    let mut out: Vec<Endpoint> = Vec::new();
    let mut i: usize = 0;
    while i < ips.len()
        invariant
            i <= ips@.len(),
            out@ == on_port_53(ips@.take(i as int)),
        decreases ips@.len() - i,
    {
        out.push(Endpoint { ip: ips[i], port: 53 });
        assert(on_port_53(ips@.take(i + 1)) =~= on_port_53(ips@.take(i as int)).push(
            Endpoint { ip: ips@[i as int], port: 53 },
        ));
        i = i + 1;
    }
    assert(ips@.take(i as int) =~= ips@);
    out
}

/// The loopback addresses, each where it first occurs.
pub open spec fn loopbacks(servers: Seq<Ip>) -> Seq<Ip>
    decreases servers.len(),
{
    if servers.len() == 0 {
        Seq::empty()
    } else {
        let before = loopbacks(servers.drop_last());
        if servers.last().spec_is_loopback() && !before.contains(servers.last()) {
            before.push(servers.last())
        } else {
            before
        }
    }
}

/// Loopback DNS endpoints among the resolvers that the system advertises. This
/// lets unprivileged health checks probe the active service without reading its
/// private config.
pub fn current_loopback_dns(effective: &Vec<Ip>) -> (out: Vec<Endpoint>)
    ensures
        out@ == on_port_53(loopbacks(effective@)),
{
    let mut found: Vec<Ip> = Vec::new();
    let mut i: usize = 0;
    while i < effective.len()
        invariant
            i <= effective@.len(),
            found@ == loopbacks(effective@.take(i as int)),
        decreases effective@.len() - i,
    {
        proof {
            assert(effective@.take(i + 1).drop_last() =~= effective@.take(i as int));
        }
        let ip: Ip = effective[i];
        if ip.is_loopback() && !contains_ip(found.as_slice(), ip) {
            found.push(ip);
        }
        i = i + 1;
    }
    assert(effective@.take(i as int) =~= effective@);
    with_port_53(&found)
}

// ---------- the backup ----------

/// The DNS servers that a network service had.
pub struct ServiceDns {
    pub name: String,
    pub servers: Vec<String>,
}

/// `ServiceDns` as plain values: name and servers.
pub type Setting = (Seq<char>, Seq<Seq<char>>);

impl View for ServiceDns {
    type V = Setting;

    open spec fn view(&self) -> Setting {
        (self.name@, texts(self.servers@))
    }
}

/// The views of several settings.
pub open spec fn settings(v: Seq<ServiceDns>) -> Seq<Setting> {
    v.map_values(|s: ServiceDns| s@)
}

/// What is needed to give the system its DNS settings back.
pub struct Backup {
    pub version: u8,
    pub services: Vec<ServiceDns>,
    pub fallback_servers: Vec<String>,
}

/// The addresses among the texts.
pub open spec fn addresses_in(list: Seq<Seq<char>>) -> Seq<Ip>
    decreases list.len(),
{
    if list.len() == 0 {
        Seq::empty()
    } else {
        match ip_of(list.last()) {
            Some(ip) => addresses_in(list.drop_last()).push(ip),
            None => addresses_in(list.drop_last()),
        }
    }
}

/// The addresses among the servers of all services.
pub open spec fn service_addresses(list: Seq<Setting>) -> Seq<Ip>
    decreases list.len(),
{
    if list.len() == 0 {
        Seq::empty()
    } else {
        service_addresses(list.drop_last()) + addresses_in(list.last().1)
    }
}

/// Append the addresses among the texts.
pub fn collect_addresses(list: &Vec<String>, out: &mut Vec<Ip>)
    ensures
        final(out)@ == old(out)@ + addresses_in(texts(list@)),
{
    let ghost before = out@;
    let ghost all = texts(list@);
    let mut i: usize = 0;
    assert(before + addresses_in(all.take(0)) =~= before);
    while i < list.len()
        invariant
            i <= list@.len(),
            all == texts(list@),
            out@ == before + addresses_in(all.take(i as int)),
        decreases list@.len() - i,
    {
        proof {
            assert(all.take(i + 1).drop_last() =~= all.take(i as int));
            assert(all[i as int] == list@[i as int]@);
        }
        if let Some(ip) = parse_ip_text(list[i].as_str()) {
            out.push(ip);
        }
        assert(out@ =~= before + addresses_in(all.take(i + 1)));
        i = i + 1;
    }
    assert(all.take(i as int) =~= all);
}

/// Where fallback servers come from: the backup of a takeover, or the resolvers
/// that are in effect.
pub enum FallbackSource {
    Backup(Backup),
    Effective(Vec<Ip>),
}

/// The servers that a source offers. A backup that recorded none offers those
/// of its services.
pub open spec fn offered_servers(source: FallbackSource) -> Seq<Ip> {
    match source {
        FallbackSource::Effective(ips) => ips@,
        FallbackSource::Backup(backup) => {
            let recorded = addresses_in(texts(backup.fallback_servers@));
            if recorded.len() == 0 {
                service_addresses(settings(backup.services@))
            } else {
                recorded
            }
        },
    }
}

pub open spec fn is_known_version(version: u8) -> bool {
    version == 1 || version == 2
}

/// How an unknown backup version is refused.
pub open spec fn version_error(version: u8) -> Seq<char> {
    "unsupported DNS backup version "@ + crate::text::decimal(version as nat)
}

/// Refuse a backup that was not written by a version known here.
pub fn check_version(version: u8) -> (r: Result<(), String>)
    ensures
        if is_known_version(version) {
            r is Ok
        } else {
            r matches Err(message) && message@ == version_error(version)
        },
{
    if version == 1 || version == 2 {
        return Ok(());
    }
    Err(join("unsupported DNS backup version ", crate::text::show_number(version as u64).as_str()))
}

/// The addresses of several endpoints.
pub open spec fn endpoint_ips(list: Seq<Endpoint>) -> Seq<Ip> {
    list.map_values(|e: Endpoint| e.ip)
}

fn ips_of(list: &[Endpoint]) -> (out: Vec<Ip>)
    ensures
        out@ == endpoint_ips(list@),
{
    let mut out: Vec<Ip> = Vec::new();
    let mut i: usize = 0;
    while i < list.len()
        invariant
            i <= list@.len(),
            out@ == endpoint_ips(list@.take(i as int)),
        decreases list@.len() - i,
    {
        out.push(list[i].ip);
        assert(endpoint_ips(list@.take(i + 1)) =~= endpoint_ips(list@.take(i as int)).push(
            list@[i as int].ip,
        ));
        i = i + 1;
    }
    assert(list@.take(i as int) =~= list@);
    out
}

/// Direct DNS servers that were effective before system takeover. The proxy
/// queries these addresses itself, never through the now-looping OS resolver.
pub fn fallback_servers(listeners: &[Endpoint], source: FallbackSource) -> (r: Result<
    Vec<Endpoint>,
    String,
>)
    ensures
        match source {
            FallbackSource::Backup(backup) if !is_known_version(backup.version) => r matches Err(
                message,
            ) && message@ == version_error(backup.version),
            _ => r matches Ok(servers) && servers@ == on_port_53(
                usable(offered_servers(source), endpoint_ips(listeners@)),
            ),
        },
{
    let denied: Vec<Ip> = ips_of(listeners);
    let candidates: Vec<Ip> = match source {
        FallbackSource::Effective(ips) => ips,
        FallbackSource::Backup(backup) => {
            if let Err(message) = check_version(backup.version) {
                return Err(message);
            }
            let mut recorded: Vec<Ip> = Vec::new();
            collect_addresses(&backup.fallback_servers, &mut recorded);
            assert(recorded@ =~= addresses_in(texts(backup.fallback_servers@)));
            if recorded.len() == 0 {
                let ghost all = settings(backup.services@);
                let mut i: usize = 0;
                while i < backup.services.len()
                    invariant
                        i <= backup.services@.len(),
                        all == settings(backup.services@),
                        recorded@ == service_addresses(all.take(i as int)),
                    decreases backup.services@.len() - i,
                {
                    proof {
                        assert(all.take(i + 1).drop_last() =~= all.take(i as int));
                        assert(all[i as int] == backup.services@[i as int]@);
                    }
                    collect_addresses(&backup.services[i].servers, &mut recorded);
                    i = i + 1;
                }
                assert(all.take(i as int) =~= all);
            }
            recorded
        },
    };
    Ok(with_port_53(&filter_fallback_servers(candidates, denied.as_slice())))
}

// ---------- drift ----------

/// Whether a service still points exactly at the takeover address: a list that
/// holds a second resolver as well would let queries leak around the proxy.
pub open spec fn is_intact(servers: Seq<Seq<char>>, server: Seq<char>) -> bool {
    servers == seq![server]
}

/// A service and the servers that it has now, as plain values.
pub open spec fn current_settings(v: Seq<(String, Vec<String>)>) -> Seq<Setting> {
    v.map_values(|s: (String, Vec<String>)| (s.0@, texts(s.1@)))
}

/// The names of the services that no longer point exactly at `server`.
pub open spec fn drifted(current: Seq<Setting>, server: Seq<char>) -> Seq<Seq<char>>
    decreases current.len(),
{
    if current.len() == 0 {
        Seq::empty()
    } else {
        let before = drifted(current.drop_last(), server);
        if is_intact(current.last().1, server) {
            before
        } else {
            before.push(current.last().0)
        }
    }
}

/// Exact-list check: anything other than exactly `[server]` is drift, even a
/// list that still contains the server alongside a second resolver.
pub fn services_needing_reassert(current: &[(String, Vec<String>)], server: &str) -> (out: Vec<
    String,
>)
    ensures
        texts(out@) == drifted(current_settings(current@), server@),
{
    let ghost all = current_settings(current@);
    let mut out: Vec<String> = Vec::new();
    let mut i: usize = 0;
    assert(texts(out@) =~= Seq::<Seq<char>>::empty());
    while i < current.len()
        invariant
            i <= current@.len(),
            all == current_settings(current@),
            texts(out@) == drifted(all.take(i as int), server@),
        decreases current@.len() - i,
    {
        proof {
            assert(all.take(i + 1).drop_last() =~= all.take(i as int));
            assert(all[i as int] == (current@[i as int].0@, texts(current@[i as int].1@)));
        }
        let servers: &Vec<String> = &current[i].1;
        let intact: bool = servers.len() == 1 && same_text(servers[0].as_str(), server);
        proof {
            if intact {
                assert(texts(servers@) =~= seq![server@]);
            } else if is_intact(texts(servers@), server@) {
                assert(texts(servers@).len() == servers@.len());
                assert(texts(servers@)[0] == servers@[0]@);
                assert(seq![server@].len() == 1);
                assert(seq![server@][0] == server@);
            }
        }
        if !intact {
            let ghost before = out@;
            let name: String = current[i].0.clone();
            out.push(name);
            assert(texts(out@) =~= texts(before).push(name@));
        }
        i = i + 1;
    }
    assert(all.take(i as int) =~= all);
    out
}

// ---------- talking to networksetup ----------

/// The arguments with which `networksetup` sets the servers of a service. A
/// service without any gets the word `Empty`.
pub open spec fn assign_arguments(service: Seq<char>, servers: Seq<Seq<char>>) -> Seq<Seq<char>> {
    seq!["-setdnsservers"@, service] + (if servers.len() == 0 {
        seq!["Empty"@]
    } else {
        servers
    })
}

pub fn set_dns_arguments(service: &str, servers: &Vec<String>) -> (args: Vec<String>)
    ensures
        texts(args@) == assign_arguments(service@, texts(servers@)),
{
    let mut args: Vec<String> = vec!["-setdnsservers".to_owned(), service.to_owned()];
    assert(texts(args@) =~= seq!["-setdnsservers"@, service@]);
    let ghost start = texts(args@);
    if servers.len() == 0 {
        let ghost before = args@;
        let word: String = "Empty".to_owned();
        args.push(word);
        assert(texts(args@) =~= start + seq!["Empty"@]);
        return args;
    }
    let mut i: usize = 0;
    assert(start + texts(servers@).take(0) =~= start);
    while i < servers.len()
        invariant
            i <= servers@.len(),
            texts(args@) == start + texts(servers@).take(i as int),
        decreases servers@.len() - i,
    {
        let ghost before = args@;
        let server: String = servers[i].clone();
        args.push(server);
        proof {
            assert(texts(args@) =~= texts(before).push(server@));
            assert(start + texts(servers@).take(i + 1) =~= (start + texts(servers@).take(
                i as int,
            )).push(server@));
        }
        i = i + 1;
    }
    assert(texts(servers@).take(i as int) =~= texts(servers@));
    assert(texts(servers@).len() > 0);
    args
}

/// How a command that failed is reported: what it was to do, and what it said.
pub open spec fn failure_message(action: Seq<char>, said: Seq<char>) -> Seq<char> {
    action + ": "@ + trimmed(said)
}

pub fn failure_text(action: &str, said: &str) -> (message: String)
    ensures
        message@ == failure_message(action@, said@),
{
    let chars: Vec<char> = chars_of(said);
    let kept: &[char] = trim(chars.as_slice());
    let detail: String = text_of(kept, 0, kept.len());
    assert(detail@ =~= kept@);
    join3(action, ": ", detail.as_str())
}

/// The servers in what `networksetup` printed for a service, or how output that
/// is not understood is reported.
pub fn read_dns_servers(service: &str, text: &str) -> (r: Result<Vec<String>, String>)
    ensures
        match dns_servers(text@) {
            Some(servers) => r matches Ok(got) && texts(got@) == servers,
            None => r matches Err(message) && message@ == "unrecognized DNS server output for "@
                + debug_text(service@) + ": "@ + debug_text(text@),
        },
{
    match parse_dns_servers(text) {
        Some(servers) => Ok(servers),
        None => {
            let mut message: String = join3(
                "unrecognized DNS server output for ",
                show_debug(service).as_str(),
                ": ",
            );
            message.append(show_debug(text).as_str());
            Err(message)
        },
    }
}

} // verus!
