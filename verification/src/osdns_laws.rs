//! What is read from the system's tools and what drift is, said of the lines and
//! the lists.

use crate::config::texts;
use crate::ip::{ip_of, ip_text, Ip};
use crate::osdns::{
    addresses_in, addresses_on, all_services, assign_arguments, current_settings, dns_servers,
    drifted, enabled_services, filled_lines, is_known_version, listed, loopbacks, offered_servers,
    on_port_53, service_addresses, settings, state_of, unstarred, usable, FallbackSource, Setting,
    TakeoverState,
};
use crate::scutil::{accepted, global_dns, kinds, line_of, Line};
use crate::takeover::{
    captured_from, existing, has_loopback, is_release_step, is_tick_step, vanished_warnings,
    ReleaseFacts, ReleaseStep, TickFacts, TickOutcome, TickStep,
};
use crate::text::{begins_with, lines_of, split_at_first, trimmed};
use vstd::prelude::*;
use vstd::string::*;

verus! {

// ---------- drift ----------

/// A service has drifted exactly where its server list is anything but the
/// takeover address alone; all such services are named, and no others.
pub proof fn law_only_the_takeover_address_alone_is_intact(
    current: Seq<Setting>,
    server: Seq<char>,
)
    ensures
        forall|i: int|
            0 <= i < current.len() && !((#[trigger] current[i]).1.len() == 1 && current[i].1[0]
                == server) ==> drifted(current, server).contains(current[i].0),
        forall|k: int|
            0 <= k < drifted(current, server).len() ==> exists|i: int|
                0 <= i < current.len() && (#[trigger] current[i]).0 == #[trigger] drifted(
                    current,
                    server,
                )[k] && !(current[i].1.len() == 1 && current[i].1[0] == server),
        drifted(current, server).len() == 0 <==> forall|i: int|
            0 <= i < current.len() ==> (#[trigger] current[i]).1.len() == 1 && current[i].1[0]
                == server,
    decreases current.len(),
{
    if current.len() > 0 {
        let shorter = current.drop_last();
        let last = current.last();
        law_only_the_takeover_address_alone_is_intact(shorter, server);
        let before = drifted(shorter, server);
        let out = drifted(current, server);
        let intact = last.1.len() == 1 && last.1[0] == server;
        assert(intact == (last.1 == seq![server])) by {
            if intact {
                assert(last.1 =~= seq![server]);
            }
        }
        assert(current[current.len() - 1] == last);
        assert(forall|i: int| 0 <= i < shorter.len() ==> #[trigger] current[i] == shorter[i]);
        assert(!intact ==> out == before.push(last.0));
        assert(intact ==> out == before);
        assert forall|i: int|
            0 <= i < current.len() && !((#[trigger] current[i]).1.len() == 1 && current[i].1[0]
                == server) implies out.contains(current[i].0) by {
            if i < shorter.len() {
                assert(before.contains(shorter[i].0));
                let k = choose|k: int| 0 <= k < before.len() && before[k] == shorter[i].0;
                assert(out[k] == current[i].0);
            } else {
                assert(out[out.len() - 1] == last.0);
            }
        }
        assert forall|k: int| 0 <= k < out.len() implies exists|i: int|
            0 <= i < current.len() && (#[trigger] current[i]).0 == #[trigger] out[k] && !(
            current[i].1.len() == 1 && current[i].1[0] == server) by {
            if k < before.len() {
                assert(before[k] == out[k]);
                let i = choose|i: int|
                    0 <= i < shorter.len() && (#[trigger] shorter[i]).0 == before[k] && !(
                    shorter[i].1.len() == 1 && shorter[i].1[0] == server);
                assert(current[i].0 == out[k]);
            } else {
                assert(current[current.len() - 1].0 == out[k]);
            }
        }
        if out.len() == 0 {
            assert(intact);
        }
        if forall|i: int|
            0 <= i < current.len() ==> (#[trigger] current[i]).1.len() == 1 && current[i].1[0]
                == server {
            assert forall|i: int| 0 <= i < shorter.len() implies (#[trigger] shorter[i]).1.len()
                == 1 && shorter[i].1[0] == server by {
                assert(current[i] == shorter[i]);
            }
        }
    }
}

/// A watchdog cycle calls the settings clean only where a takeover is active and
/// every guarded service lists the takeover address and nothing else; and where
/// that is so, it does.
pub proof fn law_clean_means_exact(server: Ip, facts: TickFacts, step: TickStep)
    requires
        is_tick_step(server, facts, step),
    ensures
        (step matches TickStep::Finished(outcome) && outcome is Clean) ==> facts.backup == Some(true)
            && facts.marker == Some(true) && (facts.current matches Some(current) && forall|i: int|
            0 <= i < current@.len() ==> texts((#[trigger] current@[i]).1@).len() == 1 && texts(
                current@[i].1@,
            )[0] == ip_text(server)),
        facts.backup == Some(true) && facts.marker == Some(true) ==> (facts.current matches Some(
            current,
        ) ==> (forall|i: int|
            0 <= i < current@.len() ==> texts((#[trigger] current@[i]).1@).len() == 1 && texts(
                current@[i].1@,
            )[0] == ip_text(server)) ==> (step matches TickStep::Finished(outcome)
            && outcome is Clean)),
        facts.backup == Some(false) && facts.marker is Some || facts.marker == Some(false)
            && facts.backup is Some ==> (step matches TickStep::Finished(outcome)
            && outcome is NotActive),
        !(step matches TickStep::Finished(TickOutcome::Reasserted { .. })),
{
    if let Some(current) = facts.current {
        let all = current_settings(current@);
        law_only_the_takeover_address_alone_is_intact(all, ip_text(server));
        assert(forall|i: int|
            0 <= i < all.len() ==> #[trigger] all[i] == (current@[i].0@, texts(current@[i].1@)));
        if drifted(all, ip_text(server)).len() == 0 {
            assert forall|i: int| 0 <= i < current@.len() implies texts(
                (#[trigger] current@[i]).1@,
            ).len() == 1 && texts(current@[i].1@)[0] == ip_text(server) by {
                assert(all[i].1.len() == 1);
            }
        }
        if forall|i: int|
            0 <= i < current@.len() ==> texts((#[trigger] current@[i]).1@).len() == 1 && texts(
                current@[i].1@,
            )[0] == ip_text(server) {
            assert forall|i: int| 0 <= i < all.len() implies (#[trigger] all[i]).1.len() == 1
                && all[i].1[0] == ip_text(server) by {
                assert(texts(current@[i].1@).len() == 1);
            }
        }
    }
}

/// What a cycle is about to correct is what has drifted, and what it captures are
/// servers on port 53 that do not lead back here.
pub proof fn law_corrections_fit_the_drift(server: Ip, facts: TickFacts, step: TickStep)
    requires
        is_tick_step(server, facts, step),
        step is Correct,
    ensures
        ({
            let work = step->Correct_0@;
            let current = facts.current->0@;
            &&& facts.current is Some
            &&& work.server == ip_text(server)
            &&& work.at == 0
            &&& work.errors.len() == 0
            &&& forall|i: int|
                0 <= i < current.len() && !(texts((#[trigger] current[i]).1@).len() == 1 && texts(
                    current[i].1@,
                )[0] == ip_text(server)) ==> work.services.contains(current[i].0@)
            &&& forall|i: int|
                0 <= i < work.captured.len() ==> (#[trigger] work.captured[i]).port == 53
                    && !work.captured[i].ip.spec_is_loopback() && work.captured[i].ip != server
            &&& facts.effective == Some(None::<Vec<Ip>>) ==> work.captured.len() == 0
        }),
{
    let current = facts.current->0;
    let all = current_settings(current@);
    law_only_the_takeover_address_alone_is_intact(all, ip_text(server));
    assert forall|i: int|
        0 <= i < current@.len() && !(texts((#[trigger] current@[i]).1@).len() == 1 && texts(
            current@[i].1@,
        )[0] == ip_text(server)) implies drifted(all, ip_text(server)).contains(
        current@[i].0@,
    ) by {
        assert(all[i] == (current@[i].0@, texts(current@[i].1@)));
    }
    if let Some(Some(ips)) = facts.effective {
        law_usable_servers(ips@, seq![server], server);
        let kept = usable(ips@, seq![server]);
        let captured = captured_from(facts.effective->0, server);
        assert forall|i: int| 0 <= i < captured.len() implies (#[trigger] captured[i]).port == 53
            && !captured[i].ip.spec_is_loopback() && captured[i].ip != server by {
            assert(captured[i].ip == kept[i]);
            assert(seq![server].contains(server)) by {
                assert(seq![server][0] == server);
            }
        }
    }
}

// ---------- fallback servers ----------

/// A server is kept exactly where it was offered and is no loopback, unspecified,
/// multicast or denied address; none is kept twice, and the order stays.
pub proof fn law_usable_servers(servers: Seq<Ip>, denied: Seq<Ip>, next: Ip)
    ensures
        forall|i: int|
            0 <= i < usable(servers, denied).len() ==> {
                let ip = #[trigger] usable(servers, denied)[i];
                !ip.spec_is_loopback() && !ip.spec_is_unspecified() && !ip.spec_is_multicast()
                    && !denied.contains(ip) && servers.contains(ip)
            },
        forall|ip: Ip| #[trigger]
            servers.contains(ip) && !ip.spec_is_loopback() && !ip.spec_is_unspecified()
                && !ip.spec_is_multicast() && !denied.contains(ip) ==> usable(
                servers,
                denied,
            ).contains(ip),
        usable(servers, denied).no_duplicates(),
        usable(servers.push(next), denied) == usable(servers, denied) || usable(
            servers.push(next),
            denied,
        ) == usable(servers, denied).push(next),
{
    crate::osdns::law_fallback_cannot_recurse(servers, denied);
    assert(servers.push(next).drop_last() =~= servers);
}

/// The servers that are asked directly listen on port 53.
pub proof fn law_fallback_port(ips: Seq<Ip>, i: int)
    requires
        0 <= i < ips.len(),
    ensures
        on_port_53(ips).len() == ips.len(),
        on_port_53(ips)[i].ip == ips[i],
        on_port_53(ips)[i].port == 53,
{
}

/// Loopback resolvers are those that were in effect and are loopback addresses.
pub proof fn law_loopback_resolvers(servers: Seq<Ip>)
    ensures
        forall|ip: Ip| #[trigger]
            loopbacks(servers).contains(ip) == (servers.contains(ip) && ip.spec_is_loopback()),
        loopbacks(servers).no_duplicates(),
    decreases servers.len(),
{
    if servers.len() > 0 {
        let shorter = servers.drop_last();
        let last = servers.last();
        law_loopback_resolvers(shorter);
        let before = loopbacks(shorter);
        let out = loopbacks(servers);
        assert(servers[servers.len() - 1] == last);
        assert forall|ip: Ip| #[trigger] out.contains(ip) == (servers.contains(ip)
            && ip.spec_is_loopback()) by {
            if before.contains(ip) {
                let k = choose|k: int| 0 <= k < before.len() && before[k] == ip;
                assert(out[k] == ip);
            }
            if shorter.contains(ip) {
                let k = choose|k: int| 0 <= k < shorter.len() && shorter[k] == ip;
                assert(servers[k] == ip);
            }
            if servers.contains(ip) && ip != last {
                let k = choose|k: int| 0 <= k < servers.len() && servers[k] == ip;
                assert(shorter[k] == ip);
            }
            if out.contains(ip) {
                let k = choose|k: int| 0 <= k < out.len() && out[k] == ip;
                if k < before.len() {
                    assert(before[k] == ip);
                }
            }
            if ip == last && ip.spec_is_loopback() && !before.contains(ip) {
                assert(out[out.len() - 1] == ip);
            }
        }
    } else {
        assert forall|ip: Ip| #[trigger] loopbacks(servers).contains(ip) == (servers.contains(ip)
            && ip.spec_is_loopback()) by {}
    }
}

/// The addresses among several texts are those that are addresses, in order.
pub proof fn law_addresses_among_texts(list: Seq<Seq<char>>, text: Seq<char>)
    ensures
        addresses_in(Seq::empty()) == Seq::<Ip>::empty(),
        ip_of(text) is None ==> addresses_in(list.push(text)) == addresses_in(list),
        ip_of(text) matches Some(ip) ==> addresses_in(list.push(text)) == addresses_in(list).push(
            ip,
        ),
{
    assert(list.push(text).drop_last() =~= list);
}

/// Whether a text is a loopback address.
#[verifier::opaque]
pub open spec fn names_loopback(text: Seq<char>) -> bool {
    ip_of(text) matches Some(ip) && ip.spec_is_loopback()
}

/// The addresses among the texts with one more text.
proof fn lemma_one_more_address(list: Seq<Seq<char>>)
    requires
        list.len() > 0,
    ensures
        names_loopback(list.last()) ==> addresses_in(list).len() > 0
            && addresses_in(list).last().spec_is_loopback(),
        addresses_in(list) == addresses_in(list.drop_last()) || addresses_in(list) == addresses_in(
            list.drop_last(),
        ).push(addresses_in(list).last()),
        addresses_in(list) != addresses_in(list.drop_last()) && addresses_in(
            list,
        ).last().spec_is_loopback() ==> names_loopback(list.last()),
{
    reveal(names_loopback);
}

/// A service resolves through a loopback address exactly where one of its servers
/// is one.
pub proof fn law_loopback_servers(list: Seq<Seq<char>>)
    ensures
        has_loopback(list) == exists|i: int|
            0 <= i < list.len() && names_loopback(#[trigger] list[i]),
    decreases list.len(),
{
    if list.len() > 0 {
        let shorter = list.drop_last();
        law_loopback_servers(shorter);
        lemma_one_more_address(list);
        let before = addresses_in(shorter);
        let out = addresses_in(list);
        if has_loopback(list) {
            let k = choose|k: int| 0 <= k < out.len() && (#[trigger] out[k]).spec_is_loopback();
            if k < before.len() {
                assert(before[k] == out[k]);
                assert(has_loopback(shorter));
                let i = choose|i: int|
                    0 <= i < shorter.len() && names_loopback(#[trigger] shorter[i]);
                assert(list[i] == shorter[i]);
            } else {
                assert(list[list.len() - 1] == list.last());
            }
        }
        if exists|i: int| 0 <= i < list.len() && names_loopback(#[trigger] list[i]) {
            let i = choose|i: int| 0 <= i < list.len() && names_loopback(#[trigger] list[i]);
            if i < shorter.len() {
                assert(shorter[i] == list[i]);
                assert(has_loopback(shorter));
                let k = choose|k: int|
                    0 <= k < before.len() && (#[trigger] before[k]).spec_is_loopback();
                assert(out[k] == before[k]);
            } else {
                assert(out[out.len() - 1].spec_is_loopback());
            }
        }
    }
}

/// What a backup offers as fallback: the servers that it recorded for that, and
/// only where it recorded none, those of its services.
pub proof fn law_backups_offer_what_they_recorded(source: FallbackSource)
    ensures
        source matches FallbackSource::Effective(ips) ==> offered_servers(source) == ips@,
        source matches FallbackSource::Backup(backup) ==> {
            &&& addresses_in(texts(backup.fallback_servers@)).len() > 0 ==> offered_servers(source)
                == addresses_in(texts(backup.fallback_servers@))
            &&& addresses_in(texts(backup.fallback_servers@)).len() == 0 ==> forall|i: int, k: int|
                0 <= i < backup.services@.len() && 0 <= k < addresses_in(
                    (#[trigger] settings(backup.services@)[i]).1,
                ).len() ==> offered_servers(source).contains(
                    #[trigger] addresses_in(settings(backup.services@)[i].1)[k],
                )
        },
{
    if let FallbackSource::Backup(backup) = source {
        lemma_service_addresses(settings(backup.services@));
    }
}

proof fn lemma_service_addresses(list: Seq<Setting>)
    ensures
        forall|i: int, k: int|
            0 <= i < list.len() && 0 <= k < addresses_in((#[trigger] list[i]).1).len()
                ==> service_addresses(list).contains(#[trigger] addresses_in(list[i].1)[k]),
    decreases list.len(),
{
    if list.len() > 0 {
        let shorter = list.drop_last();
        lemma_service_addresses(shorter);
        let before = service_addresses(shorter);
        let out = service_addresses(list);
        assert forall|i: int, k: int|
            0 <= i < list.len() && 0 <= k < addresses_in((#[trigger] list[i]).1).len() implies
            out.contains(#[trigger] addresses_in(list[i].1)[k]) by {
            let ip = addresses_in(list[i].1)[k];
            if i < shorter.len() {
                assert(shorter[i] == list[i]);
                assert(before.contains(addresses_in(shorter[i].1)[k]));
                let j = choose|j: int| 0 <= j < before.len() && before[j] == ip;
                assert(out[j] == ip);
            } else {
                assert(out[before.len() + k] == ip);
            }
        }
    }
}

/// Backups of the versions 1 and 2 are understood, and no others.
pub proof fn law_backup_versions(version: u8)
    ensures
        is_known_version(1),
        is_known_version(2),
        is_known_version(version) ==> 1 <= version <= 2,
{
}

// ---------- what networksetup prints ----------

/// A line of the list of services counts where it is not the first and not blank.
pub proof fn law_listed_lines(lines: Seq<Seq<char>>)
    ensures
        forall|i: int|
            1 <= i < lines.len() && trimmed(#[trigger] lines[i]).len() > 0 ==> listed(
                lines,
            ).contains(trimmed(lines[i])),
        forall|k: int|
            0 <= k < listed(lines).len() ==> exists|i: int|
                1 <= i < lines.len() && trimmed(#[trigger] lines[i]) == #[trigger] listed(lines)[k]
                    && trimmed(lines[i]).len() > 0,
    decreases lines.len(),
{
    if lines.len() > 1 {
        let shorter = lines.drop_last();
        law_listed_lines(shorter);
        let before = listed(shorter);
        let out = listed(lines);
        assert(forall|i: int| 0 <= i < shorter.len() ==> #[trigger] lines[i] == shorter[i]);
        assert(lines[lines.len() - 1] == lines.last());
        assert forall|i: int| 1 <= i < lines.len() && trimmed(#[trigger] lines[i]).len() > 0 implies
            out.contains(trimmed(lines[i])) by {
            if i < shorter.len() {
                assert(before.contains(trimmed(shorter[i])));
                let k = choose|k: int| 0 <= k < before.len() && before[k] == trimmed(lines[i]);
                assert(out[k] == trimmed(lines[i]));
            } else {
                assert(out[out.len() - 1] == trimmed(lines[i]));
            }
        }
        assert forall|k: int| 0 <= k < out.len() implies exists|i: int|
            1 <= i < lines.len() && trimmed(#[trigger] lines[i]) == #[trigger] out[k] && trimmed(
                lines[i],
            ).len() > 0 by {
            if k < before.len() {
                assert(before[k] == out[k]);
                let i = choose|i: int|
                    1 <= i < shorter.len() && trimmed(#[trigger] shorter[i]) == before[k]
                        && trimmed(shorter[i]).len() > 0;
                assert(trimmed(lines[i]) == out[k]);
            } else {
                assert(trimmed(lines[lines.len() - 1]) == out[k]);
            }
        }
    }
}

/// The enabled services are the listed lines without an asterisk before them, as
/// they stand.
pub proof fn law_enabled_services(text: Seq<char>)
    ensures
        forall|i: int|
            0 <= i < listed(lines_of(text)).len() && (#[trigger] listed(lines_of(text))[i])[0]
                != '*' ==> enabled_services(text).contains(listed(lines_of(text))[i]),
        forall|k: int|
            0 <= k < enabled_services(text).len() ==> listed(lines_of(text)).contains(
                #[trigger] enabled_services(text)[k],
            ) && enabled_services(text)[k][0] != '*',
{
    lemma_unstarred(listed(lines_of(text)));
}

proof fn lemma_unstarred(lines: Seq<Seq<char>>)
    ensures
        forall|i: int|
            0 <= i < lines.len() && (#[trigger] lines[i])[0] != '*' ==> unstarred(lines).contains(
                lines[i],
            ),
        forall|k: int|
            0 <= k < unstarred(lines).len() ==> lines.contains(#[trigger] unstarred(lines)[k])
                && unstarred(lines)[k][0] != '*',
    decreases lines.len(),
{
    if lines.len() > 0 {
        let shorter = lines.drop_last();
        lemma_unstarred(shorter);
        let before = unstarred(shorter);
        let out = unstarred(lines);
        assert(lines[lines.len() - 1] == lines.last());
        assert forall|i: int| 0 <= i < lines.len() && (#[trigger] lines[i])[0] != '*' implies
            out.contains(lines[i]) by {
            if i < shorter.len() {
                assert(shorter[i] == lines[i]);
                let k = choose|k: int| 0 <= k < before.len() && before[k] == lines[i];
                assert(out[k] == lines[i]);
            } else {
                assert(out[out.len() - 1] == lines[i]);
            }
        }
        assert forall|k: int| 0 <= k < out.len() implies lines.contains(#[trigger] out[k])
            && out[k][0] != '*' by {
            if k < before.len() {
                assert(before[k] == out[k]);
                let i = choose|i: int| 0 <= i < shorter.len() && shorter[i] == before[k];
                assert(lines[i] == out[k]);
            }
        }
    }
}

/// All services are the listed lines, one each, without an asterisk before them
/// and the white space around it.
pub proof fn law_all_services(text: Seq<char>, i: int)
    requires
        0 <= i < listed(lines_of(text)).len(),
    ensures
        all_services(text).len() == listed(lines_of(text)).len(),
        ({
            let line = listed(lines_of(text))[i];
            &&& line.len() > 0 && line[0] == '*' ==> all_services(text)[i] == trimmed(line.skip(1))
            &&& line.len() > 0 && line[0] != '*' ==> all_services(text)[i] == trimmed(line)
        }),
{
}

/// The servers that are printed for a service: none where the one line says that
/// there are not any; otherwise one per line that is not blank, in canonical form,
/// and nothing at all where a line is no address.
pub proof fn law_printed_servers(text: Seq<char>)
    ensures
        ({
            let lines = filled_lines(lines_of(text));
            let none = lines.len() == 1 && begins_with(
                lines[0],
                "There aren't any DNS Servers set on"@,
            );
            &&& none ==> dns_servers(text) == Some(Seq::<Seq<char>>::empty())
            &&& !none ==> (dns_servers(text) matches Some(list) ==> list.len() == lines.len()
                && forall|i: int|
                0 <= i < lines.len() ==> (ip_of(#[trigger] lines[i]) matches Some(ip) && list[i]
                    == ip_text(ip)))
            &&& !none && (forall|i: int| 0 <= i < lines.len() ==> ip_of(#[trigger] lines[i]) is Some)
                ==> dns_servers(text) is Some
        }),
{
    lemma_addresses_on(filled_lines(lines_of(text)));
}

proof fn lemma_addresses_on(lines: Seq<Seq<char>>)
    ensures
        addresses_on(lines) matches Some(list) ==> list.len() == lines.len() && forall|i: int|
            0 <= i < lines.len() ==> (ip_of(#[trigger] lines[i]) matches Some(ip) && list[i]
                == ip_text(ip)),
        (forall|i: int| 0 <= i < lines.len() ==> ip_of(#[trigger] lines[i]) is Some)
            ==> addresses_on(lines) is Some,
    decreases lines.len(),
{
    if lines.len() > 0 {
        let shorter = lines.drop_last();
        lemma_addresses_on(shorter);
        assert(lines[lines.len() - 1] == lines.last());
        if forall|i: int| 0 <= i < lines.len() ==> ip_of(#[trigger] lines[i]) is Some {
            assert forall|i: int| 0 <= i < shorter.len() implies ip_of(#[trigger] shorter[i])
                is Some by {
                assert(shorter[i] == lines[i]);
            }
        }
        if let Some(list) = addresses_on(lines) {
            let before = addresses_on(shorter)->0;
            assert forall|i: int| 0 <= i < lines.len() implies (ip_of(#[trigger] lines[i]) matches
                Some(ip) && list[i] == ip_text(ip)) by {
                if i < shorter.len() {
                    assert(shorter[i] == lines[i]);
                    assert(list[i] == before[i]);
                }
            }
        }
    }
}

/// The lines that are not blank, trimmed, one after the other.
pub proof fn law_filled_lines(lines: Seq<Seq<char>>, line: Seq<char>)
    ensures
        filled_lines(Seq::empty()) == Seq::<Seq<char>>::empty(),
        trimmed(line).len() == 0 ==> filled_lines(lines.push(line)) == filled_lines(lines),
        trimmed(line).len() > 0 ==> filled_lines(lines.push(line)) == filled_lines(lines).push(
            trimmed(line),
        ),
{
    assert(lines.push(line).drop_last() =~= lines);
}

/// A service is set with its name and then its servers, or the word `Empty`.
pub proof fn law_assignments(service: Seq<char>, servers: Seq<Seq<char>>)
    ensures
        ({
            let args = assign_arguments(service, servers);
            &&& args[0] == "-setdnsservers"@
            &&& args[1] == service
            &&& servers.len() > 0 ==> args.skip(2) == servers
            &&& servers.len() == 0 ==> args.skip(2) == seq!["Empty"@]
        }),
{
    let args = assign_arguments(service, servers);
    if servers.len() > 0 {
        assert(args.skip(2) =~= servers);
    } else {
        assert(args.skip(2) =~= seq!["Empty"@]);
    }
}

/// The four states that a backup and a marker tell apart.
pub proof fn law_takeover_states(backup: bool, marker: bool)
    ensures
        state_of(backup, marker) == TakeoverState::Active <==> backup && marker,
        state_of(backup, marker) == TakeoverState::Indeterminate <==> backup && !marker,
        state_of(backup, marker) == TakeoverState::Corrupted <==> !backup && marker,
        state_of(backup, marker) == TakeoverState::NotTakenOver <==> !backup && !marker,
{
}

// ---------- what scutil prints ----------

/// What the lines of `scutil --dns` are, by how they begin.
pub proof fn law_scutil_lines(line: Seq<char>, rest: Seq<char>)
    ensures
        line_of(line) is Global <==> line == "DNS configuration"@,
        line_of("DNS configuration ("@ + rest) is Scoped,
        line_of("resolver #"@ + rest) is Resolver,
        line_of("domain"@ + rest) is Domain,
        line_of(line) is Scoped ==> begins_with(line, "DNS configuration ("@),
        line_of(line) is Resolver ==> begins_with(line, "resolver #"@),
        line_of(line) is Domain ==> begins_with(line, "domain"@),
        line_of(line) matches Line::Server(ip) ==> begins_with(line, "nameserver["@) && (
        split_at_first(line, ':') matches Some((_, value)) && ip_of(trimmed(value)) == Some(ip)
            && !trimmed(value).contains('%')),
        ({
            let server = "nameserver["@ + rest;
            split_at_first(server, ':') matches Some((_, value)) ==> !trimmed(value).contains('%')
                ==> (ip_of(trimmed(value)) matches Some(ip) ==> line_of(server) == Line::Server(ip))
        }),
{
    reveal_strlit("DNS configuration");
    reveal_strlit("DNS configuration (");
    reveal_strlit("resolver #");
    reveal_strlit("domain");
    reveal_strlit("nameserver[");
    let a = "DNS configuration ("@ + rest;
    let b = "resolver #"@ + rest;
    let c = "domain"@ + rest;
    let d = "nameserver["@ + rest;
    crate::text_laws::law_prefixes(a, "DNS configuration ("@, rest);
    crate::text_laws::law_prefixes(b, "resolver #"@, rest);
    crate::text_laws::law_prefixes(c, "domain"@, rest);
    crate::text_laws::law_prefixes(d, "nameserver["@, rest);
    assert(a.len() >= 19 && "DNS configuration"@.len() == 17);
    assert(b[0] == 'r' && c[0] == 'd' && d[0] == 'n' && "DNS configuration"@[0] == 'D');
    assert(b != "DNS configuration"@ && c != "DNS configuration"@ && d != "DNS configuration"@);
    assert("DNS configuration ("@[0] == 'D' && "resolver #"@[0] == 'r' && "domain"@[0] == 'd');
    lemma_first_character(b, "DNS configuration ("@);
    lemma_first_character(c, "DNS configuration ("@);
    lemma_first_character(d, "DNS configuration ("@);
    lemma_first_character(c, "resolver #"@);
    lemma_first_character(d, "resolver #"@);
    lemma_first_character(d, "domain"@);
    if let Some((_, value)) = split_at_first(line, ':') {
        crate::text::lemma_index_from(trimmed(value), '%', 0);
    }
    if let Some((_, value)) = split_at_first(d, ':') {
        let v = trimmed(value);
        crate::text::lemma_index_from(v, '%', 0);
        if let Some(i) = crate::text::index_of(v, '%') {
            assert(v.contains(v[i]));
        }
    }
}

proof fn lemma_first_character(s: Seq<char>, prefix: Seq<char>)
    requires
        prefix.len() > 0,
    ensures
        begins_with(s, prefix) ==> s[0] == prefix[0],
{
    if begins_with(s, prefix) {
        assert(s.take(prefix.len() as int)[0] == s[0]);
    }
}

// ---------- giving back ----------

/// The services that are given their settings back are those of the backup that
/// still exist, in order; about every other one something is said.
pub proof fn law_existing_services(
    services: Seq<Setting>,
    service: Setting,
    current: Seq<Seq<char>>,
)
    ensures
        current.contains(service.0) ==> existing(services.push(service), current) == existing(
            services,
            current,
        ).push(service) && vanished_warnings(services.push(service), current) == vanished_warnings(
            services,
            current,
        ),
        !current.contains(service.0) ==> existing(services.push(service), current) == existing(
            services,
            current,
        ) && vanished_warnings(services.push(service), current).len() == vanished_warnings(
            services,
            current,
        ).len() + 1,
        existing(Seq::empty(), current) == Seq::<Setting>::empty(),
{
    assert(services.push(service).drop_last() =~= services);
}

/// `release` ends well only where there was nothing to give back, or where it was
/// given back; a failure on the way is reported.
pub proof fn law_release_gives_back(facts: ReleaseFacts, step: ReleaseStep)
    requires
        is_release_step(facts, step),
    ensures
        facts.backup == Some(true) && (step matches ReleaseStep::Finished(Ok(_)))
            ==> facts.unmarked matches Some(Ok(_)),
        facts.backup == Some(true) && (step matches ReleaseStep::Finished(Ok(_)))
            ==> facts.restored matches Some(Ok(_)),
        facts.backup == Some(false) && facts.marker == Some(false) ==> step
            == ReleaseStep::Finished(Ok(false)),
        facts.backup == Some(false) && (step matches ReleaseStep::Finished(Ok(done))) ==> step
            == ReleaseStep::Finished(Ok(false)),
        facts.backup == Some(true) && facts.unmarked is None ==> step is RemoveMarker,
{
}

// ---------- order ----------

/// What is found comes in the order in which it stands: services that have
/// drifted, enabled services, listed lines, and loopback resolvers, of which
/// each is named once.
pub proof fn law_findings_keep_their_order(
    current: Seq<Setting>,
    service: Setting,
    server: Seq<char>,
    lines: Seq<Seq<char>>,
    line: Seq<char>,
    ips: Seq<Ip>,
    ip: Ip,
)
    ensures
        drifted(Seq::empty(), server) == Seq::<Seq<char>>::empty(),
        service.1.len() == 1 && service.1[0] == server ==> drifted(current.push(service), server)
            == drifted(current, server),
        !(service.1.len() == 1 && service.1[0] == server) ==> drifted(current.push(service), server)
            == drifted(current, server).push(service.0),
        lines.len() > 0 && trimmed(line).len() > 0 ==> listed(lines.push(line)) == listed(
            lines,
        ).push(trimmed(line)),
        lines.len() > 0 && trimmed(line).len() == 0 ==> listed(lines.push(line)) == listed(lines),
        line.len() > 0 && line[0] == '*' ==> unstarred(lines.push(line)) == unstarred(lines),
        line.len() > 0 && line[0] != '*' ==> unstarred(lines.push(line)) == unstarred(lines).push(
            line,
        ),
        ip.spec_is_loopback() && !ips.contains(ip) ==> loopbacks(ips.push(ip)) == loopbacks(
            ips,
        ).push(ip),
        !ip.spec_is_loopback() || ips.contains(ip) ==> loopbacks(ips.push(ip)) == loopbacks(ips),
{
    assert(current.push(service).drop_last() =~= current);
    assert(lines.push(line).drop_last() =~= lines);
    assert(ips.push(ip).drop_last() =~= ips);
    law_loopback_resolvers(ips);
    if service.1.len() == 1 && service.1[0] == server {
        assert(service.1 =~= seq![server]);
    }
    if service.1 == seq![server] {
        assert(seq![server].len() == 1 && seq![server][0] == server);
    }
}

/// The lines of `scutil --dns` are taken one by one, without the white space
/// around them, down to the last.
pub proof fn law_scutil_output(text: Seq<char>, i: int)
    requires
        0 <= i < lines_of(text).len(),
    ensures
        kinds(text).len() == lines_of(text).len(),
        kinds(text)[i] == line_of(trimmed(lines_of(text)[i])),
        global_dns(text) == accepted(kinds(text), lines_of(text).len() as int),
{
}

} // verus!
