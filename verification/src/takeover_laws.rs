//! Which changes a takeover, a restoration and a reassertion make, one after the
//! other, whatever becomes of them.

use crate::config::texts;
use crate::ip::{ip_text, Endpoint, Ip};
use crate::osdns::{
    addresses_in, endpoint_ips, failure_message, loopbacks, service_addresses, usable,
    version_error, Setting,
};
use crate::osdns_laws::law_loopback_resolvers;
use crate::scutil::{accepted, is_accepted, Line};
use crate::takeover::{
    already_listed, captured_from, consistent, has_loopback, is_loopback_step, is_release_step,
    joined_by, loopback_among, recorded, vanished_warnings, ChangeView, EndingView, LoopbackFacts,
    LoopbackStep, PhaseView, ReassertionView, ReleaseFacts, ReleaseStep, RestorationView,
    TakeoverView,
};
use crate::text::{debug_text, decimal, trimmed};
use vstd::prelude::*;
use vstd::string::*;

verus! {

/// What became of a change.
pub type Report = Result<(), Seq<char>>;

/// Whether all changes succeeded.
pub open spec fn all_well(results: Seq<Report>) -> bool {
    forall|i: int| 0 <= i < results.len() ==> #[trigger] results[i] is Ok
}

/// What the changes that failed said, in order.
pub open spec fn complaints(results: Seq<Report>) -> Seq<Seq<char>>
    decreases results.len(),
{
    if results.len() == 0 {
        Seq::empty()
    } else {
        match results.last() {
            Ok(_) => complaints(results.drop_last()),
            Err(message) => complaints(results.drop_last()).push(message),
        }
    }
}

proof fn lemma_complaints(results: Seq<Report>)
    ensures
        complaints(results).len() == 0 <==> all_well(results),
    decreases results.len(),
{
    if results.len() > 0 {
        let shorter = results.drop_last();
        lemma_complaints(shorter);
        assert(results[results.len() - 1] == results.last());
        if all_well(results) {
            assert forall|i: int| 0 <= i < shorter.len() implies #[trigger] shorter[i] is Ok by {
                assert(shorter[i] == results[i]);
            }
        }
        if all_well(shorter) && results.last() is Ok {
            assert forall|i: int| 0 <= i < results.len() implies #[trigger] results[i] is Ok by {
                if i < shorter.len() {
                    assert(shorter[i] == results[i]);
                }
            }
        }
    }
}

/// All changes succeeded where all but the last did, and the last.
proof fn lemma_all_well(results: Seq<Report>)
    requires
        results.len() > 0,
    ensures
        all_well(results) <==> all_well(results.drop_last()) && results.last() is Ok,
{
    lemma_complaints(results);
    lemma_complaints(results.drop_last());
}

// ---------- taking over ----------

/// A takeover after some of its changes.
pub open spec fn taken_on(t: TakeoverView, results: Seq<Report>) -> TakeoverView
    decreases results.len(),
{
    if results.len() == 0 {
        t
    } else {
        let before = taken_on(t, results.drop_last());
        TakeoverView { phase: before.after(results.last()), ..before }
    }
}

proof fn lemma_takeover_goes_well(t: TakeoverView, results: Seq<Report>)
    requires
        t.services.len() > 0,
        t.phase == (PhaseView::Apply { at: 0 }),
        all_well(results),
    ensures
        ({
            let n = t.services.len();
            let k = results.len();
            let now = taken_on(t, results);
            &&& now.services == t.services
            &&& now.server == t.server
            &&& now.phase == if k < n {
                PhaseView::Apply { at: k as int }
            } else if k == n {
                PhaseView::Mark
            } else if k == n + 1 {
                PhaseView::Settle
            } else {
                PhaseView::Done { result: Ok(()), undone: None }
            }
        }),
    decreases results.len(),
{
    if results.len() > 0 {
        lemma_all_well(results);
        lemma_takeover_goes_well(t, results.drop_last());
    }
}

/// While nothing fails, a takeover points every service, in order, at the takeover
/// address and nothing else; then it creates the marker, flushes the caches,
/// and is done.
pub proof fn law_takeover_changes_in_order(
    services: Seq<Setting>,
    server: Seq<char>,
    results: Seq<Report>,
)
    requires
        services.len() > 0,
        all_well(results),
    ensures
        ({
            let start = TakeoverView { services, server, phase: PhaseView::Apply { at: 0 } };
            let n = services.len();
            let k = results.len();
            let change = taken_on(start, results).next();
            &&& k < n ==> (change matches ChangeView::Assign { service, servers } && service
                == services[k as int].0 && servers.len() == 1 && servers[0] == server)
            &&& k == n ==> change is CreateMarker
            &&& k == n + 1 ==> change is FlushCaches
            &&& k >= n + 2 ==> change == ChangeView::Finished(Ok(()))
        }),
{
    let start = TakeoverView { services, server, phase: PhaseView::Apply { at: 0 } };
    lemma_takeover_goes_well(start, results);
}

proof fn lemma_recorded_is_found(services: Seq<Setting>, i: int)
    requires
        consistent(services),
        0 <= i < services.len(),
    ensures
        recorded(services, services[i].0) == services[i].1,
    decreases services.len(),
{
    if services[0].0 != services[i].0 {
        let rest = services.drop_first();
        assert forall|a: int, b: int|
            0 <= a < b < rest.len() && (#[trigger] rest[a]).0 == (#[trigger] rest[b]).0 implies
            rest[a].1 == rest[b].1 by {
            assert(rest[a] == services[a + 1] && rest[b] == services[b + 1]);
        }
        lemma_recorded_is_found(rest, i - 1);
        assert(rest[i - 1] == services[i]);
    } else if i > 0 {
        assert(services[0].1 == services[i].1);
    }
}

proof fn lemma_undoing(t: TakeoverView, results: Seq<Report>)
    requires
        t.phase is Undo,
        0 <= t.phase->Undo_at <= t.services.len(),
        t.phase->Undo_clean,
        results.len() <= t.phase->Undo_at,
    ensures
        taken_on(t, results) == (TakeoverView {
            phase: PhaseView::Undo {
                at: t.phase->Undo_at - results.len(),
                clean: all_well(results),
                error: t.phase->Undo_error,
            },
            ..t
        }),
    decreases results.len(),
{
    if results.len() > 0 {
        lemma_all_well(results);
        lemma_undoing(t, results.drop_last());
    } else {
        assert(all_well(results));
    }
}

/// After a failure the services that were changed get the servers back that they
/// had, the last one first, whether or not that works; then the caches are
/// flushed. Where all of it worked the backup goes too; the error that
/// started it is reported either way.
pub proof fn law_rollback_goes_in_reverse(
    services: Seq<Setting>,
    server: Seq<char>,
    done: Seq<Report>,
    error: Seq<char>,
    undone: Seq<Report>,
    rest: Seq<Report>,
)
    requires
        services.len() > 0,
        consistent(services),
        all_well(done),
        done.len() <= services.len(),
        undone.len() <= done.len(),
        rest.len() == 2,
    ensures
        ({
            let start = TakeoverView { services, server, phase: PhaseView::Apply { at: 0 } };
            let failed = taken_on(start, done.push(Err(error)));
            let now = taken_on(failed, undone);
            let left = done.len() - undone.len();
            let flushed = TakeoverView { phase: now.after(rest[0]), ..now };
            let removed = TakeoverView { phase: flushed.after(rest[1]), ..flushed };
            &&& left > 0 ==> now.next() == (ChangeView::Assign {
                service: services[left - 1].0,
                servers: services[left - 1].1,
            })
            &&& left == 0 ==> now.next() is FlushCaches
            &&& left == 0 && all_well(undone) ==> flushed.next() is RemoveBackup && removed.next()
                == ChangeView::Finished(
                Err(error + "; DNS takeover rollback "@ + "completed"@),
            )
            &&& left == 0 && !all_well(undone) ==> flushed.next() == ChangeView::Finished(
                Err(error + "; DNS takeover rollback "@ + "was incomplete"@),
            ) && removed.next() == flushed.next()
        }),
{
    let start = TakeoverView { services, server, phase: PhaseView::Apply { at: 0 } };
    lemma_takeover_goes_well(start, done);
    let results = done.push(Err(error));
    assert(results.drop_last() =~= done);
    let failed = taken_on(start, results);
    assert(failed.phase == (PhaseView::Undo { at: done.len() as int, clean: true, error }));
    lemma_undoing(failed, undone);
    let left = done.len() - undone.len();
    if left > 0 {
        lemma_recorded_is_found(services, left - 1);
    }
}

// ---------- giving back ----------

/// Texts are joined in order, with the separator between two of them.
pub proof fn law_joined_texts(list: Seq<Seq<char>>, text: Seq<char>, separator: Seq<char>)
    ensures
        joined_by(Seq::empty(), separator) == Seq::<char>::empty(),
        list.len() == 0 ==> joined_by(list.push(text), separator) == text,
        list.len() > 0 ==> joined_by(list.push(text), separator) == joined_by(list, separator)
            + separator + text,
{
    assert(list.push(text).drop_last() =~= list);
}

/// A restoration after some of its changes.
pub open spec fn restored_on(t: RestorationView, results: Seq<Report>) -> RestorationView
    decreases results.len(),
{
    if results.len() == 0 {
        t
    } else {
        restored_on(t, results.drop_last()).after(results.last())
    }
}

/// A restoration that has not changed anything yet.
pub open spec fn fresh_restoration(services: Seq<Setting>) -> RestorationView {
    RestorationView { services, at: 0, errors: Seq::empty(), end: EndingView::Remove }
}

proof fn lemma_restoring(services: Seq<Setting>, results: Seq<Report>)
    requires
        results.len() <= services.len(),
    ensures
        restored_on(fresh_restoration(services), results) == (RestorationView {
            services,
            at: results.len() as int,
            errors: complaints(results),
            end: EndingView::Remove,
        }),
    decreases results.len(),
{
    if results.len() > 0 {
        lemma_restoring(services, results.drop_last());
    }
}

/// A restoration gives every service, in order, its servers back, whatever became
/// of the others. Where one failed it reports all complaints and keeps the
/// backup; otherwise it removes the backup and flushes the caches.
pub proof fn law_restoration_tries_every_service(
    services: Seq<Setting>,
    results: Seq<Report>,
    removal: Report,
    flush: Report,
)
    requires
        results.len() <= services.len(),
    ensures
        ({
            let now = restored_on(fresh_restoration(services), results);
            let k = results.len();
            let removed = now.after(removal);
            let flushed = removed.after(flush);
            &&& k < services.len() ==> now.next() == (ChangeView::Assign {
                service: services[k as int].0,
                servers: services[k as int].1,
            })
            &&& k == services.len() && !all_well(results) ==> now.next() == ChangeView::Finished(
                Err(
                    "could not restore every network service: "@ + joined_by(
                        complaints(results),
                        "; "@,
                    )
                        + " (backup retained at /Library/Application Support/DNSRivet/dns-backup.toml)"@,
                ),
            ) && removed == now
            &&& k == services.len() && all_well(results) ==> {
                &&& now.next() is RemoveBackup
                &&& removal is Ok ==> removed.next() is FlushCaches && flushed.next()
                    == ChangeView::Finished(Ok(()))
                &&& removal matches Err(message) ==> removed.next() == ChangeView::Finished(
                    Err(message),
                )
            }
        }),
{
    lemma_restoring(services, results);
    lemma_complaints(results);
}

/// What is said about a service that is gone.
pub proof fn law_vanished_services_are_told(
    services: Seq<Setting>,
    service: Setting,
    current: Seq<Seq<char>>,
)
    requires
        !current.contains(service.0),
    ensures
        vanished_warnings(services.push(service), current) == vanished_warnings(
            services,
            current,
        ).push(
            "network service "@ + debug_text(service.0)
                + " no longer exists; skipping its DNS restore"@,
        ),
        vanished_warnings(Seq::empty(), current) == Seq::<Seq<char>>::empty(),
{
    assert(services.push(service).drop_last() =~= services);
}

// ---------- keeping it ----------

/// A reassertion after some of its changes.
pub open spec fn reasserted_on(t: ReassertionView, results: Seq<Report>) -> ReassertionView
    decreases results.len(),
{
    if results.len() == 0 {
        t
    } else {
        reasserted_on(t, results.drop_last()).after(results.last())
    }
}

proof fn lemma_reasserting(t: ReassertionView, results: Seq<Report>)
    requires
        t.at == 0,
        t.errors == Seq::<Seq<char>>::empty(),
        !t.flushed,
        results.len() <= t.services.len(),
    ensures
        reasserted_on(t, results) == (ReassertionView {
            at: results.len() as int,
            errors: complaints(results),
            ..t
        }),
    decreases results.len(),
{
    if results.len() > 0 {
        lemma_reasserting(t, results.drop_last());
    }
}

/// A reassertion points every service that has drifted, in order, at the takeover
/// address and nothing else, whatever became of the others; then it flushes the
/// caches, and reports all complaints.
pub proof fn law_reassertion_tries_every_service(
    t: ReassertionView,
    results: Seq<Report>,
    flush: Report,
)
    requires
        t.at == 0,
        t.errors == Seq::<Seq<char>>::empty(),
        !t.flushed,
        results.len() <= t.services.len(),
    ensures
        ({
            let now = reasserted_on(t, results);
            let k = results.len();
            &&& k < t.services.len() ==> (now.next() matches ChangeView::Assign {
                service,
                servers,
            } && service == t.services[k as int] && servers.len() == 1 && servers[0] == t.server)
            &&& k == t.services.len() ==> now.next() is FlushCaches
            &&& k == t.services.len() && all_well(results) ==> now.after(flush).next()
                == ChangeView::Finished(Ok(()))
            &&& k == t.services.len() && !all_well(results) ==> now.after(flush).next()
                == ChangeView::Finished(
                Err("reassert incomplete: "@ + joined_by(complaints(results), "; "@)),
            )
            &&& now.after(flush).services == t.services && now.after(flush).captured == t.captured
        }),
{
    lemma_reasserting(t, results);
    lemma_complaints(results);
}

/// Every resolver in effect that may serve as a fallback is captured, in order and
/// on port 53.
pub proof fn law_captures_are_complete(ips: Vec<Ip>, server: Ip)
    ensures
        ({
            let captured = captured_from(Some(ips), server);
            let kept = usable(ips@, seq![server]);
            &&& captured.len() == kept.len()
            &&& forall|i: int|
                0 <= i < kept.len() ==> #[trigger] captured[i] == (Endpoint {
                    ip: kept[i],
                    port: 53,
                })
        }),
        captured_from(None, server).len() == 0,
{
}

// ---------- releasing ----------

/// A marker without a backup goes only where nothing resolves through a loopback
/// address; every failure on the way is reported as it is.
pub proof fn law_release_step_by_step(facts: ReleaseFacts, step: ReleaseStep)
    requires
        is_release_step(facts, step),
    ensures
        facts.backup is None ==> step is CheckBackup,
        facts.backup == Some(false) ==> {
            let unbacked = facts.marker == Some(true);
            let clear = unbacked && facts.loopback == Some(Ok::<bool, String>(false));
            &&& facts.marker is None ==> step is CheckMarker
            &&& unbacked && facts.loopback is None ==> step is CheckLoopback
            &&& unbacked ==> (facts.loopback matches Some(Err(e)) ==> (step matches
                ReleaseStep::Finished(Err(m)) && m@ == e@))
            &&& unbacked && facts.loopback == Some(Ok::<bool, String>(true)) ==> (step matches
                ReleaseStep::Finished(Err(m)) && m@
                == "a takeover marker exists without a DNS backup, and the system still resolves through a loopback address; stopping now would cut off DNS. Restore DNS manually first (for each service: sudo networksetup -setdnsservers <service> Empty), then retry"@)
            &&& clear && facts.unmarked is None ==> step is RemoveMarker
            &&& clear ==> (facts.unmarked matches Some(Err(e)) ==> (step matches
                ReleaseStep::Finished(Err(m)) && m@ == e@))
            &&& clear ==> (facts.unmarked matches Some(Ok(_)) ==> step == ReleaseStep::Finished(
                Ok(false),
            ))
        },
        facts.backup == Some(true) ==> {
            let unmarked = facts.unmarked matches Some(Ok(_));
            &&& facts.unmarked matches Some(Err(e)) ==> (step matches ReleaseStep::Finished(Err(m))
                && m@ == e@)
            &&& unmarked && facts.restored is None ==> step is Restore
            &&& unmarked ==> (facts.restored matches Some(Ok(done)) ==> step
                == ReleaseStep::Finished(Ok(done)))
            &&& unmarked ==> (facts.restored matches Some(Err(e)) ==> (step matches
                ReleaseStep::Finished(Err(m)) && m@ == e@))
        },
{
}

/// The search for a loopback resolver looks at the resolvers in effect first, and
/// then at the services, in order, until one decides.
pub proof fn law_loopback_search(facts: LoopbackFacts, step: LoopbackStep)
    requires
        is_loopback_step(facts, step),
    ensures
        facts.effective is None ==> step is ReadEffective,
        facts.effective matches Some(Err(e)) ==> (step matches LoopbackStep::Finished(Err(m)) && m@
            == e@),
        facts.effective matches Some(Ok(ips)) ==> {
            let found = exists|i: int|
                0 <= i < ips@.len() && (#[trigger] ips@[i]).spec_is_loopback();
            &&& found ==> step == LoopbackStep::Finished(Ok(true))
            &&& !found && facts.services is None ==> step is ListServices
            &&& !found ==> (facts.services matches Some(Err(e)) ==> (step matches
                LoopbackStep::Finished(Err(m)) && m@ == e@))
            &&& !found ==> (facts.services matches Some(Ok(names)) ==> loopback_among(
                facts.servers@,
                0,
            ) is None ==> {
                let k = facts.servers@.len();
                &&& k < names@.len() ==> (step matches LoopbackStep::ReadService(name) && name@
                    == names@[k as int]@)
                &&& k >= names@.len() ==> step == LoopbackStep::Finished(Ok(false))
            })
        },
{
    if let Some(Ok(ips)) = facts.effective {
        let found = loopbacks(ips@);
        law_loopback_resolvers(ips@);
        if found.len() > 0 {
            assert(found.contains(found[0]));
            assert(ips@.contains(found[0]));
            let i = choose|i: int| 0 <= i < ips@.len() && ips@[i] == found[0];
            assert(ips@[i].spec_is_loopback());
        }
        if exists|i: int| 0 <= i < ips@.len() && (#[trigger] ips@[i]).spec_is_loopback() {
            let i = choose|i: int| 0 <= i < ips@.len() && (#[trigger] ips@[i]).spec_is_loopback();
            assert(ips@.contains(ips@[i]));
            assert(found.contains(ips@[i]));
        }
    }
}

/// The services decide in order: one that could not be read, or that lists a
/// loopback address, decides, and one that lists none leaves it to the next.
pub proof fn law_services_decide_in_order(
    servers: Seq<Result<Vec<String>, String>>,
    i: int,
    k: int,
)
    requires
        0 <= i <= k <= servers.len(),
        forall|j: int|
            i <= j < k ==> (#[trigger] servers[j] matches Ok(list) && !has_loopback(texts(list@))),
    ensures
        k == servers.len() ==> loopback_among(servers, i) is None,
        k < servers.len() ==> (servers[k] matches Err(message) ==> loopback_among(servers, i) == Some(
            Err::<bool, Seq<char>>(message@),
        )),
        k < servers.len() ==> (servers[k] matches Ok(list) ==> has_loopback(texts(list@))
            ==> loopback_among(servers, i) == Some(Ok::<bool, Seq<char>>(true))),
    decreases k - i,
{
    if i < k {
        assert(servers[i] matches Ok(list) && !has_loopback(texts(list@)));
        law_services_decide_in_order(servers, i + 1, k);
    }
}

// ---------- messages and lists ----------

/// How refusals are worded.
pub proof fn law_refusals(name: Seq<char>, server: Ip, version: u8, action: Seq<char>, said: Seq<char>)
    ensures
        already_listed(name, server) == "network service "@ + debug_text(name)
            + " already lists "@ + ip_text(server)
            + " as a DNS server; refusing to take over. Clear it first (sudo networksetup -setdnsservers "@
            + debug_text(name) + " Empty) or remove the other local DNS tool"@,
        version_error(version) == "unsupported DNS backup version "@ + decimal(version as nat),
        failure_message(action, said) == action + ": "@ + trimmed(said),
{
}

/// The addresses of all services are those of each, one service after the other;
/// those of listeners are theirs, one each.
pub proof fn law_addresses_of_services(
    list: Seq<Setting>,
    service: Setting,
    listeners: Seq<Endpoint>,
    i: int,
)
    requires
        0 <= i < listeners.len(),
    ensures
        service_addresses(Seq::empty()) == Seq::<Ip>::empty(),
        service_addresses(list.push(service)) == service_addresses(list) + addresses_in(service.1),
        endpoint_ips(listeners).len() == listeners.len(),
        endpoint_ips(listeners)[i] == listeners[i].ip,
{
    assert(list.push(service).drop_last() =~= list);
}

// ---------- what scutil prints ----------

/// Whether the line `i` is a server in the global section, in a resolver block
/// that names no domain.
pub open spec fn is_global_server(lines: Seq<Line>, i: int) -> bool {
    &&& lines[i] is Server
    &&& exists|t: int|
        0 <= t < i && (#[trigger] lines[t]) is Global && forall|k: int|
            t < k < i ==> !((#[trigger] lines[k]) is Global) && !(lines[k] is Scoped)
    &&& forall|j: int|
        0 <= j < lines.len() && (#[trigger] lines[j]) is Domain ==> exists|k: int|
            (i < k <= j || j < k <= i) && ((#[trigger] lines[k]) is Global || lines[k] is Scoped
                || lines[k] is Resolver)
}

/// The global resolvers are the servers of the global section in blocks that name
/// no domain, in the order of their lines.
pub proof fn law_global_resolvers(lines: Seq<Line>, n: int)
    requires
        0 <= n < lines.len(),
    ensures
        accepted(lines, 0) == Seq::<Ip>::empty(),
        is_global_server(lines, n) ==> accepted(lines, n + 1) == accepted(lines, n).push(
            lines[n]->Server_0,
        ),
        !is_global_server(lines, n) ==> accepted(lines, n + 1) == accepted(lines, n),
{
    assert(is_accepted(lines, n) == is_global_server(lines, n));
}

/// The lines of a resolver block that lists these servers.
pub open spec fn server_lines(ips: Seq<Ip>) -> Seq<Line> {
    ips.map_values(|ip: Ip| Line::Server(ip))
}

proof fn lemma_open_block(ips: Seq<Ip>, n: int)
    requires
        0 <= n <= ips.len(),
    ensures
        accepted(seq![Line::Global, Line::Resolver] + server_lines(ips), n + 2) == ips.take(n),
    decreases n,
{
    let lines = seq![Line::Global, Line::Resolver] + server_lines(ips);
    if n == 0 {
        law_global_resolvers(lines, 0);
        law_global_resolvers(lines, 1);
        assert(!(lines[0] is Server) && !(lines[1] is Server));
        assert(ips.take(0) =~= Seq::<Ip>::empty());
    } else {
        lemma_open_block(ips, n - 1);
        law_global_resolvers(lines, n + 1);
        assert(lines[n + 1] == Line::Server(ips[n - 1]));
        assert(lines[0] is Global);
        assert forall|j: int| 0 <= j < lines.len() implies !((#[trigger] lines[j]) is Domain) by {
            if j >= 2 {
                assert(lines[j] == server_lines(ips)[j - 2]);
            }
        }
        assert forall|k: int| 0 < k < n + 1 implies !((#[trigger] lines[k]) is Global) && !(
        lines[k] is Scoped) by {
            if k >= 2 {
                assert(lines[k] == server_lines(ips)[k - 2]);
            }
        }
        assert(is_global_server(lines, n + 1));
        assert(ips.take(n) =~= ips.take(n - 1).push(ips[n - 1]));
    }
}

/// A block in the global section gives its servers, as they stand; one in a
/// scoped section gives none.
pub proof fn law_blocks_give_their_servers(ips: Seq<Ip>)
    ensures
        accepted(
            seq![Line::Global, Line::Resolver] + server_lines(ips),
            ips.len() as int + 2,
        ) == ips,
        accepted(
            seq![Line::Scoped, Line::Resolver] + server_lines(ips),
            ips.len() as int + 2,
        ) == Seq::<Ip>::empty(),
{
    lemma_open_block(ips, ips.len() as int);
    assert(ips.take(ips.len() as int) =~= ips);
    lemma_scoped_block(ips, ips.len() as int + 2);
}

proof fn lemma_scoped_block(ips: Seq<Ip>, n: int)
    requires
        0 <= n <= ips.len() + 2,
    ensures
        accepted(seq![Line::Scoped, Line::Resolver] + server_lines(ips), n) == Seq::<Ip>::empty(),
    decreases n,
{
    let lines = seq![Line::Scoped, Line::Resolver] + server_lines(ips);
    if n > 0 {
        lemma_scoped_block(ips, n - 1);
        law_global_resolvers(lines, n - 1);
        assert forall|t: int| 0 <= t < n - 1 implies !((#[trigger] lines[t]) is Global) by {
            if t >= 2 {
                assert(lines[t] == server_lines(ips)[t - 2]);
            }
        }
        assert(!is_global_server(lines, n - 1));
    }
}

} // verus!
