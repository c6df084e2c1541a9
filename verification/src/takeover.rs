//! Taking the system's DNS over, guarding it, and giving it back: which change
//! comes next, and what a failed change leads to.

use crate::config::{lemma_texts_push, texts};
use crate::ip::{ip_text, show_ip, Endpoint, Ip};
use crate::osdns::{
    addresses_in, check_version, collect_addresses, current_loopback_dns, drifted,
    filter_fallback_servers, is_known_version, loopbacks, on_port_53, settings, usable,
    version_error, with_port_53, Backup, ServiceDns, Setting,
};
use crate::text::{debug_text, join, join3, same_text, show_debug};
use vstd::prelude::*;
use vstd::string::*;

verus! {

// ---------- the snapshot before a takeover ----------

/// What was found out about the system's DNS so far.
pub struct Snapshot {
    /// The address that is to take over.
    pub server: Ip,
    /// Servers that may serve as a fallback, unfiltered.
    pub fallback: Vec<Ip>,
    pub services: Vec<ServiceDns>,
}

/// Why a service that already lists the takeover address stops the takeover.
pub open spec fn already_listed(name: Seq<char>, server: Ip) -> Seq<char> {
    "network service "@ + debug_text(name) + " already lists "@ + ip_text(server)
        + " as a DNS server; refusing to take over. Clear it first (sudo networksetup -setdnsservers "@
        + debug_text(name) + " Empty) or remove the other local DNS tool"@
}

/// A takeover never starts over a backup that is still there: it holds the only
/// record of the settings from before.
pub fn check_no_backup(present: bool) -> (r: Result<(), String>)
    ensures
        if present {
            r matches Err(m) && m@
                == "DNS backup already exists at /Library/Application Support/DNSRivet/dns-backup.toml; run `dnsrivet stop` before starting again"@
        } else {
            r is Ok
        },
{
    if present {
        Err(
            "DNS backup already exists at /Library/Application Support/DNSRivet/dns-backup.toml; run `dnsrivet stop` before starting again".to_owned(),
        )
    } else {
        Ok(())
    }
}

impl Snapshot {
    /// Start with the resolvers that are in effect.
    pub fn begin(server: Ip, effective: Vec<Ip>) -> (s: Self)
        ensures
            s.server == server,
            s.fallback@ == effective@,
            s.services@.len() == 0,
    {
        Snapshot { server, fallback: effective, services: Vec::new() }
    }

    /// Note the servers of one service. One that already lists the takeover
    /// address is refused: recording it would write our own loopback into the
    /// restore backup, and after a later `stop` the system would point at a
    /// proxy that no longer runs.
    pub fn observe(&mut self, name: String, servers: Vec<String>) -> (r: Result<(), String>)
        ensures
            final(self).server == old(self).server,
            if texts(servers@).contains(ip_text(old(self).server)) {
                r matches Err(message) && message@ == already_listed(name@, old(self).server)
            } else {
                &&& r is Ok
                &&& final(self).fallback@ == old(self).fallback@ + addresses_in(texts(servers@))
                &&& settings(final(self).services@) == settings(old(self).services@).push(
                    (name@, texts(servers@)),
                )
            },
    {
        collect_addresses(&servers, &mut self.fallback);
        let own: String = show_ip(self.server);
        let ghost all = texts(servers@);
        let mut i: usize = 0;
        while i < servers.len()
            invariant
                i <= servers@.len(),
                all == texts(servers@),
                own@ == ip_text(self.server),
                self.server == old(self).server,
                self.services@ == old(self).services@,
                self.fallback@ == old(self).fallback@ + addresses_in(texts(servers@)),
                forall|k: int| 0 <= k < i ==> all[k] != own@,
            decreases servers@.len() - i,
        {
            assert(all[i as int] == servers@[i as int]@);
            if same_text(servers[i].as_str(), own.as_str()) {
                assert(all.contains(own@));
                let shown: String = show_debug(name.as_str());
                let mut message: String = join3(
                    "network service ",
                    shown.as_str(),
                    " already lists ",
                );
                message.append(own.as_str());
                message.append(
                    " as a DNS server; refusing to take over. Clear it first (sudo networksetup -setdnsservers ",
                );
                message.append(shown.as_str());
                message.append(" Empty) or remove the other local DNS tool");
                return Err(message);
            }
            i = i + 1;
        }
        assert(!all.contains(own@));
        let service: ServiceDns = ServiceDns { name, servers };
        let ghost before = self.services@;
        self.services.push(service);
        assert(settings(self.services@) =~= settings(before).push(service@));
        Ok(())
    }

    /// The backup to write before the first change.
    pub fn finish(self) -> (r: Result<Backup, String>)
        ensures
            if self.services@.len() == 0 {
                r matches Err(message) && message@
                    == "networksetup returned no enabled network services"@
            } else {
                &&& r matches Ok(backup)
                &&& backup.version == 2
                &&& backup.services@ == self.services@
                &&& texts(backup.fallback_servers@) == usable(
                    self.fallback@,
                    seq![self.server],
                ).map_values(|ip: Ip| ip_text(ip))
            },
    {
        if self.services.len() == 0 {
            return Err("networksetup returned no enabled network services".to_owned());
        }
        let denied: Vec<Ip> = vec![self.server];
        assert(denied@ =~= seq![self.server]);
        let kept: Vec<Ip> = filter_fallback_servers(self.fallback, denied.as_slice());
        let mut shown: Vec<String> = Vec::new();
        let mut i: usize = 0;
        while i < kept.len()
            invariant
                i <= kept@.len(),
                texts(shown@) == kept@.take(i as int).map_values(|ip: Ip| ip_text(ip)),
            decreases kept@.len() - i,
        {
            let text: String = show_ip(kept[i]);
            let ghost before = shown@;
            shown.push(text);
            proof {
                lemma_texts_push(before, text);
                assert(kept@.take(i + 1).map_values(|ip: Ip| ip_text(ip)) =~= kept@.take(
                    i as int,
                ).map_values(|ip: Ip| ip_text(ip)).push(text@));
            }
            i = i + 1;
        }
        assert(kept@.take(i as int) =~= kept@);
        Ok(Backup { version: 2, services: self.services, fallback_servers: shown })
    }
}

// ---------- changes ----------

/// One change to the system, or the end.
pub enum Change {
    /// Set the DNS servers of a service.
    Assign { service: String, servers: Vec<String> },
    CreateMarker,
    RemoveBackup,
    FlushCaches,
    Finished(Result<(), String>),
}

/// `Change` as plain values.
#[verifier::ext_equal]
pub enum ChangeView {
    Assign { service: Seq<char>, servers: Seq<Seq<char>> },
    CreateMarker,
    RemoveBackup,
    FlushCaches,
    Finished(Result<(), Seq<char>>),
}

/// A result with its message as plain values.
pub open spec fn outcome(r: Result<(), String>) -> Result<(), Seq<char>> {
    match r {
        Ok(_) => Ok(()),
        Err(message) => Err(message@),
    }
}

impl View for Change {
    type V = ChangeView;

    open spec fn view(&self) -> ChangeView {
        match *self {
            Change::Assign { service, servers } => ChangeView::Assign {
                service: service@,
                servers: texts(servers@),
            },
            Change::CreateMarker => ChangeView::CreateMarker,
            Change::RemoveBackup => ChangeView::RemoveBackup,
            Change::FlushCaches => ChangeView::FlushCaches,
            Change::Finished(r) => ChangeView::Finished(outcome(r)),
        }
    }
}

/// The DNS servers of every service.
pub type World = Map<Seq<char>, Seq<Seq<char>>>;

/// The settings after a change that succeeded or failed.
pub open spec fn performed(w: World, change: ChangeView, ok: bool) -> World {
    match change {
        ChangeView::Assign { service, servers } => if ok {
            w.insert(service, servers)
        } else {
            w
        },
        _ => w,
    }
}

fn clone_texts(v: &Vec<String>) -> (out: Vec<String>)
    ensures
        texts(out@) == texts(v@),
{
    let mut out: Vec<String> = Vec::new();
    let mut i: usize = 0;
    assert(texts(out@) =~= texts(v@).take(0));
    while i < v.len()
        invariant
            i <= v@.len(),
            texts(out@) == texts(v@).take(i as int),
        decreases v@.len() - i,
    {
        let s: String = v[i].clone();
        let ghost before = out@;
        out.push(s);
        proof {
            lemma_texts_push(before, s);
            assert(texts(v@).take(i + 1) =~= texts(v@).take(i as int).push(s@));
        }
        i = i + 1;
    }
    assert(texts(v@).take(i as int) =~= texts(v@));
    out
}

// ---------- taking over ----------

/// How far a takeover has come.
pub enum Phase {
    /// The services before `at` point at the takeover address.
    Apply { at: usize },
    Mark,
    Settle,
    /// A change failed. The services before `at` are yet to be given back;
    /// `clean` while no attempt to do so has failed.
    Undo { at: usize, clean: bool, error: String },
    Forget { error: String },
    /// `undone` after a rollback: whether it was complete.
    Done { result: Result<(), String>, undone: Option<bool> },
}

/// `Phase` as plain values.
#[verifier::ext_equal]
pub enum PhaseView {
    Apply { at: int },
    Mark,
    Settle,
    Undo { at: int, clean: bool, error: Seq<char> },
    Forget { error: Seq<char> },
    Done { result: Result<(), Seq<char>>, undone: Option<bool> },
}

/// A takeover under way: the backed-up services, the address that takes over,
/// and how far it has come.
pub struct Takeover {
    pub services: Vec<ServiceDns>,
    pub server: String,
    pub phase: Phase,
}

/// `Takeover` as plain values.
#[verifier::ext_equal]
pub struct TakeoverView {
    pub services: Seq<Setting>,
    pub server: Seq<char>,
    pub phase: PhaseView,
}

impl View for Phase {
    type V = PhaseView;

    open spec fn view(&self) -> PhaseView {
        match *self {
            Phase::Apply { at } => PhaseView::Apply { at: at as int },
            Phase::Mark => PhaseView::Mark,
            Phase::Settle => PhaseView::Settle,
            Phase::Undo { at, clean, error } => PhaseView::Undo {
                at: at as int,
                clean,
                error: error@,
            },
            Phase::Forget { error } => PhaseView::Forget { error: error@ },
            Phase::Done { result, undone } => PhaseView::Done { result: outcome(result), undone },
        }
    }
}

impl View for Takeover {
    type V = TakeoverView;

    open spec fn view(&self) -> TakeoverView {
        TakeoverView {
            services: settings(self.services@),
            server: self.server@,
            phase: self.phase@,
        }
    }
}

/// The servers that the first service called `name` had.
pub open spec fn recorded(services: Seq<Setting>, name: Seq<char>) -> Seq<Seq<char>>
    decreases services.len(),
{
    if services.len() == 0 {
        Seq::empty()
    } else if services[0].0 == name {
        services[0].1
    } else {
        recorded(services.drop_first(), name)
    }
}

/// How a takeover that had to be rolled back ends.
pub open spec fn rollback_message(error: Seq<char>, clean: bool) -> Seq<char> {
    error + "; DNS takeover rollback "@ + (if clean {
        "completed"@
    } else {
        "was incomplete"@
    })
}

impl TakeoverView {
    pub open spec fn wf(self) -> bool {
        match self.phase {
            PhaseView::Apply { at } => 0 <= at < self.services.len(),
            PhaseView::Undo { at, .. } => 0 <= at <= self.services.len(),
            _ => true,
        }
    }

    /// The change that comes next. The services are pointed at the takeover
    /// address in order, and the marker is created last. After a failure, that of
    /// the marker too, those already changed are given back in reverse, and the
    /// backup is removed where that worked for all of them.
    pub open spec fn next(self) -> ChangeView {
        match self.phase {
            PhaseView::Apply { at } => ChangeView::Assign {
                service: self.services[at].0,
                servers: seq![self.server],
            },
            PhaseView::Mark => ChangeView::CreateMarker,
            PhaseView::Settle => ChangeView::FlushCaches,
            PhaseView::Undo { at, .. } => if at > 0 {
                ChangeView::Assign {
                    service: self.services[at - 1].0,
                    servers: recorded(self.services, self.services[at - 1].0),
                }
            } else {
                ChangeView::FlushCaches
            },
            PhaseView::Forget { .. } => ChangeView::RemoveBackup,
            PhaseView::Done { result, .. } => ChangeView::Finished(result),
        }
    }

    /// How things stand after the next change succeeded or failed.
    pub open spec fn after(self, result: Result<(), Seq<char>>) -> PhaseView {
        match self.phase {
            PhaseView::Apply { at } => match result {
                Ok(_) => if at + 1 < self.services.len() {
                    PhaseView::Apply { at: at + 1 }
                } else {
                    PhaseView::Mark
                },
                Err(error) => PhaseView::Undo { at, clean: true, error },
            },
            PhaseView::Mark => match result {
                Ok(_) => PhaseView::Settle,
                Err(error) => PhaseView::Undo {
                    at: self.services.len() as int,
                    clean: true,
                    error,
                },
            },
            PhaseView::Settle => PhaseView::Done { result: Ok(()), undone: None },
            PhaseView::Undo { at, clean, error } => if at > 0 {
                PhaseView::Undo { at: at - 1, clean: clean && result is Ok, error }
            } else if clean {
                PhaseView::Forget { error }
            } else {
                PhaseView::Done {
                    result: Err(rollback_message(error, false)),
                    undone: Some(false),
                }
            },
            PhaseView::Forget { error } => PhaseView::Done {
                result: Err(rollback_message(error, true)),
                undone: Some(true),
            },
            PhaseView::Done { .. } => self.phase,
        }
    }
}

fn find_recorded(services: &Vec<ServiceDns>, name: &str) -> (r: Vec<String>)
    ensures
        texts(r@) == recorded(settings(services@), name@),
{
    let ghost all = settings(services@);
    let mut i: usize = 0;
    assert(all.skip(0) =~= all);
    while i < services.len()
        invariant
            i <= services@.len(),
            all == settings(services@),
            recorded(all, name@) == recorded(all.skip(i as int), name@),
        decreases services@.len() - i,
    {
        proof {
            assert(all.skip(i as int)[0] == services@[i as int]@);
            assert(all.skip(i as int).drop_first() =~= all.skip(i + 1));
        }
        if same_text(services[i].name.as_str(), name) {
            return clone_texts(&services[i].servers);
        }
        i = i + 1;
    }
    let none: Vec<String> = Vec::new();
    assert(texts(none@) =~= Seq::<Seq<char>>::empty());
    none
}

impl Takeover {
    /// Start changing the services of a backup that has been written.
    pub fn begin(services: Vec<ServiceDns>, server: Ip) -> (t: Self)
        requires
            services@.len() > 0,
        ensures
            t@ == (TakeoverView {
                services: settings(services@),
                server: ip_text(server),
                phase: PhaseView::Apply { at: 0 },
            }),
            t@.wf(),
    {
        Takeover { services, server: show_ip(server), phase: Phase::Apply { at: 0 } }
    }

    /// The change that comes next.
    pub fn next(&self) -> (change: Change)
        requires
            self@.wf(),
        ensures
            change@ == self@.next(),
    {
        match &self.phase {
            Phase::Apply { at } => {
                let servers: Vec<String> = vec![self.server.clone()];
                assert(texts(servers@) =~= seq![self.server@]);
                Change::Assign { service: self.services[*at].name.clone(), servers }
            },
            Phase::Mark => Change::CreateMarker,
            Phase::Settle => Change::FlushCaches,
            Phase::Undo { at, .. } => if *at > 0 {
                let name: String = self.services[*at - 1].name.clone();
                let servers: Vec<String> = find_recorded(&self.services, name.as_str());
                Change::Assign { service: name, servers }
            } else {
                Change::FlushCaches
            },
            Phase::Forget { .. } => Change::RemoveBackup,
            Phase::Done { result, .. } => Change::Finished(
                match result {
                    Ok(_) => Ok(()),
                    Err(message) => Err(message.clone()),
                },
            ),
        }
    }

    /// Note how the change went that came next.
    pub fn report(self, result: Result<(), String>) -> (t: Self)
        requires
            self@.wf(),
        ensures
            t@ == (TakeoverView { phase: self@.after(outcome(result)), ..self@ }),
            t@.wf(),
    {
        let ok: bool = result.is_ok();
        let count: usize = self.services.len();
        let phase: Phase = match self.phase {
            Phase::Apply { at } => match result {
                Ok(_) => if at + 1 < count {
                    Phase::Apply { at: at + 1 }
                } else {
                    Phase::Mark
                },
                Err(error) => Phase::Undo { at, clean: true, error },
            },
            Phase::Mark => match result {
                Ok(_) => Phase::Settle,
                Err(error) => Phase::Undo { at: count, clean: true, error },
            },
            Phase::Settle => Phase::Done { result: Ok(()), undone: None },
            Phase::Undo { at, clean, error } => if at > 0 {
                Phase::Undo { at: at - 1, clean: clean && ok, error }
            } else if clean {
                Phase::Forget { error }
            } else {
                Phase::Done {
                    result: Err(
                        join3(error.as_str(), "; DNS takeover rollback ", "was incomplete"),
                    ),
                    undone: Some(false),
                }
            },
            Phase::Forget { error } => Phase::Done {
                result: Err(join3(error.as_str(), "; DNS takeover rollback ", "completed")),
                undone: Some(true),
            },
            Phase::Done { result, undone } => Phase::Done { result, undone },
        };
        Takeover { services: self.services, server: self.server, phase }
    }
}

// ---------- what a takeover does to the system ----------

/// Whether services with the same name have the same servers.
pub open spec fn consistent(services: Seq<Setting>) -> bool {
    forall|i: int, j: int|
        0 <= i < j < services.len() && (#[trigger] services[i]).0 == (#[trigger] services[j]).0
            ==> services[i].1 == services[j].1
}

/// Whether one of the first `to` services has this name.
pub open spec fn is_among(services: Seq<Setting>, to: int, name: Seq<char>) -> bool {
    exists|k: int| 0 <= k < to && (#[trigger] services[k]).0 == name
}

/// Whether the first `at` services point exactly at `server` in `w`, and all
/// others have their settings.
pub open spec fn switched(w: World, services: Seq<Setting>, server: Seq<char>, at: int) -> bool {
    forall|i: int|
        0 <= i < services.len() ==> w.contains_key((#[trigger] services[i]).0)
            && w[services[i].0] == if is_among(services, at, services[i].0) {
            seq![server]
        } else {
            services[i].1
        }
}

/// Whether all services have their settings in `w`, except that the first `at`
/// may still point at `server`.
pub open spec fn switched_back(
    w: World,
    services: Seq<Setting>,
    server: Seq<char>,
    at: int,
) -> bool {
    forall|i: int|
        0 <= i < services.len() ==> w.contains_key((#[trigger] services[i]).0) && (
        w[services[i].0] == services[i].1 || is_among(services, at, services[i].0)
            && w[services[i].0] == seq![server])
}

/// Whether `w` has the settings of the services `from..to`.
pub open spec fn untouched(w: World, services: Seq<Setting>, from: int, to: int) -> bool {
    forall|i: int|
        from <= i < to ==> w.contains_key((#[trigger] services[i]).0) && w[services[i].0]
            == services[i].1
}

/// Whether the services `0..to` point exactly at `server` in `w`.
pub open spec fn pointed(w: World, services: Seq<Setting>, server: Seq<char>, to: int) -> bool {
    forall|i: int|
        0 <= i < to ==> w.contains_key((#[trigger] services[i]).0) && w[services[i].0]
            == seq![server]
}

/// Whether `w` and `v` agree on everything but the services.
pub open spec fn same_elsewhere(w: World, v: World, services: Seq<Setting>) -> bool {
    forall|name: Seq<char>|
        (forall|i: int| 0 <= i < services.len() ==> (#[trigger] services[i]).0 != name) ==> (
        #[trigger] w.contains_key(name) == v.contains_key(name)) && w[name] == v[name]
}

/// How a takeover under way and the settings of the system belong together.
pub open spec fn in_step(t: TakeoverView, w: World) -> bool {
    let n = t.services.len() as int;
    match t.phase {
        PhaseView::Apply { at } => switched(w, t.services, t.server, at),
        PhaseView::Mark => pointed(w, t.services, t.server, n),
        PhaseView::Settle => pointed(w, t.services, t.server, n),
        PhaseView::Undo { at, clean, .. } => clean ==> switched_back(
            w,
            t.services,
            t.server,
            at,
        ),
        PhaseView::Forget { .. } => untouched(w, t.services, 0, n),
        PhaseView::Done { result, undone } => match undone {
            None => result is Ok && pointed(w, t.services, t.server, n),
            Some(true) => result is Err && untouched(w, t.services, 0, n),
            Some(false) => result is Err,
        },
    }
}

proof fn lemma_recorded(services: Seq<Setting>, i: int)
    requires
        consistent(services),
        0 <= i < services.len(),
    ensures
        recorded(services, services[i].0) == services[i].1,
    decreases services.len(),
{
    if services[0].0 != services[i].0 {
        let rest = services.drop_first();
        assert forall|a: int, b: int|
            0 <= a < b < rest.len() && (#[trigger] rest[a]).0 == (#[trigger] rest[b]).0 implies
            rest[a].1 == rest[b].1 by {
            assert(rest[a] == services[a + 1] && rest[b] == services[b + 1]);
        }
        lemma_recorded(rest, i - 1);
        assert(rest[i - 1] == services[i]);
    } else if i > 0 {
        assert(services[0].1 == services[i].1);
    }
}

/// A takeover that starts from the settings it recorded stays in step with the
/// system, whichever of its changes fail.
pub proof fn law_takeover_stays_in_step(t: TakeoverView, w: World, result: Result<(), Seq<char>>)
    requires
        t.wf(),
        consistent(t.services),
        in_step(t, w),
    ensures
        in_step(
            TakeoverView { phase: t.after(result), ..t },
            performed(w, t.next(), result is Ok),
        ),
        same_elsewhere(performed(w, t.next(), result is Ok), w, t.services),
{
    let next = performed(w, t.next(), result is Ok);
    let n = t.services.len() as int;
    match t.phase {
        PhaseView::Apply { at } => {
            if result is Ok {
                assert(switched(next, t.services, t.server, at + 1)) by {
                    assert forall|i: int| 0 <= i < n implies is_among(
                        t.services,
                        at + 1,
                        (#[trigger] t.services[i]).0,
                    ) == (is_among(t.services, at, t.services[i].0) || t.services[i].0
                        == t.services[at].0) by {
                        lemma_one_more_among(t.services, at, t.services[i].0);
                    }
                }
                if at + 1 == n {
                    lemma_all_among(t.services);
                }
            }
        },
        PhaseView::Mark => {
            lemma_all_among(t.services);
        },
        PhaseView::Undo { at, clean, .. } => {
            if at > 0 && clean && result is Ok {
                assert forall|i: int| 0 <= i < n implies next.contains_key(
                    (#[trigger] t.services[i]).0,
                ) && (next[t.services[i].0] == t.services[i].1 || is_among(
                    t.services,
                    at - 1,
                    t.services[i].0,
                ) && next[t.services[i].0] == seq![t.server]) by {
                    lemma_one_more_among(t.services, at - 1, t.services[i].0);
                    lemma_recorded(t.services, i);
                }
            }
        },
        _ => {},
    }
}

/// A name among the first `at + 1` services is one among the first `at`, or that
/// of the service `at`.
proof fn lemma_one_more_among(services: Seq<Setting>, at: int, name: Seq<char>)
    requires
        0 <= at < services.len(),
    ensures
        is_among(services, at + 1, name) == (is_among(services, at, name) || services[at].0
            == name),
{
    if is_among(services, at + 1, name) {
        let k = choose|k: int| 0 <= k < at + 1 && (#[trigger] services[k]).0 == name;
        assert(k == at || 0 <= k < at);
    }
    if is_among(services, at, name) {
        let k = choose|k: int| 0 <= k < at && (#[trigger] services[k]).0 == name;
        assert(services[k].0 == name);
    }
}

/// Every service is among all of them.
proof fn lemma_all_among(services: Seq<Setting>)
    ensures
        forall|i: int|
            0 <= i < services.len() ==> is_among(
                services,
                services.len() as int,
                (#[trigger] services[i]).0,
            ),
{
}

/// All services switched or none: a takeover that ends well has every service
/// pointing exactly at the takeover address; one that ends in an error has been
/// rolled back, and where it says that its rollback completed, every service is
/// as it was before; and the marker is asked for only once every service is
/// switched.
pub proof fn law_takeover_is_transactional(t: TakeoverView, w: World)
    requires
        t.wf(),
        in_step(t, w),
    ensures
        t.phase matches PhaseView::Done { result: Ok(_), .. } ==> pointed(
            w,
            t.services,
            t.server,
            t.services.len() as int,
        ),
        t.phase matches PhaseView::Done { result: Err(_), undone } ==> undone is Some,
        t.phase matches PhaseView::Done { undone: Some(true), .. } ==> untouched(
            w,
            t.services,
            0,
            t.services.len() as int,
        ),
        t.next() is CreateMarker ==> pointed(w, t.services, t.server, t.services.len() as int),
        t.next() is RemoveBackup ==> untouched(w, t.services, 0, t.services.len() as int),
{
}

// ---------- giving back ----------

/// The texts, with `separator` between them.
pub open spec fn joined_by(list: Seq<Seq<char>>, separator: Seq<char>) -> Seq<char>
    decreases list.len(),
{
    if list.len() == 0 {
        Seq::empty()
    } else if list.len() == 1 {
        list[0]
    } else {
        joined_by(list.drop_last(), separator) + separator + list.last()
    }
}

pub fn join_texts(list: &Vec<String>, separator: &str) -> (out: String)
    ensures
        out@ == joined_by(texts(list@), separator@),
{
    let ghost all = texts(list@);
    let mut out: String = String::new();
    let mut i: usize = 0;
    while i < list.len()
        invariant
            i <= list@.len(),
            all == texts(list@),
            out@ == joined_by(all.take(i as int), separator@),
        decreases list@.len() - i,
    {
        proof {
            assert(all.take(i + 1).drop_last() =~= all.take(i as int));
            assert(all[i as int] == list@[i as int]@);
        }
        if i > 0 {
            out.append(separator);
        }
        let ghost before = out@;
        out.append(list[i].as_str());
        assert(i == 0 ==> out@ =~= all[0]);
        i = i + 1;
    }
    assert(all.take(i as int) =~= all);
    out
}

/// A restoration under way: the services before `at` were tried.
pub struct Restoration {
    pub services: Vec<ServiceDns>,
    pub at: usize,
    pub errors: Vec<String>,
    pub end: Ending,
}

/// What is left to do once every service was tried.
pub enum Ending {
    Remove,
    Flush,
    Over(Result<(), String>),
}

/// `Ending` as plain values.
#[verifier::ext_equal]
pub enum EndingView {
    Remove,
    Flush,
    Over(Result<(), Seq<char>>),
}

/// `Restoration` as plain values.
#[verifier::ext_equal]
pub struct RestorationView {
    pub services: Seq<Setting>,
    pub at: int,
    pub errors: Seq<Seq<char>>,
    pub end: EndingView,
}

impl View for Ending {
    type V = EndingView;

    open spec fn view(&self) -> EndingView {
        match *self {
            Ending::Remove => EndingView::Remove,
            Ending::Flush => EndingView::Flush,
            Ending::Over(r) => EndingView::Over(outcome(r)),
        }
    }
}

impl View for Restoration {
    type V = RestorationView;

    open spec fn view(&self) -> RestorationView {
        RestorationView {
            services: settings(self.services@),
            at: self.at as int,
            errors: texts(self.errors@),
            end: self.end@,
        }
    }
}

/// How a restoration that did not reach every service ends.
pub open spec fn restore_message(errors: Seq<Seq<char>>) -> Seq<char> {
    "could not restore every network service: "@ + joined_by(errors, "; "@)
        + " (backup retained at /Library/Application Support/DNSRivet/dns-backup.toml)"@
}

impl RestorationView {
    pub open spec fn wf(self) -> bool {
        0 <= self.at <= self.services.len()
    }

    /// The change that comes next: every service gets its servers back, whatever
    /// became of the others; the backup goes only when all of them did.
    pub open spec fn next(self) -> ChangeView {
        if self.at < self.services.len() {
            ChangeView::Assign {
                service: self.services[self.at].0,
                servers: self.services[self.at].1,
            }
        } else if self.errors.len() > 0 {
            ChangeView::Finished(Err(restore_message(self.errors)))
        } else {
            match self.end {
                EndingView::Remove => ChangeView::RemoveBackup,
                EndingView::Flush => ChangeView::FlushCaches,
                EndingView::Over(r) => ChangeView::Finished(r),
            }
        }
    }

    /// How things stand after the next change succeeded or failed.
    pub open spec fn after(self, result: Result<(), Seq<char>>) -> RestorationView {
        if self.at < self.services.len() {
            RestorationView {
                at: self.at + 1,
                errors: match result {
                    Ok(_) => self.errors,
                    Err(message) => self.errors.push(message),
                },
                ..self
            }
        } else if self.errors.len() > 0 {
            self
        } else {
            RestorationView {
                end: match self.end {
                    EndingView::Remove => match result {
                        Ok(_) => EndingView::Flush,
                        Err(message) => EndingView::Over(Err(message)),
                    },
                    EndingView::Flush => EndingView::Over(Ok(())),
                    EndingView::Over(r) => EndingView::Over(r),
                },
                ..self
            }
        }
    }
}

/// The settings of the services that still exist.
pub open spec fn existing(services: Seq<Setting>, current: Seq<Seq<char>>) -> Seq<Setting>
    decreases services.len(),
{
    if services.len() == 0 {
        Seq::empty()
    } else {
        let before = existing(services.drop_last(), current);
        if current.contains(services.last().0) {
            before.push(services.last())
        } else {
            before
        }
    }
}

/// What is said about the services that no longer exist.
pub open spec fn vanished_warnings(services: Seq<Setting>, current: Seq<Seq<char>>) -> Seq<
    Seq<char>,
>
    decreases services.len(),
{
    if services.len() == 0 {
        Seq::empty()
    } else {
        let before = vanished_warnings(services.drop_last(), current);
        if current.contains(services.last().0) {
            before
        } else {
            before.push(
                "network service "@ + debug_text(services.last().0)
                    + " no longer exists; skipping its DNS restore"@,
            )
        }
    }
}

pub fn contains_text(list: &Vec<String>, text: &str) -> (r: bool)
    ensures
        r == texts(list@).contains(text@),
{
    let ghost all = texts(list@);
    let mut i: usize = 0;
    while i < list.len()
        invariant
            i <= list@.len(),
            all == texts(list@),
            forall|k: int| 0 <= k < i ==> all[k] != text@,
        decreases list@.len() - i,
    {
        assert(all[i as int] == list@[i as int]@);
        if same_text(list[i].as_str(), text) {
            return true;
        }
        i = i + 1;
    }
    false
}

/// The names of several settings.
pub open spec fn setting_names(list: Seq<Setting>) -> Seq<Seq<char>> {
    list.map_values(|s: Setting| s.0)
}

/// The backed-up services that still exist: those that are guarded.
pub fn guarded_services(backup: &Backup, current: &Vec<String>) -> (names: Vec<String>)
    ensures
        texts(names@) == setting_names(existing(settings(backup.services@), texts(current@))),
{
    let ghost all = settings(backup.services@);
    let ghost there = texts(current@);
    let mut names: Vec<String> = Vec::new();
    let mut i: usize = 0;
    assert(texts(names@) =~= setting_names(existing(all.take(0), there)));
    while i < backup.services.len()
        invariant
            i <= backup.services@.len(),
            all == settings(backup.services@),
            there == texts(current@),
            texts(names@) == setting_names(existing(all.take(i as int), there)),
        decreases backup.services@.len() - i,
    {
        proof {
            assert(all.take(i + 1).drop_last() =~= all.take(i as int));
            assert(all[i as int] == backup.services@[i as int]@);
        }
        let ghost kept = existing(all.take(i as int), there);
        if contains_text(current, backup.services[i].name.as_str()) {
            let ghost before = names@;
            let name: String = backup.services[i].name.clone();
            names.push(name);
            proof {
                lemma_texts_push(before, name);
                assert(setting_names(kept.push(all[i as int])) =~= setting_names(kept).push(name@));
            }
        }
        i = i + 1;
    }
    assert(all.take(i as int) =~= all);
    names
}

impl Restoration {
    /// Start giving back what a backup recorded, to the services that still
    /// exist. Also returns what there is to say about the others.
    pub fn begin(backup: Backup, current: &Vec<String>) -> (r: Result<(Self, Vec<String>), String>)
        ensures
            if is_known_version(backup.version) {
                &&& r matches Ok((restoration, warnings))
                &&& restoration@ == restoration_of(settings(backup.services@), texts(current@))
                &&& texts(warnings@) == vanished_warnings(
                    settings(backup.services@),
                    texts(current@),
                )
            } else {
                r matches Err(message) && message@ == version_error(backup.version)
            },
    {
        if let Err(message) = check_version(backup.version) {
            return Err(message);
        }
        let ghost all = settings(backup.services@);
        let ghost names = texts(current@);
        let mut left: Vec<ServiceDns> = backup.services;
        let mut services: Vec<ServiceDns> = Vec::new();
        let mut warnings: Vec<String> = Vec::new();
        let ghost mut done: int = 0;
        proof {
            assert(settings(left@) =~= all.skip(0));
            assert(settings(services@) =~= Seq::<Setting>::empty());
            assert(texts(warnings@) =~= Seq::<Seq<char>>::empty());
        }
        while left.len() > 0
            invariant
                0 <= done <= all.len(),
                names == texts(current@),
                settings(left@) == all.skip(done),
                settings(services@) == existing(all.take(done), names),
                texts(warnings@) == vanished_warnings(all.take(done), names),
            decreases left@.len(),
        {
            let ghost rest = left@;
            let service: ServiceDns = left.remove(0);
            proof {
                assert(settings(rest)[0] == service@);
                assert(settings(left@) =~= settings(rest).drop_first());
                assert(all.skip(done).drop_first() =~= all.skip(done + 1));
                assert(all.take(done + 1).drop_last() =~= all.take(done));
                assert(all.take(done + 1).last() == service@);
            }
            if contains_text(current, service.name.as_str()) {
                let ghost before = services@;
                services.push(service);
                assert(settings(services@) =~= settings(before).push(service@));
            } else {
                let ghost before = warnings@;
                let text: String = join3(
                    "network service ",
                    show_debug(service.name.as_str()).as_str(),
                    " no longer exists; skipping its DNS restore",
                );
                warnings.push(text);
                proof {
                    lemma_texts_push(before, text);
                }
            }
            proof {
                done = done + 1;
            }
        }
        assert(all.take(done) =~= all);
        let errors: Vec<String> = Vec::new();
        assert(texts(errors@) =~= Seq::<Seq<char>>::empty());
        Ok((Restoration { services, at: 0, errors, end: Ending::Remove }, warnings))
    }

    /// The change that comes next.
    pub fn next(&self) -> (change: Change)
        requires
            self@.wf(),
        ensures
            change@ == self@.next(),
    {
        if self.at < self.services.len() {
            let service: &ServiceDns = &self.services[self.at];
            assert(self@.services[self.at as int] == service@);
            Change::Assign { service: service.name.clone(), servers: clone_texts(&service.servers) }
        } else if self.errors.len() > 0 {
            Change::Finished(
                Err(
                    join3(
                        "could not restore every network service: ",
                        join_texts(&self.errors, "; ").as_str(),
                        " (backup retained at /Library/Application Support/DNSRivet/dns-backup.toml)",
                    ),
                ),
            )
        } else {
            match &self.end {
                Ending::Remove => Change::RemoveBackup,
                Ending::Flush => Change::FlushCaches,
                Ending::Over(r) => Change::Finished(
                    match r {
                        Ok(_) => Ok(()),
                        Err(message) => Err(message.clone()),
                    },
                ),
            }
        }
    }

    /// Note how the change went that came next.
    pub fn report(self, result: Result<(), String>) -> (t: Self)
        requires
            self@.wf(),
        ensures
            t@ == self@.after(outcome(result)),
            t@.wf(),
    {
        let mut t: Self = self;
        if t.at < t.services.len() {
            t.at = t.at + 1;
            if let Err(message) = result {
                let ghost before = t.errors@;
                t.errors.push(message);
                proof {
                    lemma_texts_push(before, message);
                }
            }
            t
        } else if t.errors.len() > 0 {
            t
        } else {
            t.end =
            match t.end {
                Ending::Remove => match result {
                    Ok(_) => Ending::Flush,
                    Err(message) => Ending::Over(Err(message)),
                },
                Ending::Flush => Ending::Over(Ok(())),
                Ending::Over(r) => Ending::Over(r),
            };
            t
        }
    }
}

/// How a restoration under way and the settings of the system belong together:
/// while nothing has failed, every service that was tried has its servers back.
pub open spec fn restored_so_far(t: RestorationView, w: World) -> bool {
    t.errors.len() == 0 ==> untouched(w, t.services, 0, t.at)
}

/// A restoration keeps in step with the system, whichever of its changes fail;
/// it asks for the removal of the backup, and reports success, only when every
/// service that still exists has its recorded servers back.
pub proof fn law_restore_is_exact(t: RestorationView, w: World, result: Result<(), Seq<char>>)
    requires
        t.wf(),
        consistent(t.services),
        restored_so_far(t, w),
    ensures
        restored_so_far(t.after(result), performed(w, t.next(), result is Ok)),
        same_elsewhere(performed(w, t.next(), result is Ok), w, t.services),
        t.next() is RemoveBackup || t.next() == ChangeView::Finished(Ok(())) ==> untouched(
            w,
            t.services,
            0,
            t.services.len() as int,
        ),
{
    let next = performed(w, t.next(), result is Ok);
    if t.at < t.services.len() {
        assert forall|i: int|
            0 <= i < t.at && (#[trigger] t.services[i]).0 == t.services[t.at].0 implies
            t.services[i].1 == t.services[t.at].1 by {}
    }
}

// ---------- release ----------

/// What `release` has found out so far.
pub struct ReleaseFacts {
    pub backup: Option<bool>,
    pub marker: Option<bool>,
    /// Whether the system still resolves through a loopback address.
    pub loopback: Option<Result<bool, String>>,
    /// Whether the marker could be removed.
    pub unmarked: Option<Result<(), String>>,
    /// What became of the restoration.
    pub restored: Option<Result<bool, String>>,
}

/// What `release` does next.
pub enum ReleaseStep {
    CheckBackup,
    CheckMarker,
    CheckLoopback,
    RemoveMarker,
    Restore,
    /// Whether DNS settings were given back.
    Finished(Result<bool, String>),
}

/// Why a marker without a backup stops everything while the system resolves
/// through a loopback address.
pub open spec fn stranded_message() -> Seq<char> {
    "a takeover marker exists without a DNS backup, and the system still resolves through a loopback address; stopping now would cut off DNS. Restore DNS manually first (for each service: sudo networksetup -setdnsservers <service> Empty), then retry"@
}

/// Whether two results say the same.
pub open spec fn same_result<T>(a: Result<T, String>, b: Result<T, String>) -> bool {
    match (a, b) {
        (Ok(x), Ok(y)) => x == y,
        (Err(x), Err(y)) => x@ == y@,
        _ => false,
    }
}

/// Whether `step` is what `release` does next. All four takeover states are
/// handled. The marker goes first: a crash between the steps leaves a backup
/// without a marker, which can still be restored from.
pub open spec fn is_release_step(facts: ReleaseFacts, step: ReleaseStep) -> bool {
    match facts.backup {
        None => step is CheckBackup,
        Some(false) => match facts.marker {
            None => step is CheckMarker,
            Some(false) => step == ReleaseStep::Finished(Ok(false)),
            Some(true) => match facts.loopback {
                None => step is CheckLoopback,
                Some(Err(e)) => step matches ReleaseStep::Finished(Err(m)) && m@ == e@,
                Some(Ok(true)) => step matches ReleaseStep::Finished(Err(m)) && m@
                    == stranded_message(),
                Some(Ok(false)) => match facts.unmarked {
                    None => step is RemoveMarker,
                    Some(Err(e)) => step matches ReleaseStep::Finished(Err(m)) && m@ == e@,
                    Some(Ok(_)) => step == ReleaseStep::Finished(Ok(false)),
                },
            },
        },
        Some(true) => match facts.unmarked {
            None => step is RemoveMarker,
            Some(Err(e)) => step matches ReleaseStep::Finished(Err(m)) && m@ == e@,
            Some(Ok(_)) => match facts.restored {
                None => step is Restore,
                Some(r) => step matches ReleaseStep::Finished(got) && same_result(got, r),
            },
        },
    }
}

fn clone_bool_result(r: &Result<bool, String>) -> (out: Result<bool, String>)
    ensures
        same_result(out, *r),
{
    match r {
        Ok(b) => Ok(*b),
        Err(e) => Err(e.clone()),
    }
}

/// stop/uninstall entry point: handles all four takeover states under the
/// cross-process lock and refuses to proceed when stopping would strand the
/// machine on a dead loopback resolver.
pub fn release(facts: &ReleaseFacts) -> (step: ReleaseStep)
    ensures
        is_release_step(*facts, step),
{
    match facts.backup {
        None => ReleaseStep::CheckBackup,
        Some(false) => match facts.marker {
            None => ReleaseStep::CheckMarker,
            Some(false) => ReleaseStep::Finished(Ok(false)),
            Some(true) => match &facts.loopback {
                None => ReleaseStep::CheckLoopback,
                Some(Err(e)) => ReleaseStep::Finished(Err(e.clone())),
                Some(Ok(true)) => ReleaseStep::Finished(
                    Err(
                        "a takeover marker exists without a DNS backup, and the system still resolves through a loopback address; stopping now would cut off DNS. Restore DNS manually first (for each service: sudo networksetup -setdnsservers <service> Empty), then retry".to_owned(),
                    ),
                ),
                Some(Ok(false)) => match &facts.unmarked {
                    None => ReleaseStep::RemoveMarker,
                    Some(Err(e)) => ReleaseStep::Finished(Err(e.clone())),
                    Some(Ok(_)) => ReleaseStep::Finished(Ok(false)),
                },
            },
        },
        Some(true) => match &facts.unmarked {
            None => ReleaseStep::RemoveMarker,
            Some(Err(e)) => ReleaseStep::Finished(Err(e.clone())),
            Some(Ok(_)) => match &facts.restored {
                None => ReleaseStep::Restore,
                Some(r) => ReleaseStep::Finished(clone_bool_result(r)),
            },
        },
    }
}

/// `release` never reports that it is done while a marker without a backup
/// stands against a system that resolves through a loopback address; it removes
/// the marker before anything is restored; and it restores only from a backup.
pub proof fn law_release_never_strands_the_system(facts: ReleaseFacts, step: ReleaseStep)
    requires
        is_release_step(facts, step),
    ensures
        facts.backup == Some(false) && facts.marker == Some(true) && facts.loopback == Some(
            Ok::<bool, String>(true),
        ) ==> step matches ReleaseStep::Finished(Err(_)),
        step is Restore ==> facts.backup == Some(true) && facts.unmarked matches Some(Ok(_)),
        step == ReleaseStep::Finished(Ok(true)) ==> facts.backup == Some(true) && (
        facts.restored matches Some(Ok(done)) && done),
{
}

/// Whether some server in the list is a loopback address.
pub open spec fn has_loopback(list: Seq<Seq<char>>) -> bool {
    exists|i: int|
        0 <= i < addresses_in(list).len() && (#[trigger] addresses_in(list)[i]).spec_is_loopback()
}

/// Whether a service resolves through a loopback address.
pub fn lists_loopback(servers: &Vec<String>) -> (r: bool)
    ensures
        r == has_loopback(texts(servers@)),
{
    let mut ips: Vec<Ip> = Vec::new();
    collect_addresses(servers, &mut ips);
    assert(ips@ =~= addresses_in(texts(servers@)));
    let mut i: usize = 0;
    while i < ips.len()
        invariant
            i <= ips@.len(),
            ips@ == addresses_in(texts(servers@)),
            forall|k: int| 0 <= k < i ==> !(#[trigger] ips@[k]).spec_is_loopback(),
        decreases ips@.len() - i,
    {
        if ips[i].is_loopback() {
            assert(addresses_in(texts(servers@))[i as int].spec_is_loopback());
            return true;
        }
        i = i + 1;
    }
    false
}

/// What the search for a loopback resolver has found out so far.
pub struct LoopbackFacts {
    /// The resolvers in effect.
    pub effective: Option<Result<Vec<Ip>, String>>,
    /// The enabled network services.
    pub services: Option<Result<Vec<String>, String>>,
    /// The DNS servers of the first services, as far as they were read.
    pub servers: Vec<Result<Vec<String>, String>>,
}

/// What the search for a loopback resolver does next.
pub enum LoopbackStep {
    ReadEffective,
    ListServices,
    ReadService(String),
    /// Whether the system resolves through a loopback address.
    Finished(Result<bool, String>),
}

/// What the servers of the services from `i` on decide, where they do: the first
/// service with a loopback address, or the first that could not be read.
pub open spec fn loopback_among(servers: Seq<Result<Vec<String>, String>>, i: int) -> Option<
    Result<bool, Seq<char>>,
>
    decreases servers.len() - i,
{
    if i >= servers.len() {
        None
    } else {
        match servers[i] {
            Err(message) => Some(Err(message@)),
            Ok(list) => if has_loopback(texts(list@)) {
                Some(Ok(true))
            } else {
                loopback_among(servers, i + 1)
            },
        }
    }
}

/// Whether `step` is what the search does next: the resolvers in effect decide
/// first, then service by service.
pub open spec fn is_loopback_step(facts: LoopbackFacts, step: LoopbackStep) -> bool {
    match facts.effective {
        None => step is ReadEffective,
        Some(Err(e)) => step matches LoopbackStep::Finished(Err(m)) && m@ == e@,
        Some(Ok(ips)) => if loopbacks(ips@).len() > 0 {
            step == LoopbackStep::Finished(Ok(true))
        } else {
            match facts.services {
                None => step is ListServices,
                Some(Err(e)) => step matches LoopbackStep::Finished(Err(m)) && m@ == e@,
                Some(Ok(names)) => match loopback_among(facts.servers@, 0) {
                    Some(Err(e)) => step matches LoopbackStep::Finished(Err(m)) && m@ == e,
                    Some(Ok(found)) => step == LoopbackStep::Finished(Ok(found)),
                    None => if facts.servers@.len() < names@.len() {
                        step matches LoopbackStep::ReadService(name) && name@
                            == names@[facts.servers@.len() as int]@
                    } else {
                        step == LoopbackStep::Finished(Ok(false))
                    },
                },
            }
        },
    }
}

/// Find out whether the system resolves through a loopback address.
pub fn system_points_at_loopback(facts: &LoopbackFacts) -> (step: LoopbackStep)
    ensures
        is_loopback_step(*facts, step),
{
    let effective: &Vec<Ip> = match &facts.effective {
        None => return LoopbackStep::ReadEffective,
        Some(Err(e)) => return LoopbackStep::Finished(Err(e.clone())),
        Some(Ok(ips)) => ips,
    };
    if current_loopback_dns(effective).len() > 0 {
        return LoopbackStep::Finished(Ok(true));
    }
    let names: &Vec<String> = match &facts.services {
        None => return LoopbackStep::ListServices,
        Some(Err(e)) => return LoopbackStep::Finished(Err(e.clone())),
        Some(Ok(names)) => names,
    };
    let mut i: usize = 0;
    while i < facts.servers.len()
        invariant
            i <= facts.servers@.len(),
            facts.effective matches Some(Ok(ips)) && loopbacks(ips@).len() == 0,
            facts.services matches Some(Ok(_)),
            loopback_among(facts.servers@, 0) == loopback_among(facts.servers@, i as int),
        decreases facts.servers@.len() - i,
    {
        match &facts.servers[i] {
            Err(e) => return LoopbackStep::Finished(Err(e.clone())),
            Ok(list) => {
                if lists_loopback(list) {
                    return LoopbackStep::Finished(Ok(true));
                }
            },
        }
        i = i + 1;
    }
    if i < names.len() {
        LoopbackStep::ReadService(names[i].clone())
    } else {
        LoopbackStep::Finished(Ok(false))
    }
}

/// The system is said not to resolve through a loopback address only when no
/// resolver in effect is one, and every enabled service was read and lists none.
pub proof fn law_no_loopback_is_overlooked(facts: LoopbackFacts, step: LoopbackStep)
    requires
        is_loopback_step(facts, step),
        step == LoopbackStep::Finished(Ok(false)),
    ensures
        facts.effective matches Some(Ok(ips)) && loopbacks(ips@).len() == 0,
        facts.services matches Some(Ok(names)) && names@.len() <= facts.servers@.len(),
        forall|i: int|
            0 <= i < facts.servers@.len() ==> (#[trigger] facts.servers@[i] matches Ok(list)
                && !has_loopback(texts(list@))),
{
    lemma_loopback_among(facts.servers@, 0);
}

proof fn lemma_loopback_among(servers: Seq<Result<Vec<String>, String>>, i: int)
    requires
        0 <= i,
    ensures
        loopback_among(servers, i) != Some(Ok::<bool, Seq<char>>(false)),
        loopback_among(servers, i) is None ==> forall|k: int|
            i <= k < servers.len() ==> (#[trigger] servers[k] matches Ok(list) && !has_loopback(
                texts(list@),
            )),
    decreases servers.len() - i,
{
    if i < servers.len() {
        lemma_loopback_among(servers, i + 1);
    }
}

// ---------- the watchdog ----------

/// What a watchdog cycle came to.
pub enum TickOutcome {
    /// Gate not satisfied (no backup, no marker): nothing to guard.
    NotActive,
    /// Every backed-up service still points exactly at the takeover address.
    Clean,
    /// Drift was detected and corrected.
    Reasserted {
        corrected: Vec<String>,
        /// Global DNS captured while takeover was lost — the only moment the
        /// current network's real resolvers are visible. Runtime-only; the
        /// restore backup is never rewritten.
        captured: Vec<Endpoint>,
    },
}

/// What a watchdog cycle has found out so far.
pub struct TickFacts {
    pub backup: Option<bool>,
    pub marker: Option<bool>,
    /// The services that are to be guarded, with the servers they have now.
    pub current: Option<Vec<(String, Vec<String>)>>,
    /// The resolvers in effect, where they could be read.
    pub effective: Option<Option<Vec<Ip>>>,
}

/// What a watchdog cycle does next.
pub enum TickStep {
    CheckGate,
    ReadServices,
    CaptureDns,
    Correct(Reassertion),
    Finished(TickOutcome),
}

/// The reassertion of a takeover under way: the services before `at` were
/// tried.
pub struct Reassertion {
    pub server: String,
    pub services: Vec<String>,
    pub captured: Vec<Endpoint>,
    pub at: usize,
    pub errors: Vec<String>,
    pub flushed: bool,
}

/// `Reassertion` as plain values.
#[verifier::ext_equal]
pub struct ReassertionView {
    pub server: Seq<char>,
    pub services: Seq<Seq<char>>,
    pub captured: Seq<Endpoint>,
    pub at: int,
    pub errors: Seq<Seq<char>>,
    pub flushed: bool,
}

impl View for Reassertion {
    type V = ReassertionView;

    open spec fn view(&self) -> ReassertionView {
        ReassertionView {
            server: self.server@,
            services: texts(self.services@),
            captured: self.captured@,
            at: self.at as int,
            errors: texts(self.errors@),
            flushed: self.flushed,
        }
    }
}

/// What is captured as a fresh fallback: the usable ones of the resolvers in
/// effect.
pub open spec fn captured_from(effective: Option<Vec<Ip>>, server: Ip) -> Seq<Endpoint> {
    match effective {
        Some(ips) => on_port_53(usable(ips@, seq![server])),
        None => Seq::empty(),
    }
}

/// Whether `step` is what a watchdog cycle does next. The resolvers in effect
/// are captured before the first service is corrected: afterwards only the
/// loopback address is to be seen.
pub open spec fn is_tick_step(server: Ip, facts: TickFacts, step: TickStep) -> bool {
    match (facts.backup, facts.marker) {
        (Some(true), Some(true)) => match facts.current {
            None => step is ReadServices,
            Some(current) => {
                let gone = drifted(crate::osdns::current_settings(current@), ip_text(server));
                if gone.len() == 0 {
                    step matches TickStep::Finished(outcome) && outcome is Clean
                } else {
                    match facts.effective {
                        None => step is CaptureDns,
                        Some(effective) => step matches TickStep::Correct(r) && r@ == (
                        ReassertionView {
                            server: ip_text(server),
                            services: gone,
                            captured: captured_from(effective, server),
                            at: 0,
                            errors: Seq::empty(),
                            flushed: false,
                        }),
                    }
                }
            },
        },
        (Some(_), Some(_)) => step matches TickStep::Finished(outcome) && outcome is NotActive,
        _ => step is CheckGate,
    }
}

/// One watchdog cycle, run by the daemon under the cross-process lock:
/// verify that every backed-up service still lists exactly the takeover
/// address (a second resolver would leak queries around the proxy), and on
/// drift capture the currently effective DNS before reasserting.
pub fn watchdog_tick(server: Ip, facts: TickFacts) -> (step: TickStep)
    ensures
        is_tick_step(server, facts, step),
{
    let (backup, marker): (bool, bool) = match (facts.backup, facts.marker) {
        (Some(backup), Some(marker)) => (backup, marker),
        _ => return TickStep::CheckGate,
    };
    if !(backup && marker) {
        return TickStep::Finished(TickOutcome::NotActive);
    }
    let current: Vec<(String, Vec<String>)> = match facts.current {
        Some(current) => current,
        None => return TickStep::ReadServices,
    };
    let expected: String = show_ip(server);
    let gone: Vec<String> = crate::osdns::services_needing_reassert(
        current.as_slice(),
        expected.as_str(),
    );
    assert(texts(gone@).len() == gone@.len());
    if gone.len() == 0 {
        return TickStep::Finished(TickOutcome::Clean);
    }
    let effective: Option<Vec<Ip>> = match facts.effective {
        Some(effective) => effective,
        None => return TickStep::CaptureDns,
    };
    let captured: Vec<Endpoint> = match effective {
        Some(ips) => {
            let denied: Vec<Ip> = vec![server];
            assert(denied@ =~= seq![server]);
            with_port_53(&filter_fallback_servers(ips, denied.as_slice()))
        },
        None => Vec::new(),
    };
    let errors: Vec<String> = Vec::new();
    assert(texts(errors@) =~= Seq::<Seq<char>>::empty());
    TickStep::Correct(
        Reassertion { server: expected, services: gone, captured, at: 0, errors, flushed: false },
    )
}

/// Read-only variant for `restart`'s verification wait.
pub fn takeover_intact(server: Ip, current: &[(String, Vec<String>)]) -> (r: bool)
    ensures
        r == (drifted(crate::osdns::current_settings(current@), ip_text(server)).len() == 0),
{
    let expected: String = show_ip(server);
    let gone: Vec<String> = crate::osdns::services_needing_reassert(current, expected.as_str());
    assert(texts(gone@).len() == gone@.len());
    gone.len() == 0
}

impl ReassertionView {
    pub open spec fn wf(self) -> bool {
        0 <= self.at <= self.services.len()
    }

    /// The change that comes next: every drifted service is pointed at the
    /// takeover address again, whatever became of the others.
    pub open spec fn next(self) -> ChangeView {
        if self.at < self.services.len() {
            ChangeView::Assign { service: self.services[self.at], servers: seq![self.server] }
        } else if !self.flushed {
            ChangeView::FlushCaches
        } else if self.errors.len() > 0 {
            ChangeView::Finished(Err("reassert incomplete: "@ + joined_by(self.errors, "; "@)))
        } else {
            ChangeView::Finished(Ok(()))
        }
    }

    /// How things stand after the next change succeeded or failed.
    pub open spec fn after(self, result: Result<(), Seq<char>>) -> ReassertionView {
        if self.at < self.services.len() {
            ReassertionView {
                at: self.at + 1,
                errors: match result {
                    Ok(_) => self.errors,
                    Err(message) => self.errors.push(message),
                },
                ..self
            }
        } else {
            ReassertionView { flushed: true, ..self }
        }
    }
}

impl Reassertion {
    /// The change that comes next.
    pub fn next(&self) -> (change: Change)
        requires
            self@.wf(),
        ensures
            change@ == self@.next(),
    {
        if self.at < self.services.len() {
            let servers: Vec<String> = vec![self.server.clone()];
            proof {
                assert(texts(servers@) =~= seq![self.server@]);
                assert(self@.services[self.at as int] == self.services@[self.at as int]@);
            }
            Change::Assign { service: self.services[self.at].clone(), servers }
        } else if !self.flushed {
            Change::FlushCaches
        } else if self.errors.len() > 0 {
            Change::Finished(
                Err(join("reassert incomplete: ", join_texts(&self.errors, "; ").as_str())),
            )
        } else {
            Change::Finished(Ok(()))
        }
    }

    /// Note how the change went that came next.
    pub fn report(self, result: Result<(), String>) -> (t: Self)
        requires
            self@.wf(),
        ensures
            t@ == self@.after(outcome(result)),
            t@.wf(),
    {
        let mut t: Self = self;
        if t.at < t.services.len() {
            t.at = t.at + 1;
            if let Err(message) = result {
                let ghost before = t.errors@;
                t.errors.push(message);
                proof {
                    lemma_texts_push(before, message);
                }
            }
        } else {
            t.flushed = true;
        }
        t
    }

    /// What a reassertion that reached every service came to.
    pub fn into_outcome(self) -> (outcome: TickOutcome)
        ensures
            outcome matches TickOutcome::Reasserted { corrected, captured } && texts(corrected@)
                == self@.services && captured@ == self@.captured,
    {
        TickOutcome::Reasserted { corrected: self.services, captured: self.captured }
    }
}

/// How a reassertion under way and the settings of the system belong together.
pub open spec fn reasserted_so_far(t: ReassertionView, w: World) -> bool {
    t.errors.len() == 0 ==> forall|i: int|
        0 <= i < t.at ==> w.contains_key(#[trigger] t.services[i]) && w[t.services[i]]
            == seq![t.server]
}

/// A reassertion that reports success has every drifted service pointing
/// exactly at the takeover address again, and it never touches the backup or
/// the marker.
pub proof fn law_reassertion_repairs_drift(
    t: ReassertionView,
    w: World,
    result: Result<(), Seq<char>>,
)
    requires
        t.wf(),
        reasserted_so_far(t, w),
    ensures
        reasserted_so_far(t.after(result), performed(w, t.next(), result is Ok)),
        t.next() == ChangeView::Finished(Ok(())) ==> forall|i: int|
            0 <= i < t.services.len() ==> w.contains_key(#[trigger] t.services[i])
                && w[t.services[i]] == seq![t.server],
        !(t.next() is RemoveBackup) && !(t.next() is CreateMarker),
{
}

// ---------- whole runs ----------

/// A takeover and the system after some of its changes, which succeeded or
/// failed as `results` says.
pub open spec fn run_takeover(
    t: TakeoverView,
    w: World,
    results: Seq<Result<(), Seq<char>>>,
) -> (TakeoverView, World)
    decreases results.len(),
{
    if results.len() == 0 {
        (t, w)
    } else {
        let (before, world) = run_takeover(t, w, results.drop_last());
        (
            TakeoverView { phase: before.after(results.last()), ..before },
            performed(world, before.next(), results.last() is Ok),
        )
    }
}

/// Whichever changes fail, a takeover that starts from the settings in its
/// backup never loses track: when it ends in an error it has been rolled back,
/// and when it says that its rollback is complete, every service has the servers
/// that it had before; when it ends in success, every service points exactly at
/// the takeover address; and it never touches any other service.
pub proof fn law_takeover_runs(
    services: Seq<Setting>,
    server: Seq<char>,
    w: World,
    results: Seq<Result<(), Seq<char>>>,
)
    requires
        services.len() > 0,
        untouched(w, services, 0, services.len() as int),
    ensures
        ({
            let start = TakeoverView { services, server, phase: PhaseView::Apply { at: 0 } };
            let (t, world) = run_takeover(start, w, results);
            &&& t.services == services
            &&& t.server == server
            &&& t.wf()
            &&& in_step(t, world)
            &&& same_elsewhere(world, w, services)
            &&& t.phase matches PhaseView::Done { result: Ok(_), .. } ==> pointed(
                world,
                services,
                server,
                services.len() as int,
            )
            &&& t.phase matches PhaseView::Done { result: Err(_), undone } ==> undone is Some
            &&& t.phase matches PhaseView::Done { undone: Some(true), .. } ==> untouched(
                world,
                services,
                0,
                services.len() as int,
            )
        }),
    decreases results.len(),
{
    let start = TakeoverView { services, server, phase: PhaseView::Apply { at: 0 } };
    if results.len() > 0 {
        law_takeover_runs(services, server, w, results.drop_last());
        assert(consistent(services));
        let (before, world) = run_takeover(start, w, results.drop_last());
        law_takeover_stays_in_step(before, world, results.last());
    }
}

/// A restoration and the system after some of its changes, which succeeded or
/// failed as `results` says.
pub open spec fn run_restoration(
    t: RestorationView,
    w: World,
    results: Seq<Result<(), Seq<char>>>,
) -> (RestorationView, World)
    decreases results.len(),
{
    if results.len() == 0 {
        (t, w)
    } else {
        let (before, world) = run_restoration(t, w, results.drop_last());
        (before.after(results.last()), performed(world, before.next(), results.last() is Ok))
    }
}

/// The restoration of a backup to the services in `current`, before its first
/// change.
pub open spec fn restoration_of(
    backed_up: Seq<Setting>,
    current: Seq<Seq<char>>,
) -> RestorationView {
    RestorationView {
        services: existing(backed_up, current),
        at: 0,
        errors: Seq::empty(),
        end: EndingView::Remove,
    }
}

/// Whether every recorded service that still exists has its recorded servers.
pub open spec fn given_back(w: World, backed_up: Seq<Setting>, current: Seq<Seq<char>>) -> bool {
    forall|i: int|
        0 <= i < backed_up.len() && current.contains((#[trigger] backed_up[i]).0)
            ==> w.contains_key(backed_up[i].0) && w[backed_up[i].0] == backed_up[i].1
}

/// Whatever the system looked like before, and whichever changes fail, for a
/// backup in which a service that was read twice has the same servers: once a
/// restoration has tried every service and none has failed, and in particular
/// when it asks for the removal of the backup or ends in success, every recorded
/// service that still exists has its recorded servers back; and it never touches
/// any other service.
pub proof fn law_restoration_runs(
    backed_up: Seq<Setting>,
    current: Seq<Seq<char>>,
    w: World,
    results: Seq<Result<(), Seq<char>>>,
)
    requires
        consistent(backed_up),
    ensures
        ({
            let (t, world) = run_restoration(restoration_of(backed_up, current), w, results);
            &&& t.services == existing(backed_up, current)
            &&& t.wf()
            &&& same_elsewhere(world, w, existing(backed_up, current))
            &&& t.at == t.services.len() && t.errors.len() == 0 ==> given_back(
                world,
                backed_up,
                current,
            )
            &&& t.next() is RemoveBackup || t.next() == ChangeView::Finished(Ok(())) ==> given_back(
                world,
                backed_up,
                current,
            )
        }),
{
    lemma_existing(backed_up, current);
    lemma_restoration_run(existing(backed_up, current), w, results);
    let (t, world) = run_restoration(restoration_of(backed_up, current), w, results);
    if t.at == t.services.len() && t.errors.len() == 0 {
        assert forall|i: int|
            0 <= i < backed_up.len() && current.contains((#[trigger] backed_up[i]).0) implies
            world.contains_key(backed_up[i].0) && world[backed_up[i].0] == backed_up[i].1 by {
            let k = choose|k: int| 0 <= k < t.services.len() && t.services[k] == backed_up[i];
            assert(t.services[k] == backed_up[i]);
        }
    }
}

proof fn lemma_restoration_run(
    services: Seq<Setting>,
    w: World,
    results: Seq<Result<(), Seq<char>>>,
)
    requires
        consistent(services),
    ensures
        ({
            let start = RestorationView {
                services,
                at: 0,
                errors: Seq::empty(),
                end: EndingView::Remove,
            };
            let (t, world) = run_restoration(start, w, results);
            &&& t.services == services
            &&& t.wf()
            &&& restored_so_far(t, world)
            &&& same_elsewhere(world, w, services)
        }),
    decreases results.len(),
{
    let start = RestorationView { services, at: 0, errors: Seq::empty(), end: EndingView::Remove };
    if results.len() > 0 {
        lemma_restoration_run(services, w, results.drop_last());
        let (before, world) = run_restoration(start, w, results.drop_last());
        law_restore_is_exact(before, world, results.last());
    }
}

/// The services that still exist keep their settings, and each of them is there.
proof fn lemma_existing(services: Seq<Setting>, current: Seq<Seq<char>>)
    requires
        consistent(services),
    ensures
        consistent(existing(services, current)),
        forall|i: int|
            0 <= i < existing(services, current).len() ==> services.contains(
                #[trigger] existing(services, current)[i],
            ),
        forall|i: int|
            0 <= i < services.len() && current.contains((#[trigger] services[i]).0) ==> existing(
                services,
                current,
            ).contains(services[i]),
    decreases services.len(),
{
    if services.len() > 0 {
        let shorter = services.drop_last();
        assert forall|i: int, j: int|
            0 <= i < j < shorter.len() && (#[trigger] shorter[i]).0 == (
            #[trigger] shorter[j]).0 implies shorter[i].1 == shorter[j].1 by {
            assert(services[i] == shorter[i] && services[j] == shorter[j]);
        }
        lemma_existing(shorter, current);
        let before = existing(shorter, current);
        let out = existing(services, current);
        assert forall|i: int| 0 <= i < out.len() implies services.contains(#[trigger] out[i]) by {
            if i < before.len() {
                assert(out[i] == before[i]);
                let k = choose|k: int| 0 <= k < shorter.len() && shorter[k] == before[i];
                assert(services[k] == out[i]);
            } else {
                assert(services[services.len() - 1] == out[i]);
            }
        }
        assert forall|i: int|
            0 <= i < services.len() && current.contains((#[trigger] services[i]).0) implies
            out.contains(services[i]) by {
            if i < shorter.len() {
                assert(shorter[i] == services[i]);
                let k = choose|k: int| 0 <= k < before.len() && before[k] == shorter[i];
                assert(out[k] == services[i]);
            } else {
                assert(out[out.len() - 1] == services[i]);
            }
        }
        assert forall|i: int, j: int|
            0 <= i < j < out.len() && (#[trigger] out[i]).0 == (#[trigger] out[j]).0 implies
            out[i].1 == out[j].1 by {
            assert(out[i] == before[i]);
            if j < before.len() {
                assert(out[j] == before[j]);
            } else {
                assert(shorter.contains(before[i]));
                let k = choose|k: int| 0 <= k < shorter.len() && shorter[k] == before[i];
                assert(services[k] == out[i]);
                assert(services[services.len() - 1] == out[j]);
            }
        }
    }
}

/// How many changes a restoration has left at most.
pub open spec fn restoration_left(t: RestorationView) -> int {
    t.services.len() - t.at + match t.end {
        EndingView::Remove => 2,
        EndingView::Flush => 1,
        EndingView::Over(_) => 0int,
    }
}

/// Every change, whether it succeeds or fails, brings a restoration closer to
/// its end.
pub proof fn law_restoration_comes_to_an_end(t: RestorationView, result: Result<(), Seq<char>>)
    requires
        t.wf(),
        !(t.next() is Finished),
    ensures
        0 <= restoration_left(t.after(result)) < restoration_left(t),
{
}

/// `release` asks only for what it does not know yet, so that it comes to an
/// end.
pub proof fn law_release_comes_to_an_end(facts: ReleaseFacts, step: ReleaseStep)
    requires
        is_release_step(facts, step),
    ensures
        step is CheckBackup ==> facts.backup is None,
        step is CheckMarker ==> facts.marker is None,
        step is CheckLoopback ==> facts.loopback is None,
        step is RemoveMarker ==> facts.unmarked is None,
        step is Restore ==> facts.restored is None,
{
}

/// A watchdog cycle corrects nothing before it has captured the resolvers in
/// effect, and nothing at all unless a takeover is active and a service has
/// drifted.
pub proof fn law_watchdog_captures_before_it_corrects(
    server: Ip,
    facts: TickFacts,
    step: TickStep,
)
    requires
        is_tick_step(server, facts, step),
    ensures
        step is Correct ==> facts.backup == Some(true) && facts.marker == Some(true)
            && facts.effective is Some && (facts.current matches Some(current) && drifted(
            crate::osdns::current_settings(current@),
            ip_text(server),
        ).len() > 0),
        step is CheckGate ==> facts.backup is None || facts.marker is None,
        step is ReadServices ==> facts.current is None,
        step is CaptureDns ==> facts.effective is None,
{
}

/// How many changes a takeover has left at most.
pub open spec fn changes_left(t: TakeoverView) -> int {
    let n = t.services.len() as int;
    match t.phase {
        PhaseView::Apply { at } => 2 * (n - at) + n + 4,
        PhaseView::Mark => n + 3,
        PhaseView::Settle => 1,
        PhaseView::Undo { at, .. } => at + 2,
        PhaseView::Forget { .. } => 1,
        PhaseView::Done { .. } => 0,
    }
}

/// Every change, whether it succeeds or fails, brings a takeover closer to its
/// end.
pub proof fn law_takeover_comes_to_an_end(t: TakeoverView, result: Result<(), Seq<char>>)
    requires
        t.wf(),
        !(t.phase is Done),
    ensures
        0 <= changes_left(TakeoverView { phase: t.after(result), ..t }) < changes_left(t),
{
}

} // verus!
