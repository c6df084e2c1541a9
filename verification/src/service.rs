//! The life of the system service: which step comes next, and how it ends.

use crate::config::texts;
use crate::ip::{endpoint_text, ip_text, show_endpoint, show_ip, Endpoint, Ip};
use crate::text::{decimal, join, join3, show_number};
use vstd::prelude::*;
use vstd::string::*;

verus! {

pub const SUPPORT_DIR: &'static str = "/Library/Application Support/DNSRivet";

pub const CONFIG_PATH: &'static str = "/Library/Application Support/DNSRivet/config.toml";

pub const BINARY_PATH: &'static str = "/Library/Application Support/DNSRivet/dnsrivet";

// ---------- the takeover address ----------

/// Whether the system can be pointed at a listener: it is a loopback address
/// on port 53.
pub open spec fn can_take_over(e: Endpoint) -> bool {
    e.port == 53 && e.ip.spec_is_loopback()
}

/// The first listener from `i` on that the system can be pointed at, an IPv4
/// one where `v4` is set.
pub open spec fn first_candidate(listeners: Seq<Endpoint>, v4: bool, i: int) -> Option<Ip>
    decreases listeners.len() - i,
{
    if i >= listeners.len() {
        None
    } else if can_take_over(listeners[i]) && (v4 ==> listeners[i].ip.spec_is_v4()) {
        Some(listeners[i].ip)
    } else {
        first_candidate(listeners, v4, i + 1)
    }
}

/// The address that takes the system's DNS over: IPv4 where there is one.
pub open spec fn takeover_ip(listeners: Seq<Endpoint>) -> Option<Ip> {
    match first_candidate(listeners, true, 0) {
        Some(ip) => Some(ip),
        None => first_candidate(listeners, false, 0),
    }
}

fn find_candidate(listeners: &[Endpoint], v4: bool) -> (r: Option<Ip>)
    ensures
        r == first_candidate(listeners@, v4, 0),
{
    let mut i: usize = 0;
    while i < listeners.len()
        invariant
            i <= listeners@.len(),
            first_candidate(listeners@, v4, 0) == first_candidate(listeners@, v4, i as int),
        decreases listeners@.len() - i,
    {
        let e: Endpoint = listeners[i];
        if e.port == 53 && e.ip.is_loopback() && (!v4 || e.ip.is_v4()) {
            return Some(e.ip);
        }
        i = i + 1;
    }
    None
}

/// Why a configuration cannot be run as a service.
pub open spec fn no_takeover_message() -> Seq<char> {
    "service mode requires a loopback listener on port 53 (normally 127.0.0.1:53)"@
}

pub fn takeover_address(listeners: &[Endpoint]) -> (r: Result<Ip, String>)
    ensures
        match takeover_ip(listeners@) {
            Some(ip) => r == Ok::<Ip, String>(ip),
            None => r matches Err(message) && message@ == no_takeover_message(),
        },
{
    match find_candidate(listeners, true) {
        Some(ip) => Ok(ip),
        None => match find_candidate(listeners, false) {
            Some(ip) => Ok(ip),
            None => Err(
                "service mode requires a loopback listener on port 53 (normally 127.0.0.1:53)".to_owned(),
            ),
        },
    }
}

/// The address that takes over is a loopback address of a listener on port 53.
pub proof fn law_takeover_address_is_a_listener(listeners: Seq<Endpoint>, v4: bool, i: int)
    requires
        0 <= i,
    ensures
        first_candidate(listeners, v4, i) matches Some(ip) ==> ip.spec_is_loopback()
            && listeners.contains(Endpoint { ip, port: 53 }) && (v4 ==> ip.spec_is_v4()),
        first_candidate(listeners, v4, i) is None ==> forall|k: int|
            i <= k < listeners.len() ==> !(can_take_over(#[trigger] listeners[k]) && (v4
                ==> listeners[k].ip.spec_is_v4())),
    decreases listeners.len() - i,
{
    if i < listeners.len() {
        if can_take_over(listeners[i]) && (v4 ==> listeners[i].ip.spec_is_v4()) {
            assert(listeners[i] == Endpoint { ip: listeners[i].ip, port: 53 });
        } else {
            law_takeover_address_is_a_listener(listeners, v4, i + 1);
        }
    }
}

// ---------- the health probe ----------

/// The probe: a recursive query for the address of example.com.
pub open spec fn probe_bytes(id: u16) -> Seq<u8> {
    seq![
        (id / 256) as u8,
        (id % 256) as u8,
        0x01,
        0x00,
        0,
        1,
        0,
        0,
        0,
        0,
        0,
        0,
        7,
        101,
        120,
        97,
        109,
        112,
        108,
        101,
        3,
        99,
        111,
        109,
        0,
        0,
        1,
        0,
        1,
    ]
}

pub fn probe_query(id: u16) -> (query: Vec<u8>)
    ensures
        query@ == probe_bytes(id),
{
    let query: Vec<u8> = vec![
        (id / 256) as u8,
        (id % 256) as u8,
        0x01,
        0x00,
        0,
        1,
        0,
        0,
        0,
        0,
        0,
        0,
        7,
        101,
        120,
        97,
        109,
        112,
        108,
        101,
        3,
        99,
        111,
        109,
        0,
        0,
        1,
        0,
        1,
    ];
    assert(query@ =~= probe_bytes(id));
    query
}

/// Whether a response shows that the service answers: it has the ID of the
/// probe, is a response without an error, and has an answer.
pub open spec fn is_healthy(id: u16, response: Seq<u8>) -> bool {
    &&& response.len() >= 12
    &&& response[0] == (id / 256) as u8
    &&& response[1] == (id % 256) as u8
    &&& response[2] & 0x80 != 0
    &&& response[3] & 0x0f == 0
    &&& !(response[6] == 0 && response[7] == 0)
}

pub fn check_probe(id: u16, response: &[u8]) -> (r: Result<(), String>)
    ensures
        if is_healthy(id, response@) {
            r is Ok
        } else {
            r matches Err(message) && message@ == "invalid DNS probe response"@
        },
{
    if response.len() < 12 || response[0] != (id / 256) as u8 || response[1] != (id % 256) as u8
        || response[2] & 0x80 == 0 || response[3] & 0x0f != 0 || (response[6] == 0 && response[7]
        == 0) {
        return Err("invalid DNS probe response".to_owned());
    }
    Ok(())
}

/// What the wait for a healthy service does next.
pub enum WaitStep {
    Probe,
    /// Rest before the next probe.
    Sleep,
    Finished(Result<(), String>),
}

/// Whether `step` is what the wait does next: a probe that succeeded ends it;
/// one that failed is followed by a rest; there are probes until the deadline,
/// and then the last error stands.
pub open spec fn is_wait_step(
    now: u64,
    deadline: u64,
    last: Option<Result<(), String>>,
    slept: bool,
    step: WaitStep,
) -> bool {
    match last {
        Some(Ok(_)) => step == WaitStep::Finished(Ok(())),
        Some(Err(_)) if !slept => step is Sleep,
        _ => if now < deadline {
            step is Probe
        } else {
            step matches WaitStep::Finished(Err(message)) && message@ == match last {
                Some(Err(e)) => e@,
                _ => "no response"@,
            }
        },
    }
}

/// Decide what the wait for a healthy service does next. `last` is what the last
/// probe brought, and `slept` whether there was a rest since.
pub fn wait_step(
    now: u64,
    deadline: u64,
    last: &Option<Result<(), String>>,
    slept: bool,
) -> (step: WaitStep)
    ensures
        is_wait_step(now, deadline, *last, slept, step),
{
    match last {
        Some(Ok(_)) => WaitStep::Finished(Ok(())),
        Some(Err(e)) => if !slept {
            WaitStep::Sleep
        } else if now < deadline {
            WaitStep::Probe
        } else {
            WaitStep::Finished(Err(e.clone()))
        },
        None => if now < deadline {
            WaitStep::Probe
        } else {
            WaitStep::Finished(Err("no response".to_owned()))
        },
    }
}

/// A service is called healthy only after a probe that succeeded, no probe is
/// made at or after the deadline, and no two follow each other without a rest.
pub proof fn law_waiting_is_bounded(
    now: u64,
    deadline: u64,
    last: Option<Result<(), String>>,
    slept: bool,
    step: WaitStep,
)
    requires
        is_wait_step(now, deadline, last, slept, step),
    ensures
        step == WaitStep::Finished(Ok(())) ==> last matches Some(Ok(_)),
        step is Probe ==> now < deadline && (last is Some ==> slept),
        step is Sleep ==> !slept,
{
}

// ---------- permission ----------

/// What anyone but root is told.
pub open spec fn root_message() -> Seq<char> {
    "this command changes a system LaunchDaemon or DNS settings; rerun it with sudo"@
}

fn root_text() -> (message: String)
    ensures
        message@ == root_message(),
{
    "this command changes a system LaunchDaemon or DNS settings; rerun it with sudo".to_owned()
}

// ---------- stop ----------

/// What `stop` has found out so far.
pub struct StopFacts {
    pub root: Option<bool>,
    /// Whether DNS settings were given back.
    pub released: Option<Result<bool, String>>,
    /// Whether the job is installed or loaded.
    pub managed: Option<bool>,
    pub disabled: Option<Result<(), String>>,
    /// Whether a loaded job was stopped.
    pub stopped: Option<Result<bool, String>>,
}

/// What `stop` does next.
pub enum StopStep {
    CheckRoot,
    Release,
    CheckManaged,
    Disable,
    Bootout,
    Finished(Result<String, String>),
}

/// What `stop` reports.
pub open spec fn stop_message(released: bool, stopped: bool) -> Seq<char> {
    if released && stopped {
        "service stopped and system DNS restored"@
    } else if released {
        "service was not loaded; system DNS was restored"@
    } else if stopped {
        "service stopped; no DNSRivet DNS backup existed, so DNS was unchanged"@
    } else {
        "service is not loaded; DNS was unchanged"@
    }
}

/// Whether something was done and worked.
pub open spec fn went_well<T>(r: Option<Result<T, String>>) -> bool {
    r matches Some(Ok(_))
}

/// Whether something was done and failed.
pub open spec fn went_wrong<T>(r: Option<Result<T, String>>) -> bool {
    r matches Some(Err(_))
}

/// Whether `r` is the error `message`.
pub open spec fn ends_with_error(r: Result<String, String>, message: Seq<char>) -> bool {
    r matches Err(got) && got@ == message
}

/// Whether `step` is what `stop` does next: DNS first, then the job, and an
/// error ends it.
pub open spec fn is_stop_step(facts: StopFacts, step: StopStep) -> bool {
    match facts.root {
        None => step is CheckRoot,
        Some(false) => step matches StopStep::Finished(r) && ends_with_error(r, root_message()),
        Some(true) => match facts.released {
            None => step is Release,
            Some(Err(e)) => step matches StopStep::Finished(r) && ends_with_error(r, e@),
            Some(Ok(released)) => match facts.managed {
                None => step is CheckManaged,
                Some(managed) => match (managed, facts.disabled) {
                    (true, None) => step is Disable,
                    (true, Some(Err(e))) => step matches StopStep::Finished(r) && ends_with_error(
                        r,
                        e@,
                    ),
                    _ => match facts.stopped {
                        None => step is Bootout,
                        Some(Err(e)) => step matches StopStep::Finished(r) && ends_with_error(
                            r,
                            e@,
                        ),
                        Some(Ok(stopped)) => step matches StopStep::Finished(Ok(m)) && m@
                            == stop_message(released, stopped),
                    },
                },
            },
        },
    }
}

pub fn stop(facts: &StopFacts) -> (step: StopStep)
    ensures
        is_stop_step(*facts, step),
{
    match facts.root {
        None => return StopStep::CheckRoot,
        Some(false) => return StopStep::Finished(Err(root_text())),
        Some(true) => {},
    }
    let released: bool = match &facts.released {
        None => return StopStep::Release,
        Some(Err(e)) => return StopStep::Finished(Err(e.clone())),
        Some(Ok(released)) => *released,
    };
    let managed: bool = match facts.managed {
        None => return StopStep::CheckManaged,
        Some(managed) => managed,
    };
    if managed {
        match &facts.disabled {
            None => return StopStep::Disable,
            Some(Err(e)) => return StopStep::Finished(Err(e.clone())),
            Some(Ok(_)) => {},
        }
    }
    match &facts.stopped {
        None => StopStep::Bootout,
        Some(Err(e)) => StopStep::Finished(Err(e.clone())),
        Some(Ok(stopped)) => StopStep::Finished(
            Ok(
                match (released, *stopped) {
                    (true, true) => "service stopped and system DNS restored".to_owned(),
                    (true, false) => "service was not loaded; system DNS was restored".to_owned(),
                    (false, true) => "service stopped; no DNSRivet DNS backup existed, so DNS was unchanged".to_owned(),
                    (false, false) => "service is not loaded; DNS was unchanged".to_owned(),
                },
            ),
        ),
    }
}

/// The job is neither disabled nor stopped before DNS has been released, so
/// that nothing resolves through a job that no longer runs.
pub proof fn law_stop_releases_dns_first(facts: StopFacts, step: StopStep)
    requires
        is_stop_step(facts, step),
        step is Disable || step is Bootout || step matches StopStep::Finished(Ok(_)),
    ensures
        facts.root == Some(true),
        went_well(facts.released),
{
}

// ---------- uninstall ----------

/// What `uninstall` has found out so far, beyond what `stop` finds out.
pub struct UninstallFacts {
    pub stop: StopFacts,
    pub plist_removed: Option<Result<(), String>>,
    pub binary_removed: Option<Result<(), String>>,
    /// Whether the disabled override was cleared.
    pub cleared: Option<Result<(), String>>,
}

/// What `uninstall` does next.
pub enum UninstallStep {
    /// A step that it shares with `stop`; never the end of it.
    Stop(StopStep),
    RemovePlist,
    RemoveBinary,
    /// Clear the persistent launchd disabled override.
    ClearDisabled,
    Finished(Result<String, String>),
}

/// What `uninstall` reports.
pub open spec fn uninstall_message(released: bool, stopped: bool) -> Seq<char> {
    "service uninstalled"@ + (if stopped {
        " and stopped"@
    } else {
        Seq::empty()
    }) + (if released {
        "; system DNS restored"@
    } else {
        "; DNS unchanged"@
    }) + "; config preserved at /Library/Application Support/DNSRivet/config.toml"@
}

/// Whether `step` is what `uninstall` does next: all that `stop` does, then the
/// files go, then the override.
pub open spec fn is_uninstall_step(facts: UninstallFacts, step: UninstallStep) -> bool {
    match (facts.stop.released, facts.stop.managed, facts.stop.stopped) {
        (Some(Ok(released)), Some(managed), Some(Ok(stopped))) if facts.stop.root == Some(true)
            && (managed ==> went_well(facts.stop.disabled)) => match facts.plist_removed {
            None => step is RemovePlist,
            Some(Err(e)) => step matches UninstallStep::Finished(r) && ends_with_error(r, e@),
            Some(Ok(_)) => match facts.binary_removed {
                None => step is RemoveBinary,
                Some(Err(e)) => step matches UninstallStep::Finished(r) && ends_with_error(r, e@),
                Some(Ok(_)) => match (managed, facts.cleared) {
                    (true, None) => step is ClearDisabled,
                    (true, Some(Err(e))) => step matches UninstallStep::Finished(r)
                        && ends_with_error(r, e@),
                    _ => step matches UninstallStep::Finished(Ok(m)) && m@ == uninstall_message(
                        released,
                        stopped,
                    ),
                },
            },
        },
        _ => match step {
            UninstallStep::Stop(s) => is_stop_step(facts.stop, s) && !(s is Finished),
            UninstallStep::Finished(r) => r is Err && is_stop_step(
                facts.stop,
                StopStep::Finished(r),
            ),
            _ => false,
        },
    }
}

pub fn uninstall(facts: &UninstallFacts) -> (step: UninstallStep)
    ensures
        is_uninstall_step(*facts, step),
{
    match stop(&facts.stop) {
        StopStep::Finished(Ok(_)) => {},
        StopStep::Finished(Err(e)) => return UninstallStep::Finished(Err(e)),
        s => return UninstallStep::Stop(s),
    }
    match &facts.plist_removed {
        None => return UninstallStep::RemovePlist,
        Some(Err(e)) => return UninstallStep::Finished(Err(e.clone())),
        Some(Ok(_)) => {},
    }
    match &facts.binary_removed {
        None => return UninstallStep::RemoveBinary,
        Some(Err(e)) => return UninstallStep::Finished(Err(e.clone())),
        Some(Ok(_)) => {},
    }
    let managed: bool = match facts.stop.managed {
        Some(managed) => managed,
        None => false,
    };
    if managed {
        match &facts.cleared {
            None => return UninstallStep::ClearDisabled,
            Some(Err(e)) => return UninstallStep::Finished(Err(e.clone())),
            Some(Ok(_)) => {},
        }
    }
    let released: bool = match &facts.stop.released {
        Some(Ok(released)) => *released,
        _ => false,
    };
    let stopped: bool = match &facts.stop.stopped {
        Some(Ok(stopped)) => *stopped,
        _ => false,
    };
    let mut message: String = "service uninstalled".to_owned();
    if stopped {
        message.append(" and stopped");
    } else {
        assert(message@ =~= "service uninstalled"@ + Seq::<char>::empty());
    }
    message.append(
        if released {
            "; system DNS restored"
        } else {
            "; DNS unchanged"
        },
    );
    message.append("; config preserved at /Library/Application Support/DNSRivet/config.toml");
    UninstallStep::Finished(Ok(message))
}

/// No file of the service goes before DNS has been released and the job has
/// been stopped.
pub proof fn law_uninstall_removes_files_last(facts: UninstallFacts, step: UninstallStep)
    requires
        is_uninstall_step(facts, step),
        step is RemovePlist || step is RemoveBinary,
    ensures
        went_well(facts.stop.released),
        went_well(facts.stop.stopped),
{
}

// ---------- status ----------

/// What `status` has found out so far.
pub struct StatusFacts {
    pub loaded: Option<bool>,
    pub installed: Option<bool>,
    /// Where the service answers.
    pub address: Option<Result<Endpoint, String>>,
    pub probed: Option<Result<(), String>>,
}

/// What `status` does next.
pub enum StatusStep {
    CheckLoaded,
    CheckInstalled,
    FindAddress,
    Probe(Endpoint),
    Finished(Result<String, String>),
}

pub open spec fn is_status_step(facts: StatusFacts, step: StatusStep) -> bool {
    match facts.loaded {
        None => step is CheckLoaded,
        Some(false) => match facts.installed {
            None => step is CheckInstalled,
            Some(installed) => step matches StatusStep::Finished(Ok(m)) && m@ == (if installed {
                "service: installed but stopped"@
            } else {
                "service: not installed"@
            }),
        },
        Some(true) => match facts.address {
            None => step is FindAddress,
            Some(Err(e)) => step matches StatusStep::Finished(r) && ends_with_error(r, e@),
            Some(Ok(addr)) => match facts.probed {
                None => step == StatusStep::Probe(addr),
                Some(Ok(_)) => step matches StatusStep::Finished(Ok(m)) && m@
                    == "service: loaded; DNS probe at "@ + endpoint_text(addr) + ": healthy"@,
                Some(Err(e)) => step matches StatusStep::Finished(Ok(m)) && m@
                    == "service: loaded; DNS probe at "@ + endpoint_text(addr) + ": failed ("@ + e@
                    + ")"@,
            },
        },
    }
}

pub fn status(facts: &StatusFacts) -> (step: StatusStep)
    ensures
        is_status_step(*facts, step),
{
    match facts.loaded {
        None => StatusStep::CheckLoaded,
        Some(false) => match facts.installed {
            None => StatusStep::CheckInstalled,
            Some(true) => StatusStep::Finished(Ok("service: installed but stopped".to_owned())),
            Some(false) => StatusStep::Finished(Ok("service: not installed".to_owned())),
        },
        Some(true) => match &facts.address {
            None => StatusStep::FindAddress,
            Some(Err(e)) => StatusStep::Finished(Err(e.clone())),
            Some(Ok(addr)) => match &facts.probed {
                None => StatusStep::Probe(*addr),
                Some(Ok(_)) => StatusStep::Finished(
                    Ok(
                        join3(
                            "service: loaded; DNS probe at ",
                            show_endpoint(*addr).as_str(),
                            ": healthy",
                        ),
                    ),
                ),
                Some(Err(e)) => {
                    let mut message: String = join3(
                        "service: loaded; DNS probe at ",
                        show_endpoint(*addr).as_str(),
                        ": failed (",
                    );
                    message.append(e.as_str());
                    message.append(")");
                    StatusStep::Finished(Ok(message))
                },
            },
        },
    }
}

// ---------- restart ----------

/// What `restart` has found out so far.
pub struct RestartFacts {
    /// Whether a replacement configuration was given.
    pub replacing: bool,
    pub root: Option<bool>,
    pub loaded: Option<bool>,
    /// Whether the running binary was installed, so that the job gets it.
    pub binary: Option<Result<(), String>>,
    /// Whether the replacement was installed, and the previous one kept.
    pub installed: Option<Result<(), String>>,
    pub kicked: Option<Result<(), String>>,
    pub probed: Option<Result<(), String>>,
    /// Whether the previous configuration was put back.
    pub reverted: Option<Result<(), String>>,
    pub kicked_again: Option<Result<(), String>>,
}

/// What `restart` does next.
pub enum RestartStep {
    CheckRoot,
    CheckLoaded,
    InstallBinary,
    InstallConfig,
    Kickstart,
    Probe,
    RevertConfig,
    KickstartAgain,
    Finished(Result<String, String>),
}

/// How a replacement that failed its probe is reported.
pub open spec fn replacement_message(probe: Seq<char>, rest: Seq<char>) -> Seq<char> {
    "new configuration failed its DNS probe: "@ + probe + rest
}

/// Whether `step` is what `restart` does once the job is known to be loaded and
/// the binary has been installed.
pub open spec fn is_reload_step(facts: RestartFacts, step: RestartStep) -> bool {
    match (facts.replacing, facts.installed) {
        (true, None) => step is InstallConfig,
        (true, Some(Err(e))) => step matches RestartStep::Finished(r) && ends_with_error(r, e@),
        _ => match facts.kicked {
            None => step is Kickstart,
            Some(Err(e)) => step matches RestartStep::Finished(r) && ends_with_error(r, e@),
            Some(Ok(_)) => match facts.probed {
                None => step is Probe,
                Some(Ok(_)) => step matches RestartStep::Finished(Ok(m)) && m@
                    == "service restarted and DNS probe passed"@,
                Some(Err(e)) => if !facts.replacing {
                    step matches RestartStep::Finished(r) && ends_with_error(r, e@)
                } else {
                    match facts.reverted {
                        None => step is RevertConfig,
                        Some(Err(x)) => step matches RestartStep::Finished(r) && ends_with_error(
                            r,
                            replacement_message(
                                e@,
                                "; restoring the previous configuration failed: "@ + x@,
                            ),
                        ),
                        Some(Ok(_)) => match facts.kicked_again {
                            None => step is KickstartAgain,
                            Some(Err(x)) => step matches RestartStep::Finished(r)
                                && ends_with_error(
                                r,
                                replacement_message(
                                    e@,
                                    "; restarting with the previous configuration failed: "@ + x@,
                                ),
                            ),
                            Some(Ok(_)) => step matches RestartStep::Finished(r)
                                && ends_with_error(
                                r,
                                replacement_message(e@, "; previous configuration restored"@),
                            ),
                        },
                    }
                },
            },
        },
    }
}

/// Whether `step` is what `restart` does next. The binary that was called is the
/// one that the job gets. Where a replacement fails its probe, the previous
/// configuration comes back and the job is restarted.
pub open spec fn is_restart_step(facts: RestartFacts, step: RestartStep) -> bool {
    match facts.root {
        None => step is CheckRoot,
        Some(false) => step matches RestartStep::Finished(r) && ends_with_error(r, root_message()),
        Some(true) => match facts.loaded {
            None => step is CheckLoaded,
            Some(false) => step matches RestartStep::Finished(r) && ends_with_error(
                r,
                "service is not loaded; use `dnsrivet start`"@,
            ),
            Some(true) => match facts.binary {
                None => step is InstallBinary,
                Some(Err(e)) => step matches RestartStep::Finished(r) && ends_with_error(r, e@),
                Some(Ok(_)) => is_reload_step(facts, step),
            },
        },
    }
}

pub fn restart(facts: &RestartFacts) -> (step: RestartStep)
    ensures
        is_restart_step(*facts, step),
{
    match facts.root {
        None => return RestartStep::CheckRoot,
        Some(false) => return RestartStep::Finished(Err(root_text())),
        Some(true) => {},
    }
    match facts.loaded {
        None => return RestartStep::CheckLoaded,
        Some(false) => return RestartStep::Finished(
            Err("service is not loaded; use `dnsrivet start`".to_owned()),
        ),
        Some(true) => {},
    }
    match &facts.binary {
        None => return RestartStep::InstallBinary,
        Some(Err(e)) => return RestartStep::Finished(Err(e.clone())),
        Some(Ok(_)) => {},
    }
    if facts.replacing {
        match &facts.installed {
            None => return RestartStep::InstallConfig,
            Some(Err(e)) => return RestartStep::Finished(Err(e.clone())),
            Some(Ok(_)) => {},
        }
    }
    match &facts.kicked {
        None => return RestartStep::Kickstart,
        Some(Err(e)) => return RestartStep::Finished(Err(e.clone())),
        Some(Ok(_)) => {},
    }
    let probe: &String = match &facts.probed {
        None => return RestartStep::Probe,
        Some(Ok(_)) => return RestartStep::Finished(
            Ok("service restarted and DNS probe passed".to_owned()),
        ),
        Some(Err(e)) => e,
    };
    if !facts.replacing {
        return RestartStep::Finished(Err(probe.clone()));
    }
    match &facts.reverted {
        None => return RestartStep::RevertConfig,
        Some(Err(x)) => return RestartStep::Finished(
            Err(
                join3(
                    "new configuration failed its DNS probe: ",
                    probe.as_str(),
                    join("; restoring the previous configuration failed: ", x.as_str()).as_str(),
                ),
            ),
        ),
        Some(Ok(_)) => {},
    }
    match &facts.kicked_again {
        None => RestartStep::KickstartAgain,
        Some(Err(x)) => RestartStep::Finished(
            Err(
                join3(
                    "new configuration failed its DNS probe: ",
                    probe.as_str(),
                    join(
                        "; restarting with the previous configuration failed: ",
                        x.as_str(),
                    ).as_str(),
                ),
            ),
        ),
        Some(Ok(_)) => RestartStep::Finished(
            Err(
                join3(
                    "new configuration failed its DNS probe: ",
                    probe.as_str(),
                    "; previous configuration restored",
                ),
            ),
        ),
    }
}

/// A replacement that fails its probe is never left in place without an
/// attempt to put the previous configuration back; and `restart` reports
/// success only after a probe that passed.
pub proof fn law_restart_reverts_a_bad_replacement(facts: RestartFacts, step: RestartStep)
    requires
        is_restart_step(facts, step),
        step is Finished,
    ensures
        facts.replacing && facts.root == Some(true) && facts.loaded == Some(true)
            && went_well(facts.binary) && went_well(facts.installed) && went_well(facts.kicked)
            && went_wrong(facts.probed) ==> facts.reverted is Some,
        step matches RestartStep::Finished(Ok(_)) ==> went_well(facts.probed),
{
}

/// The job is restarted only after the binary that was called has been
/// installed, so that an upgrade takes effect; and where that fails, nothing else
/// is touched.
pub proof fn law_restart_loads_the_new_binary(facts: RestartFacts, step: RestartStep)
    requires
        is_restart_step(facts, step),
    ensures
        step is InstallConfig || step is Kickstart || step is KickstartAgain || step
            is RevertConfig ==> went_well(facts.binary),
        step matches RestartStep::Finished(Ok(_)) ==> went_well(facts.binary) && went_well(
            facts.kicked,
        ),
        facts.root == Some(true) && facts.loaded == Some(true) ==> (facts.binary matches Some(Err(e))
            ==> step matches RestartStep::Finished(r) && ends_with_error(r, e@)),
{
}

// ---------- start ----------

/// What `start` has found out so far.
pub struct StartFacts {
    pub root: Option<bool>,
    pub loaded: Option<bool>,
    pub backup: Option<bool>,
    /// Whether the configuration was installed, and the address in it that is
    /// to take over.
    pub configured: Option<Result<Ip, String>>,
    /// Whether every listener could be bound.
    pub bound: Option<Result<(), String>>,
    /// Whether the binary and the property list were installed.
    pub installed: Option<Result<(), String>>,
    pub enabled: Option<Result<(), String>>,
    pub bootstrapped: Option<Result<(), String>>,
    pub probed: Option<Result<(), String>>,
    pub taken: Option<Result<(), String>>,
    /// Whether a failed takeover left its backup behind.
    pub leftover: Option<bool>,
    /// Whether the job was stopped again.
    pub unloaded: bool,
    /// Whether the property list was removed again.
    pub removed: bool,
}

/// What `start` does next.
pub enum StartStep {
    CheckRoot,
    CheckLoaded,
    CheckBackup,
    /// Install the configuration, load it and choose the takeover address.
    Configure,
    /// Bind every listener, and hold the sockets until the files are there.
    BindListeners,
    InstallFiles,
    Enable,
    Bootstrap,
    Probe(Ip),
    TakeOver(Ip),
    CheckLeftover,
    Bootout,
    RemovePlist,
    Finished(Result<String, String>),
}

/// Whether `step` undoes the loading of the job, or reports `message` once that
/// is done.
pub open spec fn is_unwinding(facts: StartFacts, step: StartStep, message: Seq<char>) -> bool {
    if !facts.unloaded {
        step is Bootout
    } else if !facts.removed {
        step is RemovePlist
    } else {
        step matches StartStep::Finished(r) && ends_with_error(r, message)
    }
}

/// How a takeover that could not be rolled back is reported.
pub open spec fn stuck_message(error: Seq<char>, ip: Ip) -> Seq<char> {
    "DNS takeover failed and rollback was incomplete: "@ + error
        + "; the service was left running so any network service still using "@ + ip_text(ip)
        + " can resolve—run `dnsrivet stop` to retry restoration"@
}

/// What `start` reports.
pub open spec fn started_message(ip: Ip) -> Seq<char> {
    "service started; system DNS now uses "@ + ip_text(ip)
        + " (backup: /Library/Application Support/DNSRivet/dns-backup.toml)"@
}

/// Whether `step` is what `start` does once the job has been loaded: the system
/// is pointed at the service only after the service has answered.
pub open spec fn is_loaded_step(facts: StartFacts, ip: Ip, step: StartStep) -> bool {
    match facts.probed {
        None => step == StartStep::Probe(ip),
        Some(Err(e)) => is_unwinding(
            facts,
            step,
            "service started but failed its DNS probe: "@ + e@,
        ),
        Some(Ok(_)) => match facts.taken {
            None => step == StartStep::TakeOver(ip),
            Some(Ok(_)) => step matches StartStep::Finished(Ok(m)) && m@ == started_message(ip),
            Some(Err(e)) => match facts.leftover {
                None => step is CheckLeftover,
                Some(true) => step matches StartStep::Finished(r) && ends_with_error(
                    r,
                    stuck_message(e@, ip),
                ),
                Some(false) => is_unwinding(
                    facts,
                    step,
                    "service was stopped because DNS takeover failed: "@ + e@,
                ),
            },
        },
    }
}

/// Whether `step` is what `start` does next.
pub open spec fn is_start_step(facts: StartFacts, step: StartStep) -> bool {
    match facts.root {
        None => step is CheckRoot,
        Some(false) => step matches StartStep::Finished(r) && ends_with_error(r, root_message()),
        Some(true) => match facts.loaded {
            None => step is CheckLoaded,
            Some(true) => step matches StartStep::Finished(r) && ends_with_error(
                r,
                "service is already loaded; use `dnsrivet restart`"@,
            ),
            Some(false) => match facts.backup {
                None => step is CheckBackup,
                Some(true) => step matches StartStep::Finished(r) && ends_with_error(
                    r,
                    "a previous DNS backup is still present; run `dnsrivet stop` before starting"@,
                ),
                Some(false) => match facts.configured {
                    None => step is Configure,
                    Some(Err(e)) => step matches StartStep::Finished(r) && ends_with_error(r, e@),
                    Some(Ok(ip)) => match facts.bound {
                        None => step is BindListeners,
                        Some(Err(e)) => step matches StartStep::Finished(r) && ends_with_error(
                            r,
                            e@,
                        ),
                        Some(Ok(_)) => match facts.installed {
                            None => step is InstallFiles,
                            Some(Err(e)) => step matches StartStep::Finished(r) && ends_with_error(
                                r,
                                e@,
                            ),
                            Some(Ok(_)) => match facts.enabled {
                                None => step is Enable,
                                Some(Err(e)) => step matches StartStep::Finished(r)
                                    && ends_with_error(r, e@),
                                Some(Ok(_)) => match facts.bootstrapped {
                                    None => step is Bootstrap,
                                    Some(Err(e)) => if !facts.removed {
                                        step is RemovePlist
                                    } else {
                                        step matches StartStep::Finished(r) && ends_with_error(
                                            r,
                                            e@,
                                        )
                                    },
                                    Some(Ok(_)) => is_loaded_step(facts, ip, step),
                                },
                            },
                        },
                    },
                },
            },
        },
    }
}

fn unwind(facts: &StartFacts, message: String) -> (step: StartStep)
    ensures
        is_unwinding(*facts, step, message@),
{
    if !facts.unloaded {
        StartStep::Bootout
    } else if !facts.removed {
        StartStep::RemovePlist
    } else {
        StartStep::Finished(Err(message))
    }
}

fn after_loading(facts: &StartFacts, ip: Ip) -> (step: StartStep)
    ensures
        is_loaded_step(*facts, ip, step),
{
    match &facts.probed {
        None => return StartStep::Probe(ip),
        Some(Err(e)) => return unwind(
            facts,
            join("service started but failed its DNS probe: ", e.as_str()),
        ),
        Some(Ok(_)) => {},
    }
    match &facts.taken {
        None => StartStep::TakeOver(ip),
        Some(Ok(_)) => StartStep::Finished(
            Ok(
                join3(
                    "service started; system DNS now uses ",
                    show_ip(ip).as_str(),
                    " (backup: /Library/Application Support/DNSRivet/dns-backup.toml)",
                ),
            ),
        ),
        Some(Err(e)) => match facts.leftover {
            None => StartStep::CheckLeftover,
            Some(true) => {
                let mut message: String = join3(
                    "DNS takeover failed and rollback was incomplete: ",
                    e.as_str(),
                    "; the service was left running so any network service still using ",
                );
                message.append(show_ip(ip).as_str());
                message.append(" can resolve—run `dnsrivet stop` to retry restoration");
                StartStep::Finished(Err(message))
            },
            Some(false) => unwind(
                facts,
                join("service was stopped because DNS takeover failed: ", e.as_str()),
            ),
        },
    }
}

pub fn start(facts: &StartFacts) -> (step: StartStep)
    ensures
        is_start_step(*facts, step),
{
    match facts.root {
        None => return StartStep::CheckRoot,
        Some(false) => return StartStep::Finished(Err(root_text())),
        Some(true) => {},
    }
    match facts.loaded {
        None => return StartStep::CheckLoaded,
        Some(true) => return StartStep::Finished(
            Err("service is already loaded; use `dnsrivet restart`".to_owned()),
        ),
        Some(false) => {},
    }
    match facts.backup {
        None => return StartStep::CheckBackup,
        Some(true) => return StartStep::Finished(
            Err(
                "a previous DNS backup is still present; run `dnsrivet stop` before starting".to_owned(),
            ),
        ),
        Some(false) => {},
    }
    let ip: Ip = match &facts.configured {
        None => return StartStep::Configure,
        Some(Err(e)) => return StartStep::Finished(Err(e.clone())),
        Some(Ok(ip)) => *ip,
    };
    match &facts.bound {
        None => return StartStep::BindListeners,
        Some(Err(e)) => return StartStep::Finished(Err(e.clone())),
        Some(Ok(_)) => {},
    }
    match &facts.installed {
        None => return StartStep::InstallFiles,
        Some(Err(e)) => return StartStep::Finished(Err(e.clone())),
        Some(Ok(_)) => {},
    }
    match &facts.enabled {
        None => return StartStep::Enable,
        Some(Err(e)) => return StartStep::Finished(Err(e.clone())),
        Some(Ok(_)) => {},
    }
    match &facts.bootstrapped {
        None => StartStep::Bootstrap,
        Some(Err(e)) => if !facts.removed {
            StartStep::RemovePlist
        } else {
            StartStep::Finished(Err(e.clone()))
        },
        Some(Ok(_)) => after_loading(facts, ip),
    }
}

/// The system's DNS is taken over only once the service has been loaded and has
/// answered a probe; a start that ends in success has taken it over; and one
/// that fails after loading the job has stopped the job and removed its
/// property list, unless DNS could not be given back.
pub proof fn law_start_takes_over_last(facts: StartFacts, step: StartStep)
    requires
        is_start_step(facts, step),
    ensures
        step is TakeOver ==> went_well(facts.bootstrapped) && went_well(facts.probed),
        step matches StartStep::Finished(Ok(_)) ==> went_well(facts.taken),
        step matches StartStep::Finished(Err(_)) && facts.root == Some(true) && facts.loaded == Some(
            false,
        ) && facts.backup == Some(false) && went_well(facts.configured)
            && went_well(facts.bound) && went_well(facts.installed)
            && went_well(facts.enabled) && went_well(facts.bootstrapped) ==> (
        facts.unloaded && facts.removed) || facts.leftover == Some(true),
{
}

// ---------- configuration files ----------

/// Which configuration a service gets.
pub enum ConfigSource {
    /// The text that command-line options stand for.
    Generated,
    /// The one that is installed already.
    Installed,
    /// A copy of this file.
    File(String),
    /// The annotated example.
    Example,
}

/// The path of a configuration file in the working directory.
pub open spec fn local_config() -> Seq<char> {
    "dnsrivet.toml"@
}

/// Choose the configuration to install: quick options win, then a named file,
/// which has to exist; then what is installed, a file in the working directory,
/// and the example.
pub fn install_config(
    generated: bool,
    explicit: Option<String>,
    explicit_is_file: bool,
    installed_is_file: bool,
    local_is_file: bool,
) -> (r: Result<ConfigSource, String>)
    ensures
        if generated {
            r matches Ok(source) && source is Generated
        } else {
            match explicit {
                Some(path) => if explicit_is_file {
                    r matches Ok(ConfigSource::File(p)) && p@ == path@
                } else {
                    r matches Err(m) && m@ == "config file not found: "@ + path@
                },
                None => if installed_is_file {
                    r matches Ok(source) && source is Installed
                } else if local_is_file {
                    r matches Ok(ConfigSource::File(p)) && p@ == local_config()
                } else {
                    r matches Ok(source) && source is Example
                },
            }
        },
{
    if generated {
        return Ok(ConfigSource::Generated);
    }
    match explicit {
        Some(path) => if explicit_is_file {
            Ok(ConfigSource::File(path))
        } else {
            Err(join("config file not found: ", path.as_str()))
        },
        None => if installed_is_file {
            Ok(ConfigSource::Installed)
        } else if local_is_file {
            Ok(ConfigSource::File("dnsrivet.toml".to_owned()))
        } else {
            Ok(ConfigSource::Example)
        },
    }
}

/// --config wins; otherwise try ./dnsrivet.toml (dev convenience), then the
/// system location used by the launchd service.
pub fn resolve_config_path(
    explicit: Option<String>,
    explicit_is_file: bool,
    local_is_file: bool,
    system_is_file: bool,
) -> (r: Result<String, String>)
    ensures
        match explicit {
            Some(path) => if explicit_is_file {
                r matches Ok(p) && p@ == path@
            } else {
                r matches Err(m) && m@ == "config file not found: "@ + path@
            },
            None => if local_is_file {
                r matches Ok(p) && p@ == local_config()
            } else if system_is_file {
                r matches Ok(p) && p@ == "/Library/Application Support/DNSRivet/config.toml"@
            } else {
                r matches Err(m) && m@
                    == "no config file found (tried dnsrivet.toml, /Library/Application Support/DNSRivet/config.toml); pass one with --config"@
            },
        },
{
    match explicit {
        Some(path) => if explicit_is_file {
            Ok(path)
        } else {
            Err(join("config file not found: ", path.as_str()))
        },
        None => if local_is_file {
            Ok("dnsrivet.toml".to_owned())
        } else if system_is_file {
            Ok("/Library/Application Support/DNSRivet/config.toml".to_owned())
        } else {
            Err(
                "no config file found (tried dnsrivet.toml, /Library/Application Support/DNSRivet/config.toml); pass one with --config".to_owned(),
            )
        },
    }
}

/// Whether a generated configuration may be written: an existing file is
/// replaced only by force, and the directory has to be there.
pub fn check_destination(
    path: &str,
    present: bool,
    force: bool,
    parent: &str,
    parent_is_dir: bool,
) -> (r: Result<(), String>)
    ensures
        if present && !force {
            r matches Err(m) && m@ == "refusing to replace "@ + path@
                + "; use --force to overwrite it"@
        } else if !parent_is_dir {
            r matches Err(m) && m@ == "config destination directory does not exist: "@ + parent@
        } else {
            r is Ok
        },
{
    if present && !force {
        Err(join3("refusing to replace ", path, "; use --force to overwrite it"))
    } else if !parent_is_dir {
        Err(join("config destination directory does not exist: ", parent))
    } else {
        Ok(())
    }
}

/// The warnings, each on a line of its own.
pub open spec fn warning_lines(warnings: Seq<Seq<char>>) -> Seq<char>
    decreases warnings.len(),
{
    if warnings.len() == 0 {
        Seq::empty()
    } else {
        warning_lines(warnings.drop_last()) + "\nwarning: "@ + warnings.last()
    }
}

/// What a successful check of a configuration reports.
pub fn check_report(path: &str, listeners: usize, upstreams: usize, warnings: &Vec<String>) -> (out:
    String)
    ensures
        out@ == "configuration valid: "@ + path@ + " ("@ + decimal(listeners as nat)
            + " listener(s), "@ + decimal(upstreams as nat) + " upstream(s))"@ + warning_lines(
            texts(warnings@),
        ),
{
    let mut out: String = join3("configuration valid: ", path, " (");
    out.append(show_number(listeners as u64).as_str());
    out.append(" listener(s), ");
    out.append(show_number(upstreams as u64).as_str());
    out.append(" upstream(s))");
    let ghost head = out@;
    let ghost all = texts(warnings@);
    let mut i: usize = 0;
    assert(head + Seq::<char>::empty() =~= head);
    while i < warnings.len()
        invariant
            i <= warnings@.len(),
            all == texts(warnings@),
            out@ == head + warning_lines(all.take(i as int)),
        decreases warnings@.len() - i,
    {
        proof {
            assert(all.take(i + 1).drop_last() =~= all.take(i as int));
            assert(all[i as int] == warnings@[i as int]@);
        }
        out.append("\nwarning: ");
        out.append(warnings[i].as_str());
        assert(out@ =~= head + warning_lines(all.take(i + 1)));
        i = i + 1;
    }
    assert(all.take(i as int) =~= all);
    out
}

// ---------- the command link ----------

/// What is found where the stable command goes.
#[derive(Clone, Copy, Debug, PartialEq, Eq, Structural)]
pub enum LinkState {
    Missing,
    /// A link to the installed binary.
    Owned,
    /// The package manager's entry that was used to get here.
    PackageEntry,
    Unrelated,
}

/// Whether to create the command: never over anything else.
pub fn creates_link(found: LinkState) -> (r: bool)
    ensures
        r == (found == LinkState::Missing),
{
    found == LinkState::Missing
}

/// Whether to remove the command: only our own.
pub fn removes_link(found: LinkState) -> (r: bool)
    ensures
        r == (found == LinkState::Owned),
{
    found == LinkState::Owned
}

// ---------- every step leads on ----------

/// `stop` asks only for what it does not know yet, so that it comes to an end.
pub proof fn law_stop_comes_to_an_end(facts: StopFacts, step: StopStep)
    requires
        is_stop_step(facts, step),
    ensures
        step is CheckRoot ==> facts.root is None,
        step is Release ==> facts.released is None,
        step is CheckManaged ==> facts.managed is None,
        step is Disable ==> facts.disabled is None,
        step is Bootout ==> facts.stopped is None,
{
}

/// `uninstall` asks only for what it does not know yet, so that it comes to an
/// end.
pub proof fn law_uninstall_comes_to_an_end(facts: UninstallFacts, step: UninstallStep)
    requires
        is_uninstall_step(facts, step),
    ensures
        step matches UninstallStep::Stop(s) ==> is_stop_step(facts.stop, s) && !(s is Finished),
        step is RemovePlist ==> facts.plist_removed is None,
        step is RemoveBinary ==> facts.binary_removed is None,
        step is ClearDisabled ==> facts.cleared is None,
{
}

/// `status` asks only for what it does not know yet, so that it comes to an end.
pub proof fn law_status_comes_to_an_end(facts: StatusFacts, step: StatusStep)
    requires
        is_status_step(facts, step),
    ensures
        step is CheckLoaded ==> facts.loaded is None,
        step is CheckInstalled ==> facts.installed is None,
        step is FindAddress ==> facts.address is None,
        step is Probe ==> facts.probed is None,
{
}

/// `restart` asks only for what it does not know yet, so that it comes to an
/// end.
pub proof fn law_restart_comes_to_an_end(facts: RestartFacts, step: RestartStep)
    requires
        is_restart_step(facts, step),
    ensures
        step is CheckRoot ==> facts.root is None,
        step is CheckLoaded ==> facts.loaded is None,
        step is InstallBinary ==> facts.binary is None,
        step is InstallConfig ==> facts.installed is None,
        step is Kickstart ==> facts.kicked is None,
        step is Probe ==> facts.probed is None,
        step is RevertConfig ==> facts.reverted is None,
        step is KickstartAgain ==> facts.kicked_again is None,
{
}

/// `start` asks only for what it does not know yet, and undoes nothing twice,
/// so that it comes to an end.
pub proof fn law_start_comes_to_an_end(facts: StartFacts, step: StartStep)
    requires
        is_start_step(facts, step),
    ensures
        step is CheckRoot ==> facts.root is None,
        step is CheckLoaded ==> facts.loaded is None,
        step is CheckBackup ==> facts.backup is None,
        step is Configure ==> facts.configured is None,
        step is BindListeners ==> facts.bound is None,
        step is InstallFiles ==> facts.installed is None,
        step is Enable ==> facts.enabled is None,
        step is Bootstrap ==> facts.bootstrapped is None,
        step is Probe ==> facts.probed is None,
        step is TakeOver ==> facts.taken is None,
        step is CheckLeftover ==> facts.leftover is None,
        step is Bootout ==> !facts.unloaded,
        step is RemovePlist ==> !facts.removed,
{
}

} // verus!
