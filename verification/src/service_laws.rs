//! What the service commands do and report, said of what they find out.

use crate::ip::{endpoint_text, ip_text, Endpoint, Ip};
use crate::service::{
    first_candidate, is_healthy, is_restart_step, is_start_step, is_status_step,
    is_stop_step, is_uninstall_step, is_wait_step, local_config, probe_bytes, takeover_ip, warning_lines, went_well, RestartFacts, RestartStep,
    StartFacts, StartStep, StatusFacts, StatusStep, StopFacts, StopStep, UninstallFacts,
    UninstallStep, WaitStep, BINARY_PATH, CONFIG_PATH, SUPPORT_DIR,
};
use vstd::prelude::*;
use vstd::string::*;

verus! {

// ---------- the takeover address ----------

/// Whether a listener is a loopback address on port 53.
pub open spec fn is_local_resolver(e: Endpoint) -> bool {
    e.port == 53 && (match e.ip {
        Ip::V4(a, _, _, _) => a == 127,
        Ip::V6(a, b, c, d, e, f, g, h) => a == 0 && b == 0 && c == 0 && d == 0 && e == 0 && f == 0
            && g == 0 && h == 1,
    })
}

proof fn lemma_candidates_come_first(listeners: Seq<Endpoint>, v4: bool, i: int)
    requires
        0 <= i,
    ensures
        first_candidate(listeners, v4, i) matches Some(ip) ==> exists|k: int|
            i <= k < listeners.len() && (#[trigger] listeners[k]).ip == ip && is_local_resolver(
                listeners[k],
            ) && (v4 ==> ip is V4) && forall|j: int|
                i <= j < k ==> !(is_local_resolver(#[trigger] listeners[j]) && (v4
                    ==> listeners[j].ip is V4)),
        first_candidate(listeners, v4, i) is None ==> forall|j: int|
            i <= j < listeners.len() ==> !(is_local_resolver(#[trigger] listeners[j]) && (v4
                ==> listeners[j].ip is V4)),
    decreases listeners.len() - i,
{
    if i < listeners.len() {
        lemma_candidates_come_first(listeners, v4, i + 1);
        if is_local_resolver(listeners[i]) && (v4 ==> listeners[i].ip is V4) {
            assert(first_candidate(listeners, v4, i) == Some(listeners[i].ip));
        } else {
            assert(first_candidate(listeners, v4, i) == first_candidate(listeners, v4, i + 1));
            if let Some(ip) = first_candidate(listeners, v4, i + 1) {
                let k = choose|k: int|
                    i + 1 <= k < listeners.len() && (#[trigger] listeners[k]).ip == ip
                        && is_local_resolver(listeners[k]) && (v4 ==> ip is V4) && forall|j: int|
                        i + 1 <= j < k ==> !(is_local_resolver(#[trigger] listeners[j]) && (v4
                            ==> listeners[j].ip is V4));
                assert(listeners[k].ip == ip);
            }
        }
    }
}

/// The system is pointed at the first IPv4 loopback listener on port 53; where
/// there is none, at the first IPv6 one; and service mode is refused only
/// where there is neither.
pub proof fn law_takeover_prefers_ipv4(listeners: Seq<Endpoint>)
    ensures
        takeover_ip(listeners) is None <==> forall|k: int|
            0 <= k < listeners.len() ==> !is_local_resolver(#[trigger] listeners[k]),
        takeover_ip(listeners) matches Some(ip) ==> exists|k: int|
            0 <= k < listeners.len() && (#[trigger] listeners[k]).ip == ip && is_local_resolver(
                listeners[k],
            ) && (ip is V4 ==> forall|j: int|
                0 <= j < k ==> !(is_local_resolver(#[trigger] listeners[j]) && listeners[j].ip
                    is V4)) && (ip is V6 ==> forall|j: int|
                0 <= j < listeners.len() ==> !(is_local_resolver(#[trigger] listeners[j])
                    && listeners[j].ip is V4)) && (ip is V6 ==> forall|j: int|
                0 <= j < k ==> !is_local_resolver(#[trigger] listeners[j])),
{
    lemma_candidates_come_first(listeners, true, 0);
    lemma_candidates_come_first(listeners, false, 0);
    if let Some(ip) = first_candidate(listeners, true, 0) {
        let k = choose|k: int|
            0 <= k < listeners.len() && (#[trigger] listeners[k]).ip == ip && is_local_resolver(
                listeners[k],
            ) && ip is V4 && forall|j: int|
                0 <= j < k ==> !(is_local_resolver(#[trigger] listeners[j]) && listeners[j].ip
                    is V4);
        assert(listeners[k].ip == ip && ip is V4 && !(ip is V6));
    } else if let Some(ip) = first_candidate(listeners, false, 0) {
        let k = choose|k: int|
            0 <= k < listeners.len() && (#[trigger] listeners[k]).ip == ip && is_local_resolver(
                listeners[k],
            ) && forall|j: int| 0 <= j < k ==> !is_local_resolver(#[trigger] listeners[j]);
        assert(listeners[k].ip == ip);
    }
}

// ---------- the health probe ----------

/// The probe asks, with recursion, one question: for the address (type 1) of
/// example.com in the Internet class (1).
pub proof fn law_the_probe(id: u16)
    ensures
        ({
            let q = probe_bytes(id);
            &&& q.len() == 29
            &&& q[0] * 256 + q[1] == id
            &&& q.subrange(2, 12) == seq![1u8, 0, 0, 1, 0, 0, 0, 0, 0, 0]
            &&& q[12] == 7
            &&& forall|i: int| 0 <= i < 7 ==> #[trigger] "example"@[i] == q[13 + i] as char
            &&& q[20] == 3
            &&& forall|i: int| 0 <= i < 3 ==> #[trigger] "com"@[i] == q[21 + i] as char
            &&& q.skip(24) == seq![0u8, 0, 1, 0, 1]
        }),
{
    reveal_strlit("example");
    reveal_strlit("com");
    let q = probe_bytes(id);
    assert(q.subrange(2, 12) =~= seq![1u8, 0, 0, 1, 0, 0, 0, 0, 0, 0]);
    assert(q.skip(24) =~= seq![0u8, 0, 1, 0, 1]);
}

/// A response is healthy where it has a whole header with the ID of the probe,
/// is a response (QR) without an error code, and counts at least one answer.
pub proof fn law_healthy_responses(id: u16, response: Seq<u8>)
    ensures
        is_healthy(id, response) <==> response.len() >= 12 && response[0] * 256 + response[1] == id
            && response[2] >= 128 && response[3] % 16 == 0 && response[6] * 256 + response[7] > 0,
{
    if response.len() >= 12 {
        let a = response[2];
        let b = response[3];
        assert((a & 0x80 != 0 <==> a >= 128) && (b & 0x0f == 0 <==> b % 16 == 0)) by (bit_vector);
    }
}

/// The wait gives up only when its time is over, and then with the last error; a
/// failed probe is followed by a rest, and a rest by another probe in time.
pub proof fn law_waiting_ends_with_the_last_error(
    now: u64,
    deadline: u64,
    last: Option<Result<(), String>>,
    slept: bool,
    step: WaitStep,
)
    requires
        is_wait_step(now, deadline, last, slept, step),
    ensures
        step matches WaitStep::Finished(Err(message)) ==> now >= deadline && (last matches Some(
            Err(e),
        ) ==> message@ == e@) && (last is None ==> message@ == "no response"@),
        last matches Some(Ok(_)) ==> step == WaitStep::Finished(Ok(())),
        last matches Some(Err(_)) ==> !slept ==> step is Sleep,
        last matches Some(Err(_)) ==> slept && now < deadline ==> step is Probe,
        last is None && now < deadline ==> step is Probe,
{
}

// ---------- stop and uninstall ----------

/// `stop` goes from permission to DNS to the job, disables only a job that is
/// there, and says which of the two it found to do.
pub proof fn law_stop_step_by_step(facts: StopFacts, step: StopStep)
    requires
        is_stop_step(facts, step),
    ensures
        facts.root is None ==> step is CheckRoot,
        facts.root == Some(false) ==> (step matches StopStep::Finished(Err(m)) && m@
            == "this command changes a system LaunchDaemon or DNS settings; rerun it with sudo"@),
        facts.root == Some(true) ==> {
            &&& facts.released is None ==> step is Release
            &&& facts.released matches Some(Err(e)) ==> (step matches StopStep::Finished(Err(m))
                && m@ == e@)
            &&& facts.released matches Some(Ok(released)) ==> {
                let past = facts.managed == Some(false) || facts.managed == Some(true)
                    && went_well(facts.disabled);
                &&& facts.managed is None ==> step is CheckManaged
                &&& facts.managed == Some(true) && facts.disabled is None ==> step is Disable
                &&& facts.managed == Some(true) ==> (facts.disabled matches Some(Err(e)) ==> (
                step matches StopStep::Finished(Err(m)) && m@ == e@))
                &&& past && facts.stopped is None ==> step is Bootout
                &&& past ==> (facts.stopped matches Some(Err(e)) ==> (step matches
                    StopStep::Finished(Err(m)) && m@ == e@))
                &&& past ==> (facts.stopped matches Some(Ok(stopped)) ==> (step matches
                    StopStep::Finished(Ok(m)) && {
                    &&& released && stopped ==> m@ == "service stopped and system DNS restored"@
                    &&& released && !stopped ==> m@
                        == "service was not loaded; system DNS was restored"@
                    &&& !released && stopped ==> m@
                        == "service stopped; no DNSRivet DNS backup existed, so DNS was unchanged"@
                    &&& !released && !stopped ==> m@ == "service is not loaded; DNS was unchanged"@
                }))
            }
        },
{
}

/// `uninstall` does what `stop` does, and then removes the property list, the
/// binary and, of a job that was there, the disabled override.
pub proof fn law_uninstall_step_by_step(facts: UninstallFacts, step: UninstallStep)
    requires
        is_uninstall_step(facts, step),
        facts.stop.root == Some(true),
        went_well(facts.stop.released),
        facts.stop.managed is Some,
        facts.stop.managed == Some(true) ==> went_well(facts.stop.disabled),
        went_well(facts.stop.stopped),
    ensures
        ({
            let removed = went_well(facts.plist_removed) && went_well(facts.binary_removed);
            let managed = facts.stop.managed == Some(true);
            let released = facts.stop.released == Some(Ok::<bool, String>(true));
            let stopped = facts.stop.stopped == Some(Ok::<bool, String>(true));
            &&& facts.plist_removed is None ==> step is RemovePlist
            &&& facts.plist_removed matches Some(Err(e)) ==> (step matches UninstallStep::Finished(
                Err(m),
            ) && m@ == e@)
            &&& went_well(facts.plist_removed) && facts.binary_removed is None ==> step
                is RemoveBinary
            &&& went_well(facts.plist_removed) ==> (facts.binary_removed matches Some(Err(e)) ==> (
            step matches UninstallStep::Finished(Err(m)) && m@ == e@))
            &&& removed && managed && facts.cleared is None ==> step is ClearDisabled
            &&& removed && managed ==> (facts.cleared matches Some(Err(e)) ==> (step matches
                UninstallStep::Finished(Err(m)) && m@ == e@))
            &&& removed && (!managed || went_well(facts.cleared)) ==> (step matches
                UninstallStep::Finished(Ok(m)) && {
                let end =
                    "; config preserved at /Library/Application Support/DNSRivet/config.toml"@;
                &&& stopped && released ==> m@ == "service uninstalled"@ + " and stopped"@
                    + "; system DNS restored"@ + end
                &&& stopped && !released ==> m@ == "service uninstalled"@ + " and stopped"@
                    + "; DNS unchanged"@ + end
                &&& !stopped && released ==> m@ == "service uninstalled"@ + "; system DNS restored"@
                    + end
                &&& !stopped && !released ==> m@ == "service uninstalled"@ + "; DNS unchanged"@
                    + end
            })
        }),
{
    let bare = "service uninstalled"@;
    assert(bare + Seq::<char>::empty() =~= bare);
}

// ---------- status ----------

/// What `status` reports of a job that is not there, does not run, answers, or
/// does not.
pub proof fn law_status_reports(facts: StatusFacts, step: StatusStep)
    requires
        is_status_step(facts, step),
    ensures
        facts.loaded is None ==> step is CheckLoaded,
        facts.loaded == Some(false) ==> {
            &&& facts.installed is None ==> step is CheckInstalled
            &&& facts.installed == Some(true) ==> (step matches StatusStep::Finished(Ok(m)) && m@
                == "service: installed but stopped"@)
            &&& facts.installed == Some(false) ==> (step matches StatusStep::Finished(Ok(m)) && m@
                == "service: not installed"@)
        },
        facts.loaded == Some(true) ==> {
            &&& facts.address is None ==> step is FindAddress
            &&& facts.address matches Some(Err(e)) ==> (step matches StatusStep::Finished(Err(m))
                && m@ == e@)
            &&& facts.address matches Some(Ok(at)) ==> {
                &&& facts.probed is None ==> step == StatusStep::Probe(at)
                &&& facts.probed matches Some(Ok(_)) ==> (step matches StatusStep::Finished(Ok(m))
                    && m@ == "service: loaded; DNS probe at "@ + endpoint_text(at)
                    + ": healthy"@)
                &&& facts.probed matches Some(Err(e)) ==> (step matches StatusStep::Finished(Ok(m))
                    && m@ == "service: loaded; DNS probe at "@ + endpoint_text(at) + ": failed ("@
                    + e@ + ")"@)
            }
        },
{
}

// ---------- restart ----------

/// `restart` needs permission and a loaded job, and installs the binary before
/// anything else.
pub proof fn law_restart_step_by_step(facts: RestartFacts, step: RestartStep)
    requires
        is_restart_step(facts, step),
    ensures
        facts.root is None ==> step is CheckRoot,
        facts.root == Some(false) ==> (step matches RestartStep::Finished(Err(m)) && m@
            == "this command changes a system LaunchDaemon or DNS settings; rerun it with sudo"@),
        facts.root == Some(true) && facts.loaded is None ==> step is CheckLoaded,
        facts.root == Some(true) && facts.loaded == Some(false) ==> (step matches
            RestartStep::Finished(Err(m)) && m@ == "service is not loaded; use `dnsrivet start`"@),
        facts.root == Some(true) && facts.loaded == Some(true) && facts.binary is None ==> step
            is InstallBinary,
{
}

/// After that it installs a replacement, if one was given, restarts the job and
/// probes it; a replacement that fails is taken back, and the job restarted.
pub proof fn law_reload_step_by_step(facts: RestartFacts, step: RestartStep)
    requires
        is_restart_step(facts, step),
        facts.root == Some(true),
        facts.loaded == Some(true),
        went_well(facts.binary),
    ensures
        ({
            let ready = !facts.replacing || went_well(facts.installed);
            let kicked = ready && went_well(facts.kicked);
            let failed = kicked && facts.replacing;
            &&& facts.replacing && facts.installed is None ==> step is InstallConfig
            &&& facts.replacing ==> (facts.installed matches Some(Err(e)) ==> (step matches
                RestartStep::Finished(Err(m)) && m@ == e@))
            &&& ready && facts.kicked is None ==> step is Kickstart
            &&& ready ==> (facts.kicked matches Some(Err(e)) ==> (step matches
                RestartStep::Finished(Err(m)) && m@ == e@))
            &&& kicked && facts.probed is None ==> step is Probe
            &&& kicked && went_well(facts.probed) ==> (step matches RestartStep::Finished(Ok(m))
                && m@ == "service restarted and DNS probe passed"@)
            &&& kicked && !facts.replacing ==> (facts.probed matches Some(Err(e)) ==> (
            step matches RestartStep::Finished(Err(m)) && m@ == e@))
            &&& failed ==> (facts.probed matches Some(Err(e)) ==> {
                let said = "new configuration failed its DNS probe: "@ + e@;
                &&& facts.reverted is None ==> step is RevertConfig
                &&& facts.reverted matches Some(Err(x)) ==> (step matches RestartStep::Finished(
                    Err(m),
                ) && m@ == said + ("; restoring the previous configuration failed: "@ + x@))
                &&& went_well(facts.reverted) && facts.kicked_again is None ==> step
                    is KickstartAgain
                &&& went_well(facts.reverted) ==> (facts.kicked_again matches Some(Err(x)) ==> (
                step matches RestartStep::Finished(Err(m)) && m@ == said + (
                "; restarting with the previous configuration failed: "@ + x@)))
                &&& went_well(facts.reverted) && went_well(facts.kicked_again) ==> (step matches
                    RestartStep::Finished(Err(m)) && m@ == said
                    + "; previous configuration restored"@)
            })
        }),
{
}

// ---------- start ----------

/// `start` refuses to run without permission, beside a loaded job, and over an
/// earlier backup.
pub proof fn law_start_refusals(facts: StartFacts, step: StartStep)
    requires
        is_start_step(facts, step),
    ensures
        facts.root is None ==> step is CheckRoot,
        facts.root == Some(false) ==> (step matches StartStep::Finished(Err(m)) && m@
            == "this command changes a system LaunchDaemon or DNS settings; rerun it with sudo"@),
        facts.root == Some(true) && facts.loaded is None ==> step is CheckLoaded,
        facts.root == Some(true) && facts.loaded == Some(true) ==> (step matches
            StartStep::Finished(Err(m)) && m@
            == "service is already loaded; use `dnsrivet restart`"@),
        facts.root == Some(true) && facts.loaded == Some(false) && facts.backup is None ==> step
            is CheckBackup,
        facts.root == Some(true) && facts.loaded == Some(false) && facts.backup == Some(true) ==> (
        step matches StartStep::Finished(Err(m)) && m@
            == "a previous DNS backup is still present; run `dnsrivet stop` before starting"@),
{
}

/// Whether nothing stands in the way of `start`.
pub open spec fn may_start(facts: StartFacts) -> bool {
    facts.root == Some(true) && facts.loaded == Some(false) && facts.backup == Some(false)
}

/// Each step of `start` follows all that come before it: configuration,
/// listeners, files, enabling and loading the job. The first that fails ends it.
pub proof fn law_start_step_by_step(facts: StartFacts, step: StartStep)
    requires
        is_start_step(facts, step),
        may_start(facts),
    ensures
        ({
            let a = went_well(facts.configured);
            let b = a && went_well(facts.bound);
            let c = b && went_well(facts.installed);
            let d = c && went_well(facts.enabled);
            &&& facts.configured is None ==> step is Configure
            &&& facts.configured matches Some(Err(e)) ==> (step matches StartStep::Finished(Err(m))
                && m@ == e@)
            &&& a && facts.bound is None ==> step is BindListeners
            &&& a ==> (facts.bound matches Some(Err(e)) ==> (step matches StartStep::Finished(
                Err(m),
            ) && m@ == e@))
            &&& b && facts.installed is None ==> step is InstallFiles
            &&& b ==> (facts.installed matches Some(Err(e)) ==> (step matches StartStep::Finished(
                Err(m),
            ) && m@ == e@))
            &&& c && facts.enabled is None ==> step is Enable
            &&& c ==> (facts.enabled matches Some(Err(e)) ==> (step matches StartStep::Finished(
                Err(m),
            ) && m@ == e@))
            &&& d && facts.bootstrapped is None ==> step is Bootstrap
            &&& d ==> (facts.bootstrapped matches Some(Err(e)) ==> {
                &&& !facts.removed ==> step is RemovePlist
                &&& facts.removed ==> (step matches StartStep::Finished(Err(m)) && m@ == e@)
            })
        }),
{
}

/// Once the job is loaded, it is probed at the address from its configuration,
/// and the system is pointed at that address; a failure stops the job and
/// removes its property list, unless DNS still leads to it.
pub proof fn law_takeover_step_by_step(facts: StartFacts, step: StartStep, ip: Ip)
    requires
        is_start_step(facts, step),
        may_start(facts),
        facts.configured == Some(Ok::<Ip, String>(ip)),
        went_well(facts.bound),
        went_well(facts.installed),
        went_well(facts.enabled),
        went_well(facts.bootstrapped),
    ensures
        facts.probed is None ==> step == StartStep::Probe(ip),
        facts.probed matches Some(Err(e)) ==> {
            &&& !facts.unloaded ==> step is Bootout
            &&& facts.unloaded && !facts.removed ==> step is RemovePlist
            &&& facts.unloaded && facts.removed ==> (step matches StartStep::Finished(Err(m)) && m@
                == "service started but failed its DNS probe: "@ + e@)
        },
        went_well(facts.probed) ==> {
            &&& facts.taken is None ==> step == StartStep::TakeOver(ip)
            &&& went_well(facts.taken) ==> (step matches StartStep::Finished(Ok(m)) && m@
                == "service started; system DNS now uses "@ + ip_text(ip)
                + " (backup: /Library/Application Support/DNSRivet/dns-backup.toml)"@)
            &&& facts.taken matches Some(Err(e)) ==> {
                &&& facts.leftover is None ==> step is CheckLeftover
                &&& facts.leftover == Some(true) ==> (step matches StartStep::Finished(Err(m))
                    && m@ == "DNS takeover failed and rollback was incomplete: "@ + e@
                    + "; the service was left running so any network service still using "@
                    + ip_text(ip)
                    + " can resolve—run `dnsrivet stop` to retry restoration"@)
                &&& facts.leftover == Some(false) ==> {
                    &&& !facts.unloaded ==> step is Bootout
                    &&& facts.unloaded && !facts.removed ==> step is RemovePlist
                    &&& facts.unloaded && facts.removed ==> (step matches StartStep::Finished(
                        Err(m),
                    ) && m@ == "service was stopped because DNS takeover failed: "@ + e@)
                }
            }
        },
{
}

// ---------- configuration files ----------

/// Warnings are told one after the other, each on a line of its own; the files of
/// the service lie in one directory.
pub proof fn law_warnings_are_told_in_order(warnings: Seq<Seq<char>>, warning: Seq<char>)
    ensures
        warning_lines(Seq::empty()) == Seq::<char>::empty(),
        warning_lines(warnings.push(warning)) == warning_lines(warnings) + "\nwarning: "@ + warning,
        local_config() == "dnsrivet.toml"@,
        SUPPORT_DIR@ == "/Library/Application Support/DNSRivet"@,
        CONFIG_PATH@ == SUPPORT_DIR@ + "/config.toml"@,
        BINARY_PATH@ == SUPPORT_DIR@ + "/dnsrivet"@,
{
    assert(warnings.push(warning).drop_last() =~= warnings);
    reveal_strlit("/Library/Application Support/DNSRivet");
    reveal_strlit("/config.toml");
    reveal_strlit("/dnsrivet");
    reveal_strlit("/Library/Application Support/DNSRivet/config.toml");
    reveal_strlit("/Library/Application Support/DNSRivet/dnsrivet");
    assert(CONFIG_PATH@ =~= SUPPORT_DIR@ + "/config.toml"@);
    assert(BINARY_PATH@ =~= SUPPORT_DIR@ + "/dnsrivet"@);
}

} // verus!
