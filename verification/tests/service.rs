use dnsrivet::ip::{parse_ip_text, show_ip, Endpoint, Ip};
use dnsrivet::launchd::{checked, checked_plist, render_plist, service_target, xml_escape, LABEL};
use dnsrivet::service::{
    check_destination, check_probe, check_report, creates_link, install_config, probe_query,
    removes_link, resolve_config_path, restart, start, status, stop, takeover_address, uninstall,
    wait_step, ConfigSource, LinkState, RestartFacts, RestartStep, StartFacts, StartStep,
    StatusFacts, StatusStep, StopFacts, StopStep, UninstallFacts, UninstallStep, WaitStep,
};

fn endpoint(ip: &str, port: u16) -> Endpoint {
    Endpoint { ip: parse_ip_text(ip).unwrap(), port }
}

#[test]
fn chooses_ipv4_loopback_listener_on_port_53() {
    let listeners = [endpoint("::1", 53), endpoint("127.0.0.1", 53)];
    assert_eq!(show_ip(takeover_address(&listeners).unwrap()), "127.0.0.1");
}

#[test]
fn rejects_nonstandard_service_listener() {
    assert!(takeover_address(&[endpoint("127.0.0.1", 5354)]).is_err());
}

#[test]
fn falls_back_to_an_ipv6_loopback_listener() {
    let listeners = [endpoint("192.0.2.1", 53), endpoint("::1", 53)];
    assert_eq!(show_ip(takeover_address(&listeners).unwrap()), "::1");
    assert_eq!(
        takeover_address(&[]).unwrap_err(),
        "service mode requires a loopback listener on port 53 (normally 127.0.0.1:53)"
    );
}

#[test]
fn plist_escapes_paths_and_contains_required_service_keys() {
    let plist = render_plist("/tmp/a&b", "/tmp/<config>");
    assert!(plist.contains("/tmp/a&amp;b"));
    assert!(plist.contains("/tmp/&lt;config&gt;"));
    assert!(plist.contains("<key>KeepAlive</key>"));
    assert!(plist.contains("<key>RunAtLoad</key>"));
    assert!(plist.contains(LABEL));
}

#[test]
fn plists_need_absolute_paths() {
    assert_eq!(
        checked_plist("dnsrivet", "/tmp/config").unwrap_err(),
        "launchd binary and config paths must be absolute"
    );
    assert_eq!(
        checked_plist("/a", "/b").unwrap(),
        render_plist("/a", "/b")
    );
    assert_eq!(xml_escape("\"'&<>x"), "&quot;&apos;&amp;&lt;&gt;x");
    assert_eq!(service_target(), format!("system/{LABEL}"));
}

#[test]
fn command_failures_quote_what_was_said() {
    assert_eq!(checked(true, "", "noise", "stop"), Ok(()));
    assert_eq!(checked(false, "out\n", " err\n", "stop"), Err("stop: err".to_string()));
    assert_eq!(checked(false, "out\n", "", "stop"), Err("stop: out".to_string()));
}

#[test]
fn probes_are_answered_with_an_answer() {
    let query = probe_query(0x0a0b);
    assert_eq!(&query[..6], &[0x0a, 0x0b, 1, 0, 0, 1]);
    assert_eq!(&query[12..], b"\x07example\x03com\0\0\x01\0\x01");
    let mut response = query.clone();
    response[2] |= 0x80;
    response[7] = 1;
    assert_eq!(check_probe(0x0a0b, &response), Ok(()));
    let broken = |i: usize, v: u8| {
        let mut r = response.clone();
        r[i] = v;
        check_probe(0x0a0b, &r)
    };
    for (i, v) in [(0, 0), (1, 0), (2, 1), (3, 2), (7, 0)] {
        assert_eq!(broken(i, v), Err("invalid DNS probe response".to_string()));
    }
    assert!(check_probe(0x0a0b, &response[..11]).is_err());
}

fn stop_facts() -> StopFacts {
    StopFacts { root: None, released: None, managed: None, disabled: None, stopped: None }
}

fn stopped(released: bool, stopped: bool) -> StopFacts {
    StopFacts {
        root: Some(true),
        released: Some(Ok(released)),
        managed: Some(true),
        disabled: Some(Ok(())),
        stopped: Some(Ok(stopped)),
    }
}

#[test]
fn stop_releases_dns_before_the_job() {
    assert!(matches!(stop(&stop_facts()), StopStep::CheckRoot));
    let user = StopFacts { root: Some(false), ..stop_facts() };
    assert!(matches!(stop(&user), StopStep::Finished(Err(e)) if e.contains("sudo")));
    let root = StopFacts { root: Some(true), ..stop_facts() };
    assert!(matches!(stop(&root), StopStep::Release));
    let stuck = StopFacts { released: Some(Err("no".into())), ..root };
    assert!(matches!(stop(&stuck), StopStep::Finished(Err(e)) if e == "no"));
    let released = StopFacts { released: Some(Ok(true)), ..stuck };
    assert!(matches!(stop(&released), StopStep::CheckManaged));
    let unmanaged = StopFacts { managed: Some(false), ..released };
    assert!(matches!(stop(&unmanaged), StopStep::Bootout));
    let managed = StopFacts { managed: Some(true), ..unmanaged };
    assert!(matches!(stop(&managed), StopStep::Disable));
    for (r, s, text) in [
        (true, true, "service stopped and system DNS restored"),
        (true, false, "service was not loaded; system DNS was restored"),
        (
            false,
            true,
            "service stopped; no DNSRivet DNS backup existed, so DNS was unchanged",
        ),
        (false, false, "service is not loaded; DNS was unchanged"),
    ] {
        assert!(matches!(stop(&stopped(r, s)), StopStep::Finished(Ok(m)) if m == text));
    }
}

#[test]
fn uninstall_removes_the_files_last() {
    let facts = |stop| UninstallFacts {
        stop,
        plist_removed: None,
        binary_removed: None,
        cleared: None,
    };
    assert!(matches!(
        uninstall(&facts(stop_facts())),
        UninstallStep::Stop(StopStep::CheckRoot)
    ));
    let begun = facts(stopped(true, true));
    assert!(matches!(uninstall(&begun), UninstallStep::RemovePlist));
    let listed = UninstallFacts { plist_removed: Some(Ok(())), ..begun };
    assert!(matches!(uninstall(&listed), UninstallStep::RemoveBinary));
    let removed = UninstallFacts { binary_removed: Some(Ok(())), ..listed };
    assert!(matches!(uninstall(&removed), UninstallStep::ClearDisabled));
    let cleared = UninstallFacts { cleared: Some(Ok(())), ..removed };
    assert!(matches!(
        uninstall(&cleared),
        UninstallStep::Finished(Ok(m)) if m == "service uninstalled and stopped; system DNS restored; config preserved at /Library/Application Support/DNSRivet/config.toml"
    ));
}

#[test]
fn status_tells_the_four_states_apart() {
    let none = || StatusFacts { loaded: None, installed: None, address: None, probed: None };
    assert!(matches!(status(&none()), StatusStep::CheckLoaded));
    for (installed, text) in [
        (true, "service: installed but stopped"),
        (false, "service: not installed"),
    ] {
        let facts = StatusFacts { loaded: Some(false), installed: Some(installed), ..none() };
        assert!(matches!(status(&facts), StatusStep::Finished(Ok(m)) if m == text));
    }
    let addr = endpoint("::1", 53);
    let found = || StatusFacts { loaded: Some(true), address: Some(Ok(addr)), ..none() };
    assert!(matches!(status(&found()), StatusStep::Probe(e) if e == addr));
    let healthy = StatusFacts { probed: Some(Ok(())), ..found() };
    assert!(matches!(
        status(&healthy),
        StatusStep::Finished(Ok(m)) if m == "service: loaded; DNS probe at [::1]:53: healthy"
    ));
    let failed = StatusFacts { probed: Some(Err("no response".into())), ..found() };
    assert!(matches!(
        status(&failed),
        StatusStep::Finished(Ok(m)) if m == "service: loaded; DNS probe at [::1]:53: failed (no response)"
    ));
}

#[test]
fn restart_reverts_a_replacement_that_fails_its_probe() {
    let facts = |replacing| RestartFacts {
        replacing,
        root: Some(true),
        loaded: Some(true),
        binary: Some(Ok(())),
        installed: Some(Ok(())),
        kicked: Some(Ok(())),
        probed: Some(Err("no response".into())),
        reverted: None,
        kicked_again: None,
    };
    assert!(matches!(
        restart(&facts(false)),
        RestartStep::Finished(Err(e)) if e == "no response"
    ));
    assert!(matches!(restart(&facts(true)), RestartStep::RevertConfig));
    let reverted = RestartFacts { reverted: Some(Ok(())), ..facts(true) };
    assert!(matches!(restart(&reverted), RestartStep::KickstartAgain));
    let again = RestartFacts { kicked_again: Some(Ok(())), ..reverted };
    assert!(matches!(
        restart(&again),
        RestartStep::Finished(Err(e)) if e == "new configuration failed its DNS probe: no response; previous configuration restored"
    ));
    let passed = RestartFacts { probed: Some(Ok(())), ..facts(true) };
    assert!(matches!(
        restart(&passed),
        RestartStep::Finished(Ok(m)) if m == "service restarted and DNS probe passed"
    ));
    let unloaded = RestartFacts { loaded: Some(false), ..facts(true) };
    assert!(matches!(
        restart(&unloaded),
        RestartStep::Finished(Err(e)) if e == "service is not loaded; use `dnsrivet start`"
    ));
}

#[test]
fn restart_installs_the_binary_before_it_restarts_the_job() {
    let mut facts = RestartFacts {
        replacing: false,
        root: Some(true),
        loaded: Some(true),
        binary: None,
        installed: None,
        kicked: None,
        probed: None,
        reverted: None,
        kicked_again: None,
    };
    assert!(matches!(restart(&facts), RestartStep::InstallBinary));
    facts.binary = Some(Err("disk full".into()));
    assert!(matches!(
        restart(&facts),
        RestartStep::Finished(Err(e)) if e == "disk full"
    ));
    facts.binary = Some(Ok(()));
    assert!(matches!(restart(&facts), RestartStep::Kickstart));
    facts.replacing = true;
    assert!(matches!(restart(&facts), RestartStep::InstallConfig));
    facts.installed = Some(Ok(()));
    assert!(matches!(restart(&facts), RestartStep::Kickstart));
}

#[test]
fn the_wait_for_dns_probes_until_the_deadline() {
    assert!(matches!(wait_step(0, 10, &None, false), WaitStep::Probe));
    assert!(matches!(
        wait_step(10, 10, &None, false),
        WaitStep::Finished(Err(e)) if e == "no response"
    ));
    let failed = Some(Err("refused".to_string()));
    assert!(matches!(wait_step(10, 10, &failed, false), WaitStep::Sleep));
    assert!(matches!(wait_step(9, 10, &failed, true), WaitStep::Probe));
    assert!(matches!(
        wait_step(10, 10, &failed, true),
        WaitStep::Finished(Err(e)) if e == "refused"
    ));
    assert!(matches!(
        wait_step(99, 10, &Some(Ok(())), false),
        WaitStep::Finished(Ok(()))
    ));
}

fn loaded_service() -> StartFacts {
    StartFacts {
        root: Some(true),
        loaded: Some(false),
        backup: Some(false),
        configured: Some(Ok(Ip::V4(127, 0, 0, 1))),
        bound: Some(Ok(())),
        installed: Some(Ok(())),
        enabled: Some(Ok(())),
        bootstrapped: Some(Ok(())),
        probed: None,
        taken: None,
        leftover: None,
        unloaded: false,
        removed: false,
    }
}

#[test]
fn start_takes_over_only_after_the_probe() {
    let ip = Ip::V4(127, 0, 0, 1);
    assert!(matches!(start(&loaded_service()), StartStep::Probe(i) if i == ip));
    let probed = StartFacts { probed: Some(Ok(())), ..loaded_service() };
    assert!(matches!(start(&probed), StartStep::TakeOver(i) if i == ip));
    let taken = StartFacts { taken: Some(Ok(())), ..probed };
    assert!(matches!(
        start(&taken),
        StartStep::Finished(Ok(m)) if m == "service started; system DNS now uses 127.0.0.1 (backup: /Library/Application Support/DNSRivet/dns-backup.toml)"
    ));
}

#[test]
fn start_undoes_itself_when_it_fails() {
    let failed = StartFacts { probed: Some(Err("no response".into())), ..loaded_service() };
    assert!(matches!(start(&failed), StartStep::Bootout));
    let stopped = StartFacts { unloaded: true, ..failed };
    assert!(matches!(start(&stopped), StartStep::RemovePlist));
    let removed = StartFacts { removed: true, ..stopped };
    assert!(matches!(
        start(&removed),
        StartStep::Finished(Err(e)) if e == "service started but failed its DNS probe: no response"
    ));
    let refused = StartFacts {
        probed: Some(Ok(())),
        taken: Some(Err("denied".into())),
        ..loaded_service()
    };
    assert!(matches!(start(&refused), StartStep::CheckLeftover));
    let stuck = StartFacts { leftover: Some(true), ..refused };
    assert!(matches!(
        start(&stuck),
        StartStep::Finished(Err(e)) if e == "DNS takeover failed and rollback was incomplete: denied; the service was left running so any network service still using 127.0.0.1 can resolve—run `dnsrivet stop` to retry restoration"
    ));
    let clean = StartFacts { leftover: Some(false), unloaded: true, removed: true, ..stuck };
    assert!(matches!(
        start(&clean),
        StartStep::Finished(Err(e)) if e == "service was stopped because DNS takeover failed: denied"
    ));
    let unloadable = StartFacts { bootstrapped: Some(Err("bad plist".into())), ..loaded_service() };
    assert!(matches!(start(&unloadable), StartStep::RemovePlist));
}

#[test]
fn start_refuses_what_is_already_there() {
    let loaded = StartFacts { loaded: Some(true), ..loaded_service() };
    assert!(matches!(
        start(&loaded),
        StartStep::Finished(Err(e)) if e == "service is already loaded; use `dnsrivet restart`"
    ));
    let backup = StartFacts { backup: Some(true), ..loaded_service() };
    assert!(matches!(
        start(&backup),
        StartStep::Finished(Err(e)) if e == "a previous DNS backup is still present; run `dnsrivet stop` before starting"
    ));
    let user = StartFacts { root: Some(false), ..loaded_service() };
    assert!(matches!(start(&user), StartStep::Finished(Err(_))));
}

#[test]
fn configurations_are_found_in_order() {
    let named = || Some("my.toml".to_string());
    assert_eq!(
        resolve_config_path(named(), true, true, true),
        Ok("my.toml".to_string())
    );
    assert_eq!(
        resolve_config_path(named(), false, true, true),
        Err("config file not found: my.toml".to_string())
    );
    assert_eq!(
        resolve_config_path(None, false, true, true),
        Ok("dnsrivet.toml".to_string())
    );
    assert_eq!(
        resolve_config_path(None, false, false, true),
        Ok("/Library/Application Support/DNSRivet/config.toml".to_string())
    );
    assert_eq!(
        resolve_config_path(None, false, false, false),
        Err("no config file found (tried dnsrivet.toml, /Library/Application Support/DNSRivet/config.toml); pass one with --config".to_string())
    );
    assert!(matches!(
        install_config(true, named(), false, false, false),
        Ok(ConfigSource::Generated)
    ));
    assert!(matches!(
        install_config(false, named(), true, true, true),
        Ok(ConfigSource::File(p)) if p == "my.toml"
    ));
    assert!(install_config(false, named(), false, true, true).is_err());
    assert!(matches!(
        install_config(false, None, false, true, true),
        Ok(ConfigSource::Installed)
    ));
    assert!(matches!(
        install_config(false, None, false, false, true),
        Ok(ConfigSource::File(p)) if p == "dnsrivet.toml"
    ));
    assert!(matches!(
        install_config(false, None, false, false, false),
        Ok(ConfigSource::Example)
    ));
}

#[test]
fn existing_files_are_replaced_only_by_force() {
    assert_eq!(
        check_destination("a.toml", true, false, ".", true),
        Err("refusing to replace a.toml; use --force to overwrite it".to_string())
    );
    assert_eq!(check_destination("a.toml", true, true, ".", true), Ok(()));
    assert_eq!(
        check_destination("x/a.toml", false, false, "x", false),
        Err("config destination directory does not exist: x".to_string())
    );
    assert_eq!(
        check_report("a.toml", 1, 2, &vec!["careful".to_string()]),
        "configuration valid: a.toml (1 listener(s), 2 upstream(s))\nwarning: careful"
    );
}

#[test]
fn only_our_own_link_is_touched() {
    assert!(creates_link(LinkState::Missing));
    assert!(!creates_link(LinkState::Unrelated));
    assert!(!creates_link(LinkState::PackageEntry));
    assert!(removes_link(LinkState::Owned));
    assert!(!removes_link(LinkState::Unrelated));
}
