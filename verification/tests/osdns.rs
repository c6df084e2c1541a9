use dnsrivet::ip::{parse_ip_text, Endpoint, Ip};
use dnsrivet::osdns::{
    classify, current_loopback_dns, failure_text, fallback_servers, filter_fallback_servers,
    parse_all_services, parse_dns_servers, parse_services, read_dns_servers,
    services_needing_reassert, set_dns_arguments, takeover_state, Backup, FallbackSource,
    ServiceDns, TakeoverState,
};
use dnsrivet::scutil::parse_scutil_global_dns;
use dnsrivet::takeover::{
    check_no_backup, guarded_services, lists_loopback, release, system_points_at_loopback,
    takeover_intact, watchdog_tick, Change, LoopbackFacts, LoopbackStep, ReleaseFacts, ReleaseStep,
    Restoration, Snapshot, Takeover, TickFacts, TickOutcome, TickStep,
};

fn ip(text: &str) -> Ip {
    parse_ip_text(text).unwrap()
}

fn service(name: &str, servers: &[&str]) -> ServiceDns {
    ServiceDns {
        name: name.to_string(),
        servers: servers.iter().map(|s| s.to_string()).collect(),
    }
}

fn describe(change: &Change) -> String {
    match change {
        Change::Assign { service, servers } => format!("{service}={}", servers.join(",")),
        Change::CreateMarker => "marker".to_string(),
        Change::RemoveBackup => "remove backup".to_string(),
        Change::FlushCaches => "flush".to_string(),
        Change::Finished(Ok(())) => "ok".to_string(),
        Change::Finished(Err(err)) => format!("error: {err}"),
    }
}

#[test]
fn parses_enabled_network_services() {
    let text = "An asterisk (*) denotes that a network service is disabled.\nWi-Fi\n*Thunderbolt Bridge\niPhone USB\n";
    assert_eq!(parse_services(text), ["Wi-Fi", "iPhone USB"]);
    assert_eq!(
        parse_all_services(text),
        ["Wi-Fi", "Thunderbolt Bridge", "iPhone USB"]
    );
}

#[test]
fn parses_dns_server_lists_and_empty_marker() {
    assert_eq!(
        parse_dns_servers("1.1.1.1\n2606:4700:4700::1111\n").unwrap(),
        ["1.1.1.1", "2606:4700:4700::1111"]
    );
    assert!(
        parse_dns_servers("There aren't any DNS Servers set on Wi-Fi.\n")
            .unwrap()
            .is_empty()
    );
    assert!(parse_dns_servers("unexpected output\n").is_none());
}

#[test]
fn parses_and_filters_effective_dns_servers() {
    let text = r#"
DNS configuration

resolver #1
  nameserver[0] : 192.168.1.1
  nameserver[1] : 127.0.0.1
resolver #2
  nameserver[0] : 192.168.1.1
  nameserver[1] : fe80::1%en0
  nameserver[2] : 2001:db8::53
"#;
    assert_eq!(
        filter_fallback_servers(parse_scutil_global_dns(text), &[ip("127.0.0.1")]),
        [ip("192.168.1.1"), ip("2001:db8::53")]
    );
}

#[test]
fn global_parser_excludes_domain_and_scoped_resolvers() {
    let text = r#"
DNS configuration

resolver #1
  search domain[0] : lan
  nameserver[0] : 192.168.1.1
  nameserver[1] : fdfd:3b1d:1c26::1

resolver #2
  domain   : corp.example
  nameserver[0] : 10.0.0.53

resolver #3
  domain   : local
  options  : mdns

DNS configuration (for scoped queries)

resolver #1
  nameserver[0] : 10.9.9.9
  if_index : 12 (en0)
"#;
    assert_eq!(
        parse_scutil_global_dns(text),
        [ip("192.168.1.1"), ip("fdfd:3b1d:1c26::1")]
    );
}

#[test]
fn drift_requires_exactly_the_takeover_address() {
    let current = vec![
        ("Wi-Fi".to_string(), vec!["127.0.0.1".to_string()]),
        (
            "USB LAN".to_string(),
            vec!["127.0.0.1".to_string(), "8.8.8.8".to_string()],
        ),
        ("Bridge".to_string(), Vec::new()),
    ];
    assert_eq!(
        services_needing_reassert(&current, "127.0.0.1"),
        ["USB LAN", "Bridge"]
    );
    assert!(!takeover_intact(ip("127.0.0.1"), &current));
    assert!(takeover_intact(ip("127.0.0.1"), &current[..1]));
}

#[test]
fn takeover_state_matrix() {
    assert_eq!(classify(false, false), TakeoverState::NotTakenOver);
    assert_eq!(classify(true, true), TakeoverState::Active);
    assert_eq!(classify(true, false), TakeoverState::Indeterminate);
    assert_eq!(classify(false, true), TakeoverState::Corrupted);
    assert_eq!(takeover_state(true, false), TakeoverState::Indeterminate);
}

#[test]
fn a_restriction_behind_the_server_counts_too() {
    let text = "DNS configuration\nresolver #1\n nameserver[0] : 10.0.0.1\n domain : x\nresolver #2\n nameserver[0] : 10.0.0.2\n";
    assert_eq!(parse_scutil_global_dns(text), [ip("10.0.0.2")]);
    assert!(parse_scutil_global_dns("resolver #1\n nameserver[0] : 10.0.0.1\n").is_empty());
}

#[test]
fn fallback_servers_come_from_the_backup_or_the_system() {
    let listeners = [Endpoint { ip: ip("192.0.2.7"), port: 53 }];
    let backup = |version, fallback: &[&str]| {
        FallbackSource::Backup(Backup {
            version,
            services: vec![service("Wi-Fi", &["198.51.100.1", "junk", "192.0.2.7"])],
            fallback_servers: fallback.iter().map(|s| s.to_string()).collect(),
        })
    };
    let at = |text: &str| Endpoint { ip: ip(text), port: 53 };
    assert_eq!(
        fallback_servers(&listeners, backup(2, &["192.0.2.53", "::1"])).unwrap(),
        [at("192.0.2.53")]
    );
    assert_eq!(
        fallback_servers(&listeners, backup(1, &[])).unwrap(),
        [at("198.51.100.1")]
    );
    assert_eq!(
        fallback_servers(&listeners, backup(3, &[])).unwrap_err(),
        "unsupported DNS backup version 3"
    );
    assert_eq!(
        fallback_servers(
            &listeners,
            FallbackSource::Effective(vec![ip("224.0.0.1"), ip("0.0.0.0"), ip("9.9.9.9"), ip("9.9.9.9")])
        )
        .unwrap(),
        [at("9.9.9.9")]
    );
}

#[test]
fn loopback_resolvers_are_listed_once() {
    let effective = vec![ip("127.0.0.1"), ip("9.9.9.9"), ip("127.0.0.1"), ip("::1")];
    assert_eq!(
        current_loopback_dns(&effective),
        [
            Endpoint { ip: ip("127.0.0.1"), port: 53 },
            Endpoint { ip: ip("::1"), port: 53 }
        ]
    );
    assert!(lists_loopback(&vec!["9.9.9.9".to_string(), "127.1.2.3".to_string()]));
    assert!(!lists_loopback(&vec!["9.9.9.9".to_string(), "localhost".to_string()]));
}

#[test]
fn networksetup_is_called_and_quoted_as_it_wants() {
    assert_eq!(
        set_dns_arguments("Wi-Fi", &vec![]),
        ["-setdnsservers", "Wi-Fi", "Empty"]
    );
    assert_eq!(
        set_dns_arguments("Wi-Fi", &vec!["1.1.1.1".to_string(), "8.8.8.8".to_string()]),
        ["-setdnsservers", "Wi-Fi", "1.1.1.1", "8.8.8.8"]
    );
    assert_eq!(failure_text("list", "  denied \n"), "list: denied");
    assert_eq!(
        read_dns_servers("Wi-Fi", "what\n").unwrap_err(),
        "unrecognized DNS server output for \"Wi-Fi\": \"what\\n\""
    );
}

#[test]
fn snapshots_refuse_services_that_already_point_here() {
    let mut snapshot = Snapshot::begin(ip("127.0.0.1"), vec![ip("192.168.1.1")]);
    assert!(snapshot
        .observe("Wi-Fi".to_string(), vec!["9.9.9.9".to_string()])
        .is_ok());
    let err = snapshot
        .observe("USB".to_string(), vec!["127.0.0.1".to_string()])
        .unwrap_err();
    assert_eq!(
        err,
        "network service \"USB\" already lists 127.0.0.1 as a DNS server; refusing to take over. Clear it first (sudo networksetup -setdnsservers \"USB\" Empty) or remove the other local DNS tool"
    );
}

#[test]
fn snapshots_become_backups() {
    let mut snapshot = Snapshot::begin(ip("127.0.0.1"), vec![ip("192.168.1.1"), ip("127.0.0.1")]);
    assert!(snapshot
        .observe("Wi-Fi".to_string(), vec!["9.9.9.9".to_string()])
        .is_ok());
    let backup = match snapshot.finish() {
        Ok(backup) => backup,
        Err(err) => panic!("{err}"),
    };
    assert_eq!(backup.version, 2);
    assert_eq!(backup.services.len(), 1);
    assert_eq!(backup.fallback_servers, ["192.168.1.1", "9.9.9.9"]);
    match Snapshot::begin(ip("127.0.0.1"), vec![]).finish() {
        Ok(_) => panic!("accepted"),
        Err(err) => assert_eq!(err, "networksetup returned no enabled network services"),
    }
}

fn run_takeover(failing: &[usize]) -> Vec<String> {
    let services = vec![
        service("A", &["1.1.1.1"]),
        service("B", &[]),
        service("C", &["8.8.8.8", "8.8.4.4"]),
    ];
    let mut takeover = Takeover::begin(services, ip("127.0.0.1"));
    let mut seen = Vec::new();
    for step in 0..20 {
        let change = takeover.next();
        seen.push(describe(&change));
        if matches!(change, Change::Finished(_)) {
            break;
        }
        takeover = takeover.report(if failing.contains(&step) {
            Err(format!("step {step} failed"))
        } else {
            Ok(())
        });
    }
    seen
}

#[test]
fn a_takeover_marks_only_after_every_service() {
    assert_eq!(
        run_takeover(&[]),
        ["A=127.0.0.1", "B=127.0.0.1", "C=127.0.0.1", "marker", "flush", "ok"]
    );
    assert_eq!(
        run_takeover(&[3]),
        [
            "A=127.0.0.1",
            "B=127.0.0.1",
            "C=127.0.0.1",
            "marker",
            "C=8.8.8.8,8.8.4.4",
            "B=",
            "A=1.1.1.1",
            "flush",
            "remove backup",
            "error: step 3 failed; DNS takeover rollback completed"
        ]
    );
    assert_eq!(
        run_takeover(&[3, 5]).last().unwrap(),
        "error: step 3 failed; DNS takeover rollback was incomplete"
    );
}

#[test]
fn a_failed_takeover_is_rolled_back_in_reverse() {
    assert_eq!(
        run_takeover(&[2]),
        [
            "A=127.0.0.1",
            "B=127.0.0.1",
            "C=127.0.0.1",
            "B=",
            "A=1.1.1.1",
            "flush",
            "remove backup",
            "error: step 2 failed; DNS takeover rollback completed"
        ]
    );
    assert_eq!(
        run_takeover(&[1, 2]),
        [
            "A=127.0.0.1",
            "B=127.0.0.1",
            "A=1.1.1.1",
            "flush",
            "error: step 1 failed; DNS takeover rollback was incomplete"
        ]
    );
}

fn run_restoration(failing: &[usize]) -> (Vec<String>, Vec<String>) {
    let backup = Backup {
        version: 2,
        services: vec![service("A", &["1.1.1.1"]), service("Gone", &[]), service("B", &[])],
        fallback_servers: vec![],
    };
    let current = vec!["A".to_string(), "B".to_string()];
    let (mut restoration, warnings) = match Restoration::begin(backup, &current) {
        Ok(begun) => begun,
        Err(err) => panic!("{err}"),
    };
    let mut seen = Vec::new();
    for step in 0..20 {
        let change = restoration.next();
        seen.push(describe(&change));
        if matches!(change, Change::Finished(_)) {
            break;
        }
        restoration = restoration.report(if failing.contains(&step) {
            Err(format!("step {step} failed"))
        } else {
            Ok(())
        });
    }
    (seen, warnings)
}

#[test]
fn a_restoration_gives_every_service_back() {
    let (seen, warnings) = run_restoration(&[]);
    assert_eq!(seen, ["A=1.1.1.1", "B=", "remove backup", "flush", "ok"]);
    assert_eq!(
        warnings,
        ["network service \"Gone\" no longer exists; skipping its DNS restore"]
    );
    let (seen, _) = run_restoration(&[0, 1]);
    assert_eq!(
        seen,
        [
            "A=1.1.1.1",
            "B=",
            "error: could not restore every network service: step 0 failed; step 1 failed (backup retained at /Library/Application Support/DNSRivet/dns-backup.toml)"
        ]
    );
    let unknown = Backup { version: 9, services: vec![], fallback_servers: vec![] };
    match Restoration::begin(unknown, &vec![]) {
        Ok(_) => panic!("accepted"),
        Err(err) => assert_eq!(err, "unsupported DNS backup version 9"),
    }
}

fn facts() -> ReleaseFacts {
    ReleaseFacts { backup: None, marker: None, loopback: None, unmarked: None, restored: None }
}

#[test]
fn release_handles_all_four_states() {
    assert!(matches!(release(&facts()), ReleaseStep::CheckBackup));
    let none = ReleaseFacts { backup: Some(false), ..facts() };
    assert!(matches!(release(&none), ReleaseStep::CheckMarker));
    let clean = ReleaseFacts { marker: Some(false), ..none };
    assert!(matches!(release(&clean), ReleaseStep::Finished(Ok(false))));
    let marked = ReleaseFacts { backup: Some(false), marker: Some(true), ..facts() };
    assert!(matches!(release(&marked), ReleaseStep::CheckLoopback));
    let stranded = ReleaseFacts { loopback: Some(Ok(true)), ..marked };
    assert!(matches!(release(&stranded), ReleaseStep::Finished(Err(e)) if e.contains("would cut off DNS")));
    let leftover = ReleaseFacts { loopback: Some(Ok(false)), ..stranded };
    assert!(matches!(release(&leftover), ReleaseStep::RemoveMarker));
    let gone = ReleaseFacts { unmarked: Some(Ok(())), ..leftover };
    assert!(matches!(release(&gone), ReleaseStep::Finished(Ok(false))));

    let active = ReleaseFacts { backup: Some(true), ..facts() };
    assert!(matches!(release(&active), ReleaseStep::RemoveMarker));
    let unmarked = ReleaseFacts { unmarked: Some(Ok(())), ..active };
    assert!(matches!(release(&unmarked), ReleaseStep::Restore));
    let restored = ReleaseFacts { restored: Some(Ok(true)), ..unmarked };
    assert!(matches!(release(&restored), ReleaseStep::Finished(Ok(true))));
}

#[test]
fn the_watchdog_captures_before_it_corrects() {
    let server = ip("127.0.0.1");
    let tick = |backup, marker| TickFacts { backup, marker, current: None, effective: None };
    assert!(matches!(watchdog_tick(server, tick(None, None)), TickStep::CheckGate));
    assert!(matches!(
        watchdog_tick(server, tick(Some(true), Some(false))),
        TickStep::Finished(TickOutcome::NotActive)
    ));
    assert!(matches!(
        watchdog_tick(server, tick(Some(true), Some(true))),
        TickStep::ReadServices
    ));
    let intact = vec![("A".to_string(), vec!["127.0.0.1".to_string()])];
    let clean = TickFacts { current: Some(intact), ..tick(Some(true), Some(true)) };
    assert!(matches!(
        watchdog_tick(server, clean),
        TickStep::Finished(TickOutcome::Clean)
    ));
    let drifted = || vec![("A".to_string(), vec![]), ("B".to_string(), vec!["127.0.0.1".to_string()])];
    let lost = TickFacts { current: Some(drifted()), ..tick(Some(true), Some(true)) };
    assert!(matches!(watchdog_tick(server, lost), TickStep::CaptureDns));
    let captured = TickFacts {
        current: Some(drifted()),
        effective: Some(Some(vec![ip("192.168.1.1"), ip("127.0.0.1")])),
        ..tick(Some(true), Some(true))
    };
    let mut work = match watchdog_tick(server, captured) {
        TickStep::Correct(work) => work,
        _ => panic!("expected a correction"),
    };
    assert_eq!(describe(&work.next()), "A=127.0.0.1");
    work = work.report(Ok(()));
    assert_eq!(describe(&work.next()), "flush");
    work = work.report(Ok(()));
    assert_eq!(describe(&work.next()), "ok");
    match work.into_outcome() {
        TickOutcome::Reasserted { corrected, captured } => {
            assert_eq!(corrected, ["A"]);
            assert_eq!(captured, [Endpoint { ip: ip("192.168.1.1"), port: 53 }]);
        }
        _ => panic!("expected a reassertion"),
    }
}

#[test]
fn an_incomplete_reassertion_is_reported() {
    let facts = TickFacts {
        backup: Some(true),
        marker: Some(true),
        current: Some(vec![("A".to_string(), vec![]), ("B".to_string(), vec![])]),
        effective: Some(None),
    };
    let mut work = match watchdog_tick(ip("::1"), facts) {
        TickStep::Correct(work) => work,
        _ => panic!("expected a correction"),
    };
    assert_eq!(describe(&work.next()), "A=::1");
    work = work.report(Err("denied".to_string()));
    work = work.report(Err("busy".to_string()));
    work = work.report(Ok(()));
    assert_eq!(describe(&work.next()), "error: reassert incomplete: denied; busy");
}

#[test]
fn the_search_for_a_loopback_resolver_reads_service_by_service() {
    let mut facts = LoopbackFacts { effective: None, services: None, servers: vec![] };
    assert!(matches!(system_points_at_loopback(&facts), LoopbackStep::ReadEffective));
    facts.effective = Some(Ok(vec![ip("192.0.2.1"), ip("::1")]));
    assert!(matches!(
        system_points_at_loopback(&facts),
        LoopbackStep::Finished(Ok(true))
    ));
    facts.effective = Some(Ok(vec![ip("192.0.2.1")]));
    assert!(matches!(system_points_at_loopback(&facts), LoopbackStep::ListServices));
    facts.services = Some(Ok(vec!["A".to_string(), "B".to_string()]));
    assert!(matches!(
        system_points_at_loopback(&facts),
        LoopbackStep::ReadService(name) if name == "A"
    ));
    facts.servers.push(Ok(vec!["192.0.2.1".to_string(), "x".to_string()]));
    assert!(matches!(
        system_points_at_loopback(&facts),
        LoopbackStep::ReadService(name) if name == "B"
    ));
    facts.servers.push(Ok(vec![]));
    assert!(matches!(
        system_points_at_loopback(&facts),
        LoopbackStep::Finished(Ok(false))
    ));
    facts.servers[1] = Ok(vec!["127.0.0.53".to_string()]);
    assert!(matches!(
        system_points_at_loopback(&facts),
        LoopbackStep::Finished(Ok(true))
    ));
    facts.servers[0] = Err("denied".to_string());
    assert!(matches!(
        system_points_at_loopback(&facts),
        LoopbackStep::Finished(Err(err)) if err == "denied"
    ));
}

#[test]
fn only_services_that_still_exist_are_guarded() {
    let backup = Backup {
        version: 2,
        services: vec![service("A", &[]), service("B", &["192.0.2.1"])],
        fallback_servers: vec![],
    };
    let current = vec!["B".to_string(), "C".to_string()];
    assert_eq!(guarded_services(&backup, &current), ["B"]);
}

#[test]
fn a_backup_that_is_still_there_stops_a_takeover() {
    assert!(check_no_backup(false).is_ok());
    assert!(check_no_backup(true)
        .unwrap_err()
        .starts_with("DNS backup already exists at "));
}

#[test]
fn a_service_that_was_read_twice_is_given_back_twice() {
    let backup = Backup {
        version: 1,
        services: vec![service("A", &["1.1.1.1"]), service("A", &["1.1.1.1"])],
        fallback_servers: vec![],
    };
    let mut restoration = match Restoration::begin(backup, &vec!["A".to_string()]) {
        Ok((restoration, _)) => restoration,
        Err(err) => panic!("{err}"),
    };
    for expected in ["A=1.1.1.1", "A=1.1.1.1", "remove backup", "flush", "ok"] {
        assert_eq!(describe(&restoration.next()), expected);
        restoration = restoration.report(Ok(()));
    }
}
