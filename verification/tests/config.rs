use dnsrivet::config::{
    assemble, parse_service, parse_upstream, sorted_numeric, split_host_port, IpStack, LogLevel,
    Proto, RawConfig, RawListener, RawService, RawUpstream,
};
use dnsrivet::ip::{Endpoint, Ip};
use dnsrivet::outline::inspect;
use dnsrivet::quick::quick_toml;

fn raw(endpoint: &str) -> RawUpstream {
    RawUpstream {
        endpoint: endpoint.to_string(),
        ..RawUpstream::default()
    }
}

fn error_of(key: &str, raw: RawUpstream) -> String {
    match parse_upstream(key, raw, &mut Vec::new()) {
        Ok(_) => panic!("accepted"),
        Err(err) => err,
    }
}

#[test]
fn parses_ipv4_hostname_and_ipv6_endpoints() {
    assert_eq!(
        split_host_port("dns.example:853", 53),
        Some(("dns.example".into(), 853))
    );
    assert_eq!(
        split_host_port("[::1]:5354", 53),
        Some(("::1".into(), 5354))
    );
    assert_eq!(
        split_host_port("2606:4700::1111", 53),
        Some(("2606:4700::1111".into(), 53))
    );
}

#[test]
fn infers_protocol_and_default_doh_path() {
    let raw = RawUpstream {
        endpoint: "https://dns.example".into(),
        ..RawUpstream::default()
    };
    let upstream = parse_upstream("0", raw, &mut Vec::new()).unwrap();
    assert_eq!(upstream.proto, Proto::Doh);
    assert_eq!(upstream.host, "dns.example");
    assert_eq!(upstream.port, 443);
    assert_eq!(upstream.path, "/dns-query");
}

#[test]
fn zero_cache_size_disables_cache_with_warning() {
    let raw = RawService {
        cache_enable: true,
        cache_size: 0,
        ..RawService::default()
    };
    let mut warnings = Vec::new();
    let service = match parse_service(raw, &mut warnings) {
        Ok(service) => service,
        Err(err) => panic!("{err}"),
    };
    assert!(!service.cache_enable);
    assert_eq!(service.cache_size, 1);
    assert!(
        warnings
            .iter()
            .any(|warning| warning.contains("cache_size"))
    );
}

#[test]
fn splits_hosts_and_ports() {
    assert_eq!(split_host_port("", 53), None);
    assert_eq!(split_host_port("[::1]", 53), Some(("::1".into(), 53)));
    assert_eq!(split_host_port("[::1", 53), None);
    assert_eq!(split_host_port("[::1]x", 53), None);
    assert_eq!(split_host_port("[::1]:", 53), None);
    assert_eq!(split_host_port("host:65536", 53), None);
    assert_eq!(split_host_port("host:+53", 53), Some(("host".into(), 53)));
    assert_eq!(split_host_port("host", 853), Some(("host".into(), 853)));
    assert_eq!(split_host_port(":53", 1), Some(("".into(), 53)));
}

#[test]
fn upstream_defaults_follow_the_protocol() {
    for (endpoint, proto, port) in [
        ("h3://dns.example/q?x", Proto::Doh3, 443),
        ("quic://dns.example", Proto::Doq, 853),
        ("tls://dns.example", Proto::Dot, 853),
        ("dot://dns.example:8853", Proto::Dot, 8853),
        ("192.0.2.1", Proto::Legacy, 53),
        ("[2001:db8::1]:54", Proto::Legacy, 54),
    ] {
        let up = parse_upstream("7", raw(endpoint), &mut Vec::new()).unwrap();
        assert_eq!(up.proto, proto, "{endpoint}");
        assert_eq!(up.port, port, "{endpoint}");
        assert_eq!(up.name, "upstream.7");
        assert_eq!(up.timeout_ms, 5000);
        assert_eq!(up.ip_stack, IpStack::Both);
    }
    let h3 = parse_upstream("0", raw("h3://dns.example/q?x"), &mut Vec::new()).unwrap();
    assert_eq!(h3.path, "/q?x");
    let literal = parse_upstream("0", raw("[2001:db8::1]:54"), &mut Vec::new()).unwrap();
    assert_eq!(literal.host, "2001:db8::1");
    assert_eq!(
        literal.bootstrap_ip,
        Some(Ip::V6(0x2001, 0xdb8, 0, 0, 0, 0, 0, 1))
    );
}

#[test]
fn explicit_types_win_where_they_are_compatible() {
    let both = RawUpstream { kind: "DoH3".into(), ..raw("https://dns.example/") };
    let up = parse_upstream("0", both, &mut Vec::new()).unwrap();
    assert_eq!(up.proto, Proto::Doh3);
    assert_eq!(up.path, "/dns-query");
    let conflict = RawUpstream { kind: "DoT".into(), ..raw("https://dns.example") };
    assert_eq!(
        error_of("0", conflict),
        "[upstream.0] endpoint scheme https:// conflicts with type \"DoT\""
    );
}

#[test]
fn bare_doh_endpoints_and_split_stacks_are_warned_about() {
    let mut warnings = Vec::new();
    let bare = RawUpstream {
        kind: "doh".into(),
        ip_stack: "Split".into(),
        bootstrap_ip: "192.0.2.9".into(),
        name: "mine".into(),
        timeout: 0,
        ..raw("dns.example")
    };
    let up = parse_upstream("1", bare, &mut warnings).unwrap();
    assert_eq!(up.name, "mine");
    assert_eq!(up.timeout_ms, 0);
    assert_eq!(up.bootstrap_ip, Some(Ip::V4(192, 0, 2, 9)));
    assert_eq!(up.ip_stack, IpStack::Both);
    assert_eq!(
        warnings,
        [
            "[upstream.1] bare doh endpoint; assuming https://dns.example/dns-query",
            "[upstream.1] ip_stack \"split\" treated as \"both\" in this build"
        ]
    );
}

#[test]
fn every_upstream_error_is_reported() {
    assert_eq!(error_of("0", raw("")), "[upstream.0] endpoint is required");
    assert_eq!(
        error_of("0", RawUpstream { kind: "DNS".into(), ..raw("x") }),
        "[upstream.0] invalid type \"dns\" (expected doh, doh3, dot, doq or legacy)"
    );
    assert_eq!(
        error_of("0", raw("ftp://x")),
        "[upstream.0] unsupported endpoint scheme \"ftp\"://"
    );
    assert_eq!(
        error_of("0", raw("dns.example")),
        "[upstream.0] type is required for endpoint \"dns.example\""
    );
    assert_eq!(
        error_of("0", RawUpstream { kind: "dot".into(), ..raw("dns.example/x") }),
        "[upstream.0] dot endpoint must be host[:port], not a URL"
    );
    assert_eq!(
        error_of("0", raw("https://dns.example:x/")),
        "[upstream.0] invalid endpoint host: \"dns.example:x\""
    );
    assert_eq!(
        error_of("0", RawUpstream { bootstrap_ip: "01.2.3.4".into(), ..raw("tls://x") }),
        "[upstream.0] invalid bootstrap_ip: \"01.2.3.4\""
    );
    assert_eq!(
        error_of("0", RawUpstream { ip_stack: "V5".into(), ..raw("tls://x") }),
        "[upstream.0] invalid ip_stack: \"v5\""
    );
}

#[test]
fn log_levels_are_named_without_regard_to_case() {
    for (name, level) in [
        ("", LogLevel::Info),
        ("INFO", LogLevel::Info),
        ("trace", LogLevel::Trace),
        ("Debug", LogLevel::Debug),
        ("warning", LogLevel::Warn),
        ("error", LogLevel::Error),
        ("fatal", LogLevel::Error),
    ] {
        let raw = RawService { log_level: name.into(), ..RawService::default() };
        let mut warnings = Vec::new();
        match parse_service(raw, &mut warnings) {
            Ok(service) => assert_eq!(service.log_level, level, "{name}"),
            Err(err) => panic!("{err}"),
        }
        assert_eq!(warnings.len(), usize::from(name == "fatal"));
    }
    let raw = RawService { log_level: "Loud".into(), ..RawService::default() };
    match parse_service(raw, &mut Vec::new()) {
        Ok(_) => panic!("accepted"),
        Err(err) => assert_eq!(err, "[service] invalid log_level: \"loud\""),
    }
}

#[test]
fn sections_are_ordered_by_number() {
    let keys = |v: Vec<(String, ())>| v.into_iter().map(|(k, _)| k).collect::<Vec<_>>();
    let map = ["10", "2", "b", "0", "a"].map(|k| (k.to_string(), ())).to_vec();
    assert_eq!(keys(sorted_numeric(map)), ["0", "2", "10", "a", "b"]);
    let other = ["a", "b", "10", "0", "2"].map(|k| (k.to_string(), ())).to_vec();
    assert_eq!(keys(sorted_numeric(other)), ["0", "2", "10", "a", "b"]);
    let same_number = ["1", "+1", "01"].map(|k| (k.to_string(), ())).to_vec();
    assert_eq!(keys(sorted_numeric(same_number)), ["+1", "01", "1"]);
}

#[test]
fn configurations_are_assembled_in_order() {
    let loaded = assemble(
        RawConfig {
            service: RawService::default(),
            listener: vec![
                ("1".into(), RawListener { ip: "::1".into(), port: 54 }),
                ("0".into(), RawListener::default()),
            ],
            upstream: vec![
                ("10".into(), raw("192.0.2.2")),
                ("9".into(), raw("192.0.2.1")),
            ],
        },
        vec!["first".into()],
    );
    let loaded = match loaded {
        Ok(loaded) => loaded,
        Err(err) => panic!("{err}"),
    };
    assert_eq!(
        loaded.config.listeners,
        [
            Endpoint { ip: Ip::V4(127, 0, 0, 1), port: 53 },
            Endpoint { ip: Ip::V6(0, 0, 0, 0, 0, 0, 0, 1), port: 54 }
        ]
    );
    let hosts: Vec<_> = loaded.config.upstreams.iter().map(|u| u.host.as_str()).collect();
    assert_eq!(hosts, ["192.0.2.1", "192.0.2.2"]);
    assert_eq!(loaded.warnings, ["first"]);
    assert!(loaded.config.service.cache_enable);
    assert_eq!(loaded.config.service.cache_size, 4096);
    assert!(loaded.config.service.log_path.is_none());
}

#[test]
fn incomplete_configurations_are_refused() {
    let empty = RawConfig {
        service: RawService::default(),
        listener: vec![],
        upstream: vec![],
    };
    match assemble(empty, vec![]) {
        Ok(_) => panic!("accepted"),
        Err(err) => assert_eq!(err, "at least one [upstream.N] section is required"),
    }
    let bad_ip = RawConfig {
        service: RawService::default(),
        listener: vec![("0".into(), RawListener { ip: "localhost".into(), port: 53 })],
        upstream: vec![],
    };
    match assemble(bad_ip, vec![]) {
        Ok(_) => panic!("accepted"),
        Err(err) => assert_eq!(err, "[listener.0] invalid ip: \"localhost\""),
    }
    let no_listener = RawConfig {
        service: RawService::default(),
        listener: vec![],
        upstream: vec![("0".into(), raw("192.0.2.1"))],
    };
    match assemble(no_listener, vec![]) {
        Ok(loaded) => assert_eq!(
            loaded.config.listeners,
            [Endpoint { ip: Ip::V4(127, 0, 0, 1), port: 53 }]
        ),
        Err(err) => panic!("{err}"),
    }
}

#[test]
fn unknown_sections_and_fields_are_warned_about() {
    let text = "[service]\nlog_level = \"info\"\ncolour = 1\n[network.0]\nname = \"x\"\n\
                [listener.0]\nip = \"127.0.0.1\"\nrestricted = true\n\
                [upstream.0]\ntype = \"doh\"\nmagic = 1\n";
    assert_eq!(
        inspect(text).unwrap(),
        [
            "section [network] is not supported and was ignored",
            "[service] field \"colour\" is not supported and was ignored",
            "[listener.0] field \"restricted\" is not supported and was ignored",
            "[upstream.0] field \"magic\" is not supported and was ignored"
        ]
    );
    assert!(inspect("[upstream.0]\nname = \"a\"\ntype = \"\"\nendpoint = \"\"\nbootstrap_ip = \"\"\ntimeout = 1\nip_stack = \"\"\n").unwrap().is_empty());
    assert!(inspect("= 1").unwrap_err().starts_with("TOML parse error: "));
}

#[test]
fn quick_options_become_a_configuration_text() {
    let text = quick_toml(
        &vec!["127.0.0.1:5354".into()],
        &vec!["doh3=https://resolver.example/\"p\"".into(), "Legacy=192.0.2.1".into()],
        Some(250),
        Some(16),
        true,
    )
    .unwrap();
    assert_eq!(
        text,
        "[service]\ncache_enable = false\ncache_size = 16\n\n\
         [listener.0]\nip = \"127.0.0.1\"\nport = 5354\n\n\
         [upstream.0]\ntype = \"doh3\"\nendpoint = \"https://resolver.example/\\\"p\\\"\"\ntimeout = 250\n\n\
         [upstream.1]\ntype = \"legacy\"\nendpoint = \"192.0.2.1\"\ntimeout = 250\n\n"
    );
    assert!(inspect(&text).unwrap().is_empty());
}

#[test]
fn bad_quick_options_are_refused() {
    let none: Vec<String> = vec![];
    assert_eq!(
        quick_toml(&none, &none, None, None, false).unwrap_err(),
        "at least one --upstream TYPE=ENDPOINT is required"
    );
    assert_eq!(
        quick_toml(&vec!["localhost".into()], &vec!["dot=x".into()], None, None, false)
            .unwrap_err(),
        "invalid --listen address: \"localhost\""
    );
    for bad in ["dot", "dot=", "dns=x", "=x"] {
        let err = quick_toml(&none, &vec![bad.into()], None, None, false).unwrap_err();
        assert!(err.starts_with(&format!("invalid --upstream {bad:?}: ")));
    }
    let control = quick_toml(&none, &vec!["dot=a\tb".into()], None, None, false).unwrap();
    assert!(control.contains("endpoint = \"a\\u0009b\"\n"));
}
