use dnsrivet::cli::{parse, Command, USAGE};
use dnsrivet::config::LogLevel;
use dnsrivet::ip::{parse_ip_text, show_endpoint, show_ip, Endpoint, Ip};
use dnsrivet::logger::{civil_from_days, effective_level, enabled, log_line, timestamp};
use dnsrivet::text::{parse_number, show_number, split_lines, to_lower, trim};

fn args(words: &[&str]) -> Vec<String> {
    words.iter().map(|w| w.to_string()).collect()
}

fn error_of(words: &[&str]) -> String {
    match parse(args(words)) {
        Ok(_) => panic!("accepted"),
        Err(err) => err,
    }
}

#[test]
fn run_takes_a_config_and_quick_options() {
    match parse(args(&["run", "-c", "a.toml", "-v"])) {
        Ok(Command::Run { config, verbose, quick }) => {
            assert_eq!(config.as_deref(), Some("a.toml"));
            assert!(verbose);
            assert!(quick.is_empty());
        }
        _ => panic!("expected run"),
    }
    let words = [
        "run",
        "--listen=127.0.0.1:5354",
        "--upstream",
        "doh3=https://a",
        "--upstream",
        "dot=b",
        "--timeout",
        "250",
        "--cache-size=16",
        "--no-cache",
    ];
    match parse(args(&words)) {
        Ok(Command::Run { config: None, verbose: false, quick }) => {
            assert_eq!(quick.listeners, ["127.0.0.1:5354"]);
            assert_eq!(quick.upstreams, ["doh3=https://a", "dot=b"]);
            assert_eq!(quick.timeout_ms, Some(250));
            assert_eq!(quick.cache_size, Some(16));
            assert!(quick.no_cache);
        }
        _ => panic!("expected run"),
    }
}

#[test]
fn service_commands_take_what_they_understand() {
    assert!(matches!(parse(args(&["stop"])), Ok(Command::Stop)));
    assert!(matches!(parse(args(&["status"])), Ok(Command::Status)));
    assert!(matches!(parse(args(&["uninstall"])), Ok(Command::Uninstall)));
    assert!(matches!(parse(args(&["version"])), Ok(Command::Version)));
    assert!(matches!(
        parse(args(&["restart", "--config", "x"])),
        Ok(Command::Restart { config: Some(c), .. }) if c == "x"
    ));
    assert!(matches!(
        parse(args(&["start", "--upstream", "dot=x"])),
        Ok(Command::Start { config: None, quick }) if quick.upstreams == ["dot=x"]
    ));
    for words in [
        ["start", "-v"],
        ["restart", "--verbose"],
        ["stop", "-cx"],
        ["status", "--no-cache"],
        ["uninstall", "--force"],
        ["version", "--output=x"],
        ["run", "--force"],
    ] {
        assert_eq!(error_of(&words), format!("unsupported option for {}", words[0]));
    }
}

#[test]
fn config_commands_are_two_words() {
    match parse(args(&["config", "init", "--upstream", "dot=x", "--force"])) {
        Ok(Command::ConfigInit { output, force, quick }) => {
            assert_eq!(output, "dnsrivet.toml");
            assert!(force);
            assert_eq!(quick.upstreams, ["dot=x"]);
        }
        _ => panic!("expected config init"),
    }
    assert!(matches!(
        parse(args(&["config", "check", "--config", "x"])),
        Ok(Command::ConfigCheck { config: Some(c) }) if c == "x"
    ));
    assert_eq!(
        error_of(&["config", "init"]),
        "config init requires --upstream TYPE=ENDPOINT"
    );
    assert_eq!(error_of(&["config"]), "config requires init or check");
    assert_eq!(error_of(&["config", "show"]), "unknown command: config show");
    assert_eq!(
        error_of(&["config", "init", "-v", "--no-cache"]),
        "unsupported option for config init"
    );
    assert_eq!(
        error_of(&["config", "check", "--force"]),
        "unsupported option for config check"
    );
}

#[test]
fn help_is_the_default_and_wins_at_once() {
    assert!(matches!(parse(args(&[])), Ok(Command::Help)));
    assert!(matches!(parse(args(&["stop", "-h", "--bogus"])), Ok(Command::Help)));
    assert!(USAGE.contains("dnsrivet <command> [options]"));
}

#[test]
fn bad_command_lines_are_refused() {
    assert_eq!(error_of(&["fly"]), "unknown command: fly");
    assert_eq!(error_of(&["run", "--bogus"]), "invalid option '--bogus'");
    assert_eq!(error_of(&["run", "-x"]), "invalid option '-x'");
    assert_eq!(error_of(&["run", "again"]), "unexpected argument \"again\"");
    assert_eq!(
        error_of(&["run", "--config"]),
        "missing argument for option '--config'"
    );
    assert_eq!(
        error_of(&["run", "--verbose=yes"]),
        "unexpected argument for option '--verbose': \"yes\""
    );
    assert_eq!(
        error_of(&["run", "--timeout", "soon"]),
        "invalid value for --timeout: \"soon\""
    );
    assert_eq!(
        error_of(&["run", "--cache-size", "-1"]),
        "invalid value for --cache-size: \"-1\""
    );
    assert_eq!(error_of(&["--", "-v"]), "unknown command: -v");
}

#[test]
fn addresses_are_read_and_written_canonically() {
    for (text, shown) in [
        ("127.0.0.1", "127.0.0.1"),
        ("::", "::"),
        ("::1", "::1"),
        ("1::", "1::"),
        ("2001:DB8:0:0:1:0:0:1", "2001:db8::1:0:0:1"),
        ("1:0:3:4:5:6:7:8", "1:0:3:4:5:6:7:8"),
        ("::ffff:192.0.2.1", "::ffff:192.0.2.1"),
        ("64:ff9b::192.0.2.33", "64:ff9b::c000:221"),
        ("1:2:3:4:5:6:1.2.3.4", "1:2:3:4:5:6:102:304"),
        ("0001:02::", "1:2::"),
    ] {
        assert_eq!(show_ip(parse_ip_text(text).unwrap()), shown, "{text}");
    }
    for bad in [
        "", "1.2.3", "1.2.3.4.5", "256.1.1.1", "01.2.3.4", "1.2.3.+4", " 1.2.3.4", "1.2.3.4 ",
        ":", ":::", "1:2:3:4:5:6:7", "1:2:3:4:5:6:7:8:9", "1::2::3", "12345::", "g::", "fe80::1%en0",
        "1.2.3.4::", "::1.2.3.4:5", "1:2:3:4:5:6:7:1.2.3.4", "1:2:3:4:5:6:7:8::", "[::1]",
    ] {
        assert!(parse_ip_text(bad).is_none(), "{bad}");
    }
    let e = Endpoint { ip: Ip::V6(0, 0, 0, 0, 0, 0, 0, 1), port: 53 };
    assert_eq!(show_endpoint(e), "[::1]:53");
    assert!(e.ip.is_loopback() && !e.ip.is_v4());
    assert!(Ip::V4(127, 9, 9, 9).is_loopback());
    assert!(Ip::V4(239, 0, 0, 1).is_multicast() && !Ip::V4(240, 0, 0, 1).is_multicast());
    assert!(Ip::V6(0xff02, 0, 0, 0, 0, 0, 0, 1).is_multicast());
    assert!(Ip::V6(0, 0, 0, 0, 0, 0, 0, 0).is_unspecified());
}

#[test]
fn texts_are_cut_and_trimmed() {
    let chars = |s: &str| s.chars().collect::<Vec<char>>();
    for text in ["", "a", "a\n", "a\r\nb", "\n\n", "a\rb\r", "a\r\r\nb"] {
        let lines: Vec<String> = split_lines(&chars(text))
            .into_iter()
            .map(|l| l.into_iter().collect())
            .collect();
        let real: Vec<&str> = text.lines().collect();
        assert_eq!(lines, real, "{text:?}");
    }
    for text in ["", "  ", "\t a b\u{3000}\n", "x\u{85}", "\u{200b}x"] {
        let trimmed: String = trim(&chars(text)).iter().collect();
        assert_eq!(trimmed, text.trim(), "{text:?}");
    }
    assert_eq!(to_lower("AbÄ-Z"), "abÄ-z");
    assert_eq!(parse_number(&chars("+0065535"), 65535), Some(65535));
    assert_eq!(parse_number(&chars("65536"), 65535), None);
    assert_eq!(parse_number(&chars("18446744073709551615"), u64::MAX), Some(u64::MAX));
    assert_eq!(parse_number(&chars("18446744073709551616"), u64::MAX), None);
    assert_eq!(parse_number(&chars("+"), 9), None);
    assert_eq!(parse_number(&chars("-1"), 9), None);
    assert_eq!(show_number(0), "0");
    assert_eq!(show_number(u64::MAX), "18446744073709551615");
}

#[test]
fn timestamps_are_utc() {
    assert_eq!(timestamp(0, 0), "1970-01-01T00:00:00.000Z");
    assert_eq!(timestamp(951_868_799, 7), "2000-02-29T23:59:59.007Z");
    assert_eq!(timestamp(1_709_164_800, 999), "2024-02-29T00:00:00.999Z");
    assert_eq!(timestamp(253_402_300_800, 0), "10000-01-01T00:00:00.000Z");
    assert_eq!(civil_from_days(-1), (1969, 12, 31));
    assert_eq!(civil_from_days(-719_468), (0, 3, 1));
    assert_eq!(civil_from_days(47_482), (2100, 1, 1));
    assert_eq!(civil_from_days(47_540), (2100, 2, 28));
    assert_eq!(civil_from_days(47_541), (2100, 3, 1));
    assert_eq!(
        civil_from_days(i64::MAX - 719_468),
        (25_252_734_927_766_554, 9, 25)
    );
    assert_eq!(
        civil_from_days(i64::MIN),
        (-25_252_734_927_764_585, 6, 7)
    );
}

#[test]
fn log_lines_carry_level_and_target() {
    assert_eq!(
        log_line("T", LogLevel::Warn, "dnsrivet::proxy", "careful"),
        "T WARN  dnsrivet::proxy: careful\n"
    );
    assert!(enabled(LogLevel::Error, LogLevel::Info));
    assert!(enabled(LogLevel::Info, LogLevel::Info));
    assert!(!enabled(LogLevel::Debug, LogLevel::Info));
    assert_eq!(effective_level(true, LogLevel::Error), LogLevel::Debug);
    assert_eq!(effective_level(false, LogLevel::Error), LogLevel::Error);
}
