//! What single decisions come to, said of what they are given and what they
//! return.

use crate::config::{texts, LogLevel};
use crate::ip::{Endpoint, Ip};
use crate::launchd::{checked, checked_plist, plist, service_target};
use crate::logger::{effective_level, enabled, log_line};
use crate::osdns::{dns_servers, read_dns_servers};
use crate::proxy::{framed, is_udp_query, Watchdog};
use crate::service::{
    check_destination, check_probe, check_report, creates_link, install_config, removes_link,
    resolve_config_path, takeover_address, takeover_ip, warning_lines, ConfigSource, LinkState,
};
use crate::service_laws::law_healthy_responses;
use crate::takeover::{check_no_backup, takeover_intact};
use crate::text::{debug_text, decimal, trimmed};
use crate::upstream::encrypted::{connect_limit, redial_failed};
use crate::upstream::legacy::{check_tcp_response, tcp_request};
use crate::upstream::{check_encrypted_query, Attempt};
use vstd::prelude::*;
use vstd::string::*;

verus! {

// ---------- logging ----------

/// `--verbose` logs at the debug level, whatever is configured; otherwise what is
/// configured counts.
pub proof fn law_verbose_wins(verbose: bool, configured: LogLevel, level: LogLevel)
    requires
        call_ensures(effective_level, (verbose, configured), level),
    ensures
        verbose ==> level == LogLevel::Debug,
        !verbose ==> level == configured,
{
}

/// A logger writes its own level and everything that is more urgent.
pub proof fn law_written_levels(level: LogLevel, limit: LogLevel, written: bool)
    requires
        call_ensures(enabled, (level, limit), written),
    ensures
        limit == LogLevel::Error ==> written == (level == LogLevel::Error),
        limit == LogLevel::Warn ==> written == (level == LogLevel::Error || level
            == LogLevel::Warn),
        limit == LogLevel::Info ==> written == (level != LogLevel::Debug && level
            != LogLevel::Trace),
        limit == LogLevel::Debug ==> written == (level != LogLevel::Trace),
        limit == LogLevel::Trace ==> written,
{
}

/// A line holds the time, the level, where it comes from, and the message.
pub proof fn law_log_lines(stamp: &str, level: LogLevel, target: &str, message: &str, line: String)
    requires
        call_ensures(log_line, (stamp, level, target, message), line),
    ensures
        ({
            let rest = " "@ + target@ + ": "@ + message@ + "\n"@;
            &&& level == LogLevel::Error ==> line@ == stamp@ + " "@ + "ERROR"@ + rest
            &&& level == LogLevel::Warn ==> line@ == stamp@ + " "@ + "WARN "@ + rest
            &&& level == LogLevel::Info ==> line@ == stamp@ + " "@ + "INFO "@ + rest
            &&& level == LogLevel::Debug ==> line@ == stamp@ + " "@ + "DEBUG"@ + rest
            &&& level == LogLevel::Trace ==> line@ == stamp@ + " "@ + "TRACE"@ + rest
        }),
{
    let rest = " "@ + target@ + ": "@ + message@ + "\n"@;
    let name = crate::logger::level_name(level);
    assert(line@ =~= stamp@ + " "@ + name + rest);
}

// ---------- queries and connections ----------

/// A datagram is a query where it holds a header, of 12 bytes.
pub proof fn law_datagrams_hold_a_header(n: usize, taken: bool)
    requires
        call_ensures(is_udp_query, (n,), taken),
    ensures
        taken == (n >= 12),
{
}

/// A connection attempt has what is left before the deadline, and five seconds at
/// most.
pub proof fn law_connect_limits(deadline: Option<u64>, now: u64, nanos: u64)
    requires
        call_ensures(connect_limit, (deadline, now), nanos),
    ensures
        nanos <= 5_000_000_000,
        deadline is None ==> nanos == 5_000_000_000,
        deadline matches Some(at) ==> {
            &&& at <= now ==> nanos == 0
            &&& at > now ==> now + nanos <= at
            &&& now + nanos == at || nanos == 5_000_000_000 || at <= now
        },
{
}

/// A query goes over TCP behind its length, unless it is too long for that.
pub proof fn law_tcp_requests(query: &[u8], r: Result<Vec<u8>, String>)
    requires
        call_ensures(tcp_request, (query,), r),
    ensures
        query@.len() > 65535 ==> (r matches Err(m) && m@ == "query too large"@),
        query@.len() <= 65535 ==> (r matches Ok(bytes) && bytes@.len() == query@.len() + 2
            && bytes@[0] * 256 + bytes@[1] == query@.len() && bytes@.skip(2) == query@),
{
    if query@.len() <= 65535 {
        assert(framed(query@).skip(2) =~= query@);
    }
}

/// A response over TCP has a whole header and the ID of the query.
pub proof fn law_tcp_responses(query: &[u8], response: &[u8], r: Result<(), String>)
    requires
        query@.len() >= 2,
        call_ensures(check_tcp_response, (query, response), r),
    ensures
        r is Ok <==> response@.len() >= 12 && response@[0] == query@[0] && response@[1]
            == query@[1],
        r matches Err(m) ==> m@ == "tcp response ID mismatch"@,
{
}

/// A failed redial is reported behind what led to it.
pub proof fn law_failed_redials(error: &str, redial: &str, message: String)
    requires
        call_ensures(redial_failed, (error, redial), message),
    ensures
        message@ == error@ + "; redial failed: "@ + redial@,
{
}

/// Addresses are asked one after the other; then the last error stands.
pub proof fn law_attempts_go_through_the_addresses(a: Attempt, r: Result<Endpoint, String>)
    requires
        a.at <= a.ips@.len(),
        call_ensures(Attempt::next, (&a,), r),
    ensures
        a.at < a.ips@.len() ==> (r matches Ok(e) && e.ip == a.ips@[a.at as int] && e.port == a.port),
        a.at == a.ips@.len() ==> (r matches Err(m) && m@ == a.last_err@),
{
}

/// The watchdog comes every two minutes, and every half hour while it is slow.
pub proof fn law_watchdog_intervals(w: Watchdog, secs: u64)
    requires
        call_ensures(Watchdog::interval_secs, (&w,), secs),
    ensures
        w.slow_mode ==> secs == 30 * 60,
        !w.slow_mode ==> secs == 2 * 60,
{
}

/// A query that has the wrong shape for an encrypted transport is told so.
pub proof fn law_refused_shapes(query: &[u8], r: Result<(), String>)
    requires
        call_ensures(check_encrypted_query, (query,), r),
    ensures
        ({
            let read = crate::upstream::message::hickory_content(query@);
            &&& r is Ok ==> read is Ok
            &&& read matches Err(error) ==> (r matches Err(m) && m@ == "unparseable query: "@ + error)
            &&& read matches Ok(content) ==> r is Err ==> (r matches Err(m) && m@
                == "unsupported query shape for encrypted forwarding"@)
            &&& read matches Ok(content) ==> (r is Ok <==> content.0 && content.1 && content.2 == 1
                && content.3 + content.4 + content.5 + content.6.len() == 0)
        }),
{
    if let Ok(content) = crate::upstream::message::hickory_content(query@) {
        crate::upstream::laws::law_encrypted_shape(content);
    }
}

// ---------- the service ----------

/// A probe succeeded where the response answers it.
pub proof fn law_probes_are_checked(id: u16, response: &[u8], r: Result<(), String>)
    requires
        call_ensures(check_probe, (id, response), r),
    ensures
        r is Ok <==> response@.len() >= 12 && response@[0] * 256 + response@[1] == id
            && response@[2] >= 128 && response@[3] % 16 == 0 && response@[6] * 256 + response@[7]
            > 0,
        r matches Err(m) ==> m@ == "invalid DNS probe response"@,
{
    law_healthy_responses(id, response@);
}

/// A configuration that cannot take over is told what it lacks.
pub proof fn law_takeover_addresses(listeners: &[Endpoint], r: Result<Ip, String>)
    requires
        call_ensures(takeover_address, (listeners,), r),
    ensures
        takeover_ip(listeners@) matches Some(ip) ==> r == Ok::<Ip, String>(ip),
        takeover_ip(listeners@) is None ==> (r matches Err(m) && m@
            == "service mode requires a loopback listener on port 53 (normally 127.0.0.1:53)"@),
{
}

/// Which configuration a service gets: quick options come first, then the file that
/// is named, then the one that is installed, then the one in the working
/// directory, and last the example.
pub proof fn law_installed_configurations(
    generated: bool,
    explicit: Option<String>,
    explicit_is_file: bool,
    installed_is_file: bool,
    local_is_file: bool,
    r: Result<ConfigSource, String>,
)
    requires
        call_ensures(
            install_config,
            (generated, explicit, explicit_is_file, installed_is_file, local_is_file),
            r,
        ),
    ensures
        generated ==> (r matches Ok(ConfigSource::Generated)),
        !generated ==> (explicit matches Some(path) ==> {
            &&& explicit_is_file ==> (r matches Ok(ConfigSource::File(p)) && p@ == path@)
            &&& !explicit_is_file ==> (r matches Err(m) && m@ == "config file not found: "@ + path@)
        }),
        !generated && explicit is None ==> {
            &&& installed_is_file ==> (r matches Ok(ConfigSource::Installed))
            &&& !installed_is_file && local_is_file ==> (r matches Ok(ConfigSource::File(p)) && p@
                == "dnsrivet.toml"@)
            &&& !installed_is_file && !local_is_file ==> (r matches Ok(ConfigSource::Example))
        },
{
}

/// Which configuration is run: the file that is named, then the one in the working
/// directory, then that of the system.
pub proof fn law_configuration_paths(
    explicit: Option<String>,
    explicit_is_file: bool,
    local_is_file: bool,
    system_is_file: bool,
    r: Result<String, String>,
)
    requires
        call_ensures(
            resolve_config_path,
            (explicit, explicit_is_file, local_is_file, system_is_file),
            r,
        ),
    ensures
        explicit matches Some(path) ==> {
            &&& explicit_is_file ==> (r matches Ok(p) && p@ == path@)
            &&& !explicit_is_file ==> (r matches Err(m) && m@ == "config file not found: "@ + path@)
        },
        explicit is None ==> {
            &&& local_is_file ==> (r matches Ok(p) && p@ == "dnsrivet.toml"@)
            &&& !local_is_file && system_is_file ==> (r matches Ok(p) && p@
                == "/Library/Application Support/DNSRivet/config.toml"@)
            &&& !local_is_file && !system_is_file ==> r is Err
        },
{
}

/// A file is written where its directory is there and nothing is in the way, or
/// `--force` clears it.
pub proof fn law_destinations(
    path: &str,
    present: bool,
    force: bool,
    parent: &str,
    parent_is_dir: bool,
    r: Result<(), String>,
)
    requires
        call_ensures(check_destination, (path, present, force, parent, parent_is_dir), r),
    ensures
        r is Ok <==> parent_is_dir && (!present || force),
        present && !force ==> (r matches Err(m) && m@ == "refusing to replace "@ + path@
            + "; use --force to overwrite it"@),
        !(present && !force) && !parent_is_dir ==> (r matches Err(m) && m@
            == "config destination directory does not exist: "@ + parent@),
{
}

/// A valid configuration is reported with its path, its numbers of listeners and
/// upstreams, and its warnings.
pub proof fn law_check_reports(
    path: &str,
    listeners: usize,
    upstreams: usize,
    warnings: Vec<String>,
    out: String,
)
    requires
        call_ensures(check_report, (path, listeners, upstreams, &warnings), out),
    ensures
        out@ == "configuration valid: "@ + path@ + " ("@ + decimal(listeners as nat)
            + " listener(s), "@ + decimal(upstreams as nat) + " upstream(s))"@ + warning_lines(
            texts(warnings@),
        ),
{
}

/// The command is created where nothing is there, and removed where it is ours.
pub proof fn law_links(found: LinkState, creates: bool, removes: bool)
    requires
        call_ensures(creates_link, (found,), creates),
        call_ensures(removes_link, (found,), removes),
    ensures
        found == LinkState::Missing ==> creates && !removes,
        found == LinkState::Owned ==> !creates && removes,
        found == LinkState::PackageEntry || found == LinkState::Unrelated ==> !creates && !removes,
{
}

// ---------- launchd ----------

/// A job is written for absolute paths alone.
pub proof fn law_absolute_paths(binary: &str, config: &str, r: Result<String, String>)
    requires
        call_ensures(checked_plist, (binary, config), r),
    ensures
        binary@.len() > 0 && binary@[0] == '/' && config@.len() > 0 && config@[0] == '/' ==> (
        r matches Ok(text) && text@ == plist(binary@, config@)),
        !(binary@.len() > 0 && binary@[0] == '/' && config@.len() > 0 && config@[0] == '/') ==> (
        r matches Err(m) && m@ == "launchd binary and config paths must be absolute"@),
{
    reveal_strlit("/");
    lemma_begins_with_slash(binary@);
    lemma_begins_with_slash(config@);
}

proof fn lemma_begins_with_slash(s: Seq<char>)
    ensures
        crate::text::begins_with(s, "/"@) == (s.len() > 0 && s[0] == '/'),
{
    reveal_strlit("/");
    if s.len() > 0 && s[0] == '/' {
        assert(s.take(1) =~= "/"@);
    }
    if crate::text::begins_with(s, "/"@) {
        assert(s.take(1)[0] == "/"@[0]);
    }
}

/// A command that failed is reported with what it was to do and what it said, on
/// its error output where there is any.
pub proof fn law_failed_commands(
    success: bool,
    stdout: &str,
    stderr: &str,
    action: &str,
    r: Result<(), String>,
)
    requires
        call_ensures(checked, (success, stdout, stderr, action), r),
    ensures
        r is Ok <==> success,
        !success && stderr@.len() > 0 ==> (r matches Err(m) && m@ == action@ + ": "@ + trimmed(
            stderr@,
        )),
        !success && stderr@.len() == 0 ==> (r matches Err(m) && m@ == action@ + ": "@ + trimmed(
            stdout@,
        )),
{
}

/// The job is a system job under its label.
pub proof fn law_job_target(target: String)
    requires
        call_ensures(service_target, (), target),
    ensures
        target@ == "system/"@ + "io.github.wenliangcao.dnsrivet"@,
{
}

// ---------- the system's DNS ----------

/// A takeover is refused over an earlier backup.
pub proof fn law_earlier_backups(present: bool, r: Result<(), String>)
    requires
        call_ensures(check_no_backup, (present,), r),
    ensures
        r is Ok <==> !present,
        r matches Err(m) ==> m@
            == "DNS backup already exists at /Library/Application Support/DNSRivet/dns-backup.toml; run `dnsrivet stop` before starting again"@,
{
}

/// A takeover is intact where every service lists the takeover address and nothing
/// else.
pub proof fn law_intact_takeovers(server: Ip, current: &[(String, Vec<String>)], intact: bool)
    requires
        call_ensures(takeover_intact, (server, current), intact),
    ensures
        intact <==> forall|i: int|
            0 <= i < current@.len() ==> texts((#[trigger] current@[i]).1@).len() == 1 && texts(
                current@[i].1@,
            )[0] == crate::ip::ip_text(server),
{
    let all = crate::osdns::current_settings(current@);
    let own = crate::ip::ip_text(server);
    crate::osdns_laws::law_only_the_takeover_address_alone_is_intact(all, own);
    assert(forall|i: int|
        0 <= i < all.len() ==> #[trigger] all[i] == (current@[i].0@, texts(current@[i].1@)));
    if intact {
        assert forall|i: int| 0 <= i < current@.len() implies texts(
            (#[trigger] current@[i]).1@,
        ).len() == 1 && texts(current@[i].1@)[0] == own by {
            assert(all[i].1.len() == 1);
        }
    }
    if forall|i: int|
        0 <= i < current@.len() ==> texts((#[trigger] current@[i]).1@).len() == 1 && texts(
            current@[i].1@,
        )[0] == own {
        assert forall|i: int| 0 <= i < all.len() implies (#[trigger] all[i]).1.len() == 1
            && all[i].1[0] == own by {
            assert(texts(current@[i].1@).len() == 1);
        }
    }
}

/// Output that is not understood is reported as it is.
pub proof fn law_unknown_output(service: &str, text: &str, r: Result<Vec<String>, String>)
    requires
        call_ensures(read_dns_servers, (service, text), r),
    ensures
        dns_servers(text@) matches Some(servers) ==> (r matches Ok(got) && texts(got@) == servers),
        dns_servers(text@) is None ==> (r matches Err(m) && m@
            == "unrecognized DNS server output for "@ + debug_text(service@) + ": "@ + debug_text(
            text@,
        )),
{
}

} // verus!
