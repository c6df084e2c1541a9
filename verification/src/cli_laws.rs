//! What options and commands mean, and the texts that they stand for.

use crate::cli::{
    command_of, interpret, lexopt_next, lexopt_value, no_options, takes_value, with_argument,
    with_flag, with_value, CommandView, OptionsView, QuickView,
};
use crate::config::Proto;
use crate::config_laws::law_hosts_and_ports;
use crate::ip::{ip_of, ip_text, Endpoint};
use crate::outline::{
    entries_of, entry_keys, entry_warnings, field_warnings, section_warnings, unknown_warnings,
    EntryOutline, Kind, SectionOutline,
};
use crate::quick::{
    listen_option, listeners_text, quick_text, service_text, toml_char, toml_chars, toml_string,
    upstream_option, upstreams_text,
};
use crate::text::{debug_text, decimal, lowered, number_in};
use crate::text_laws::law_splitting_at_the_first;
use vstd::prelude::*;
use vstd::string::*;

verus! {

// ---------- options ----------

proof fn lemma_options_differ()
    ensures
        "-c"@.len() == 2 && "-c"@[1] == 'c',
        "-v"@.len() == 2 && "-v"@[1] == 'v',
        "-h"@.len() == 2 && "-h"@[1] == 'h',
        "--help"@.len() == 6,
        "--config"@.len() == 8 && "--config"@[2] == 'c',
        "--output"@.len() == 8 && "--output"@[2] == 'o',
        "--listen"@.len() == 8 && "--listen"@[2] == 'l',
        "--upstream"@.len() == 10 && "--upstream"@[2] == 'u',
        "--no-cache"@.len() == 10 && "--no-cache"@[2] == 'n',
        "--timeout"@.len() == 9 && "--timeout"@[2] == 't',
        "--verbose"@.len() == 9 && "--verbose"@[2] == 'v',
        "--cache-size"@.len() == 12,
        "--force"@.len() == 7,
{
    reveal_strlit("-c");
    reveal_strlit("-v");
    reveal_strlit("-h");
    reveal_strlit("--help");
    reveal_strlit("--config");
    reveal_strlit("--output");
    reveal_strlit("--listen");
    reveal_strlit("--upstream");
    reveal_strlit("--no-cache");
    reveal_strlit("--timeout");
    reveal_strlit("--verbose");
    reveal_strlit("--cache-size");
    reveal_strlit("--force");
}

/// Each option with a value sets its own field, or adds to its own list, and
/// leaves every other as it was; numbers have to be numbers.
pub proof fn law_values_go_where_they_belong(o: OptionsView, value: Seq<char>)
    ensures
        takes_value("-c"@) && takes_value("--config"@) && takes_value("--output"@) && takes_value(
            "--listen"@,
        ) && takes_value("--upstream"@) && takes_value("--timeout"@) && takes_value(
            "--cache-size"@,
        ),
        with_value(o, "-c"@, value) == Ok::<OptionsView, Seq<char>>(
            (OptionsView { config: Some(value), ..o }),
        ),
        with_value(o, "--config"@, value) == with_value(o, "-c"@, value),
        with_value(o, "--output"@, value) == Ok::<OptionsView, Seq<char>>(
            (OptionsView { output: Some(value), ..o }),
        ),
        with_value(o, "--listen"@, value) == Ok::<OptionsView, Seq<char>>(
            (OptionsView {
                quick: QuickView { listeners: o.quick.listeners.push(value), ..o.quick },
                ..o
            }),
        ),
        with_value(o, "--upstream"@, value) == Ok::<OptionsView, Seq<char>>(
            (OptionsView {
                quick: QuickView { upstreams: o.quick.upstreams.push(value), ..o.quick },
                ..o
            }),
        ),
        number_in(value, u64::MAX as nat) matches Some(n) ==> with_value(o, "--timeout"@, value)
            == Ok::<OptionsView, Seq<char>>(
            (OptionsView { quick: QuickView { timeout_ms: Some(n as u64), ..o.quick }, ..o }),
        ),
        number_in(value, u64::MAX as nat) is None ==> with_value(o, "--timeout"@, value) == Err::<
            OptionsView,
            Seq<char>,
        >("invalid value for --timeout: "@ + debug_text(value)),
        number_in(value, usize::MAX as nat) matches Some(n) ==> with_value(
            o,
            "--cache-size"@,
            value,
        ) == Ok::<OptionsView, Seq<char>>(
            (OptionsView { quick: QuickView { cache_size: Some(n as usize), ..o.quick }, ..o }),
        ),
        number_in(value, usize::MAX as nat) is None ==> with_value(o, "--cache-size"@, value)
            == Err::<OptionsView, Seq<char>>(
            "invalid value for --cache-size: "@ + debug_text(value),
        ),
{
    lemma_options_differ();
}

/// Each option without a value sets its own flag and nothing else; an option
/// that is none of ours is refused by its name.
pub proof fn law_flags_go_where_they_belong(o: OptionsView, option: Seq<char>)
    ensures
        !takes_value("-v"@) && !takes_value("--verbose"@) && !takes_value("--force"@)
            && !takes_value("--no-cache"@) && !takes_value("-h"@) && !takes_value("--help"@),
        with_flag(o, "-v"@) == Ok::<OptionsView, Seq<char>>((OptionsView { verbose: true, ..o })),
        with_flag(o, "--verbose"@) == with_flag(o, "-v"@),
        with_flag(o, "--force"@) == Ok::<OptionsView, Seq<char>>((OptionsView { force: true, ..o })),
        with_flag(o, "--no-cache"@) == Ok::<OptionsView, Seq<char>>(
            (OptionsView { quick: QuickView { no_cache: true, ..o.quick }, ..o }),
        ),
        option != "-v"@ && option != "--verbose"@ && option != "--force"@ && option
            != "--no-cache"@ ==> with_flag(o, option) == Err::<OptionsView, Seq<char>>(
            "invalid option '"@ + option + "'"@,
        ),
{
    lemma_options_differ();
}

/// The first argument is the command; a second one is taken behind `config`
/// alone, and no third one is.
pub proof fn law_arguments_name_the_command(o: OptionsView, text: Seq<char>)
    ensures
        o.sub is None ==> with_argument(o, text) == Ok::<OptionsView, Seq<char>>(
            (OptionsView { sub: Some(text), ..o }),
        ),
        o.sub == Some("config"@) && o.action is None ==> with_argument(o, text) == Ok::<
            OptionsView,
            Seq<char>,
        >((OptionsView { action: Some(text), ..o })),
        o.sub is Some && (o.sub != Some("config"@) || o.action is Some) ==> with_argument(
            o,
            text,
        ) is Err,
        no_options().sub is None && no_options().action is None && no_options().config is None
            && no_options().output is None && !no_options().verbose && !no_options().force,
        no_options().quick.is_empty(),
{
}

/// A command line is read from the front: an error of the lexer ends it, and so
/// does `-h` or `--help`; at the end the options add up to a command.
pub proof fn law_command_lines_are_read_in_order(
    words: Seq<Seq<char>>,
    calls: Seq<bool>,
    o: OptionsView,
    n: nat,
)
    requires
        n > 0,
    ensures
        lexopt_next(words, calls) matches Err(message) ==> interpret(words, calls, o, n) == Some(
            Err::<CommandView, Seq<char>>(message),
        ),
        lexopt_next(words, calls) matches Ok(None) ==> interpret(words, calls, o, n) == Some(
            command_of(o),
        ),
        lexopt_next(words, calls) matches Ok(Some((true, option))) ==> (option == "-h"@ || option
            == "--help"@) ==> interpret(words, calls, o, n) == Some(
            Ok::<CommandView, Seq<char>>(CommandView::Help),
        ),
        lexopt_next(words, calls) == Ok::<Option<(bool, Seq<char>)>, Seq<char>>(
            Some((true, "--upstream"@)),
        ) ==> (lexopt_value(words, calls.push(false)) matches Ok(value) ==> interpret(
            words,
            calls,
            o,
            n,
        ) == interpret(
            words,
            calls.push(false).push(true),
            (OptionsView {
                quick: QuickView { upstreams: o.quick.upstreams.push(value), ..o.quick },
                ..o
            }),
            (n - 1) as nat,
        )),
        lexopt_next(words, calls) == Ok::<Option<(bool, Seq<char>)>, Seq<char>>(
            Some((true, "--force"@)),
        ) ==> interpret(words, calls, o, n) == interpret(
            words,
            calls.push(false),
            (OptionsView { force: true, ..o }),
            (n - 1) as nat,
        ),
{
    lemma_options_differ();
}

// ---------- commands ----------

proof fn lemma_commands_differ()
    ensures
        "run"@.len() == 3,
        "start"@.len() == 5,
        "stop"@.len() == 4,
        "restart"@.len() == 7 && "restart"@[0] == 'r',
        "version"@.len() == 7 && "version"@[0] == 'v',
        "status"@.len() == 6 && "status"@[0] == 's',
        "config"@.len() == 6 && "config"@[0] == 'c',
        "uninstall"@.len() == 9,
        "init"@.len() == 4,
        "check"@.len() == 5,
{
    reveal_strlit("run");
    reveal_strlit("start");
    reveal_strlit("stop");
    reveal_strlit("restart");
    reveal_strlit("version");
    reveal_strlit("status");
    reveal_strlit("config");
    reveal_strlit("uninstall");
    reveal_strlit("init");
    reveal_strlit("check");
}

/// Whether no quick option was given.
pub open spec fn nothing_quick(q: QuickView) -> bool {
    q.listeners.len() == 0 && q.upstreams.len() == 0 && q.timeout_ms is None && q.cache_size is None
        && !q.no_cache
}

/// Whether no option at all was given.
pub open spec fn nothing_given(o: OptionsView) -> bool {
    o.config is None && o.output is None && !o.verbose && !o.force && nothing_quick(o.quick)
}

/// Each name gives its command, with the options that the command takes; any
/// other option is refused, and so is any other name.
pub proof fn law_each_name_gives_its_command(o: OptionsView)
    ensures
        o.sub is None ==> command_of(o) == Ok::<CommandView, Seq<char>>(CommandView::Help),
        o.sub matches Some(name) ==> {
            let r = command_of(o);
            let unsupported = Err::<CommandView, Seq<char>>("unsupported option for "@ + name);
            let plain = o.output is None && !o.force;
            &&& name == "run"@ ==> r == if plain {
                Ok(CommandView::Run { config: o.config, verbose: o.verbose, quick: o.quick })
            } else {
                unsupported
            }
            &&& name == "start"@ ==> r == if plain && !o.verbose {
                Ok(CommandView::Start { config: o.config, quick: o.quick })
            } else {
                unsupported
            }
            &&& name == "restart"@ ==> r == if plain && !o.verbose {
                Ok(CommandView::Restart { config: o.config, quick: o.quick })
            } else {
                unsupported
            }
            &&& name == "stop"@ ==> r == if nothing_given(o) {
                Ok(CommandView::Stop)
            } else {
                unsupported
            }
            &&& name == "status"@ ==> r == if nothing_given(o) {
                Ok(CommandView::Status)
            } else {
                unsupported
            }
            &&& name == "uninstall"@ ==> r == if nothing_given(o) {
                Ok(CommandView::Uninstall)
            } else {
                unsupported
            }
            &&& name == "version"@ ==> r == if nothing_given(o) {
                Ok(CommandView::Version)
            } else {
                unsupported
            }
            &&& name != "run"@ && name != "start"@ && name != "restart"@ && name != "stop"@ && name
                != "status"@ && name != "uninstall"@ && name != "version"@ && name != "config"@
                ==> r == Err::<CommandView, Seq<char>>("unknown command: "@ + name)
        },
{
    lemma_commands_differ();
}

/// `config init` takes quick options, of which there has to be one, and writes to
/// `dnsrivet.toml` unless told otherwise; `config check` takes a path at most.
pub proof fn law_config_commands(o: OptionsView)
    requires
        o.sub == Some("config"@),
    ensures
        ({
            let r = command_of(o);
            let init = o.action == Some("init"@);
            let check = o.action == Some("check"@);
            &&& o.action is None ==> r == Err::<CommandView, Seq<char>>(
                "config requires init or check"@,
            )
            &&& init && (o.config is Some || o.verbose) ==> r == Err::<CommandView, Seq<char>>(
                "unsupported option for config init"@,
            )
            &&& init && o.config is None && !o.verbose && nothing_quick(o.quick) ==> r == Err::<
                CommandView,
                Seq<char>,
            >("config init requires --upstream TYPE=ENDPOINT"@)
            &&& init && o.config is None && !o.verbose && !nothing_quick(o.quick) ==> (r matches Ok(
                CommandView::ConfigInit { output, force, quick },
            ) && force == o.force && quick == o.quick && (o.output is None ==> output
                == "dnsrivet.toml"@) && (o.output matches Some(path) ==> output == path))
            &&& check && o.output is None && !o.force && !o.verbose && nothing_quick(o.quick) ==> r
                == Ok::<CommandView, Seq<char>>(CommandView::ConfigCheck { config: o.config })
            &&& check && !(o.output is None && !o.force && !o.verbose && nothing_quick(o.quick))
                ==> r == Err::<CommandView, Seq<char>>("unsupported option for config check"@)
            &&& o.action matches Some(action) ==> !init && !check ==> r == Err::<
                CommandView,
                Seq<char>,
            >("unknown command: config "@ + action)
        }),
{
    lemma_commands_differ();
}

// ---------- quick options ----------

/// What `--listen` takes: an address, with or without a port, which is 53
/// where it is left out; an IPv6 address with a port stands in brackets.
pub proof fn law_listen_options(host: Seq<char>, port: u16)
    requires
        host.len() > 0,
        host[0] != '[',
        !host.contains(']'),
    ensures
        !host.contains(':') ==> (match ip_of(host) {
            Some(ip) => listen_option(host) == Some(Endpoint { ip, port: 53 }) && listen_option(
                host.push(':') + decimal(port as nat),
            ) == Some(Endpoint { ip, port }),
            None => listen_option(host) is None && listen_option(
                host.push(':') + decimal(port as nat),
            ) is None,
        }),
        (match ip_of(host) {
            Some(ip) => listen_option((seq!['['] + host).push(']').push(':') + decimal(port as nat))
                == Some(Endpoint { ip, port }),
            None => listen_option((seq!['['] + host).push(']').push(':') + decimal(port as nat))
                is None,
        }),
        listen_option(Seq::empty()) is None,
{
    law_hosts_and_ports(host, port, 53);
}

/// What `--upstream` takes: a known type, however it is capitalised, an equals
/// sign, and an endpoint that is not empty.
pub proof fn law_upstream_options(kind: Seq<char>, endpoint: Seq<char>)
    requires
        !kind.contains('='),
    ensures
        ({
            let r = upstream_option(kind.push('=') + endpoint);
            let name = lowered(kind);
            &&& endpoint.len() == 0 ==> r is None
            &&& endpoint.len() > 0 && name == "doh"@ ==> r == Some((Proto::Doh, endpoint))
            &&& endpoint.len() > 0 && name == "doh3"@ ==> r == Some((Proto::Doh3, endpoint))
            &&& endpoint.len() > 0 && name == "dot"@ ==> r == Some((Proto::Dot, endpoint))
            &&& endpoint.len() > 0 && name == "doq"@ ==> r == Some((Proto::Doq, endpoint))
            &&& endpoint.len() > 0 && name == "legacy"@ ==> r == Some((Proto::Legacy, endpoint))
            &&& name.len() == 0 ==> r is None
            &&& r is Some ==> name == "doh"@ || name == "doh3"@ || name == "dot"@ || name == "doq"@
                || name == "legacy"@
        }),
        upstream_option(kind) is None,
{
    reveal_strlit("doh");
    reveal_strlit("doh3");
    reveal_strlit("dot");
    reveal_strlit("doq");
    reveal_strlit("legacy");
    assert("doh"@.len() == 3 && "dot"@.len() == 3 && "doq"@.len() == 3);
    assert("doh3"@.len() == 4 && "legacy"@.len() == 6);
    assert("doh"@[2] == 'h' && "dot"@[2] == 't' && "doq"@[2] == 'q');
    let s = kind.push('=') + endpoint;
    law_splitting_at_the_first(s, '=');
    law_splitting_at_the_first(kind, '=');
    assert(s[kind.len() as int] == '=');
    assert(s.contains('='));
    if let Some((a, b)) = crate::text::split_at_first(s, '=') {
        if a.len() < kind.len() {
            assert(s[a.len() as int] == (a.push('=') + b)[a.len() as int]);
            assert(kind[a.len() as int] == '=');
        }
        if a.len() > kind.len() {
            assert(a[kind.len() as int] == (a.push('=') + b)[kind.len() as int]);
            assert(a.contains('='));
        }
        assert(a =~= kind) by {
            assert forall|i: int| 0 <= i < a.len() implies a[i] == kind[i] by {
                assert((a.push('=') + b)[i] == s[i]);
            }
        }
        assert(b =~= endpoint) by {
            assert(b.len() == endpoint.len());
            assert forall|i: int| 0 <= i < b.len() implies b[i] == endpoint[i] by {
                assert((a.push('=') + b)[a.len() + 1 + i] == s[a.len() + 1 + i]);
            }
        }
    }
}

/// A text stands between quotation marks, character for character: most as they
/// are, quotation marks and backslashes behind a backslash, and control
/// characters as `\u00` and two hexadecimal digits in capitals.
pub proof fn law_toml_strings(s: Seq<char>, c: char)
    ensures
        toml_string(s) == "\""@ + toml_chars(s) + "\""@,
        toml_chars(Seq::empty()) == Seq::<char>::empty(),
        toml_chars(s.push(c)) == toml_chars(s) + toml_char(c),
        c == '"' || c == '\\' ==> toml_char(c) == seq!['\\', c],
        (c as u32) < 32 || c as u32 == 127 ==> {
            let high = c as u32 / 16;
            let low = c as u32 % 16;
            &&& toml_char(c).len() == 6
            &&& toml_char(c).take(4) == seq!['\\', 'u', '0', '0']
            &&& toml_char(c)[4] as u32 == 48 + high
            &&& low < 10 ==> toml_char(c)[5] as u32 == 48 + low
            &&& low >= 10 ==> toml_char(c)[5] as u32 == 65 + low - 10
        },
        c as u32 >= 32 && c as u32 != 127 && c != '"' && c != '\\' ==> toml_char(c) == seq![c],
{
    assert(s.push(c).drop_last() =~= s);
    if (c as u32) < 32 || c as u32 == 127 {
        assert(toml_char(c).take(4) =~= seq!['\\', 'u', '0', '0']);
    }
}

/// The `[service]` section holds what the options change, and is left out where
/// they change nothing.
pub proof fn law_service_section(size: usize)
    ensures
        service_text(None, false) == Seq::<char>::empty(),
        service_text(None, true) == "[service]\n"@ + "cache_enable = false\n"@ + "\n"@,
        service_text(Some(size), false) == "[service]\n"@ + ("cache_size = "@ + decimal(size as nat)
            + "\n"@) + "\n"@,
        service_text(Some(size), true) == "[service]\n"@ + "cache_enable = false\n"@ + (
        "cache_size = "@ + decimal(size as nat) + "\n"@) + "\n"@,
{
    let head = "[service]\n"@;
    let off = head + "cache_enable = false\n"@;
    assert(head + Seq::<char>::empty() =~= head);
    assert(off + Seq::<char>::empty() =~= off);
}

/// Each `--listen` gives a section, numbered from 0 in the order given; the first
/// that is none is reported.
pub proof fn law_listener_sections(listeners: Seq<Seq<char>>, more: Seq<char>)
    ensures
        listeners_text(Seq::empty()) == Ok::<Seq<char>, Seq<char>>(Seq::empty()),
        listeners_text(listeners) matches Err(message) ==> listeners_text(listeners.push(more))
            == Err::<Seq<char>, Seq<char>>(message),
        listeners_text(listeners) matches Ok(before) ==> {
            &&& listen_option(more) matches Some(e) ==> listeners_text(listeners.push(more)) == Ok::<
                Seq<char>,
                Seq<char>,
            >(
                before + ("[listener."@ + decimal(listeners.len()) + "]\nip = \""@ + ip_text(e.ip)
                    + "\"\nport = "@ + decimal(e.port as nat) + "\n\n"@),
            )
            &&& listen_option(more) is None ==> listeners_text(listeners.push(more)) == Err::<
                Seq<char>,
                Seq<char>,
            >("invalid --listen address: "@ + debug_text(more))
        },
{
    assert(listeners.push(more).drop_last() =~= listeners);
}

/// Each `--upstream` gives a section, numbered from 0 in the order given, with
/// the timeout where there is one; the first that is none is reported.
pub proof fn law_upstream_sections(upstreams: Seq<Seq<char>>, more: Seq<char>, ms: u64)
    ensures
        upstreams_text(Seq::empty(), Some(ms)) == Ok::<Seq<char>, Seq<char>>(Seq::empty()),
        upstreams_text(upstreams, Some(ms)) matches Err(message) ==> upstreams_text(
            upstreams.push(more),
            Some(ms),
        ) == Err::<Seq<char>, Seq<char>>(message),
        upstreams_text(upstreams, Some(ms)) matches Ok(before) ==> upstream_option(more) matches Some(
            (proto, endpoint),
        ) ==> upstreams_text(upstreams.push(more), Some(ms)) == Ok::<Seq<char>, Seq<char>>(
            before + ("[upstream."@ + decimal(upstreams.len()) + "]\ntype = \""@
                + proto.spec_as_str() + "\"\nendpoint = "@ + toml_string(endpoint) + "\n"@ + (
            "timeout = "@ + decimal(ms as nat) + "\n"@) + "\n"@),
        ),
        upstreams_text(upstreams, None) matches Ok(before) ==> upstream_option(more) matches Some(
            (proto, endpoint),
        ) ==> upstreams_text(upstreams.push(more), None) == Ok::<Seq<char>, Seq<char>>(
            before + ("[upstream."@ + decimal(upstreams.len()) + "]\ntype = \""@
                + proto.spec_as_str() + "\"\nendpoint = "@ + toml_string(endpoint) + "\n"@ + "\n"@),
        ),
        upstreams_text(upstreams, None) is Ok ==> upstream_option(more) is None ==> upstreams_text(
            upstreams.push(more),
            None,
        ) == Err::<Seq<char>, Seq<char>>(
            "invalid --upstream "@ + debug_text(more)
                + ": expected TYPE=ENDPOINT with TYPE one of doh, doh3, dot, doq or legacy"@,
        ),
{
    assert(upstreams.push(more).drop_last() =~= upstreams);
    if let Some((proto, endpoint)) = upstream_option(more) {
        let text = "[upstream."@ + decimal(upstreams.len()) + "]\ntype = \""@ + proto.spec_as_str()
            + "\"\nendpoint = "@ + toml_string(endpoint) + "\n"@;
        assert(text + Seq::<char>::empty() =~= text);
    }
}

/// A generated text has the service first, then the listeners, then the upstreams,
/// of which there has to be one.
pub proof fn law_generated_texts(
    listeners: Seq<Seq<char>>,
    upstreams: Seq<Seq<char>>,
    timeout_ms: Option<u64>,
    cache_size: Option<usize>,
    no_cache: bool,
)
    ensures
        ({
            let r = quick_text(listeners, upstreams, timeout_ms, cache_size, no_cache);
            let first = listeners_text(listeners);
            let second = upstreams_text(upstreams, timeout_ms);
            &&& upstreams.len() == 0 ==> r == Err::<Seq<char>, Seq<char>>(
                "at least one --upstream TYPE=ENDPOINT is required"@,
            )
            &&& upstreams.len() > 0 && first is Err ==> r == first
            &&& upstreams.len() > 0 && first is Ok && second is Err ==> r == second
            &&& upstreams.len() > 0 && first is Ok && second is Ok ==> r == Ok::<
                Seq<char>,
                Seq<char>,
            >(service_text(cache_size, no_cache) + first->Ok_0 + second->Ok_0)
        }),
{
}

// ---------- unknown sections and fields ----------

/// A section is known where it is `service`, `listener` or `upstream`; each
/// other is warned about, in order.
pub proof fn law_unknown_sections_are_told(root: Seq<SectionOutline>, section: SectionOutline)
    ensures
        section_warnings(Seq::empty()) == Seq::<Seq<char>>::empty(),
        section.0 == "service"@ || section.0 == "listener"@ || section.0 == "upstream"@
            ==> section_warnings(root.push(section)) == section_warnings(root),
        section.0 != "service"@ && section.0 != "listener"@ && section.0 != "upstream"@
            ==> section_warnings(root.push(section)) == section_warnings(root).push(
            "section ["@ + section.0 + "] is not supported and was ignored"@,
        ),
{
    assert(root.push(section).drop_last() =~= root);
}

/// The fields that each kind of section knows; each other is warned about, in
/// order, and with its section.
pub proof fn law_unknown_fields_are_told(ctx: Seq<char>, names: Seq<Seq<char>>, name: Seq<char>)
    ensures
        ({
            let told = ctx + " field "@ + debug_text(name) + " is not supported and was ignored"@;
            let service = name == "log_level"@ || name == "log_path"@ || name == "cache_enable"@
                || name == "cache_size"@;
            let listener = name == "ip"@ || name == "port"@;
            let upstream = name == "name"@ || name == "type"@ || name == "endpoint"@ || name
                == "bootstrap_ip"@ || name == "timeout"@ || name == "ip_stack"@;
            &&& field_warnings(ctx, Kind::Service, names.push(name)) == if service {
                field_warnings(ctx, Kind::Service, names)
            } else {
                field_warnings(ctx, Kind::Service, names).push(told)
            }
            &&& field_warnings(ctx, Kind::Listener, names.push(name)) == if listener {
                field_warnings(ctx, Kind::Listener, names)
            } else {
                field_warnings(ctx, Kind::Listener, names).push(told)
            }
            &&& field_warnings(ctx, Kind::Upstream, names.push(name)) == if upstream {
                field_warnings(ctx, Kind::Upstream, names)
            } else {
                field_warnings(ctx, Kind::Upstream, names).push(told)
            }
        }),
        field_warnings(ctx, Kind::Service, Seq::empty()) == Seq::<Seq<char>>::empty(),
        field_warnings(ctx, Kind::Listener, Seq::empty()) == Seq::<Seq<char>>::empty(),
        field_warnings(ctx, Kind::Upstream, Seq::empty()) == Seq::<Seq<char>>::empty(),
{
    assert(names.push(name).drop_last() =~= names);
}

/// The fields of numbered sections are checked section by section.
pub proof fn law_numbered_sections_are_told(
    entries: Seq<EntryOutline>,
    key: Seq<char>,
    names: Seq<Seq<char>>,
)
    ensures
        entry_warnings(Kind::Listener, Seq::empty()) == Seq::<Seq<char>>::empty(),
        entry_warnings(Kind::Upstream, Seq::empty()) == Seq::<Seq<char>>::empty(),
        entry_warnings(Kind::Listener, entries.push((key, Some(names)))) == entry_warnings(
            Kind::Listener,
            entries,
        ) + field_warnings("["@ + "listener"@ + "."@ + key + "]"@, Kind::Listener, names),
        entry_warnings(Kind::Upstream, entries.push((key, Some(names)))) == entry_warnings(
            Kind::Upstream,
            entries,
        ) + field_warnings("["@ + "upstream"@ + "."@ + key + "]"@, Kind::Upstream, names),
        entry_warnings(Kind::Listener, entries.push((key, None))) == entry_warnings(
            Kind::Listener,
            entries,
        ),
        entry_warnings(Kind::Upstream, entries.push((key, None))) == entry_warnings(
            Kind::Upstream,
            entries,
        ),
{
    assert(entries.push((key, Some(names))).drop_last() =~= entries);
    assert(entries.push((key, None)).drop_last() =~= entries);
}

/// The entries of a section are those of the first table of that name.
pub proof fn law_sections_are_found(root: Seq<SectionOutline>, name: Seq<char>, k: int)
    ensures
        0 <= k < root.len() && root[k].0 == name && (forall|j: int|
            0 <= j < k ==> (#[trigger] root[j]).0 != name) ==> entries_of(root, name) == (
        match root[k].1 {
            Some(entries) => entries,
            None => Seq::empty(),
        }),
        (forall|j: int| 0 <= j < root.len() ==> (#[trigger] root[j]).0 != name) ==> entries_of(
            root,
            name,
        ) == Seq::<EntryOutline>::empty(),
    decreases root.len(),
{
    if root.len() > 0 && root[0].0 != name {
        let rest = root.drop_first();
        law_sections_are_found(rest, name, k - 1);
        if k > 0 && k < root.len() && (forall|j: int| 0 <= j < k ==> (#[trigger] root[j]).0
            != name) {
            assert(rest[k - 1] == root[k]);
            assert forall|j: int| 0 <= j < k - 1 implies (#[trigger] rest[j]).0 != name by {
                assert(rest[j] == root[j + 1]);
            }
        }
        if forall|j: int| 0 <= j < root.len() ==> (#[trigger] root[j]).0 != name {
            assert forall|j: int| 0 <= j < rest.len() implies (#[trigger] rest[j]).0 != name by {
                assert(rest[j] == root[j + 1]);
            }
        }
    }
}

/// All of it is told: unknown sections, and the unknown fields of the service,
/// the listeners and the upstreams.
pub proof fn law_everything_unknown_is_told(root: Seq<SectionOutline>, told: Seq<char>)
    ensures
        section_warnings(root).contains(told) ==> unknown_warnings(root).contains(told),
        field_warnings(
            "[service]"@,
            Kind::Service,
            entry_keys(entries_of(root, "service"@)),
        ).contains(told) ==> unknown_warnings(root).contains(told),
        entry_warnings(Kind::Listener, entries_of(root, "listener"@)).contains(told)
            ==> unknown_warnings(root).contains(told),
        entry_warnings(Kind::Upstream, entries_of(root, "upstream"@)).contains(told)
            ==> unknown_warnings(root).contains(told),
        unknown_warnings(root).len() == section_warnings(root).len() + field_warnings(
            "[service]"@,
            Kind::Service,
            entry_keys(entries_of(root, "service"@)),
        ).len() + entry_warnings(Kind::Listener, entries_of(root, "listener"@)).len()
            + entry_warnings(Kind::Upstream, entries_of(root, "upstream"@)).len(),
{
    let a = section_warnings(root);
    let b = field_warnings("[service]"@, Kind::Service, entry_keys(entries_of(root, "service"@)));
    let c = entry_warnings(Kind::Listener, entries_of(root, "listener"@));
    let d = entry_warnings(Kind::Upstream, entries_of(root, "upstream"@));
    let all = unknown_warnings(root);
    if a.contains(told) {
        let i = choose|i: int| 0 <= i < a.len() && a[i] == told;
        assert(all[i] == told);
    }
    if b.contains(told) {
        let i = choose|i: int| 0 <= i < b.len() && b[i] == told;
        assert(all[a.len() + i] == told);
    }
    if c.contains(told) {
        let i = choose|i: int| 0 <= i < c.len() && c[i] == told;
        assert(all[a.len() + b.len() + i] == told);
    }
    if d.contains(told) {
        let i = choose|i: int| 0 <= i < d.len() && d[i] == told;
        assert(all[a.len() + b.len() + c.len() + i] == told);
    }
}

} // verus!
