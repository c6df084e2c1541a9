//! The command line: which options there are and what they add up to.

use crate::config::texts;
use crate::text::{chars_of, debug_text, join, number_in, parse_number, same_text, show_debug};
use vstd::prelude::*;
use vstd::string::*;

verus! {

pub const USAGE: &'static str = "\
DNSRivet — lightweight encrypted DNS forwarding daemon for macOS (DoH/DoH3/DoT/DoQ)

USAGE:
    dnsrivet <command> [options]

COMMANDS:
    run            Run the proxy in the foreground
    start          Install + start the launchd service, take over system DNS
    stop           Stop the service and restore system DNS
    restart        Restart the launchd service
    status         Show service and DNS health
    uninstall      Remove the service and restore system DNS
    config init    Write a config file from quick options
    config check   Validate a config file
    version        Print version

OPTIONS:
    -c, --config <PATH>   Config file (default: ./dnsrivet.toml, then
                          /Library/Application Support/DNSRivet/config.toml)
    -v, --verbose         Debug logging (overrides service.log_level)
    -h, --help            Show this help

QUICK OPTIONS (run, start, restart, config init):
    --listen <IP:PORT>          Listener address; repeat for several
    --upstream <TYPE=ENDPOINT>  Upstream in failover order; repeat for several
    --timeout <MS>              Timeout of every upstream
    --cache-size <N>            Number of cache entries
    --no-cache                  Disable the cache

CONFIG INIT:
    --output <PATH>       Where to write (default: dnsrivet.toml)
    --force               Replace an existing file";

// ---------- the outside lexer ----------

#[verifier::external_type_specification]
#[verifier::external_body]
pub struct ExParser(lexopt::Parser);

/// What a parser was made of, and which calls it has answered: `next` (false)
/// and `value` (true).
pub uninterp spec fn lexopt_seen(parser: lexopt::Parser) -> (Seq<Seq<char>>, Seq<bool>);

/// How much a parser has yet to hand out.
pub uninterp spec fn lexopt_left(parser: lexopt::Parser) -> nat;

/// What `next` answers to the command line `words` after the calls `calls`: an
/// option as it was typed (true) or a positional argument (false), nothing at
/// the end, or the text of an error.
pub uninterp spec fn lexopt_next(words: Seq<Seq<char>>, calls: Seq<bool>) -> Result<
    Option<(bool, Seq<char>)>,
    Seq<char>,
>;

/// What `value` answers to the command line `words` after the calls `calls`.
pub uninterp spec fn lexopt_value(words: Seq<Seq<char>>, calls: Seq<bool>) -> Result<
    Seq<char>,
    Seq<char>,
>;

/// How lexopt complains about a positional argument.
pub uninterp spec fn lexopt_unexpected(text: Seq<char>) -> Seq<char>;

/// `lexopt::Parser::from_args`: a parser that has answered no call yet.
#[verifier::external_body]
fn lexer(args: Vec<String>) -> (parser: lexopt::Parser)
    ensures
        lexopt_seen(parser) == (texts(args@), Seq::<bool>::empty()),
{
    lexopt::Parser::from_args(args)
}

/// `lexopt::Parser::next`. Its answer depends on the command line and on the
/// calls made before. Every option or argument that it hands out uses up a part
/// of the command line, so that it cannot go on for ever.
#[verifier::external_body]
fn lexer_next(parser: &mut lexopt::Parser) -> (r: Result<Option<(bool, String)>, String>)
    ensures
        lexopt_seen(*final(parser)) == (
            lexopt_seen(*old(parser)).0,
            lexopt_seen(*old(parser)).1.push(false),
        ),
        r matches Ok(Some(_)) ==> lexopt_left(*final(parser)) < lexopt_left(*old(parser)),
        match lexopt_next(lexopt_seen(*old(parser)).0, lexopt_seen(*old(parser)).1) {
            Ok(Some((option, text))) => r matches Ok(Some((o, t))) && o == option && t@ == text,
            Ok(None) => r matches Ok(None),
            Err(message) => r matches Err(got) && got@ == message,
        },
{
    match parser.next() {
        Ok(Some(lexopt::Arg::Short(c))) => Ok(Some((true, format!("-{}", c)))),
        Ok(Some(lexopt::Arg::Long(s))) => Ok(Some((true, format!("--{}", s)))),
        Ok(Some(lexopt::Arg::Value(v))) => Ok(Some((false, v.to_string_lossy().into_owned()))),
        Ok(None) => Ok(None),
        Err(e) => Err(e.to_string()),
    }
}

/// `lexopt::Parser::value`. Its answer depends on the command line and on the
/// calls made before; it never gives anything back to the command line.
#[verifier::external_body]
fn lexer_value(parser: &mut lexopt::Parser) -> (r: Result<String, String>)
    ensures
        lexopt_seen(*final(parser)) == (
            lexopt_seen(*old(parser)).0,
            lexopt_seen(*old(parser)).1.push(true),
        ),
        lexopt_left(*final(parser)) <= lexopt_left(*old(parser)),
        match lexopt_value(lexopt_seen(*old(parser)).0, lexopt_seen(*old(parser)).1) {
            Ok(text) => r matches Ok(got) && got@ == text,
            Err(message) => r matches Err(got) && got@ == message,
        },
{
    match parser.value() {
        Ok(value) => Ok(value.to_string_lossy().into_owned()),
        Err(e) => Err(e.to_string()),
    }
}

/// The `Display` form of `lexopt::Error::UnexpectedOption`.
#[verifier::external_body]
fn unexpected_option(text: String) -> (message: String)
    ensures
        message@ == "invalid option '"@ + text@ + "'"@,
{
    lexopt::Error::UnexpectedOption(text).to_string()
}

/// The `Display` form of `lexopt::Error::UnexpectedArgument`, which quotes the
/// argument.
#[verifier::external_body]
fn unexpected_argument(text: String) -> (message: String)
    ensures
        message@ == lexopt_unexpected(text@),
{
    lexopt::Error::UnexpectedArgument(text.into()).to_string()
}

// ---------- options ----------

/// Options that stand for a configuration.
pub struct QuickArgs {
    pub listeners: Vec<String>,
    pub upstreams: Vec<String>,
    pub timeout_ms: Option<u64>,
    pub cache_size: Option<usize>,
    pub no_cache: bool,
}

/// `QuickArgs` as plain values.
#[verifier::ext_equal]
pub struct QuickView {
    pub listeners: Seq<Seq<char>>,
    pub upstreams: Seq<Seq<char>>,
    pub timeout_ms: Option<u64>,
    pub cache_size: Option<usize>,
    pub no_cache: bool,
}

impl View for QuickArgs {
    type V = QuickView;

    open spec fn view(&self) -> QuickView {
        QuickView {
            listeners: texts(self.listeners@),
            upstreams: texts(self.upstreams@),
            timeout_ms: self.timeout_ms,
            cache_size: self.cache_size,
            no_cache: self.no_cache,
        }
    }
}

impl QuickView {
    pub open spec fn is_empty(self) -> bool {
        &&& self.listeners.len() == 0
        &&& self.upstreams.len() == 0
        &&& self.timeout_ms is None
        &&& self.cache_size is None
        &&& !self.no_cache
    }
}

impl QuickArgs {
    /// Whether no quick option was given.
    pub fn is_empty(&self) -> (r: bool)
        ensures
            r == self@.is_empty(),
    {
        self.listeners.len() == 0 && self.upstreams.len() == 0 && self.timeout_ms.is_none()
            && self.cache_size.is_none() && !self.no_cache
    }
}

/// What the command line asks for.
pub enum Command {
    Run { config: Option<String>, verbose: bool, quick: QuickArgs },
    Start { config: Option<String>, quick: QuickArgs },
    Stop,
    Restart { config: Option<String>, quick: QuickArgs },
    Status,
    Uninstall,
    ConfigInit { output: String, force: bool, quick: QuickArgs },
    ConfigCheck { config: Option<String> },
    Version,
    Help,
}

/// `Command` as plain values.
#[verifier::ext_equal]
pub enum CommandView {
    Run { config: Option<Seq<char>>, verbose: bool, quick: QuickView },
    Start { config: Option<Seq<char>>, quick: QuickView },
    Stop,
    Restart { config: Option<Seq<char>>, quick: QuickView },
    Status,
    Uninstall,
    ConfigInit { output: Seq<char>, force: bool, quick: QuickView },
    ConfigCheck { config: Option<Seq<char>> },
    Version,
    Help,
}

/// The text in an optional string.
pub open spec fn opt_text(s: Option<String>) -> Option<Seq<char>> {
    match s {
        Some(text) => Some(text@),
        None => None,
    }
}

impl View for Command {
    type V = CommandView;

    open spec fn view(&self) -> CommandView {
        match *self {
            Command::Run { config, verbose, quick } => CommandView::Run {
                config: opt_text(config),
                verbose,
                quick: quick@,
            },
            Command::Start { config, quick } => CommandView::Start {
                config: opt_text(config),
                quick: quick@,
            },
            Command::Stop => CommandView::Stop,
            Command::Restart { config, quick } => CommandView::Restart {
                config: opt_text(config),
                quick: quick@,
            },
            Command::Status => CommandView::Status,
            Command::Uninstall => CommandView::Uninstall,
            Command::ConfigInit { output, force, quick } => CommandView::ConfigInit {
                output: output@,
                force,
                quick: quick@,
            },
            Command::ConfigCheck { config } => CommandView::ConfigCheck { config: opt_text(config) },
            Command::Version => CommandView::Version,
            Command::Help => CommandView::Help,
        }
    }
}

/// The options read so far.
pub struct Options {
    pub sub: Option<String>,
    pub action: Option<String>,
    pub config: Option<String>,
    pub output: Option<String>,
    pub verbose: bool,
    pub force: bool,
    pub quick: QuickArgs,
}

/// `Options` as plain values.
#[verifier::ext_equal]
pub struct OptionsView {
    pub sub: Option<Seq<char>>,
    pub action: Option<Seq<char>>,
    pub config: Option<Seq<char>>,
    pub output: Option<Seq<char>>,
    pub verbose: bool,
    pub force: bool,
    pub quick: QuickView,
}

impl View for Options {
    type V = OptionsView;

    open spec fn view(&self) -> OptionsView {
        OptionsView {
            sub: opt_text(self.sub),
            action: opt_text(self.action),
            config: opt_text(self.config),
            output: opt_text(self.output),
            verbose: self.verbose,
            force: self.force,
            quick: self.quick@,
        }
    }
}

/// No option at all.
pub open spec fn no_options() -> OptionsView {
    OptionsView {
        sub: None,
        action: None,
        config: None,
        output: None,
        verbose: false,
        force: false,
        quick: QuickView {
            listeners: Seq::empty(),
            upstreams: Seq::empty(),
            timeout_ms: None,
            cache_size: None,
            no_cache: false,
        },
    }
}

/// The options that are followed by a value.
pub open spec fn takes_value(option: Seq<char>) -> bool {
    option == "-c"@ || option == "--config"@ || option == "--output"@ || option == "--listen"@
        || option == "--upstream"@ || option == "--timeout"@ || option == "--cache-size"@
}

/// An option with its value, added to the others.
pub open spec fn with_value(o: OptionsView, option: Seq<char>, value: Seq<char>) -> Result<
    OptionsView,
    Seq<char>,
> {
    if option == "-c"@ || option == "--config"@ {
        Ok(OptionsView { config: Some(value), ..o })
    } else if option == "--output"@ {
        Ok(OptionsView { output: Some(value), ..o })
    } else if option == "--listen"@ {
        Ok(
            OptionsView {
                quick: QuickView { listeners: o.quick.listeners.push(value), ..o.quick },
                ..o
            },
        )
    } else if option == "--upstream"@ {
        Ok(
            OptionsView {
                quick: QuickView { upstreams: o.quick.upstreams.push(value), ..o.quick },
                ..o
            },
        )
    } else if option == "--timeout"@ {
        match number_in(value, u64::MAX as nat) {
            Some(n) => Ok(
                OptionsView { quick: QuickView { timeout_ms: Some(n as u64), ..o.quick }, ..o },
            ),
            None => Err("invalid value for --timeout: "@ + debug_text(value)),
        }
    } else {
        match number_in(value, usize::MAX as nat) {
            Some(n) => Ok(
                OptionsView { quick: QuickView { cache_size: Some(n as usize), ..o.quick }, ..o },
            ),
            None => Err("invalid value for --cache-size: "@ + debug_text(value)),
        }
    }
}

/// An option without a value, added to the others.
pub open spec fn with_flag(o: OptionsView, option: Seq<char>) -> Result<OptionsView, Seq<char>> {
    if option == "-v"@ || option == "--verbose"@ {
        Ok(OptionsView { verbose: true, ..o })
    } else if option == "--force"@ {
        Ok(OptionsView { force: true, ..o })
    } else if option == "--no-cache"@ {
        Ok(OptionsView { quick: QuickView { no_cache: true, ..o.quick }, ..o })
    } else {
        Err("invalid option '"@ + option + "'"@)
    }
}

/// A positional argument, added to the options: the command, and behind
/// `config` what to do with it.
pub open spec fn with_argument(o: OptionsView, text: Seq<char>) -> Result<OptionsView, Seq<char>> {
    if o.sub is None {
        Ok(OptionsView { sub: Some(text), ..o })
    } else if o.sub == Some("config"@) && o.action is None {
        Ok(OptionsView { action: Some(text), ..o })
    } else {
        Err(lexopt_unexpected(text))
    }
}

/// Whether nothing but the command itself was given.
pub open spec fn is_bare(o: OptionsView) -> bool {
    &&& o.config is None
    &&& o.output is None
    &&& !o.verbose
    &&& !o.force
    &&& o.quick.is_empty()
}

/// The command that `config` and the options add up to.
pub open spec fn config_command(o: OptionsView) -> Result<CommandView, Seq<char>> {
    match o.action {
        None => Err("config requires init or check"@),
        Some(action) => if action == "init"@ {
            if o.config is Some || o.verbose {
                Err("unsupported option for config init"@)
            } else if o.quick.is_empty() {
                Err("config init requires --upstream TYPE=ENDPOINT"@)
            } else {
                Ok(
                    CommandView::ConfigInit {
                        output: match o.output {
                            Some(path) => path,
                            None => "dnsrivet.toml"@,
                        },
                        force: o.force,
                        quick: o.quick,
                    },
                )
            }
        } else if action == "check"@ {
            if o.output is None && !o.force && !o.verbose && o.quick.is_empty() {
                Ok(CommandView::ConfigCheck { config: o.config })
            } else {
                Err("unsupported option for config check"@)
            }
        } else {
            Err("unknown command: config "@ + action)
        },
    }
}

/// The command that the options add up to.
pub open spec fn command_of(o: OptionsView) -> Result<CommandView, Seq<char>> {
    match o.sub {
        None => Ok(CommandView::Help),
        Some(sub) => {
            let unsupported = Err("unsupported option for "@ + sub);
            let plain = o.output is None && !o.force;
            if sub == "run"@ {
                if plain {
                    Ok(
                        CommandView::Run { config: o.config, verbose: o.verbose, quick: o.quick },
                    )
                } else {
                    unsupported
                }
            } else if sub == "start"@ {
                if plain && !o.verbose {
                    Ok(CommandView::Start { config: o.config, quick: o.quick })
                } else {
                    unsupported
                }
            } else if sub == "restart"@ {
                if plain && !o.verbose {
                    Ok(CommandView::Restart { config: o.config, quick: o.quick })
                } else {
                    unsupported
                }
            } else if sub == "stop"@ {
                if is_bare(o) {
                    Ok(CommandView::Stop)
                } else {
                    unsupported
                }
            } else if sub == "status"@ {
                if is_bare(o) {
                    Ok(CommandView::Status)
                } else {
                    unsupported
                }
            } else if sub == "uninstall"@ {
                if is_bare(o) {
                    Ok(CommandView::Uninstall)
                } else {
                    unsupported
                }
            } else if sub == "version"@ {
                if is_bare(o) {
                    Ok(CommandView::Version)
                } else {
                    unsupported
                }
            } else if sub == "config"@ {
                config_command(o)
            } else {
                Err("unknown command: "@ + sub)
            }
        },
    }
}

/// What a command line means, read in at most `n` steps from the call history
/// `calls` and the options `o` on.
pub open spec fn interpret(
    words: Seq<Seq<char>>,
    calls: Seq<bool>,
    o: OptionsView,
    n: nat,
) -> Option<Result<CommandView, Seq<char>>>
    decreases n,
{
    if n == 0 {
        None
    } else {
        match lexopt_next(words, calls) {
            Err(message) => Some(Err(message)),
            Ok(None) => Some(command_of(o)),
            Ok(Some((false, text))) => match with_argument(o, text) {
                Ok(more) => interpret(words, calls.push(false), more, (n - 1) as nat),
                Err(message) => Some(Err(message)),
            },
            Ok(Some((true, option))) => if option == "-h"@ || option == "--help"@ {
                Some(Ok(CommandView::Help))
            } else if takes_value(option) {
                match lexopt_value(words, calls.push(false)) {
                    Err(message) => Some(Err(message)),
                    Ok(value) => match with_value(o, option, value) {
                        Ok(more) => interpret(
                            words,
                            calls.push(false).push(true),
                            more,
                            (n - 1) as nat,
                        ),
                        Err(message) => Some(Err(message)),
                    },
                }
            } else {
                match with_flag(o, option) {
                    Ok(more) => interpret(words, calls.push(false), more, (n - 1) as nat),
                    Err(message) => Some(Err(message)),
                }
            },
        }
    }
}

fn option_takes_value(option: &str) -> (r: bool)
    ensures
        r == takes_value(option@),
{
    same_text(option, "-c") || same_text(option, "--config") || same_text(option, "--output")
        || same_text(option, "--listen") || same_text(option, "--upstream") || same_text(
        option,
        "--timeout",
    ) || same_text(option, "--cache-size")
}

/// Add an option that is followed by a value.
pub fn add_value(options: Options, option: &str, value: String) -> (r: Result<Options, String>)
    requires
        takes_value(option@),
    ensures
        match with_value(options@, option@, value@) {
            Ok(more) => r matches Ok(got) && got@ == more,
            Err(message) => r matches Err(got) && got@ == message,
        },
{
    let mut o: Options = options;
    if same_text(option, "-c") || same_text(option, "--config") {
        o.config = Some(value);
        Ok(o)
    } else if same_text(option, "--output") {
        o.output = Some(value);
        Ok(o)
    } else if same_text(option, "--listen") {
        let ghost before = o.quick.listeners@;
        o.quick.listeners.push(value);
        assert(texts(before.push(value)) =~= texts(before).push(value@));
        Ok(o)
    } else if same_text(option, "--upstream") {
        let ghost before = o.quick.upstreams@;
        o.quick.upstreams.push(value);
        assert(texts(before.push(value)) =~= texts(before).push(value@));
        Ok(o)
    } else if same_text(option, "--timeout") {
        match parse_number(chars_of(value.as_str()).as_slice(), u64::MAX) {
            Some(n) => {
                o.quick.timeout_ms = Some(n);
                Ok(o)
            },
            None => Err(
                join("invalid value for --timeout: ", show_debug(value.as_str()).as_str()),
            ),
        }
    } else {
        match parse_number(chars_of(value.as_str()).as_slice(), usize::MAX as u64) {
            Some(n) => {
                o.quick.cache_size = Some(n as usize);
                Ok(o)
            },
            None => Err(
                join("invalid value for --cache-size: ", show_debug(value.as_str()).as_str()),
            ),
        }
    }
}

/// Add an option that stands alone.
pub fn add_flag(options: Options, option: String) -> (r: Result<Options, String>)
    ensures
        match with_flag(options@, option@) {
            Ok(more) => r matches Ok(got) && got@ == more,
            Err(message) => r matches Err(got) && got@ == message,
        },
{
    let mut o: Options = options;
    if same_text(option.as_str(), "-v") || same_text(option.as_str(), "--verbose") {
        o.verbose = true;
        Ok(o)
    } else if same_text(option.as_str(), "--force") {
        o.force = true;
        Ok(o)
    } else if same_text(option.as_str(), "--no-cache") {
        o.quick.no_cache = true;
        Ok(o)
    } else {
        Err(unexpected_option(option))
    }
}

/// Add a positional argument.
pub fn add_argument(options: Options, text: String) -> (r: Result<Options, String>)
    ensures
        match with_argument(options@, text@) {
            Ok(more) => r matches Ok(got) && got@ == more,
            Err(message) => r matches Err(got) && got@ == message,
        },
{
    let mut o: Options = options;
    let behind_config: bool = match &o.sub {
        Some(sub) => same_text(sub.as_str(), "config"),
        None => false,
    };
    if o.sub.is_none() {
        o.sub = Some(text);
        Ok(o)
    } else if behind_config && o.action.is_none() {
        o.action = Some(text);
        Ok(o)
    } else {
        Err(unexpected_argument(text))
    }
}

fn bare(o: &Options) -> (r: bool)
    ensures
        r == is_bare(o@),
{
    o.config.is_none() && o.output.is_none() && !o.verbose && !o.force && o.quick.is_empty()
}

fn finish_config(o: Options) -> (r: Result<Command, String>)
    ensures
        match config_command(o@) {
            Ok(command) => r matches Ok(got) && got@ == command,
            Err(message) => r matches Err(got) && got@ == message,
        },
{
    let action: String = match &o.action {
        Some(action) => action.clone(),
        None => return Err("config requires init or check".to_owned()),
    };
    if same_text(action.as_str(), "init") {
        if o.config.is_some() || o.verbose {
            Err("unsupported option for config init".to_owned())
        } else if o.quick.is_empty() {
            Err("config init requires --upstream TYPE=ENDPOINT".to_owned())
        } else {
            let output: String = match o.output {
                Some(path) => path,
                None => "dnsrivet.toml".to_owned(),
            };
            Ok(Command::ConfigInit { output, force: o.force, quick: o.quick })
        }
    } else if same_text(action.as_str(), "check") {
        if o.output.is_none() && !o.force && !o.verbose && o.quick.is_empty() {
            Ok(Command::ConfigCheck { config: o.config })
        } else {
            Err("unsupported option for config check".to_owned())
        }
    } else {
        Err(join("unknown command: config ", action.as_str()))
    }
}

/// The command that the options add up to.
pub fn finish(o: Options) -> (r: Result<Command, String>)
    ensures
        match command_of(o@) {
            Ok(command) => r matches Ok(got) && got@ == command,
            Err(message) => r matches Err(got) && got@ == message,
        },
{
    let sub: String = match &o.sub {
        Some(sub) => sub.clone(),
        None => return Ok(Command::Help),
    };
    let name: &str = sub.as_str();
    let plain: bool = o.output.is_none() && !o.force;
    if same_text(name, "run") {
        if plain {
            return Ok(Command::Run { config: o.config, verbose: o.verbose, quick: o.quick });
        }
    } else if same_text(name, "start") {
        if plain && !o.verbose {
            return Ok(Command::Start { config: o.config, quick: o.quick });
        }
    } else if same_text(name, "restart") {
        if plain && !o.verbose {
            return Ok(Command::Restart { config: o.config, quick: o.quick });
        }
    } else if same_text(name, "stop") {
        if bare(&o) {
            return Ok(Command::Stop);
        }
    } else if same_text(name, "status") {
        if bare(&o) {
            return Ok(Command::Status);
        }
    } else if same_text(name, "uninstall") {
        if bare(&o) {
            return Ok(Command::Uninstall);
        }
    } else if same_text(name, "version") {
        if bare(&o) {
            return Ok(Command::Version);
        }
    } else if same_text(name, "config") {
        return finish_config(o);
    } else {
        return Err(join("unknown command: ", name));
    }
    Err(join("unsupported option for ", name))
}

/// Read a command line, without the name of the program.
pub fn parse(args: Vec<String>) -> (r: Result<Command, String>)
    ensures
        exists|n: nat| #[trigger]
            interpret(texts(args@), Seq::empty(), no_options(), n) == Some(
                match r {
                    Ok(command) => Ok(command@),
                    Err(message) => Err(message@),
                },
            ),
{
    let ghost words = texts(args@);
    let mut parser: lexopt::Parser = lexer(args);
    let mut options: Options = Options {
        sub: None,
        action: None,
        config: None,
        output: None,
        verbose: false,
        force: false,
        quick: QuickArgs {
            listeners: Vec::new(),
            upstreams: Vec::new(),
            timeout_ms: None,
            cache_size: None,
            no_cache: false,
        },
    };
    let ghost mut steps: nat = 0;
    assert(options@ =~~= no_options());
    loop
        invariant
            words == texts(args@),
            lexopt_seen(parser).0 == words,
            forall|n: nat| #[trigger]
                interpret(words, lexopt_seen(parser).1, options@, n) == interpret(
                    words,
                    Seq::empty(),
                    no_options(),
                    n + steps,
                ),
        decreases lexopt_left(parser),
    {
        let ghost calls = lexopt_seen(parser).1;
        let ghost before = options@;
        proof {
            assert(interpret(words, calls, before, 1) == interpret(
                words,
                Seq::empty(),
                no_options(),
                1 + steps,
            ));
        }
        match lexer_next(&mut parser) {
            Err(message) => return Err(message),
            Ok(None) => return finish(options),
            Ok(Some((false, text))) => match add_argument(options, text) {
                Ok(more) => {
                    options = more;
                },
                Err(message) => return Err(message),
            },
            Ok(Some((true, option))) => {
                if same_text(option.as_str(), "-h") || same_text(option.as_str(), "--help") {
                    return Ok(Command::Help);
                }
                if option_takes_value(option.as_str()) {
                    let value: String = match lexer_value(&mut parser) {
                        Ok(value) => value,
                        Err(message) => return Err(message),
                    };
                    match add_value(options, option.as_str(), value) {
                        Ok(more) => {
                            options = more;
                        },
                        Err(message) => return Err(message),
                    }
                } else {
                    match add_flag(options, option) {
                        Ok(more) => {
                            options = more;
                        },
                        Err(message) => return Err(message),
                    }
                }
            },
        }
        proof {
            assert forall|n: nat| #[trigger]
                interpret(words, lexopt_seen(parser).1, options@, n) == interpret(
                    words,
                    Seq::empty(),
                    no_options(),
                    n + (steps + 1),
                ) by {
                assert(interpret(words, calls, before, n + 1) == interpret(
                    words,
                    lexopt_seen(parser).1,
                    options@,
                    n,
                ));
            }
            steps = steps + 1;
        }
    }
}

/// More steps than needed do not change what a command line means, so that it
/// means at most one thing.
pub proof fn law_a_command_line_means_one_thing(
    words: Seq<Seq<char>>,
    calls: Seq<bool>,
    o: OptionsView,
    n: nat,
    m: nat,
)
    requires
        interpret(words, calls, o, n) is Some,
        interpret(words, calls, o, m) is Some,
    ensures
        interpret(words, calls, o, n) == interpret(words, calls, o, m),
    decreases n,
{
    if n > 0 && m > 0 {
        match lexopt_next(words, calls) {
            Ok(Some((false, text))) => {
                if let Ok(more) = with_argument(o, text) {
                    law_a_command_line_means_one_thing(
                        words,
                        calls.push(false),
                        more,
                        (n - 1) as nat,
                        (m - 1) as nat,
                    );
                }
            },
            Ok(Some((true, option))) => {
                if option == "-h"@ || option == "--help"@ {
                } else if takes_value(option) {
                    if let Ok(value) = lexopt_value(words, calls.push(false)) {
                        if let Ok(more) = with_value(o, option, value) {
                            law_a_command_line_means_one_thing(
                                words,
                                calls.push(false).push(true),
                                more,
                                (n - 1) as nat,
                                (m - 1) as nat,
                            );
                        }
                    }
                } else if let Ok(more) = with_flag(o, option) {
                    law_a_command_line_means_one_thing(
                        words,
                        calls.push(false),
                        more,
                        (n - 1) as nat,
                        (m - 1) as nat,
                    );
                }
            },
            _ => {},
        }
    }
}

/// Commands that take no options are refused with any; and `config init` is
/// never run without something to write.
pub proof fn law_commands_refuse_options_they_do_not_take(o: OptionsView)
    ensures
        command_of(o) matches Ok(CommandView::Stop) ==> is_bare(o),
        command_of(o) matches Ok(CommandView::Status) ==> is_bare(o),
        command_of(o) matches Ok(CommandView::Uninstall) ==> is_bare(o),
        command_of(o) matches Ok(CommandView::Version) ==> is_bare(o),
        command_of(o) matches Ok(CommandView::Start { .. }) ==> !o.verbose,
        command_of(o) matches Ok(CommandView::ConfigInit { quick, .. }) ==> !quick.is_empty(),
{
}

} // verus!
