//! The launchd job: its property list and the commands that manage it.

use crate::osdns::{failure_message, failure_text};
use crate::text::{begins_with, chars_of, has_prefix, join};
use vstd::prelude::*;
use vstd::string::*;

verus! {

pub const LABEL: &'static str = "io.github.wenliangcao.dnsrivet";

pub const PLIST_PATH: &'static str =
    "/Library/LaunchDaemons/io.github.wenliangcao.dnsrivet.plist";

pub const LAUNCHCTL: &'static str = "/bin/launchctl";

/// One character of XML text.
pub open spec fn escaped_char(c: char) -> Seq<char> {
    if c == '&' {
        "&amp;"@
    } else if c == '<' {
        "&lt;"@
    } else if c == '>' {
        "&gt;"@
    } else if c == '"' {
        "&quot;"@
    } else if c == '\'' {
        "&apos;"@
    } else {
        seq![c]
    }
}

/// A text as XML text.
pub open spec fn escaped(s: Seq<char>) -> Seq<char>
    decreases s.len(),
{
    if s.len() == 0 {
        Seq::empty()
    } else {
        escaped(s.drop_last()) + escaped_char(s.last())
    }
}

pub fn xml_escape(value: &str) -> (out: String)
    ensures
        out@ == escaped(value@),
{
    let chars: Vec<char> = chars_of(value);
    let mut out: String = String::new();
    let mut i: usize = 0;
    while i < chars.len()
        invariant
            i <= chars@.len(),
            out@ == escaped(chars@.take(i as int)),
        decreases chars@.len() - i,
    {
        proof {
            assert(chars@.take(i + 1).drop_last() =~= chars@.take(i as int));
        }
        let c: char = chars[i];
        let ghost before = out@;
        if c == '&' {
            out.append("&amp;");
        } else if c == '<' {
            out.append("&lt;");
        } else if c == '>' {
            out.append("&gt;");
        } else if c == '"' {
            out.append("&quot;");
        } else if c == '\'' {
            out.append("&apos;");
        } else {
            out.push(c);
            assert(out@ =~= before + seq![c]);
        }
        i = i + 1;
    }
    assert(chars@.take(i as int) =~= value@);
    out
}

/// The property list up to the path of the binary.
pub open spec fn plist_head() -> Seq<char> {
    "<?xml version=\"1.0\" encoding=\"UTF-8\"?>
<!DOCTYPE plist PUBLIC \"-//Apple//DTD PLIST 1.0//EN\" \"http://www.apple.com/DTDs/PropertyList-1.0.dtd\">
<plist version=\"1.0\">
<dict>
    <key>Label</key>
    <string>io.github.wenliangcao.dnsrivet</string>
    <key>ProgramArguments</key>
    <array>
        <string>"@
}

/// The property list between the paths of the binary and the configuration.
pub open spec fn plist_middle() -> Seq<char> {
    "</string>
        <string>run</string>
        <string>--config</string>
        <string>"@
}

/// The property list after the path of the configuration.
pub open spec fn plist_tail() -> Seq<char> {
    "</string>
    </array>
    <key>WorkingDirectory</key>
    <string>/Library/Application Support/DNSRivet</string>
    <key>RunAtLoad</key>
    <true/>
    <key>KeepAlive</key>
    <true/>
    <key>StandardOutPath</key>
    <string>/var/log/dnsrivet.log</string>
    <key>StandardErrorPath</key>
    <string>/var/log/dnsrivet.log</string>
</dict>
</plist>
"@
}

/// The property list of a job that runs `binary` with the configuration file
/// `config`.
pub open spec fn plist(binary: Seq<char>, config: Seq<char>) -> Seq<char> {
    plist_head() + escaped(binary) + plist_middle() + escaped(config) + plist_tail()
}

pub fn render_plist(binary: &str, config: &str) -> (out: String)
    ensures
        out@ == plist(binary@, config@),
{
    let mut out: String = "<?xml version=\"1.0\" encoding=\"UTF-8\"?>
<!DOCTYPE plist PUBLIC \"-//Apple//DTD PLIST 1.0//EN\" \"http://www.apple.com/DTDs/PropertyList-1.0.dtd\">
<plist version=\"1.0\">
<dict>
    <key>Label</key>
    <string>io.github.wenliangcao.dnsrivet</string>
    <key>ProgramArguments</key>
    <array>
        <string>".to_owned();
    out.append(xml_escape(binary).as_str());
    out.append("</string>
        <string>run</string>
        <string>--config</string>
        <string>");
    out.append(xml_escape(config).as_str());
    out.append("</string>
    </array>
    <key>WorkingDirectory</key>
    <string>/Library/Application Support/DNSRivet</string>
    <key>RunAtLoad</key>
    <true/>
    <key>KeepAlive</key>
    <true/>
    <key>StandardOutPath</key>
    <string>/var/log/dnsrivet.log</string>
    <key>StandardErrorPath</key>
    <string>/var/log/dnsrivet.log</string>
</dict>
</plist>
");
    out
}

/// The property list to write. launchd resolves neither path against a
/// directory, so that both have to be absolute.
pub fn checked_plist(binary: &str, config: &str) -> (r: Result<String, String>)
    ensures
        if begins_with(binary@, "/"@) && begins_with(config@, "/"@) {
            r matches Ok(text) && text@ == plist(binary@, config@)
        } else {
            r matches Err(m) && m@ == "launchd binary and config paths must be absolute"@
        },
{
    if !has_prefix(chars_of(binary).as_slice(), "/") || !has_prefix(
        chars_of(config).as_slice(),
        "/",
    ) {
        return Err("launchd binary and config paths must be absolute".to_owned());
    }
    Ok(render_plist(binary, config))
}

/// Whether a launchctl command worked, or what it is reported to have said: its
/// error output, or where there is none its ordinary output.
pub fn checked(success: bool, stdout: &str, stderr: &str, action: &str) -> (r: Result<(), String>)
    ensures
        if success {
            r is Ok
        } else {
            r matches Err(m) && m@ == failure_message(
                action@,
                if stderr@.len() == 0 {
                    stdout@
                } else {
                    stderr@
                },
            )
        },
{
    if success {
        return Ok(());
    }
    Err(
        failure_text(
            action,
            if stderr.is_empty() {
                stdout
            } else {
                stderr
            },
        ),
    )
}

/// How launchctl names the job.
pub fn service_target() -> (target: String)
    ensures
        target@ == "system/"@ + "io.github.wenliangcao.dnsrivet"@,
{
    join("system/", "io.github.wenliangcao.dnsrivet")
}

/// Escaped text holds no markup: what a path contains cannot end the element it
/// stands in.
pub proof fn law_escaped_text_holds_no_markup(s: Seq<char>)
    ensures
        forall|i: int|
            0 <= i < escaped(s).len() ==> #[trigger] escaped(s)[i] != '<' && escaped(s)[i] != '>'
                && escaped(s)[i] != '"' && escaped(s)[i] != '\'',
    decreases s.len(),
{
    if s.len() > 0 {
        law_escaped_text_holds_no_markup(s.drop_last());
        reveal_strlit("&amp;");
        reveal_strlit("&lt;");
        reveal_strlit("&gt;");
        reveal_strlit("&quot;");
        reveal_strlit("&apos;");
        let before = escaped(s.drop_last());
        let last = escaped_char(s.last());
        assert forall|i: int| 0 <= i < escaped(s).len() implies #[trigger] escaped(s)[i] != '<'
            && escaped(s)[i] != '>' && escaped(s)[i] != '"' && escaped(s)[i] != '\'' by {
            if i < before.len() {
                assert(escaped(s)[i] == before[i]);
            } else {
                assert(escaped(s)[i] == last[i - before.len()]);
            }
        }
    }
}

/// Text is escaped character by character: the five that XML gives a meaning to
/// by their names, and no others.
pub proof fn law_escaping_is_by_character(s: Seq<char>, c: char)
    ensures
        escaped(Seq::empty()) == Seq::<char>::empty(),
        c == '&' ==> escaped(s.push(c)) == escaped(s) + "&amp;"@,
        c == '<' ==> escaped(s.push(c)) == escaped(s) + "&lt;"@,
        c == '>' ==> escaped(s.push(c)) == escaped(s) + "&gt;"@,
        c == '"' ==> escaped(s.push(c)) == escaped(s) + "&quot;"@,
        c == '\'' ==> escaped(s.push(c)) == escaped(s) + "&apos;"@,
        c != '&' && c != '<' && c != '>' && c != '"' && c != '\'' ==> escaped(s.push(c)) == escaped(
            s,
        ).push(c),
{
    assert(s.push(c).drop_last() =~= s);
    if c != '&' && c != '<' && c != '>' && c != '"' && c != '\'' {
        assert(escaped(s) + seq![c] =~= escaped(s).push(c));
    }
}

/// The job runs the binary with `run --config` and the path of the
/// configuration, under its own label; it runs when it is loaded, is kept alive,
/// and logs to one file.
pub proof fn law_the_job_runs_the_binary(binary: Seq<char>, config: Seq<char>)
    ensures
        plist(binary, config) == "<?xml version=\"1.0\" encoding=\"UTF-8\"?>
<!DOCTYPE plist PUBLIC \"-//Apple//DTD PLIST 1.0//EN\" \"http://www.apple.com/DTDs/PropertyList-1.0.dtd\">
<plist version=\"1.0\">
<dict>
    <key>Label</key>
    <string>io.github.wenliangcao.dnsrivet</string>
    <key>ProgramArguments</key>
    <array>
        <string>"@ + escaped(binary) + "</string>
        <string>run</string>
        <string>--config</string>
        <string>"@ + escaped(config) + "</string>
    </array>
    <key>WorkingDirectory</key>
    <string>/Library/Application Support/DNSRivet</string>
    <key>RunAtLoad</key>
    <true/>
    <key>KeepAlive</key>
    <true/>
    <key>StandardOutPath</key>
    <string>/var/log/dnsrivet.log</string>
    <key>StandardErrorPath</key>
    <string>/var/log/dnsrivet.log</string>
</dict>
</plist>
"@,
        LABEL@ == "io.github.wenliangcao.dnsrivet"@,
        PLIST_PATH@ == "/Library/LaunchDaemons/io.github.wenliangcao.dnsrivet.plist"@,
        LAUNCHCTL@ == "/bin/launchctl"@,
{
}

} // verus!
