//! The task that starts the proxy when the user logs on.
use crate::boundary::lossy_text;
use crate::config::Config;
use crate::doctor::{mode_name, mode_text};
use crate::error::{Error, ErrorView};
use crate::platform::Platform;
use crate::text::{chars_of, contains_text, lossy, lower, lowered, occurs};
use vstd::prelude::*;
use vstd::string::StringExecFns;

verus! {

/// The name of the task.
pub const TASK_NAME: &'static str = "cntlm-next";

/// The description of the task, up to the program.
pub const TASK_HEAD: &'static str = r#"<?xml version="1.0" encoding="UTF-16"?>
<Task version="1.2" xmlns="http://schemas.microsoft.com/windows/2004/02/mit/task">
  <RegistrationInfo>
    <Description>cntlm-next local NTLM/Negotiate proxy facade</Description>
  </RegistrationInfo>
  <Triggers>
    <LogonTrigger>
      <Enabled>true</Enabled>
    </LogonTrigger>
  </Triggers>
  <Principals>
    <Principal id="Author">
      <LogonType>InteractiveToken</LogonType>
      <RunLevel>LeastPrivilege</RunLevel>
    </Principal>
  </Principals>
  <Settings>
    <MultipleInstancesPolicy>IgnoreNew</MultipleInstancesPolicy>
    <DisallowStartIfOnBatteries>false</DisallowStartIfOnBatteries>
    <StopIfGoingOnBatteries>false</StopIfGoingOnBatteries>
    <AllowHardTerminate>true</AllowHardTerminate>
    <StartWhenAvailable>true</StartWhenAvailable>
    <RunOnlyIfNetworkAvailable>false</RunOnlyIfNetworkAvailable>
    <IdleSettings>
      <StopOnIdleEnd>false</StopOnIdleEnd>
      <RestartOnIdle>false</RestartOnIdle>
    </IdleSettings>
    <AllowStartOnDemand>true</AllowStartOnDemand>
    <Enabled>true</Enabled>
    <Hidden>true</Hidden>
    <RunOnlyIfIdle>false</RunOnlyIfIdle>
    <WakeToRun>false</WakeToRun>
    <ExecutionTimeLimit>PT0S</ExecutionTimeLimit>
    <Priority>7</Priority>
    <RestartOnFailure>
      <Interval>PT5S</Interval>
      <Count>3</Count>
    </RestartOnFailure>
  </Settings>
  <Actions Context="Author">
    <Exec>
      <Command>"#;

/// The description of the task, between the program and its arguments.
pub const TASK_MIDDLE: &'static str = r#"</Command>
      <Arguments>"#;

/// The description of the task, after the arguments.
pub const TASK_TAIL: &'static str = r#"</Arguments>
    </Exec>
  </Actions>
</Task>
"#;

/// How a character is written in XML.
pub open spec fn escaped_char(c: char) -> Seq<char> {
    if c == '&' {
        "&amp;"@
    } else if c == '<' {
        "&lt;"@
    } else if c == '>' {
        "&gt;"@
    } else if c == '"' {
        "&quot;"@
    } else {
        seq![c]
    }
}

/// How a text is written in XML.
pub open spec fn escaped(s: Seq<char>) -> Seq<char>
    decreases s.len(),
{
    if s.len() == 0 {
        Seq::empty()
    } else {
        escaped(s.drop_last()) + escaped_char(s.last())
    }
}

/// Writes a text in XML.
pub fn xml_escape(s: &str) -> (r: String)
    ensures
        r@ == escaped(s@),
{
    let mut out = String::new();
    for c in it: s.chars()
        invariant
            out@ == escaped(it.seq().take(it.index())),
            it.seq() == s@,
    {
        let ghost done = out@;
        assert(s@.take(it.index() + 1).drop_last() == s@.take(it.index()));
        if c == '&' {
            out.append("&amp;");
        } else if c == '<' {
            out.append("&lt;");
        } else if c == '>' {
            out.append("&gt;");
        } else if c == '"' {
            out.append("&quot;");
        } else {
            out.push(c);
        }
        assert(out@ == done + escaped_char(c));
    }
    assert(s@.take(s@.len() as int) == s@);
    out
}

/// What is written in XML opens and closes no tag and ends no attribute.
pub proof fn escaped_text_is_plain(s: Seq<char>)
    ensures
        forall|i: int| #![trigger escaped(s)[i]]
            0 <= i < escaped(s).len() ==> escaped(s)[i] != '<' && escaped(s)[i] != '>'
                && escaped(s)[i] != '"',
    decreases s.len(),
{
    reveal_strlit("&amp;");
    reveal_strlit("&lt;");
    reveal_strlit("&gt;");
    reveal_strlit("&quot;");
    if s.len() > 0 {
        escaped_text_is_plain(s.drop_last());
        let a = escaped(s.drop_last());
        assert forall|i: int| #![trigger escaped(s)[i]] 0 <= i < escaped(s).len() implies escaped(
            s,
        )[i] != '<' && escaped(s)[i] != '>' && escaped(s)[i] != '"' by {
            if i >= a.len() {
                assert(escaped(s)[i] == escaped_char(s.last())[i - a.len()]);
            }
        }
    }
}

/// What a text in XML stands for: the names of the four characters that are
/// written by name, and every other character for itself.
pub open spec fn unescaped(s: Seq<char>) -> Seq<char>
    decreases s.len(),
{
    proof {
        reveal_strlit("&amp;");
        reveal_strlit("&lt;");
        reveal_strlit("&gt;");
        reveal_strlit("&quot;");
    }
    if s.len() == 0 {
        Seq::empty()
    } else if "&amp;"@.is_prefix_of(s) {
        seq!['&'] + unescaped(s.skip(5))
    } else if "&lt;"@.is_prefix_of(s) {
        seq!['<'] + unescaped(s.skip(4))
    } else if "&gt;"@.is_prefix_of(s) {
        seq!['>'] + unescaped(s.skip(4))
    } else if "&quot;"@.is_prefix_of(s) {
        seq!['"'] + unescaped(s.skip(6))
    } else {
        seq![s[0]] + unescaped(s.skip(1))
    }
}

proof fn lemma_escaped_front(c: char, s: Seq<char>)
    ensures
        escaped(seq![c] + s) == escaped_char(c) + escaped(s),
    decreases s.len(),
{
    let all = seq![c] + s;
    if s.len() == 0 {
        assert(all.drop_last() == Seq::<char>::empty());
        assert(escaped(all.drop_last()) == Seq::<char>::empty());
    } else {
        assert(all.drop_last() == seq![c] + s.drop_last());
        lemma_escaped_front(c, s.drop_last());
        assert(escaped_char(c) + escaped(s.drop_last()) + escaped_char(s.last()) == escaped_char(c)
            + (escaped(s.drop_last()) + escaped_char(s.last())));
    }
}

proof fn lemma_unescaped_front(c: char, t: Seq<char>)
    ensures
        unescaped(escaped_char(c) + t) == seq![c] + unescaped(t),
{
    reveal_strlit("&amp;");
    reveal_strlit("&lt;");
    reveal_strlit("&gt;");
    reveal_strlit("&quot;");
    let e = escaped_char(c);
    let s = e + t;
    let n = e.len() as int;
    assert(s.skip(n) == t);
    assert(s.subrange(0, n) == e);
    assert forall|p: Seq<char>, i: int|
        #![trigger p.is_prefix_of(s), p[i]]
        p.is_prefix_of(s) && 0 <= i < p.len() implies p[i] == s[i] by {
        assert(p[i] == s.subrange(0, p.len() as int)[i]);
    }
    assert(forall|i: int| 0 <= i < n ==> s[i] == e[i]);
    assert("&amp;"@[0] == '&' && "&lt;"@[0] == '&' && "&gt;"@[0] == '&' && "&quot;"@[0] == '&');
    assert("&amp;"@[1] == 'a' && "&lt;"@[1] == 'l' && "&gt;"@[1] == 'g' && "&quot;"@[1] == 'q');
}

/// What is written in XML stands for the text that was written.
pub proof fn escaped_text_is_read_back(s: Seq<char>)
    ensures
        unescaped(escaped(s)) == s,
    decreases s.len(),
{
    if s.len() > 0 {
        let t = s.drop_first();
        escaped_text_is_read_back(t);
        assert(s == seq![s[0]] + t);
        lemma_escaped_front(s[0], t);
        lemma_unescaped_front(s[0], escaped(t));
    }
}

/// The arguments with which the task starts the program.
pub open spec fn arguments_of(config: Seq<char>) -> Seq<char> {
    "run -c \""@ + config + "\""@
}

/// The description of the task that starts the program `exe` with the settings
/// in the file `config`.
pub open spec fn task_text(exe: Seq<char>, config: Seq<char>) -> Seq<char> {
    TASK_HEAD@ + escaped(exe) + TASK_MIDDLE@ + escaped(arguments_of(config)) + TASK_TAIL@
}

/// Describes the task that starts the program `exe` with the settings in the
/// file `config`.
pub fn task_xml(exe: &str, config: &str) -> (r: String)
    ensures
        r@ == task_text(exe@, config@),
{
    let mut args = "run -c \"".to_owned();
    args.append(config);
    args.append("\"");
    let mut out = TASK_HEAD.to_owned();
    out.append(xml_escape(exe).as_str());
    out.append(TASK_MIDDLE);
    out.append(xml_escape(args.as_str()).as_str());
    out.append(TASK_TAIL);
    out
}

/// A path with Windows' separators.
pub open spec fn windows_path(path: Seq<char>) -> Seq<char> {
    path.map_values(
        |c: char|
            if c == '/' {
                '\\'
            } else {
                c
            },
    )
}

fn with_backslashes(path: &str) -> (r: String)
    ensures
        r@ == windows_path(path@),
{
    let mut out = String::new();
    for c in it: path.chars()
        invariant
            out@ == windows_path(it.seq().take(it.index())),
            it.seq() == path@,
    {
        if c == '/' {
            out.push('\\');
        } else {
            out.push(c);
        }
        assert(out@ == windows_path(path@.take(it.index() + 1)));
    }
    assert(path@.take(path@.len() as int) == path@);
    out
}

/// What is to be done to register the task.
#[derive(Debug)]
pub struct Installation {
    /// The program, with Windows' separators.
    pub exe: String,
    /// The file with the settings, with Windows' separators.
    pub config: String,
    /// The description of the task.
    pub xml: String,
}

/// Tells what is to be done to register the task that starts the program `exe`
/// with the settings in the file `config_path`.
pub fn install(platform: Platform, exe: &str, config_path: &str) -> (r: Result<
    Installation,
    Error,
>)
    ensures
        match r {
            Ok(i) => {
                &&& platform is Windows
                &&& i.exe@ == windows_path(exe@)
                &&& i.config@ == windows_path(config_path@)
                &&& i.xml@ == task_text(windows_path(exe@), windows_path(config_path@))
            },
            Err(e) => {
                &&& platform is Other
                &&& e@ == ErrorView::Unsupported(
                    "install registers a Windows logon task; this OS is not supported"@,
                )
            },
        },
{
    match platform {
        Platform::Windows => {
            let exe = with_backslashes(exe);
            let config = with_backslashes(config_path);
            let xml = task_xml(exe.as_str(), config.as_str());
            Ok(Installation { exe, config, xml })
        },
        Platform::Other => Err(
            Error::Unsupported("install registers a Windows logon task; this OS is not supported"),
        ),
    }
}

/// The arguments by which `schtasks` registers the task that is described in
/// the file `xml`.
pub fn create_args(xml: &str) -> (r: Vec<String>)
    ensures
        r.deep_view() == seq!["/Create"@, "/TN"@, TASK_NAME@, "/XML"@, xml@, "/F"@],
{
    let mut out: Vec<String> = Vec::new();
    out.push("/Create".to_owned());
    out.push("/TN".to_owned());
    out.push(TASK_NAME.to_owned());
    out.push("/XML".to_owned());
    out.push(xml.to_owned());
    out.push("/F".to_owned());
    assert(out.deep_view() == seq!["/Create"@, "/TN"@, TASK_NAME@, "/XML"@, xml@, "/F"@]);
    out
}

impl Installation {
    /// What is said of a task that is registered.
    pub open spec fn lines(&self) -> Seq<Seq<char>> {
        seq![
            "installed logon task `"@ + TASK_NAME@ + "`"@,
            "  exe     "@ + self.exe@,
            "  config  "@ + self.config@,
            "  starts at user logon, restarts on failure"@,
        ]
    }

    /// Takes how `schtasks` ended and what it said, and gives the lines to
    /// print.
    pub fn registered(&self, success: bool, stderr: &[u8]) -> (r: Result<Vec<String>, Error>)
        ensures
            match r {
                Ok(lines) => success && lines.deep_view() == self.lines(),
                Err(e) => !success && e@ == ErrorView::Message(
                    "schtasks failed: "@ + lossy(stderr@),
                ),
            },
    {
        if !success {
            let message = "schtasks failed: ".to_owned().concat(lossy_text(stderr).as_str());
            return Err(Error::Message(message));
        }
        let mut out: Vec<String> = Vec::new();
        out.push(named("installed logon task `"));
        out.push("  exe     ".to_owned().concat(self.exe.as_str()));
        out.push("  config  ".to_owned().concat(self.config.as_str()));
        out.push("  starts at user logon, restarts on failure".to_owned());
        assert(out.deep_view() == self.lines());
        Ok(out)
    }
}

fn named(text: &str) -> (r: String)
    ensures
        r@ == text@ + TASK_NAME@ + "`"@,
{
    let mut out = text.to_owned();
    out.append(TASK_NAME);
    out.append("`");
    out
}

/// Tells whether the task can be removed, which takes a call of `schtasks` with
/// `delete_args`.
pub fn uninstall(platform: Platform) -> (r: Result<(), Error>)
    ensures
        match r {
            Ok(_) => platform is Windows,
            Err(e) => platform is Other && e@ == ErrorView::Unsupported(
                "uninstall is Windows-only"@,
            ),
        },
{
    match platform {
        Platform::Windows => Ok(()),
        Platform::Other => Err(Error::Unsupported("uninstall is Windows-only")),
    }
}

/// The arguments by which `schtasks` removes the task.
pub fn delete_args() -> (r: Vec<String>)
    ensures
        r.deep_view() == seq!["/Delete"@, "/TN"@, TASK_NAME@, "/F"@],
{
    let mut out: Vec<String> = Vec::new();
    out.push("/Delete".to_owned());
    out.push("/TN".to_owned());
    out.push(TASK_NAME.to_owned());
    out.push("/F".to_owned());
    assert(out.deep_view() == seq!["/Delete"@, "/TN"@, TASK_NAME@, "/F"@]);
    out
}

/// Takes how `schtasks` ended and what it said, and gives the line to print. A
/// task that was not there counts as removed.
pub fn removed(success: bool, stderr: &[u8]) -> (r: Result<String, Error>)
    ensures
        match r {
            Ok(line) => {
                &&& success || occurs(lower(lossy(stderr@)), "cannot find"@)
                &&& line@ == "removed logon task `"@ + TASK_NAME@ + "`"@
            },
            Err(e) => {
                &&& !success && !occurs(lower(lossy(stderr@)), "cannot find"@)
                &&& e@ == ErrorView::Message("schtasks delete failed: "@ + lossy(stderr@))
            },
        },
{
    if !success {
        let said = lossy_text(stderr);
        let small = lowered(chars_of(said.as_str()).as_slice());
        let words = chars_of("cannot find");
        if !contains_text(small.as_slice(), words.as_slice()) {
            let message = "schtasks delete failed: ".to_owned().concat(said.as_str());
            return Err(Error::Message(message));
        }
    }
    Ok(named("removed logon task `"))
}

/// The arguments by which `schtasks` tells whether the task is there.
pub fn query_args() -> (r: Vec<String>)
    ensures
        r.deep_view() == seq!["/Query"@, "/TN"@, TASK_NAME@, "/FO"@, "LIST"@],
{
    let mut out: Vec<String> = Vec::new();
    out.push("/Query".to_owned());
    out.push("/TN".to_owned());
    out.push(TASK_NAME.to_owned());
    out.push("/FO".to_owned());
    out.push("LIST".to_owned());
    assert(out.deep_view() == seq!["/Query"@, "/TN"@, TASK_NAME@, "/FO"@, "LIST"@]);
    out
}

/// The line on the task; `found` tells whether it is there.
pub open spec fn service_text(platform: Platform, found: bool) -> Seq<char> {
    match platform {
        Platform::Windows => if found {
            "service     installed (Task Scheduler `"@ + TASK_NAME@ + "`)"@
        } else {
            "service     not installed"@
        },
        Platform::Other => "service     not applicable (Windows-only)"@,
    }
}

/// The lines that show where the settings are, what they hold, and whether the
/// task is there.
pub fn status(platform: Platform, config_path: &str, cfg: &Config, found: bool) -> (r: Vec<String>)
    ensures
        r.deep_view() == seq![
            "config      "@ + config_path@,
            "listen      "@ + cfg.listen@,
            "mode        "@ + mode_text(cfg.mode),
            service_text(platform, found),
        ],
{
    let mut out: Vec<String> = Vec::new();
    out.push("config      ".to_owned().concat(config_path));
    out.push("listen      ".to_owned().concat(cfg.listen.as_str()));
    out.push("mode        ".to_owned().concat(mode_name(cfg.mode)));
    let service = match platform {
        Platform::Windows => if found {
            let mut s = "service     installed (Task Scheduler `".to_owned();
            s.append(TASK_NAME);
            s.append("`)");
            s
        } else {
            "service     not installed".to_owned()
        },
        Platform::Other => "service     not applicable (Windows-only)".to_owned(),
    };
    out.push(service);
    assert(out.deep_view() == seq![
        "config      "@ + config_path@,
        "listen      "@ + cfg.listen@,
        "mode        "@ + mode_text(cfg.mode),
        service_text(platform, found),
    ]);
    out
}

} // verus!
