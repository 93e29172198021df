//! The task that starts the program, and text as Windows takes it.
use crate::platform::Platform;
use crate::service::{
    arguments_of, escaped, service_text, task_text, windows_path, Installation, TASK_HEAD,
    TASK_MIDDLE, TASK_NAME, TASK_TAIL,
};
use crate::wide::{text_in, units_of, utf16};
use vstd::prelude::*;

verus! {

/// Four characters are written by name in XML, and every other as it is.
pub proof fn text_is_escaped_one_by_one(s: Seq<char>, c: char)
    ensures
        escaped(Seq::empty()) == Seq::<char>::empty(),
        escaped(s.push(c)) == escaped(s) + if c == '&' {
            "&amp;"@
        } else if c == '<' {
            "&lt;"@
        } else if c == '>' {
            "&gt;"@
        } else if c == '"' {
            "&quot;"@
        } else {
            seq![c]
        },
{
    assert(s.push(c).drop_last() == s);
}

/// A path has Windows' separators where it had slashes, and is the same
/// otherwise.
pub proof fn slashes_become_backslashes(path: Seq<char>)
    ensures
        windows_path(path).len() == path.len(),
        forall|i: int| #![trigger windows_path(path)[i]]
            0 <= i < path.len() ==> windows_path(path)[i] == if path[i] == '/' {
                '\\'
            } else {
                path[i]
            },
{
}

/// The task is named after the program, runs it with the settings in a file in
/// quotes, and names both as they are, escaped.
pub proof fn task_runs_the_program(exe: Seq<char>, config: Seq<char>)
    ensures
        TASK_NAME@ == "cntlm-next"@,
        arguments_of(config) == "run -c "@ + seq!['"'] + config + seq!['"'],
        task_text(exe, config) == TASK_HEAD@ + escaped(exe) + TASK_MIDDLE@ + escaped(
            "run -c "@ + seq!['"'] + config + seq!['"'],
        ) + TASK_TAIL@,
{
    reveal_strlit("run -c \"");
    reveal_strlit("run -c ");
    reveal_strlit("\"");
    assert("run -c \""@ == "run -c "@ + seq!['"']);
    assert("\""@ == seq!['"']);
}

/// The user is told whether the task is there, and that it cannot be where
/// there is no Windows.
pub proof fn task_is_told_of(i: Installation)
    ensures
        service_text(Platform::Windows, true)
            == "service     installed (Task Scheduler `cntlm-next`)"@,
        service_text(Platform::Windows, false) == "service     not installed"@,
        service_text(Platform::Other, true) == "service     not applicable (Windows-only)"@,
        service_text(Platform::Other, false) == "service     not applicable (Windows-only)"@,
        i.lines() == seq![
            "installed logon task `cntlm-next`"@,
            "  exe     "@ + i.exe@,
            "  config  "@ + i.config@,
            "  starts at user logon, restarts on failure"@,
        ],
{
    reveal_strlit("cntlm-next");
    reveal_strlit("service     installed (Task Scheduler `");
    reveal_strlit("`)");
    reveal_strlit("`");
    reveal_strlit("service     installed (Task Scheduler `cntlm-next`)");
    reveal_strlit("installed logon task `");
    reveal_strlit("installed logon task `cntlm-next`");
    assert("service     installed (Task Scheduler `"@ + "cntlm-next"@ + "`)"@
        == "service     installed (Task Scheduler `cntlm-next`)"@);
    assert("installed logon task `"@ + "cntlm-next"@ + "`"@ == "installed logon task `cntlm-next`"@);
}

/// A character of up to sixteen bits is one unit of that number, and any other
/// is a pair of units with ten of its bits each.
pub proof fn characters_are_units(s: Seq<char>, c: char)
    ensures
        utf16(Seq::empty()) == Seq::<u16>::empty(),
        utf16(s.push(c)) == utf16(s) + units_of(c),
        (c as u32) < 0x1_0000 ==> units_of(c).len() == 1 && units_of(c)[0] == c as u32,
        c as u32 >= 0x1_0000 ==> units_of(c).len() == 2 && units_of(c)[0] - 0xd800 == (c as u32
            - 0x1_0000) / 0x400 && units_of(c)[1] - 0xdc00 == (c as u32 - 0x1_0000) % 0x400,
{
    vstd::utf8::char_is_scalar(c);
    assert(s.push(c).drop_last() == s);
}

/// A unit that should be one of a pair and is not stands for U+FFFD, and does
/// not hide what follows it.
pub proof fn lone_units_are_replaced(u: Seq<u16>, rest: Seq<u16>, a: u16)
    ensures
        0xd800 <= a < 0xe000 && (a >= 0xdc00 || rest.len() == 0 || !(0xdc00 <= rest[0] < 0xe000))
            ==> text_in(seq![a] + rest) == seq!['\u{fffd}'] + text_in(rest),
        text_in(Seq::empty()) == Seq::<char>::empty(),
{
    let s = seq![a] + rest;
    assert(s.skip(1) == rest);
    if rest.len() > 0 {
        assert(s[1] == rest[0]);
    }
}

/// The task starts when the user logs on, runs as that user without more
/// rights, is hidden and never stopped, and is started again five seconds after
/// a failure, three times.
pub proof fn task_starts_at_logon()
    ensures
        TASK_HEAD@ == r#"<?xml version="1.0" encoding="UTF-16"?>
<Task version="1.2" xmlns="http://schemas.microsoft.com/windows/2004/02/mit/task">
  <RegistrationInfo>
    <Description>cntlm-next local NTLM/Negotiate proxy facade</Description>
  </RegistrationInfo>
  <Triggers>
    <LogonTrigger>
      <Enabled>true</Enabled>
    </LogonTrigger>
  </Triggers>
  <Principals>
    <Principal id="Author">
      <LogonType>InteractiveToken</LogonType>
      <RunLevel>LeastPrivilege</RunLevel>
    </Principal>
  </Principals>
  <Settings>
    <MultipleInstancesPolicy>IgnoreNew</MultipleInstancesPolicy>
    <DisallowStartIfOnBatteries>false</DisallowStartIfOnBatteries>
    <StopIfGoingOnBatteries>false</StopIfGoingOnBatteries>
    <AllowHardTerminate>true</AllowHardTerminate>
    <StartWhenAvailable>true</StartWhenAvailable>
    <RunOnlyIfNetworkAvailable>false</RunOnlyIfNetworkAvailable>
    <IdleSettings>
      <StopOnIdleEnd>false</StopOnIdleEnd>
      <RestartOnIdle>false</RestartOnIdle>
    </IdleSettings>
    <AllowStartOnDemand>true</AllowStartOnDemand>
    <Enabled>true</Enabled>
    <Hidden>true</Hidden>
    <RunOnlyIfIdle>false</RunOnlyIfIdle>
    <WakeToRun>false</WakeToRun>
    <ExecutionTimeLimit>PT0S</ExecutionTimeLimit>
    <Priority>7</Priority>
    <RestartOnFailure>
      <Interval>PT5S</Interval>
      <Count>3</Count>
    </RestartOnFailure>
  </Settings>
  <Actions Context="Author">
    <Exec>
      <Command>"#@,
        TASK_MIDDLE@ == r#"</Command>
      <Arguments>"#@,
        TASK_TAIL@ == r#"</Arguments>
    </Exec>
  </Actions>
</Task>
"#@,
{
}

} // verus!
