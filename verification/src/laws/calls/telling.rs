//! Calls that tell the user something, or Windows.
use crate::config::{AuthMode, Config, Mode};
use crate::doctor::{
    address_text, auth_name, auth_text, dest_from_test_url, direct_ok, fail_line, heading,
    heading_of, hops_line, mode_name, mode_text, none_worked, ok_line, probe_of, probe_request,
    route, route_text, selftest_line, target_line, test_destination, verdict, verdict_of, Selftest,
};
use crate::error::{Error, ErrorView};
use crate::hop::Hop;
use crate::http1::{ClientRequest, ServerResponse};
use crate::number::decimal;
use crate::platform::Platform;
use crate::service::{
    create_args, delete_args, escaped, install, query_args, removed, service_text, status,
    task_text, task_xml, uninstall, windows_path, xml_escape, Installation,
};
use crate::text::{lossy, lower, occurs};
use crate::wide::{text_in, text_of_wide, utf16, wide};
use vstd::prelude::*;

verus! {

/// A failure is shown as the laws on reports say.
pub proof fn failures_are_shown(err: &Error, msg: &str)
    ensures
        forall|r: String| #[trigger] call_ensures(Error::display, (err,), r) ==> r@ == err@.text(),
        forall|r: Error| #[trigger]
            call_ensures(Error::msg, (msg,), r) ==> r@ == ErrorView::Message(msg@),
{
}

/// The lines of the report say what the laws on reports say.
pub proof fn report_is_given(
    url: &str,
    host: &str,
    port: u16,
    resp: &ServerResponse,
    version: &str,
    exe: &str,
    cfg: &Config,
    hops: &[Hop],
    sep: &str,
    test: &Selftest,
    hop: &Hop,
    err: &Error,
    last: Option<Error>,
    mode: Mode,
    auth: AuthMode,
)
    ensures
        forall|r: Result<(String, u16), Error>| #[trigger]
            call_ensures(dest_from_test_url, (url,), r) ==> match r {
                Ok((h, p)) => test_destination(url@) == Ok::<(Seq<char>, u16), ErrorView>((h@, p)),
                Err(e) => test_destination(url@) == Err::<(Seq<char>, u16), ErrorView>(e@),
            },
        forall|r: ClientRequest| #[trigger]
            call_ensures(probe_request, (url, host, port), r) ==> r@ == probe_of(url@, host@, port),
        forall|r: Result<String, Error>| #[trigger]
            call_ensures(verdict, (host, port, resp), r) ==> match r {
                Ok(s) => verdict_of(host@, port, resp@) == Ok::<Seq<char>, ErrorView>(s@),
                Err(e) => verdict_of(host@, port, resp@) == Err::<Seq<char>, ErrorView>(e@),
            },
        forall|r: String| #[trigger]
            call_ensures(direct_ok, (host, port), r) ==> r@ == "direct TCP "@ + address_text(
                host@,
                port,
            ),
        forall|r: Vec<String>| #[trigger]
            call_ensures(heading, (version, exe, cfg), r) ==> r.deep_view() == heading_of(
                version@,
                exe@,
                *cfg,
            ),
        forall|r: String| #[trigger]
            call_ensures(target_line, (host, port), r) ==> r@ == "target      "@ + address_text(
                host@,
                port,
            ),
        forall|r: String| #[trigger]
            call_ensures(route, (hops, sep), r) ==> r@ == route_text(hops.deep_view(), sep@),
        forall|r: String| #[trigger]
            call_ensures(hops_line, (hops,), r) ==> r@ == "hops        "@ + route_text(
                hops.deep_view(),
                " -> "@,
            ),
        forall|r: String| #[trigger]
            call_ensures(selftest_line, (test,), r) ==> r@ == "selftest    "@ + match *test {
                Selftest::Deaf(e) => "listen fail "@ + e@,
                Selftest::Fine(p) => "ok 127.0.0.1:"@ + decimal(p as nat),
                Selftest::Failed(e) => "fail "@ + e@.text(),
            },
        forall|r: String| #[trigger]
            call_ensures(ok_line, (url,), r) ==> r@ == "ok          "@ + url@,
        forall|r: String| #[trigger]
            call_ensures(fail_line, (version, hop, err), r) ==> r@ == "fail        ntgate "@
                + version@ + " "@ + hop@.text() + " ("@ + err@.text() + ")"@,
        forall|r: Error| #[trigger]
            call_ensures(none_worked, (last,), r) ==> {
                &&& last is Some ==> r@ == (last->0)@
                &&& last is None ==> r@ == ErrorView::Message("no hop succeeded"@)
            },
        forall|r: &'static str| #[trigger]
            call_ensures(mode_name, (mode,), r) ==> r@ == mode_text(mode),
        forall|r: &'static str| #[trigger]
            call_ensures(auth_name, (auth,), r) ==> r@ == auth_text(auth),
        forall|r: Vec<String>| #[trigger]
            call_ensures(Config::env_lines, (cfg,), r) ==> r.deep_view() == cfg.env_text(),
{
}

/// The task is registered, removed and asked about under its one name, on
/// Windows and nowhere else; a task that was not there counts as removed.
pub proof fn task_is_managed(
    platform: Platform,
    exe: &str,
    config: &str,
    xml: &str,
    i: &Installation,
    success: bool,
    stderr: &[u8],
    cfg: &Config,
    found: bool,
)
    ensures
        forall|r: String| #[trigger] call_ensures(xml_escape, (xml,), r) ==> r@ == escaped(xml@),
        forall|r: String| #[trigger]
            call_ensures(task_xml, (exe, config), r) ==> r@ == task_text(exe@, config@),
        forall|r: Result<Installation, Error>| #[trigger]
            call_ensures(install, (platform, exe, config), r) ==> match r {
                Ok(x) => {
                    &&& platform == Platform::Windows
                    &&& x.exe@ == windows_path(exe@)
                    &&& x.config@ == windows_path(config@)
                    &&& x.xml@ == task_text(windows_path(exe@), windows_path(config@))
                },
                Err(e) => platform == Platform::Other && e@ == ErrorView::Unsupported(
                    "install registers a Windows logon task; this OS is not supported"@,
                ),
            },
        forall|r: Vec<String>| #[trigger]
            call_ensures(create_args, (xml,), r) ==> r.deep_view() == seq![
                "/Create"@,
                "/TN"@,
                "cntlm-next"@,
                "/XML"@,
                xml@,
                "/F"@,
            ],
        forall|r: Vec<String>| #[trigger]
            call_ensures(delete_args, (), r) ==> r.deep_view() == seq![
                "/Delete"@,
                "/TN"@,
                "cntlm-next"@,
                "/F"@,
            ],
        forall|r: Vec<String>| #[trigger]
            call_ensures(query_args, (), r) ==> r.deep_view() == seq![
                "/Query"@,
                "/TN"@,
                "cntlm-next"@,
                "/FO"@,
                "LIST"@,
            ],
        forall|r: Result<Vec<String>, Error>| #[trigger]
            call_ensures(Installation::registered, (i, success, stderr), r) ==> match r {
                Ok(lines) => success && lines.deep_view() == i.lines(),
                Err(e) => !success && e@ == ErrorView::Message(
                    "schtasks failed: "@ + lossy(stderr@),
                ),
            },
        forall|r: Result<(), Error>| #[trigger]
            call_ensures(uninstall, (platform,), r) ==> match r {
                Ok(_) => platform == Platform::Windows,
                Err(e) => platform == Platform::Other && e@ == ErrorView::Unsupported(
                    "uninstall is Windows-only"@,
                ),
            },
        forall|r: Result<String, Error>| #[trigger]
            call_ensures(removed, (success, stderr), r) ==> match r {
                Ok(line) => {
                    &&& success || occurs(lower(lossy(stderr@)), "cannot find"@)
                    &&& line@ == "removed logon task `"@ + "cntlm-next"@ + "`"@
                },
                Err(e) => {
                    &&& !success && !occurs(lower(lossy(stderr@)), "cannot find"@)
                    &&& e@ == ErrorView::Message("schtasks delete failed: "@ + lossy(stderr@))
                },
            },
        forall|r: Vec<String>| #[trigger]
            call_ensures(status, (platform, config, cfg, found), r) ==> r.deep_view() == seq![
                "config      "@ + config@,
                "listen      "@ + cfg.listen@,
                "mode        "@ + mode_text(cfg.mode),
                service_text(platform, found),
            ],
{
}

/// Text goes to Windows in UTF-16 with a zero at its end, and comes back as the
/// laws on tasks say; an empty text is none.
pub proof fn text_goes_to_windows(s: &str, units: &[u16])
    ensures
        forall|r: Vec<u16>| #[trigger]
            call_ensures(wide, (s,), r) ==> r@ == utf16(s@) + seq![0u16],
        forall|r: Option<String>| #[trigger]
            call_ensures(text_of_wide, (units,), r) ==> match r {
                Some(t) => units@.len() > 0 && t@ == text_in(units@),
                None => units@.len() == 0,
            },
{
    assert(utf16(s@).push(0) == utf16(s@) + seq![0u16]);
}

} // verus!
