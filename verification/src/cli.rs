//! The command line: what the program is asked to do.
use crate::numbers::{number_of, number_refusal, read_number, NumberFault};
use crate::pieces::texts;
use crate::system::Platform;
use crate::text::{chars_of, same, text_view};
use crate::update::CURRENT_VERSION;
use vstd::prelude::*;

verus! {

/// What a tunnel is run for.
#[derive(Clone, Copy, PartialEq, Eq, Structural, Debug)]
pub enum Mode {
    /// Look at the configuration only.
    Check,
    /// Manage WireGuard and run the relay.
    Run,
    /// Run the relay only.
    Relay,
}

/// What the program is asked to do.
#[derive(Debug)]
pub enum Invocation {
    Help,
    /// Run a tunnel with the configuration of a path.
    Tunnel(Mode, String),
    UpdateCheck,
    /// Download an update, of a version where one is asked for.
    UpdateDownload(Option<String>),
    /// Install an update once a process is gone: its number, the digest, the package, and the
    /// directory.
    UpdateInstall(u32, String, String, String),
    /// Serve the requests of a frontend.
    Desktop,
    /// Serve a window on macOS: the directory of the session, and the user.
    MacosSession(String, u32),
}

#[verifier::ext_equal]
pub enum InvocationView {
    Help,
    Tunnel(Mode, Seq<char>),
    UpdateCheck,
    UpdateDownload(Option<Seq<char>>),
    UpdateInstall(u32, Seq<char>, Seq<char>, Seq<char>),
    Desktop,
    MacosSession(Seq<char>, u32),
}

impl View for Invocation {
    type V = InvocationView;

    open spec fn view(&self) -> InvocationView {
        match *self {
            Invocation::Help => InvocationView::Help,
            Invocation::Tunnel(mode, path) => InvocationView::Tunnel(mode, path@),
            Invocation::UpdateCheck => InvocationView::UpdateCheck,
            Invocation::UpdateDownload(version) => InvocationView::UpdateDownload(
                text_view(version),
            ),
            Invocation::UpdateInstall(pid, hash, path, directory) => InvocationView::UpdateInstall(
                pid,
                hash@,
                path@,
                directory@,
            ),
            Invocation::Desktop => InvocationView::Desktop,
            Invocation::MacosSession(path, uid) => InvocationView::MacosSession(path@, uid),
        }
    }
}

/// Why the arguments are not understood.
#[derive(Clone, Copy, PartialEq, Eq, Structural, Debug)]
pub enum UsageError {
    Usage,
    UpdateUsage,
    Number(NumberFault),
}

pub open spec fn refusal(e: UsageError) -> Seq<char> {
    match e {
        UsageError::Usage => "usage: xxtab <check|run|relay> <config.toml>"@,
        UsageError::UpdateUsage => "usage: xxtab update check | xxtab update download [version]"@,
        UsageError::Number(fault) => number_refusal(fault),
    }
}

impl UsageError {
    /// The reason in words.
    pub fn message(&self) -> (r: &'static str)
        ensures
            r@ == refusal(*self),
    {
        match self {
            UsageError::Usage => "usage: xxtab <check|run|relay> <config.toml>",
            UsageError::UpdateUsage => "usage: xxtab update check | xxtab update download [version]",
            UsageError::Number(fault) => fault.message(),
        }
    }
}

/// The mode of a name.
pub open spec fn mode_of(s: Seq<char>) -> Option<Mode> {
    if s == "check"@ {
        Some(Mode::Check)
    } else if s == "run"@ {
        Some(Mode::Run)
    } else if s == "relay"@ {
        Some(Mode::Relay)
    } else {
        None
    }
}

/// What the arguments of an update ask for.
pub open spec fn update_of(a: Seq<Seq<char>>) -> Result<InvocationView, UsageError> {
    if a.len() == 2 && a[1] == "check"@ {
        Ok(InvocationView::UpdateCheck)
    } else if a.len() == 2 && a[1] == "download"@ {
        Ok(InvocationView::UpdateDownload(None))
    } else if a.len() == 3 && a[1] == "download"@ {
        Ok(InvocationView::UpdateDownload(Some(a[2])))
    } else {
        Err(UsageError::UpdateUsage)
    }
}

/// What arguments ask for on a platform.
pub open spec fn invoked(platform: Platform, a: Seq<Seq<char>>) -> Result<InvocationView, UsageError> {
    if platform == Platform::Windows && a.len() == 5 && a[0] == "update-install"@ {
        match number_of(a[1], u32::MAX as nat) {
            Ok(pid) => Ok(InvocationView::UpdateInstall(pid as u32, a[2], a[3], a[4])),
            Err(fault) => Err(UsageError::Number(fault)),
        }
    } else if a.len() > 0 && a[0] == "update"@ {
        update_of(a)
    } else if a.len() == 1 && a[0] == "desktop"@ {
        Ok(InvocationView::Desktop)
    } else if platform == Platform::Macos && a.len() == 3 && a[0] == "macos-session"@ {
        match number_of(a[2], u32::MAX as nat) {
            Ok(uid) => Ok(InvocationView::MacosSession(a[1], uid as u32)),
            Err(fault) => Err(UsageError::Number(fault)),
        }
    } else if a.len() == 0 || a[0] == "--help"@ || a[0] == "-h"@ {
        Ok(InvocationView::Help)
    } else if a.len() == 2 && mode_of(a[0]) is Some {
        Ok(InvocationView::Tunnel(mode_of(a[0])->0, a[1]))
    } else {
        Err(UsageError::Usage)
    }
}

fn read_mode(s: &str) -> (r: Option<Mode>)
    ensures
        r == mode_of(s@),
{
    if same(s, "check") {
        Some(Mode::Check)
    } else if same(s, "run") {
        Some(Mode::Run)
    } else if same(s, "relay") {
        Some(Mode::Relay)
    } else {
        None
    }
}

fn read_update(a: &Vec<String>) -> (r: Result<Invocation, UsageError>)
    requires
        a@.len() > 0,
    ensures
        match r {
            Ok(i) => update_of(texts(a@)) == Ok::<_, UsageError>(i@),
            Err(e) => update_of(texts(a@)) == Err::<InvocationView, _>(e),
        },
{
    let ghost v = texts(a@);
    if a.len() == 2 {
        assert(v[1] == a@[1]@);
        if same(a[1].as_str(), "check") {
            return Ok(Invocation::UpdateCheck);
        }
        if same(a[1].as_str(), "download") {
            return Ok(Invocation::UpdateDownload(None));
        }
    } else if a.len() == 3 {
        assert(v[1] == a@[1]@ && v[2] == a@[2]@);
        if same(a[1].as_str(), "download") {
            return Ok(Invocation::UpdateDownload(Some(a[2].clone())));
        }
    }
    Err(UsageError::UpdateUsage)
}

/// Reads what arguments ask for on a platform.
pub fn parse(platform: Platform, a: &Vec<String>) -> (r: Result<Invocation, UsageError>)
    ensures
        match r {
            Ok(i) => invoked(platform, texts(a@)) == Ok::<_, UsageError>(i@),
            Err(e) => invoked(platform, texts(a@)) == Err::<InvocationView, _>(e),
        },
{
    let ghost v = texts(a@);
    if a.len() == 0 {
        return Ok(Invocation::Help);
    }
    assert(v[0] == a@[0]@);
    let first = a[0].as_str();
    let windows = match platform {
        Platform::Windows => true,
        _ => false,
    };
    let macos = match platform {
        Platform::Macos => true,
        _ => false,
    };
    if windows && a.len() == 5 && same(first, "update-install") {
        assert(v[1] == a@[1]@ && v[2] == a@[2]@ && v[3] == a@[3]@ && v[4] == a@[4]@);
        return match read_number(&chars_of(a[1].as_str()), u32::MAX as u64) {
            Ok(pid) => Ok(
                Invocation::UpdateInstall(pid as u32, a[2].clone(), a[3].clone(), a[4].clone()),
            ),
            Err(fault) => Err(UsageError::Number(fault)),
        };
    }
    if same(first, "update") {
        return read_update(a);
    }
    if a.len() == 1 && same(first, "desktop") {
        return Ok(Invocation::Desktop);
    }
    if macos && a.len() == 3 && same(first, "macos-session") {
        assert(v[1] == a@[1]@ && v[2] == a@[2]@);
        return match read_number(&chars_of(a[2].as_str()), u32::MAX as u64) {
            Ok(uid) => Ok(Invocation::MacosSession(a[1].clone(), uid as u32)),
            Err(fault) => Err(UsageError::Number(fault)),
        };
    }
    if same(first, "--help") || same(first, "-h") {
        return Ok(Invocation::Help);
    }
    if a.len() == 2 {
        assert(v[1] == a@[1]@);
        if let Some(mode) = read_mode(first) {
            return Ok(Invocation::Tunnel(mode, a[1].clone()));
        }
    }
    Err(UsageError::Usage)
}

/// The help.
pub fn help() -> (r: String)
    ensures
        r@ == "xxtab "@ + CURRENT_VERSION@
            + "\n\nUsage: xxtab <check|run|relay> <config.toml>\n       xxtab update check\n       xxtab update download [version]\n\n  check  Validate config offline; no network/system changes\n  run    Manage system WireGuard and embedded wstunnel (admin/root)\n  relay  Only run embedded wstunnel; first local UDP sender is pinned\n  update Check GitHub Releases or download a SHA256-verified update (JSON output)\n\nCtrl+C (Linux/macOS also SIGTERM) stops and cleans up managed WireGuard."@,
{
    let mut out = String::new();
    out.append("xxtab ");
    out.append(CURRENT_VERSION);
    out.append(
        "\n\nUsage: xxtab <check|run|relay> <config.toml>\n       xxtab update check\n       xxtab update download [version]\n\n  check  Validate config offline; no network/system changes\n  run    Manage system WireGuard and embedded wstunnel (admin/root)\n  relay  Only run embedded wstunnel; first local UDP sender is pinned\n  update Check GitHub Releases or download a SHA256-verified update (JSON output)\n\nCtrl+C (Linux/macOS also SIGTERM) stops and cleans up managed WireGuard.",
    );
    assert(out@ =~= "xxtab "@ + CURRENT_VERSION@
        + "\n\nUsage: xxtab <check|run|relay> <config.toml>\n       xxtab update check\n       xxtab update download [version]\n\n  check  Validate config offline; no network/system changes\n  run    Manage system WireGuard and embedded wstunnel (admin/root)\n  relay  Only run embedded wstunnel; first local UDP sender is pinned\n  update Check GitHub Releases or download a SHA256-verified update (JSON output)\n\nCtrl+C (Linux/macOS also SIGTERM) stops and cleans up managed WireGuard."@);
    out
}

impl Mode {
    /// Whether a start in the mode looks for an update: one that only checks does not.
    pub fn looks_for_updates(&self) -> (r: bool)
        ensures
            r == (*self != Mode::Check),
    {
        match self {
            Mode::Check => false,
            _ => true,
        }
    }
}

/// Whatever the platform, `check` with a path looks at the configuration and does nothing else.
pub proof fn checking_is_asked_for_everywhere(platform: Platform, a: Seq<Seq<char>>)
    requires
        a.len() == 2,
        a[0] == "check"@,
    ensures
        invoked(platform, a) == Ok::<_, UsageError>(InvocationView::Tunnel(Mode::Check, a[1])),
{
    reveal_strlit("check");
    reveal_strlit("update");
    reveal_strlit("--help");
    reveal_strlit("-h");
    assert("check"@.len() != "update"@.len());
    assert("check"@.len() != "--help"@.len());
    assert("check"@.len() != "-h"@.len());
}

/// What each form of the command line asks for; any other is refused. The name of a mode is followed
/// by one path; an update is looked for, or downloaded with a version or without; the forms that the
/// program uses itself are there on their systems alone.
pub proof fn command_lines_are_understood(platform: Platform, a: Seq<Seq<char>>)
    ensures
        match invoked(platform, a) {
            Ok(InvocationView::Help) => a.len() == 0 || a[0] == "--help"@ || a[0] == "-h"@,
            Ok(InvocationView::Tunnel(mode, path)) => a.len() == 2 && a[1] == path && a[0]
                == match mode {
                Mode::Check => "check"@,
                Mode::Run => "run"@,
                Mode::Relay => "relay"@,
            },
            Ok(InvocationView::UpdateCheck) => a == seq!["update"@, "check"@],
            Ok(InvocationView::UpdateDownload(None)) => a == seq!["update"@, "download"@],
            Ok(InvocationView::UpdateDownload(Some(version))) => a
                == seq!["update"@, "download"@, version],
            Ok(InvocationView::UpdateInstall(pid, digest, path, directory)) => {
                &&& platform == Platform::Windows
                &&& a.len() == 5 && a[0] == "update-install"@
                &&& number_of(a[1], 0xffff_ffff) == Ok::<_, NumberFault>(pid as nat)
                &&& a[2] == digest && a[3] == path && a[4] == directory
            },
            Ok(InvocationView::Desktop) => a == seq!["desktop"@],
            Ok(InvocationView::MacosSession(path, uid)) => {
                &&& platform == Platform::Macos
                &&& a.len() == 3 && a[0] == "macos-session"@ && a[1] == path
                &&& number_of(a[2], 0xffff_ffff) == Ok::<_, NumberFault>(uid as nat)
            },
            Err(UsageError::UpdateUsage) => a.len() > 0 && a[0] == "update"@,
            Err(UsageError::Number(_)) => platform != Platform::Linux && a.len() >= 3,
            Err(UsageError::Usage) => a.len() > 0,
        },
{
    if a.len() == 1 {
        assert(a =~= seq![a[0]]);
    }
    if a.len() == 2 {
        assert(a =~= seq![a[0], a[1]]);
    }
    if a.len() == 3 {
        assert(a =~= seq![a[0], a[1], a[2]]);
    }
    if a.len() >= 2 {
        crate::numbers::numbers_are_limited(a[1], 0xffff_ffff);
    }
    if a.len() >= 3 {
        crate::numbers::numbers_are_limited(a[2], 0xffff_ffff);
    }
}

/// Every form of the command line is there to be asked for, wherever it is open.
pub proof fn every_form_is_open(platform: Platform, x: Seq<char>, y: Seq<char>, z: Seq<char>, n: u32)
    ensures
        invoked(platform, seq![]) == Ok::<_, UsageError>(InvocationView::Help),
        invoked(platform, seq!["--help"@]) == Ok::<_, UsageError>(InvocationView::Help),
        invoked(platform, seq!["-h"@]) == Ok::<_, UsageError>(InvocationView::Help),
        invoked(platform, seq!["check"@, x]) == Ok::<_, UsageError>(
            InvocationView::Tunnel(Mode::Check, x),
        ),
        invoked(platform, seq!["run"@, x]) == Ok::<_, UsageError>(
            InvocationView::Tunnel(Mode::Run, x),
        ),
        invoked(platform, seq!["relay"@, x]) == Ok::<_, UsageError>(
            InvocationView::Tunnel(Mode::Relay, x),
        ),
        invoked(platform, seq!["update"@, "check"@]) == Ok::<_, UsageError>(
            InvocationView::UpdateCheck,
        ),
        invoked(platform, seq!["update"@, "download"@]) == Ok::<_, UsageError>(
            InvocationView::UpdateDownload(None),
        ),
        invoked(platform, seq!["update"@, "download"@, x]) == Ok::<_, UsageError>(
            InvocationView::UpdateDownload(Some(x)),
        ),
        invoked(platform, seq!["desktop"@]) == Ok::<_, UsageError>(InvocationView::Desktop),
        platform == Platform::Windows ==> invoked(
            platform,
            seq!["update-install"@, crate::numbers::decimal(n as nat), x, y, z],
        ) == Ok::<_, UsageError>(InvocationView::UpdateInstall(n, x, y, z)),
        platform == Platform::Macos ==> invoked(
            platform,
            seq!["macos-session"@, x, crate::numbers::decimal(n as nat)],
        ) == Ok::<_, UsageError>(InvocationView::MacosSession(x, n)),
{
    reveal_strlit("--help");
    reveal_strlit("-h");
    reveal_strlit("check");
    reveal_strlit("run");
    reveal_strlit("relay");
    reveal_strlit("update");
    reveal_strlit("download");
    reveal_strlit("desktop");
    reveal_strlit("update-install");
    reveal_strlit("macos-session");
    assert("--help"@.len() == 6 && "-h"@.len() == 2 && "check"@.len() == 5 && "run"@.len() == 3);
    assert("relay"@.len() == 5 && "update"@.len() == 6 && "download"@.len() == 8);
    assert("desktop"@.len() == 7 && "update-install"@.len() == 14 && "macos-session"@.len() == 13);
    assert("--help"@[0] != "update"@[0]);
    assert("check"@[0] != "relay"@[0]);
    crate::numbers::decimal_is_read_back(n as nat, 0xffff_ffff);
}

} // verus!
