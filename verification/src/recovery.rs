//! Recovery of a Windows service that a session left behind.
//!
//! Recovery rests on provenance: the journal of a session and the exact program and arguments of
//! the service have to identify the last session of this program.
use crate::numbers::push_decimal;
use crate::outside::{
    json_document, json_quoted, name_of, parent_of, parse_json_text, path_name, path_parent,
    path_same, same_path, JsonView,
};
use crate::pieces::{starts_with, texts};
use crate::system::{args, shell, ps, CommandLine, CommandLineView, SystemError};
use crate::text::{chars_of, joined, same};
use vstd::prelude::*;

verus! {

/// The largest journal: 16 KiB.
pub const MAX_JOURNAL: u64 = 16_384;

/// What a session leaves for the next one: never a key.
#[derive(Debug)]
pub struct Session {
    /// The path of the configuration that the interface ran with.
    pub config: String,
    /// The path of the program that manages it.
    pub executable: String,
}

/// The code of an exit in words.
pub open spec fn code_words(code: Option<i32>) -> Seq<char> {
    match code {
        Some(n) => if n < 0 {
            "Some(-"@ + crate::numbers::decimal((-n) as nat) + ")"@
        } else {
            "Some("@ + crate::numbers::decimal(n as nat) + ")"@
        },
        None => "None"@,
    }
}

/// Why it is not known whether a service exists.
pub open spec fn query_words(code: Option<i32>, name: Seq<char>) -> Seq<char> {
    if code == Some(5i32) {
        "无法查询 WireGuard 服务 "@ + name + "：访问被拒绝，请以管理员身份运行"@
    } else {
        "查询 WireGuard 服务 "@ + name + " 失败（退出码 "@ + code_words(code)
            + "），请检查系统服务管理器和管理员权限"@
    }
}

/// Whether a service exists, given the code that the query ended with. Only two codes say so: a
/// query that failed is neither.
pub fn query_result(code: Option<i32>, name: &str) -> (r: Result<bool, SystemError>)
    ensures
        match r {
            Ok(b) => code == Some(
                if b {
                    0i32
                } else {
                    1060i32
                },
            ),
            Err(e) => code != Some(0i32) && code != Some(1060i32) && e@ == query_words(code, name@),
        },
{
    let mut out = String::new();
    match code {
        Some(0) => return Ok(true),
        Some(1060) => return Ok(false),
        Some(5) => {
            out.append("无法查询 WireGuard 服务 ");
            out.append(name);
            out.append("：访问被拒绝，请以管理员身份运行");
        },
        _ => {
            out.append("查询 WireGuard 服务 ");
            out.append(name);
            out.append(" 失败（退出码 ");
            match code {
                Some(n) => {
                    out.append("Some(");
                    if n < 0 {
                        out.append("-");
                        push_decimal(&mut out, (-(n as i64)) as u64);
                    } else {
                        push_decimal(&mut out, n as u64);
                    }
                    out.append(")");
                },
                None => out.append("None"),
            }
            out.append("），请检查系统服务管理器和管理员权限");
        },
    }
    proof {
        reveal_strlit("Some(");
        reveal_strlit("-");
        reveal_strlit("Some(-");
        assert("Some(-"@ =~= "Some("@ + "-"@);
    }
    assert(out@ =~= query_words(code, name@));
    Err(SystemError { message: out })
}

/// The name of the service of an interface.
pub open spec fn service_of(name: Seq<char>) -> Seq<char> {
    "WireGuardTunnel$"@ + name
}

/// The command that asks for the service of an interface.
pub fn service_exists(name: &str) -> (r: CommandLine)
    ensures
        r@ == (CommandLineView {
            program: "sc.exe"@,
            arguments: seq!["query"@, service_of(name@)],
        }),
{
    let service = joined("WireGuardTunnel$", name);
    let r = CommandLine { program: "sc.exe".to_owned(), arguments: args(&["query", service.as_str()]) };
    assert(r@.arguments =~= seq!["query"@, service_of(name@)]);
    r
}

/// Whether a service that is being removed is gone, given whether its time is over.
pub fn service_gone(exists: bool, overdue: bool, name: &str) -> (r: Result<bool, SystemError>)
    ensures
        match r {
            Ok(gone) => gone == !exists && (exists ==> !overdue),
            Err(e) => exists && overdue && e@ == "WireGuard 服务 "@ + name@
                + " 卸载尚未完成，请稍后重试"@,
        },
{
    if !exists {
        return Ok(true);
    }
    if !overdue {
        return Ok(false);
    }
    let mut out = String::new();
    out.append("WireGuard 服务 ");
    out.append(name);
    out.append(" 卸载尚未完成，请稍后重试");
    assert(out@ =~= "WireGuard 服务 "@ + name@ + " 卸载尚未完成，请稍后重试"@);
    Err(SystemError { message: out })
}

/// Whether the name of a directory is one that sessions run in.
pub open spec fn runtime_name(s: Seq<char>) -> bool {
    s.len() > 6 && s.take(6) == "xxtab-"@
}

/// Whether a journal and the arguments of a service identify a session of this program for an
/// interface: the recorded configuration lies in a directory of its own below the temporary
/// directory and is that of the interface, the program is the expected one, and the service runs
/// exactly that program with exactly that configuration.
pub open spec fn identifies(
    config: Seq<char>,
    executable: Seq<char>,
    command: Seq<Seq<char>>,
    name: Seq<char>,
    expected: Seq<char>,
    root: Seq<char>,
) -> bool {
    match path_parent(config) {
        None => false,
        Some(directory) => {
            &&& path_parent(directory) matches Some(above) && path_same(above, root)
            &&& path_name(directory) matches Some(own) && runtime_name(own)
            &&& path_name(config) == Some(name + ".conf"@)
            &&& path_same(executable, expected)
            &&& command.len() == 3
            &&& path_same(command[0], executable)
            &&& path_same(command[1], "/tunnelservice"@)
            &&& path_same(command[2], config)
        },
    }
}

impl Session {
    /// Whether the session and the arguments of a service identify a session of this program for
    /// an interface.
    pub fn matches(&self, command: &Vec<String>, name: &str, expected: &str, root: &str) -> (r: bool)
        ensures
            r == identifies(
                self.config@,
                self.executable@,
                texts(command@),
                name@,
                expected@,
                root@,
            ),
    {
        let directory = match parent_of(self.config.as_str()) {
            None => return false,
            Some(d) => d,
        };
        match parent_of(directory.as_str()) {
            None => return false,
            Some(above) => if !same_path(above.as_str(), root) {
                return false;
            },
        }
        match name_of(directory.as_str()) {
            None => return false,
            Some(own) => {
                let chars = chars_of(own.as_str());
                proof {
                    reveal_strlit("xxtab-");
                    assert(own@.len() >= 6 ==> own@.take(6) =~= own@.subrange(0, 6));
                }
                if chars.len() <= 6 || !starts_with(&chars, "xxtab-") {
                    return false;
                }
            },
        }
        match name_of(self.config.as_str()) {
            None => return false,
            Some(own) => if !same(own.as_str(), joined(name, ".conf").as_str()) {
                return false;
            },
        }
        if !same_path(self.executable.as_str(), expected) || command.len() != 3 {
            return false;
        }
        assert(texts(command@)[0] == command@[0]@ && texts(command@)[1] == command@[1]@ && texts(
            command@,
        )[2] == command@[2]@);
        same_path(command[0].as_str(), self.executable.as_str()) && same_path(
            command[1].as_str(),
            "/tunnelservice",
        ) && same_path(command[2].as_str(), self.config.as_str())
    }
}

/// What is told of a service that is not known to be this program's.
pub open spec fn conflict_words(name: Seq<char>) -> Seq<char> {
    "WireGuard 同名服务 WireGuardTunnel$"@ + name
        + " 已存在，无法确认属于本程序的上次连接；请先在原客户端断开，或修改 wireguard.name"@
}

/// What is known of the service of an interface before a start.
#[derive(Debug)]
pub enum Journal {
    /// There is no service.
    NoService,
    /// There is a service, and no journal that can be read.
    Missing,
    /// There is a service with its arguments, and a journal.
    Recorded(Session, Vec<String>),
}

/// Decides on the service of an interface: nothing to do, the session whose remains are to be
/// removed, or a refusal to touch a service that is not known to be this program's.
pub fn recover(journal: Journal, name: &str, expected: &str, root: &str) -> (r: Result<
    Option<Session>,
    SystemError,
>)
    ensures
        match journal {
            Journal::NoService => r == Ok::<Option<Session>, SystemError>(None),
            Journal::Missing => r matches Err(e) && e@ == conflict_words(name@),
            Journal::Recorded(session, command) => if identifies(
                session.config@,
                session.executable@,
                texts(command@),
                name@,
                expected@,
                root@,
            ) {
                r == Ok::<_, SystemError>(Some(session))
            } else {
                r matches Err(e) && e@ == conflict_words(name@)
            },
        },
{
    match journal {
        Journal::NoService => return Ok(None),
        Journal::Missing => {},
        Journal::Recorded(session, command) => {
            if session.matches(&command, name, expected, root) {
                return Ok(Some(session));
            }
        },
    }
    let mut out = String::new();
    out.append("WireGuard 同名服务 WireGuardTunnel$");
    out.append(name);
    out.append(
        " 已存在，无法确认属于本程序的上次连接；请先在原客户端断开，或修改 wireguard.name",
    );
    assert(out@ =~= conflict_words(name@));
    Err(SystemError { message: out })
}

/// The command that asks for the program and arguments of a service.
pub fn command_query(name: &str) -> (r: CommandLine)
    ensures
        r@ == shell(
            "(Get-CimInstance Win32_Service -Filter 'Name = \"WireGuardTunnel$"@ + name@
                + "\"').PathName | ConvertTo-Json -Compress"@,
        ),
{
    let mut script = String::new();
    script.append("(Get-CimInstance Win32_Service -Filter 'Name = \"WireGuardTunnel$");
    script.append(name);
    script.append("\"').PathName | ConvertTo-Json -Compress");
    assert(script@ =~= "(Get-CimInstance Win32_Service -Filter 'Name = \"WireGuardTunnel$"@ + name@
        + "\"').PathName | ConvertTo-Json -Compress"@);
    ps(script.as_str())
}

/// What is told where the system does not say what a service runs, and why.
pub open spec fn unreadable_words(cause: Seq<char>) -> Seq<char> {
    "已有 WireGuard 服务信息不可用，请稍后重试: "@ + cause
}

/// The program and arguments of a service, in one line, from what the query for them printed: the
/// text of a JSON string.
pub fn read_command(out: &str) -> (r: Result<String, SystemError>)
    ensures
        match json_document(out@) {
            Ok(JsonView::Text(s)) => r matches Ok(own) && own@ == s,
            _ => r matches Err(e) && (json_quoted(out@) matches Err(cause) && e@
                == unreadable_words(cause)),
        },
{
    match parse_json_text(out) {
        Ok(own) => Ok(own),
        Err(cause) => Err(
            SystemError {
                message: joined(
                    "已有 WireGuard 服务信息不可用，请稍后重试: ",
                    cause.as_str(),
                ),
            },
        ),
    }
}

/// The line that tells of a recovery.
pub fn recovery_line(name: &str) -> (r: String)
    ensures
        r@ == "检测到上次异常退出残留的 WireGuard 服务 "@ + name@ + "，正在恢复"@,
{
    let mut out = String::new();
    out.append("检测到上次异常退出残留的 WireGuard 服务 ");
    out.append(name);
    out.append("，正在恢复");
    assert(out@ =~= "检测到上次异常退出残留的 WireGuard 服务 "@ + name@ + "，正在恢复"@);
    out
}

/// A service with other arguments than the recorded ones is never taken for this program's.
pub proof fn foreign_services_are_kept(
    config: Seq<char>,
    executable: Seq<char>,
    command: Seq<Seq<char>>,
    name: Seq<char>,
    expected: Seq<char>,
    root: Seq<char>,
)
    requires
        command.len() != 3 || !path_same(command[0], executable) || !path_same(command[2], config),
    ensures
        !identifies(config, executable, command, name, expected, root),
{
}

/// A service is taken for this program's exactly where all of it fits: the recorded configuration is
/// the `.conf` of the interface in a directory whose name begins with `xxtab-` and goes on, right
/// below the temporary directory; the recorded program is the expected one; and the service runs
/// this program with `/tunnelservice` and this configuration, and nothing more.
pub proof fn sessions_are_identified(
    config: Seq<char>,
    executable: Seq<char>,
    command: Seq<Seq<char>>,
    name: Seq<char>,
    expected: Seq<char>,
    root: Seq<char>,
)
    ensures
        identifies(config, executable, command, name, expected, root) <==> {
            &&& path_parent(config) is Some
            &&& path_parent(path_parent(config)->0) matches Some(above) && path_same(above, root)
            &&& path_name(path_parent(config)->0) matches Some(own) && exists|rest: Seq<char>|
                rest.len() > 0 && own == #[trigger] ("xxtab-"@ + rest)
            &&& path_name(config) == Some(name + ".conf"@)
            &&& path_same(executable, expected)
            &&& command.len() == 3
            &&& path_same(command[0], executable)
            &&& path_same(command[1], "/tunnelservice"@)
            &&& path_same(command[2], config)
        },
{
    reveal_strlit("xxtab-");
    if path_parent(config) is Some {
        if let Some(own) = path_name(path_parent(config)->0) {
            if runtime_name(own) {
                let rest = own.skip(6);
                assert(own =~= "xxtab-"@ + rest);
                assert(rest.len() > 0 && own == "xxtab-"@ + rest);
            }
            if exists|rest: Seq<char>| rest.len() > 0 && own == #[trigger] ("xxtab-"@ + rest) {
                let rest = choose|rest: Seq<char>|
                    rest.len() > 0 && own == #[trigger] ("xxtab-"@ + rest);
                assert(own.take(6) =~= "xxtab-"@);
            }
        }
    }
}

/// The name of a service is told by that of its interface, and no two interfaces share one.
pub proof fn services_are_named_after_their_interface(a: Seq<char>, b: Seq<char>)
    ensures
        service_of(a) == "WireGuardTunnel$"@ + a,
        service_of(a) == service_of(b) ==> a == b,
{
    let head = "WireGuardTunnel$"@;
    assert(service_of(a).skip(head.len() as int) =~= a);
    assert(service_of(b).skip(head.len() as int) =~= b);
}

/// The bound of a journal.
pub proof fn bound_of_a_journal()
    ensures
        MAX_JOURNAL == 16_384,
{
}

/// What is told of a service that could not be queried, or that is not known to be this program's.
pub proof fn words_of_recovery(name: Seq<char>, cause: Seq<char>, code: i32)
    ensures
        query_words(Some(5i32), name) == "无法查询 WireGuard 服务 "@ + name
            + "：访问被拒绝，请以管理员身份运行"@,
        query_words(None, name) == "查询 WireGuard 服务 "@ + name + " 失败（退出码 "@ + "None"@
            + "），请检查系统服务管理器和管理员权限"@,
        code >= 0 && code != 5 ==> query_words(Some(code), name) == "查询 WireGuard 服务 "@ + name
            + " 失败（退出码 "@ + ("Some("@ + crate::numbers::decimal(code as nat) + ")"@)
            + "），请检查系统服务管理器和管理员权限"@,
        code < 0 ==> query_words(Some(code), name) == "查询 WireGuard 服务 "@ + name
            + " 失败（退出码 "@ + ("Some(-"@ + crate::numbers::decimal((-code) as nat) + ")"@)
            + "），请检查系统服务管理器和管理员权限"@,
        conflict_words(name) == "WireGuard 同名服务 WireGuardTunnel$"@ + name
            + " 已存在，无法确认属于本程序的上次连接；请先在原客户端断开，或修改 wireguard.name"@,
        unreadable_words(cause) == "已有 WireGuard 服务信息不可用，请稍后重试: "@ + cause,
{
}

} // verus!
