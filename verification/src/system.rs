//! What is asked of the system: commands, the route around the tunnel, and the life of the
//! WireGuard interface.
use crate::net::{ipv4, ipv4_string, ipv4_text, parse_ipv4, Ipv4Addr};
use crate::numbers::{decimal, push_decimal};
use crate::outside::{
    decode_lossy, join_path, json_at, json_document, json_list, json_natural, json_text, json_tree,
    lossy_text, parse_json, parse_json_list, path_join, JsonView,
};
use crate::pieces::{
    lines, lines_of, split_first, split_once, texts, trim, trimmed, views,
};
use crate::text::{chars_of, digit, is_digit, joined, same, spells, str_view, text_of, text_view};
use vstd::prelude::*;
use vstd::slice::slice_subrange;

verus! {

/// The longest time of a command, in seconds.
pub const COMMAND_SECS: u64 = 20;

/// The longest time that a service takes to start or to go, in seconds.
pub const SERVICE_SECS: u64 = 15;

/// The systems whose WireGuard can be managed.
#[derive(Clone, Copy, PartialEq, Eq, Structural, Debug)]
pub enum Platform {
    Windows,
    Linux,
    Macos,
}

/// Why the system did not do what it was asked for, in words.
#[derive(Debug)]
pub struct SystemError {
    pub message: String,
}

impl View for SystemError {
    type V = Seq<char>;

    open spec fn view(&self) -> Seq<char> {
        self.message@
    }
}

fn refuse<T>(message: &str) -> (r: Result<T, SystemError>)
    ensures
        r matches Err(e) && e@ == message@,
{
    Err(SystemError { message: message.to_owned() })
}

// ---------------------------------------------------------------- commands

/// The texts of a list of borrowed texts.
pub open spec fn strs(s: Seq<&str>) -> Seq<Seq<char>> {
    s.map_values(|x: &str| x@)
}

/// The arguments of a command.
pub fn args(a: &[&str]) -> (r: Vec<String>)
    ensures
        texts(r@) == strs(a@),
{
    let mut out: Vec<String> = Vec::new();
    for i in 0..a.len()
        invariant
            out@.len() == i,
            forall|j: int| 0 <= j < i ==> (#[trigger] out@[j])@ == a@[j]@,
    {
        out.push(a[i].to_owned());
    }
    assert(texts(out@) =~= strs(a@));
    out
}

/// A program with its arguments.
#[derive(Debug)]
pub struct CommandLine {
    pub program: String,
    pub arguments: Vec<String>,
}

#[verifier::ext_equal]
pub struct CommandLineView {
    pub program: Seq<char>,
    pub arguments: Seq<Seq<char>>,
}

impl View for CommandLine {
    type V = CommandLineView;

    open spec fn view(&self) -> CommandLineView {
        CommandLineView { program: self.program@, arguments: texts(self.arguments@) }
    }
}

/// What a command ended with.
#[derive(Debug)]
pub struct Output {
    pub success: bool,
    /// The status in words.
    pub status: String,
    pub stdout: Vec<u8>,
}

/// What is told of a command that failed. What it printed may hold secrets and is not told.
pub open spec fn failure(program: Seq<char>, status: Seq<char>) -> Seq<char> {
    program + " failed with status "@ + status
        + "; check administrator/root rights, installed tools and configuration"@
}

/// What a command printed, where it succeeded.
pub fn run(program: &str, output: &Output) -> (r: Result<String, SystemError>)
    ensures
        match r {
            Ok(s) => output.success && s@ == trimmed(lossy_text(output.stdout@)),
            Err(e) => !output.success && e@ == failure(program@, output.status@),
        },
{
    if output.success {
        let text = decode_lossy(&output.stdout);
        return Ok(text_of(trim(&chars_of(text.as_str()))));
    }
    let mut out = String::new();
    out.append(program);
    out.append(" failed with status ");
    out.append(output.status.as_str());
    out.append("; check administrator/root rights, installed tools and configuration");
    assert(out@ =~= failure(program@, output.status@));
    Err(SystemError { message: out })
}

/// A script of the Windows shell.
pub open spec fn shell(script: Seq<char>) -> CommandLineView {
    CommandLineView {
        program: "powershell.exe"@,
        arguments: seq![
            "-NoLogo"@,
            "-NoProfile"@,
            "-NonInteractive"@,
            "-Command"@,
            "$ErrorActionPreference='Stop'; "@ + script,
        ],
    }
}

/// The command that runs a script of the Windows shell.
pub fn ps(script: &str) -> (r: CommandLine)
    ensures
        r@ == shell(script@),
{
    let full = joined("$ErrorActionPreference='Stop'; ", script);
    let arguments = args(
        &["-NoLogo", "-NoProfile", "-NonInteractive", "-Command", full.as_str()],
    );
    let r = CommandLine { program: "powershell.exe".to_owned(), arguments };
    assert(r@.arguments =~= shell(script@).arguments);
    r
}

/// The directories that commands are looked for in on macOS: those of the tools, and the
/// system's.
pub fn tool_path(bundle: Option<&str>) -> (r: String)
    ensures
        r@ == match str_view(bundle) {
            Some(root) => root + ":/usr/bin:/bin:/usr/sbin:/sbin"@,
            None => "/opt/homebrew/bin:/usr/local/bin:/usr/bin:/bin:/usr/sbin:/sbin"@,
        },
{
    match bundle {
        Some(root) => joined(root, ":/usr/bin:/bin:/usr/sbin:/sbin"),
        None => "/opt/homebrew/bin:/usr/local/bin:/usr/bin:/bin:/usr/sbin:/sbin".to_owned(),
    }
}

// ---------------------------------------------------------------- routes

/// A route to the server that was added, as what takes it away again.
#[derive(Debug)]
pub struct Route {
    pub delete: Vec<String>,
}

pub open spec fn route_view(r: Option<Route>) -> Option<Seq<Seq<char>>> {
    match r {
        Some(route) => Some(texts(route.delete@)),
        None => None,
    }
}

/// The command that takes a route away.
pub open spec fn removal(platform: Platform, delete: Seq<Seq<char>>) -> CommandLineView {
    match platform {
        Platform::Windows => shell(delete[0]),
        Platform::Linux => CommandLineView { program: "ip"@, arguments: delete },
        Platform::Macos => CommandLineView { program: "/sbin/route"@, arguments: delete },
    }
}

fn copies(a: &Vec<String>) -> (r: Vec<String>)
    ensures
        texts(r@) == texts(a@),
{
    let mut out: Vec<String> = Vec::new();
    for i in 0..a.len()
        invariant
            out@.len() == i,
            forall|j: int| 0 <= j < i ==> (#[trigger] out@[j])@ == a@[j]@,
    {
        out.push(a[i].clone());
    }
    assert(texts(out@) =~= texts(a@));
    out
}

impl Route {
    /// There is something that takes the route away.
    pub open spec fn valid(&self) -> bool {
        self.delete@.len() > 0
    }

    /// The command that takes the route away.
    pub fn remove(&self, platform: Platform) -> (r: CommandLine)
        requires
            self.valid(),
        ensures
            r@ == removal(platform, texts(self.delete@)),
    {
        match platform {
            Platform::Windows => {
                assert(texts(self.delete@)[0] == self.delete@[0]@);
                ps(self.delete[0].as_str())
            },
            Platform::Linux => CommandLine {
                program: "ip".to_owned(),
                arguments: copies(&self.delete),
            },
            Platform::Macos => CommandLine {
                program: "/sbin/route".to_owned(),
                arguments: copies(&self.delete),
            },
        }
    }
}

/// How far the installation of a route has come.
#[derive(Debug)]
pub enum RouteStage {
    /// Whether there is a route to the server is asked.
    Existing,
    /// How the server is reached is asked.
    Lookup,
    /// A route is being added, which this takes away again.
    Adding(Vec<String>),
}

#[verifier::ext_equal]
pub enum RouteStageView {
    Existing,
    Lookup,
    Adding(Seq<Seq<char>>),
}

impl View for RouteStage {
    type V = RouteStageView;

    open spec fn view(&self) -> RouteStageView {
        match *self {
            RouteStage::Existing => RouteStageView::Existing,
            RouteStage::Lookup => RouteStageView::Lookup,
            RouteStage::Adding(delete) => RouteStageView::Adding(texts(delete@)),
        }
    }
}

/// What is to be done next for a route.
#[derive(Debug)]
pub enum RouteStep {
    /// Run a command, and hand back what it printed.
    Run(CommandLine),
    /// The route is there: one that was added, or none where none is needed.
    Done(Option<Route>),
}

#[verifier::ext_equal]
pub enum RouteStepView {
    Run(CommandLineView),
    Done(Option<Seq<Seq<char>>>),
}

impl View for RouteStep {
    type V = RouteStepView;

    open spec fn view(&self) -> RouteStepView {
        match *self {
            RouteStep::Run(c) => RouteStepView::Run(c@),
            RouteStep::Done(r) => RouteStepView::Done(route_view(r)),
        }
    }
}

/// The network of one address.
pub open spec fn host_prefix(ip: Ipv4Addr) -> Seq<char> {
    ipv4_text(ip) + "/32"@
}

/// A text field of a JSON object.
pub open spec fn json_field(v: JsonView, key: Seq<char>) -> Option<Seq<char>> {
    match v {
        JsonView::Object(m) => if m.dom().contains(key) {
            match m[key] {
                JsonView::Text(s) => Some(s),
                _ => None,
            }
        } else {
            None
        },
        _ => None,
    }
}

/// A number field of a JSON object.
pub open spec fn json_number(v: JsonView, key: Seq<char>) -> Option<u64> {
    match v {
        JsonView::Object(m) => if m.dom().contains(key) {
            match m[key] {
                JsonView::Natural(n) => Some(n),
                _ => None,
            }
        } else {
            None
        },
        _ => None,
    }
}

fn read_json_field(v: &serde_json::Value, key: &str) -> (r: Option<String>)
    ensures
        text_view(r) == json_field(json_tree(*v), key@),
{
    match json_at(v, key) {
        None => None,
        Some(x) => match json_text(x) {
            None => None,
            Some(s) => Some(s.to_owned()),
        },
    }
}

fn read_json_number(v: &serde_json::Value, key: &str) -> (r: Option<u64>)
    ensures
        r == json_number(json_tree(*v), key@),
{
    match json_at(v, key) {
        None => None,
        Some(x) => json_natural(x),
    }
}

// Linux

pub open spec fn linux_existing(ip: Ipv4Addr) -> CommandLineView {
    CommandLineView {
        program: "ip"@,
        arguments: seq!["-j"@, "-4"@, "route"@, "show"@, "exact"@, host_prefix(ip)],
    }
}

pub open spec fn linux_lookup(ip: Ipv4Addr) -> CommandLineView {
    CommandLineView {
        program: "ip"@,
        arguments: seq!["-j"@, "-4"@, "route"@, "get"@, ipv4_text(ip)],
    }
}

/// The arguments that add or delete a route through a device, by a gateway where there is one.
pub open spec fn linux_change(
    verb: Seq<char>,
    ip: Ipv4Addr,
    gateway: Option<Seq<char>>,
    dev: Seq<char>,
) -> Seq<Seq<char>> {
    match gateway {
        Some(g) => seq!["-4"@, "route"@, verb, host_prefix(ip), "via"@, g, "dev"@, dev],
        None => seq!["-4"@, "route"@, verb, host_prefix(ip), "dev"@, dev],
    }
}

pub open spec fn linux_next(ip: Ipv4Addr, stage: RouteStageView, out: Seq<char>) -> Result<
    (RouteStageView, RouteStepView),
    Seq<char>,
> {
    match stage {
        RouteStageView::Existing => match json_list(out) {
            Err(words) => Err(words),
            Ok(l) => if l.len() > 0 {
                Ok((stage, RouteStepView::Done(None)))
            } else {
                Ok((RouteStageView::Lookup, RouteStepView::Run(linux_lookup(ip))))
            },
        },
        RouteStageView::Lookup => match json_list(out) {
            Err(words) => Err(words),
            Ok(l) => if l.len() == 0 {
                Err("no route to server"@)
            } else {
                match json_field(l[0], "dev"@) {
                    None => Err("route has no device"@),
                    Some(dev) => {
                        let gateway = json_field(l[0], "gateway"@);
                        Ok(
                            (
                                RouteStageView::Adding(linux_change("del"@, ip, gateway, dev)),
                                RouteStepView::Run(
                                    CommandLineView {
                                        program: "ip"@,
                                        arguments: linux_change("add"@, ip, gateway, dev),
                                    },
                                ),
                            ),
                        )
                    },
                }
            },
        },
        RouteStageView::Adding(delete) => Ok((stage, RouteStepView::Done(Some(delete)))),
    }
}

// Windows

pub open spec fn windows_existing(ip: Ipv4Addr) -> CommandLineView {
    shell(
        "$r = Get-NetRoute -AddressFamily IPv4 -PolicyStore ActiveStore | Where-Object { $_.DestinationPrefix -eq '"@
            + ipv4_text(ip) + "/32' }; if ($r) { 'exists' }"@,
    )
}

pub open spec fn windows_lookup(ip: Ipv4Addr) -> CommandLineView {
    shell(
        "Find-NetRoute -RemoteIPAddress '"@ + ipv4_text(ip)
            + "' | Where-Object { $null -ne $_.NextHop } | Select-Object -First 1 InterfaceIndex,NextHop | ConvertTo-Json -Compress"@,
    )
}

/// How the scripts name a route.
pub open spec fn windows_route(ip: Ipv4Addr, index: u64, hop: Ipv4Addr) -> Seq<char> {
    "NetRoute -DestinationPrefix '"@ + ipv4_text(ip) + "/32' -InterfaceIndex "@ + decimal(
        index as nat,
    ) + " -NextHop '"@ + ipv4_text(hop)
}

pub open spec fn windows_add(ip: Ipv4Addr, index: u64, hop: Ipv4Addr) -> Seq<char> {
    "New-"@ + windows_route(ip, index, hop)
        + "' -RouteMetric 1 -PolicyStore ActiveStore | Out-Null"@
}

pub open spec fn windows_delete(ip: Ipv4Addr, index: u64, hop: Ipv4Addr) -> Seq<char> {
    "Get-"@ + windows_route(ip, index, hop)
        + "' -PolicyStore ActiveStore | Remove-NetRoute -Confirm:$false"@
}

pub open spec fn windows_next(ip: Ipv4Addr, stage: RouteStageView, out: Seq<char>) -> Result<
    (RouteStageView, RouteStepView),
    Seq<char>,
> {
    match stage {
        RouteStageView::Existing => if out == "exists"@ {
            Ok((stage, RouteStepView::Done(None)))
        } else {
            Ok((RouteStageView::Lookup, RouteStepView::Run(windows_lookup(ip))))
        },
        RouteStageView::Lookup => match json_document(out) {
            Err(words) => Err("cannot find physical route to server: "@ + words),
            Ok(v) => match (json_number(v, "InterfaceIndex"@), json_field(v, "NextHop"@)) {
                (None, _) => Err("missing route interface"@),
                (_, None) => Err("missing gateway"@),
                (Some(index), Some(text)) => match ipv4(text) {
                    None => Err("invalid IPv4 address syntax"@),
                    Some(hop) => Ok(
                        (
                            RouteStageView::Adding(seq![windows_delete(ip, index, hop)]),
                            RouteStepView::Run(shell(windows_add(ip, index, hop))),
                        ),
                    ),
                },
            },
        },
        RouteStageView::Adding(delete) => Ok((stage, RouteStepView::Done(Some(delete)))),
    }
}

// macOS

pub open spec fn macos_lookup(ip: Ipv4Addr) -> CommandLineView {
    CommandLineView {
        program: "/sbin/route"@,
        arguments: seq!["-n"@, "get"@, "-inet"@, ipv4_text(ip)],
    }
}

/// The value of the first line of a name in lines such as `gateway: 10.0.0.1`.
pub open spec fn line_field(all: Seq<Seq<char>>, key: Seq<char>) -> Option<Seq<char>>
    decreases all.len(),
{
    if all.len() == 0 {
        None
    } else {
        match split_first(trimmed(all[0]), ':') {
            Some((name, value)) if name == key => Some(trimmed(value)),
            _ => line_field(all.skip(1), key),
        }
    }
}

/// The marks between flags.
pub open spec fn flag_mark(c: char) -> bool {
    c == ',' || c == '<' || c == '>'
}

/// Whether a flag stands between marks.
pub open spec fn has_flag(s: Seq<char>, flag: Seq<char>) -> bool {
    exists|a: int, b: int| #[trigger] stands_between(s, flag, a, b)
}

pub open spec fn stands_between(s: Seq<char>, flag: Seq<char>, a: int, b: int) -> bool {
    &&& 0 <= a <= b <= s.len()
    &&& s.subrange(a, b) == flag
    &&& a == 0 || flag_mark(s[a - 1])
    &&& b == s.len() || flag_mark(s[b])
    &&& forall|i: int| a <= i < b ==> !flag_mark(#[trigger] s[i])
}

/// The arguments that add or delete a route, by a gateway or through an interface.
pub open spec fn macos_change(
    verb: Seq<char>,
    ip: Ipv4Addr,
    kind: Seq<char>,
    through: Seq<char>,
) -> Seq<Seq<char>> {
    seq!["-n"@, verb, "-host"@, ipv4_text(ip), kind, through]
}

/// The gateway that the lines give, where it is an IPv4 address.
pub open spec fn macos_gateway(all: Seq<Seq<char>>) -> Option<Ipv4Addr> {
    match line_field(all, "gateway"@) {
        Some(g) => ipv4(g),
        None => None,
    }
}

pub open spec fn macos_next(ip: Ipv4Addr, stage: RouteStageView, out: Seq<char>) -> Result<
    (RouteStageView, RouteStepView),
    Seq<char>,
> {
    match stage {
        RouteStageView::Adding(delete) => Ok((stage, RouteStepView::Done(Some(delete)))),
        _ => {
            let all = lines(out);
            if line_field(all, "destination"@) == Some(ipv4_text(ip)) && (line_field(all, "flags"@) matches Some(
                v,
            ) && has_flag(v, "HOST"@)) {
                Ok((stage, RouteStepView::Done(None)))
            } else {
                let through = match (macos_gateway(all), line_field(all, "interface"@)) {
                    (Some(g), _) => Some(("-gateway"@, ipv4_text(g))),
                    (None, Some(i)) => Some(("-interface"@, i)),
                    (None, None) => None,
                };
                match through {
                    None => Err("missing outer route interface"@),
                    Some((kind, by)) => Ok(
                        (
                            RouteStageView::Adding(macos_change("delete"@, ip, kind, by)),
                            RouteStepView::Run(
                                CommandLineView {
                                    program: "/sbin/route"@,
                                    arguments: macos_change("add"@, ip, kind, by),
                                },
                            ),
                        ),
                    ),
                }
            }
        },
    }
}

/// What is done first for a route to a server: nothing where the server is this machine.
pub open spec fn first_step(platform: Platform, ip: Ipv4Addr) -> RouteStepView {
    if ip.a == 127 {
        RouteStepView::Done(None)
    } else {
        RouteStepView::Run(
            match platform {
                Platform::Windows => windows_existing(ip),
                Platform::Linux => linux_existing(ip),
                Platform::Macos => macos_lookup(ip),
            },
        )
    }
}

/// What is done next, given what the last command printed.
pub open spec fn next_step(
    platform: Platform,
    ip: Ipv4Addr,
    stage: RouteStageView,
    out: Seq<char>,
) -> Result<(RouteStageView, RouteStepView), Seq<char>> {
    match platform {
        Platform::Windows => windows_next(ip, stage, out),
        Platform::Linux => linux_next(ip, stage, out),
        Platform::Macos => macos_next(ip, stage, out),
    }
}

/// The installation of a route to the server around the tunnel.
#[derive(Debug)]
pub struct RoutePlan {
    pub platform: Platform,
    pub ip: Ipv4Addr,
    pub stage: RouteStage,
}

fn command(program: &str, a: &[&str]) -> (r: CommandLine)
    ensures
        r@ == (CommandLineView { program: program@, arguments: strs(a@) }),
{
    CommandLine { program: program.to_owned(), arguments: args(a) }
}

fn host_prefix_text(ip: Ipv4Addr) -> (r: String)
    ensures
        r@ == host_prefix(ip),
{
    joined(ipv4_string(ip).as_str(), "/32")
}

fn linux_change_args(verb: &str, ip: Ipv4Addr, gateway: &Option<String>, dev: &str) -> (r: Vec<
    String,
>)
    ensures
        texts(r@) == linux_change(verb@, ip, text_view(*gateway), dev@),
{
    let prefix = host_prefix_text(ip);
    let r = match gateway {
        Some(g) => args(&["-4", "route", verb, prefix.as_str(), "via", g.as_str(), "dev", dev]),
        None => args(&["-4", "route", verb, prefix.as_str(), "dev", dev]),
    };
    assert(texts(r@) =~= linux_change(verb@, ip, text_view(*gateway), dev@));
    r
}

fn read_linux(ip: Ipv4Addr, out: &str) -> (r: Result<(RouteStage, RouteStep), SystemError>)
    ensures
        match r {
            Ok((stage, step)) => linux_next(ip, RouteStageView::Lookup, out@) == Ok::<_, Seq<char>>(
                (stage@, step@),
            ),
            Err(e) => linux_next(ip, RouteStageView::Lookup, out@) == Err::<
                (RouteStageView, RouteStepView),
                _,
            >(e@),
        },
{
    let found = match parse_json_list(out) {
        Err(words) => return Err(SystemError { message: words }),
        Ok(l) => l,
    };
    if found.len() == 0 {
        return refuse("no route to server");
    }
    let route = &found[0];
    let dev = match read_json_field(route, "dev") {
        None => return refuse("route has no device"),
        Some(dev) => dev,
    };
    let gateway = read_json_field(route, "gateway");
    let delete = linux_change_args("del", ip, &gateway, dev.as_str());
    let arguments = linux_change_args("add", ip, &gateway, dev.as_str());
    Ok(
        (
            RouteStage::Adding(delete),
            RouteStep::Run(CommandLine { program: "ip".to_owned(), arguments }),
        ),
    )
}

fn push_windows_route(out: &mut String, ip: Ipv4Addr, index: u64, hop: Ipv4Addr)
    ensures
        final(out)@ == old(out)@ + windows_route(ip, index, hop),
{
    let ghost before = out@;
    out.append("NetRoute -DestinationPrefix '");
    out.append(ipv4_string(ip).as_str());
    out.append("/32' -InterfaceIndex ");
    push_decimal(out, index);
    out.append(" -NextHop '");
    out.append(ipv4_string(hop).as_str());
    assert(out@ =~= before + windows_route(ip, index, hop));
}

fn read_windows(ip: Ipv4Addr, out: &str) -> (r: Result<(RouteStage, RouteStep), SystemError>)
    ensures
        match r {
            Ok((stage, step)) => windows_next(ip, RouteStageView::Lookup, out@) == Ok::<
                _,
                Seq<char>,
            >((stage@, step@)),
            Err(e) => windows_next(ip, RouteStageView::Lookup, out@) == Err::<
                (RouteStageView, RouteStepView),
                _,
            >(e@),
        },
{
    let v = match parse_json(out) {
        Err(words) => {
            return Err(
                SystemError {
                    message: joined("cannot find physical route to server: ", words.as_str()),
                },
            );
        },
        Ok(v) => v,
    };
    let index = match read_json_number(&v, "InterfaceIndex") {
        None => return refuse("missing route interface"),
        Some(n) => n,
    };
    let text = match read_json_field(&v, "NextHop") {
        None => return refuse("missing gateway"),
        Some(t) => t,
    };
    let hop = match parse_ipv4(&chars_of(text.as_str())) {
        None => return refuse("invalid IPv4 address syntax"),
        Some(hop) => hop,
    };
    let mut add = String::new();
    add.append("New-");
    push_windows_route(&mut add, ip, index, hop);
    add.append("' -RouteMetric 1 -PolicyStore ActiveStore | Out-Null");
    assert(add@ =~= windows_add(ip, index, hop));
    let mut delete = String::new();
    delete.append("Get-");
    push_windows_route(&mut delete, ip, index, hop);
    delete.append("' -PolicyStore ActiveStore | Remove-NetRoute -Confirm:$false");
    assert(delete@ =~= windows_delete(ip, index, hop));
    let mut all: Vec<String> = Vec::new();
    all.push(delete);
    assert(texts(all@) =~= seq![windows_delete(ip, index, hop)]);
    Ok((RouteStage::Adding(all), RouteStep::Run(ps(add.as_str()))))
}

fn read_line_field(all: &Vec<&[char]>, key: &str) -> (r: Option<String>)
    ensures
        text_view(r) == line_field(views(all@), key@),
{
    let ghost v = views(all@);
    assert(v.skip(0) =~= v);
    for i in 0..all.len()
        invariant
            v == views(all@),
            line_field(v, key@) == line_field(v.skip(i as int), key@),
    {
        assert(v.skip(i as int)[0] == all@[i as int]@);
        assert(v.skip(i as int).skip(1) =~= v.skip(i + 1));
        if let Some((name, value)) = split_once(trim(all[i]), ':') {
            if spells(name, key) {
                return Some(text_of(trim(value)));
            }
        }
    }
    assert(v.skip(all@.len() as int) =~= Seq::empty());
    None
}

fn is_flag_mark(c: char) -> (r: bool)
    ensures
        r == flag_mark(c),
{
    c == ',' || c == '<' || c == '>'
}

fn lists_flag(s: &str, flag: &str) -> (r: bool)
    ensures
        r == has_flag(s@, flag@),
{
    let chars = chars_of(s);
    let mut from: usize = 0;
    for i in 0..chars.len()
        invariant
            chars@ == s@,
            from <= i,
            from == 0 || flag_mark(s@[from - 1]),
            forall|k: int| from <= k < i ==> !flag_mark(#[trigger] s@[k]),
            forall|a: int, b: int| a < from ==> !(#[trigger] stands_between(s@, flag@, a, b)),
    {
        if is_flag_mark(chars[i]) {
            let piece = slice_subrange(&chars, from, i);
            assert(piece@ == s@.subrange(from as int, i as int));
            if spells(piece, flag) {
                assert(stands_between(s@, flag@, from as int, i as int));
                return true;
            }
            assert forall|a: int, b: int| a < i + 1 implies !(#[trigger] stands_between(
                s@,
                flag@,
                a,
                b,
            )) by {
                if from <= a <= i && stands_between(s@, flag@, a, b) {
                    if a > from {
                        assert(flag_mark(s@[a - 1]));
                    } else if b > i {
                        assert(!flag_mark(s@[i as int]));
                    } else if b < i {
                        assert(flag_mark(s@[b]));
                    }
                }
            }
            from = i + 1;
        }
    }
    let last = slice_subrange(&chars, from, chars.len());
    assert(last@ == s@.subrange(from as int, s@.len() as int));
    if spells(last, flag) {
        assert(stands_between(s@, flag@, from as int, s@.len() as int));
        return true;
    }
    assert forall|a: int, b: int| !(#[trigger] stands_between(s@, flag@, a, b)) by {
        if from <= a && stands_between(s@, flag@, a, b) {
            if a > from {
                assert(flag_mark(s@[a - 1]));
            } else if b < s@.len() {
                assert(flag_mark(s@[b]));
            }
        }
    }
    false
}

fn macos_change_args(verb: &str, ip: Ipv4Addr, kind: &str, through: &str) -> (r: Vec<String>)
    ensures
        texts(r@) == macos_change(verb@, ip, kind@, through@),
{
    let host = ipv4_string(ip);
    let r = args(&["-n", verb, "-host", host.as_str(), kind, through]);
    assert(texts(r@) =~= macos_change(verb@, ip, kind@, through@));
    r
}

fn read_macos(ip: Ipv4Addr, out: &str) -> (r: Result<(RouteStage, RouteStep), SystemError>)
    ensures
        match r {
            Ok((stage, step)) => macos_next(ip, RouteStageView::Lookup, out@) == Ok::<_, Seq<char>>(
                (if step is Done {
                    RouteStageView::Lookup
                } else {
                    stage@
                }, step@),
            ),
            Err(e) => macos_next(ip, RouteStageView::Lookup, out@) == Err::<
                (RouteStageView, RouteStepView),
                _,
            >(e@),
        },
{
    let chars = chars_of(out);
    let all = lines_of(&chars);
    let own = ipv4_string(ip);
    let to_host = match read_line_field(&all, "destination") {
        Some(d) => same(d.as_str(), own.as_str()),
        None => false,
    };
    let by_host = match read_line_field(&all, "flags") {
        Some(v) => lists_flag(v.as_str(), "HOST"),
        None => false,
    };
    if to_host && by_host {
        return Ok((RouteStage::Lookup, RouteStep::Done(None)));
    }
    let gateway = match read_line_field(&all, "gateway") {
        Some(g) => parse_ipv4(&chars_of(g.as_str())),
        None => None,
    };
    let (kind, by) = match gateway {
        Some(g) => ("-gateway", ipv4_string(g)),
        None => match read_line_field(&all, "interface") {
            Some(i) => ("-interface", i),
            None => return refuse("missing outer route interface"),
        },
    };
    let delete = macos_change_args("delete", ip, kind, by.as_str());
    let arguments = macos_change_args("add", ip, kind, by.as_str());
    Ok(
        (
            RouteStage::Adding(delete),
            RouteStep::Run(CommandLine { program: "/sbin/route".to_owned(), arguments }),
        ),
    )
}

impl RoutePlan {
    /// A route that is being added has something that takes it away.
    pub open spec fn valid(&self) -> bool {
        self.stage@ matches RouteStageView::Adding(delete) ==> delete.len() > 0
    }

    /// Begins the installation of a route to a server.
    pub fn begin(platform: Platform, ip: Ipv4Addr) -> (r: (Self, RouteStep))
        ensures
            r.0.valid(),
            r.0.platform == platform,
            r.0.ip == ip,
            r.0.stage@ == RouteStageView::Existing,
            r.1@ == first_step(platform, ip),
    {
        let plan = RoutePlan { platform, ip, stage: RouteStage::Existing };
        if ip.is_loopback() {
            return (plan, RouteStep::Done(None));
        }
        let own = ipv4_string(ip);
        let step = match platform {
            Platform::Windows => {
                let mut script = String::new();
                script.append(
                    "$r = Get-NetRoute -AddressFamily IPv4 -PolicyStore ActiveStore | Where-Object { $_.DestinationPrefix -eq '",
                );
                script.append(own.as_str());
                script.append("/32' }; if ($r) { 'exists' }");
                assert(shell(script@) == windows_existing(ip));
                ps(script.as_str())
            },
            Platform::Linux => {
                let prefix = host_prefix_text(ip);
                let c = command("ip", &["-j", "-4", "route", "show", "exact", prefix.as_str()]);
                assert(c@.arguments =~= linux_existing(ip).arguments);
                c
            },
            Platform::Macos => {
                let c = command("/sbin/route", &["-n", "get", "-inet", own.as_str()]);
                assert(c@.arguments =~= macos_lookup(ip).arguments);
                c
            },
        };
        (plan, RouteStep::Run(step))
    }

    /// Goes on with what the last command printed.
    pub fn next(&mut self, out: &str) -> (r: Result<RouteStep, SystemError>)
        requires
            old(self).valid(),
        ensures
            final(self).valid(),
            r matches Ok(RouteStep::Done(Some(route))) ==> route.valid(),
            final(self).platform == old(self).platform,
            final(self).ip == old(self).ip,
            match r {
                Ok(step) => next_step(old(self).platform, old(self).ip, old(self).stage@, out@)
                    == Ok::<_, Seq<char>>((final(self).stage@, step@)),
                Err(e) => next_step(old(self).platform, old(self).ip, old(self).stage@, out@)
                    == Err::<(RouteStageView, RouteStepView), _>(e@) && final(self).stage@ == old(
                    self,
                ).stage@,
            },
    {
        let ip = self.ip;
        match &self.stage {
            RouteStage::Adding(delete) => {
                return Ok(RouteStep::Done(Some(Route { delete: copies(delete) })));
            },
            RouteStage::Existing => match self.platform {
                Platform::Windows => {
                    if same(out, "exists") {
                        return Ok(RouteStep::Done(None));
                    }
                    let own = ipv4_string(ip);
                    let mut script = String::new();
                    script.append("Find-NetRoute -RemoteIPAddress '");
                    script.append(own.as_str());
                    script.append(
                        "' | Where-Object { $null -ne $_.NextHop } | Select-Object -First 1 InterfaceIndex,NextHop | ConvertTo-Json -Compress",
                    );
                    assert(shell(script@) == windows_lookup(ip));
                    self.stage = RouteStage::Lookup;
                    return Ok(RouteStep::Run(ps(script.as_str())));
                },
                Platform::Linux => {
                    match parse_json_list(out) {
                        Err(words) => return Err(SystemError { message: words }),
                        Ok(l) => if l.len() > 0 {
                            return Ok(RouteStep::Done(None));
                        },
                    }
                    let own = ipv4_string(ip);
                    let c = command("ip", &["-j", "-4", "route", "get", own.as_str()]);
                    assert(c@.arguments =~= linux_lookup(ip).arguments);
                    self.stage = RouteStage::Lookup;
                    return Ok(RouteStep::Run(c));
                },
                Platform::Macos => {},
            },
            RouteStage::Lookup => {},
        }
        let read = match self.platform {
            Platform::Windows => read_windows(ip, out),
            Platform::Linux => read_linux(ip, out),
            Platform::Macos => read_macos(ip, out),
        };
        match read {
            Err(e) => Err(e),
            Ok((stage, step)) => {
                match &step {
                    RouteStep::Run(_) => {
                        self.stage = stage;
                    },
                    RouteStep::Done(_) => {},
                }
                Ok(step)
            },
        }
    }
}

// ---------------------------------------------------------------- the interface

/// The name of the lock of an interface.
pub fn lock_name(name: &str) -> (r: String)
    ensures
        r@ == "xxtab-"@ + name@ + ".lock"@,
{
    let r = joined(joined("xxtab-", name).as_str(), ".lock");
    assert(r@ =~= "xxtab-"@ + name@ + ".lock"@);
    r
}

/// The name of the configuration that an interface runs with.
pub fn config_name(name: &str) -> (r: String)
    ensures
        r@ == name@ + ".conf"@,
{
    joined(name, ".conf")
}

/// The path of the file that maps the name of an interface on macOS.
pub fn mapping_path(name: &str) -> (r: String)
    ensures
        r@ == path_join("/var/run/wireguard"@, name@ + ".name"@),
{
    join_path("/var/run/wireguard", joined(name, ".name").as_str())
}

/// Why an interface cannot be managed whose name is taken.
pub open spec fn taken_words(platform: Platform) -> Seq<char> {
    match platform {
        Platform::Macos =>
            "WireGuard interface mapping already exists; choose another wireguard.name"@,
        _ => "WireGuard interface already exists; choose another wireguard.name"@,
    }
}

/// Whether an interface can be managed, given whether its name is taken.
pub fn check_free(platform: Platform, taken: bool) -> (r: Result<(), SystemError>)
    ensures
        match r {
            Ok(()) => !taken,
            Err(e) => taken && e@ == taken_words(platform),
        },
{
    if !taken {
        return Ok(());
    }
    match platform {
        Platform::Macos => refuse(
            "WireGuard interface mapping already exists; choose another wireguard.name",
        ),
        _ => refuse("WireGuard interface already exists; choose another wireguard.name"),
    }
}

/// The characters of the identifier of a Windows user.
pub open spec fn sid_char(c: char) -> bool {
    digit(c) || c == 'S' || c == '-'
}

/// Whether a text is the identifier of a Windows user.
pub open spec fn sid_ok(s: Seq<char>) -> bool {
    &&& s.len() >= 4 && s.take(4) == "S-1-"@
    &&& forall|i: int| 0 <= i < s.len() ==> sid_char(#[trigger] s[i])
}

fn is_sid(s: &str) -> (r: bool)
    ensures
        r == sid_ok(s@),
{
    let chars = chars_of(s);
    proof {
        reveal_strlit("S-1-");
    }
    if chars.len() < 4 || !spells(slice_subrange(&chars, 0, 4), "S-1-") {
        assert(s@.len() >= 4 ==> s@.take(4) =~= s@.subrange(0, 4));
        return false;
    }
    assert(s@.take(4) =~= s@.subrange(0, 4));
    for i in 0..chars.len()
        invariant
            chars@ == s@,
            forall|j: int| 0 <= j < i ==> sid_char(#[trigger] s@[j]),
    {
        let c = chars[i];
        if !(is_digit(c) || c == 'S' || c == '-') {
            assert(!sid_char(s@[i as int]));
            return false;
        }
    }
    true
}

/// The command that makes a directory private to a Windows user and the system.
pub open spec fn private_directory(directory: Seq<char>, sid: Seq<char>) -> CommandLineView {
    CommandLineView {
        program: "icacls.exe"@,
        arguments: seq![
            directory,
            "/inheritance:r"@,
            "/grant:r"@,
            "*"@ + sid + ":(OI)(CI)F"@,
            "*S-1-5-18:(OI)(CI)F"@,
            "*S-1-5-32-544:(OI)(CI)F"@,
        ],
    }
}

/// The command that makes a directory private to a Windows user and the system.
pub fn make_private(directory: &str, sid: &str) -> (r: Result<CommandLine, SystemError>)
    ensures
        match r {
            Ok(c) => sid_ok(sid@) && c@ == private_directory(directory@, sid@),
            Err(e) => !sid_ok(sid@) && e@ == "invalid user SID"@,
        },
{
    if !is_sid(sid) {
        return refuse("invalid user SID");
    }
    let mut grant = String::new();
    grant.append("*");
    grant.append(sid);
    grant.append(":(OI)(CI)F");
    assert(grant@ =~= "*"@ + sid@ + ":(OI)(CI)F"@);
    let c = command(
        "icacls.exe",
        &[
            directory,
            "/inheritance:r",
            "/grant:r",
            grant.as_str(),
            "*S-1-5-18:(OI)(CI)F",
            "*S-1-5-32-544:(OI)(CI)F",
        ],
    );
    assert(c@.arguments =~= private_directory(directory@, sid@).arguments);
    Ok(c)
}

/// The program that manages WireGuard where the configuration names none. `program_files` is the
/// directory of programs on Windows, `tools` the directory of the tools on macOS.
pub open spec fn usual_executable(
    platform: Platform,
    program_files: Option<Seq<char>>,
    tools: Option<Seq<char>>,
) -> Seq<char> {
    match platform {
        Platform::Windows => path_join(
            match program_files {
                Some(d) => d,
                None => "C:\\Program Files"@,
            },
            "WireGuard/wireguard.exe"@,
        ),
        Platform::Macos => path_join(
            match tools {
                Some(d) => d,
                None => "/opt/homebrew/bin"@,
            },
            "wg-quick"@,
        ),
        Platform::Linux => "wg-quick"@,
    }
}

pub fn default_executable(platform: Platform, program_files: Option<&str>, tools: Option<&str>) -> (r:
    String)
    ensures
        r@ == usual_executable(platform, str_view(program_files), str_view(tools)),
{
    match platform {
        Platform::Windows => join_path(
            match program_files {
                Some(d) => d,
                None => "C:\\Program Files",
            },
            "WireGuard/wireguard.exe",
        ),
        Platform::Macos => join_path(
            match tools {
                Some(d) => d,
                None => "/opt/homebrew/bin",
            },
            "wg-quick",
        ),
        Platform::Linux => "wg-quick".to_owned(),
    }
}

/// A WireGuard interface under management.
#[derive(Debug)]
pub struct Managed {
    pub name: String,
    /// The path of the configuration that it runs with.
    pub config: String,
    pub executable: String,
    /// The route to the server that was added.
    pub route: Option<Route>,
    /// Whether it may be up, be it in part.
    pub started: bool,
}

#[verifier::ext_equal]
pub struct ManagedView {
    pub name: Seq<char>,
    pub config: Seq<char>,
    pub executable: Seq<char>,
    pub route: Option<Seq<Seq<char>>>,
    pub started: bool,
}

impl View for Managed {
    type V = ManagedView;

    open spec fn view(&self) -> ManagedView {
        ManagedView {
            name: self.name@,
            config: self.config@,
            executable: self.executable@,
            route: route_view(self.route),
            started: self.started,
        }
    }
}

/// What is left to do to stop an interface.
#[derive(Debug)]
pub enum StopStep {
    /// Ask whether the interface is there.
    Query,
    /// Take away the route to the server.
    RemoveRoute(CommandLine),
    /// Everything is as it was before the start.
    Finished,
}

#[verifier::ext_equal]
pub enum StopStepView {
    Query,
    RemoveRoute(CommandLineView),
    Finished,
}

impl View for StopStep {
    type V = StopStepView;

    open spec fn view(&self) -> StopStepView {
        match *self {
            StopStep::Query => StopStepView::Query,
            StopStep::RemoveRoute(c) => StopStepView::RemoveRoute(c@),
            StopStep::Finished => StopStepView::Finished,
        }
    }
}

/// What is left to do to stop an interface: first the interface, then the route.
pub open spec fn stop_step(m: ManagedView, platform: Platform) -> StopStepView {
    if m.started {
        StopStepView::Query
    } else {
        match m.route {
            Some(delete) => StopStepView::RemoveRoute(removal(platform, delete)),
            None => StopStepView::Finished,
        }
    }
}

/// The command that brings an interface up.
pub open spec fn up_command(m: ManagedView, platform: Platform) -> CommandLineView {
    CommandLineView {
        program: m.executable,
        arguments: match platform {
            Platform::Windows => seq!["/installtunnelservice"@, m.config],
            _ => seq!["up"@, m.config],
        },
    }
}

/// The command that takes an interface down.
pub open spec fn down_command(m: ManagedView, platform: Platform) -> CommandLineView {
    CommandLineView {
        program: m.executable,
        arguments: match platform {
            Platform::Windows => seq!["/uninstalltunnelservice"@, m.name],
            _ => seq!["down"@, m.config],
        },
    }
}

impl Managed {
    /// The route has what takes it away.
    pub open spec fn valid(&self) -> bool {
        self@.route matches Some(delete) ==> delete.len() > 0
    }

    /// An interface that is prepared and not up.
    pub fn prepare(name: String, config: String, executable: String) -> (r: Self)
        ensures
            r.valid(),
            r@ == (ManagedView {
                name: name@,
                config: config@,
                executable: executable@,
                route: None,
                started: false,
            }),
    {
        Managed { name, config, executable, route: None, started: false }
    }

    /// Takes the route that was added, and counts as started from then on: what starts in part has
    /// to be taken back as well. The command that brings the interface up.
    pub fn start(&mut self, route: Option<Route>, platform: Platform) -> (r: CommandLine)
        requires
            route matches Some(x) ==> x.valid(),
        ensures
            final(self).valid(),
            final(self)@ == (ManagedView {
                route: route_view(route),
                started: true,
                ..old(self)@
            }),
            r@ == up_command(old(self)@, platform),
    {
        self.route = route;
        self.started = true;
        let c = match platform {
            Platform::Windows => command(
                self.executable.as_str(),
                &["/installtunnelservice", self.config.as_str()],
            ),
            _ => command(self.executable.as_str(), &["up", self.config.as_str()]),
        };
        assert(c@.arguments =~= up_command(self@, platform).arguments);
        c
    }

    /// What is left to do to stop the interface.
    pub fn stop(&self, platform: Platform) -> (r: StopStep)
        requires
            self.valid(),
        ensures
            r@ == stop_step(self@, platform),
    {
        if self.started {
            return StopStep::Query;
        }
        match &self.route {
            Some(route) => StopStep::RemoveRoute(route.remove(platform)),
            None => StopStep::Finished,
        }
    }

    /// Takes the answer whether the interface is there. The command that takes it down, where it
    /// is.
    pub fn answered(&mut self, present: bool, platform: Platform) -> (r: Option<CommandLine>)
        requires
            old(self).valid(),
        ensures
            final(self).valid(),
            match r {
                Some(c) => present && c@ == down_command(old(self)@, platform) && final(self)@
                    == old(self)@,
                None => !present && final(self)@ == (ManagedView { started: false, ..old(self)@ }),
            },
    {
        if !present {
            self.started = false;
            return None;
        }
        let c = match platform {
            Platform::Windows => command(
                self.executable.as_str(),
                &["/uninstalltunnelservice", self.name.as_str()],
            ),
            _ => command(self.executable.as_str(), &["down", self.config.as_str()]),
        };
        assert(c@.arguments =~= down_command(self@, platform).arguments);
        Some(c)
    }

    /// The interface was taken down.
    pub fn taken_down(&mut self)
        requires
            old(self).valid(),
        ensures
            final(self).valid(),
            final(self)@ == (ManagedView { started: false, ..old(self)@ }),
    {
        self.started = false;
    }

    /// The route was taken away.
    pub fn route_removed(&mut self)
        ensures
            final(self).valid(),
            final(self)@ == (ManagedView { route: None, ..old(self)@ }),
    {
        self.route = None;
    }

    /// The line that tells that the interface is up.
    pub fn started_line(&self) -> (r: String)
        ensures
            r@ == "WireGuard "@ + self@.name + " started; runtime config: "@ + self@.config,
    {
        let mut out = String::new();
        out.append("WireGuard ");
        out.append(self.name.as_str());
        out.append(" started; runtime config: ");
        out.append(self.config.as_str());
        assert(out@ =~= "WireGuard "@ + self@.name + " started; runtime config: "@ + self@.config);
        out
    }

    /// The line that tells that the interface could not be stopped.
    pub fn kept_line(&self, reason: &str) -> (r: String)
        ensures
            r@ == "cleanup failed: "@ + reason@ + "; preserve runtime config "@ + self@.config
                + " for manual recovery"@,
    {
        let mut out = String::new();
        out.append("cleanup failed: ");
        out.append(reason);
        out.append("; preserve runtime config ");
        out.append(self.config.as_str());
        out.append(" for manual recovery");
        assert(out@ =~= "cleanup failed: "@ + reason@ + "; preserve runtime config "@ + self@.config
            + " for manual recovery"@);
        out
    }
}

/// The command that asks Linux for an interface.
pub fn link_query(name: &str) -> (r: CommandLine)
    ensures
        r@ == (CommandLineView {
            program: "ip"@,
            arguments: seq!["link"@, "show"@, "dev"@, name@],
        }),
{
    let c = command("ip", &["link", "show", "dev", name]);
    assert(c@.arguments =~= seq!["link"@, "show"@, "dev"@, name@]);
    c
}

/// The command that asks Windows for the state of the service of an interface.
pub fn state_query(name: &str) -> (r: CommandLine)
    ensures
        r@ == shell("(Get-Service -Name 'WireGuardTunnel$"@ + name@ + "').Status.ToString()"@),
{
    let mut script = String::new();
    script.append("(Get-Service -Name 'WireGuardTunnel$");
    script.append(name);
    script.append("').Status.ToString()");
    assert(script@ =~= "(Get-Service -Name 'WireGuardTunnel$"@ + name@ + "').Status.ToString()"@);
    ps(script.as_str())
}

/// Whether a service runs, given its state and whether its time is over.
pub fn service_running(state: &str, overdue: bool) -> (r: Result<bool, SystemError>)
    ensures
        match r {
            Ok(b) => b == (state@ == "Running"@) && (overdue ==> b),
            Err(e) => state@ != "Running"@ && overdue && e@ == "WireGuard service failed to start"@,
        },
{
    if same(state, "Running") {
        Ok(true)
    } else if overdue {
        refuse("WireGuard service failed to start")
    } else {
        Ok(false)
    }
}

// ---------------------------------------------------------------- laws

/// How much is left to do to stop an interface.
pub open spec fn remaining(m: ManagedView) -> nat {
    (if m.started {
        1nat
    } else {
        0
    }) + (if m.route is Some {
        1nat
    } else {
        0
    })
}

/// Stopping is finished when, and only when, neither the interface nor a route is left; stopping
/// again does nothing.
pub proof fn stopping_finishes_with_nothing_left(m: ManagedView, platform: Platform)
    ensures
        stop_step(m, platform) is Finished <==> !m.started && m.route is None,
        stop_step(m, platform) is Finished <==> remaining(m) == 0,
        m.started ==> remaining(ManagedView { started: false, ..m }) < remaining(m),
        m.route is Some ==> remaining(ManagedView { route: None, ..m }) < remaining(m),
{
}

/// A route is taken away only after the interface is down, and the configuration is kept through
/// all of it.
pub proof fn route_outlives_the_interface(m: ManagedView, platform: Platform)
    requires
        stop_step(m, platform) is RemoveRoute,
    ensures
        !m.started,
        m.route matches Some(delete) && stop_step(m, platform) == StopStepView::RemoveRoute(
            removal(platform, delete),
        ),
{
}

/// What takes a route away names the route that was added, and nothing else.
pub proof fn added_routes_are_the_ones_removed(
    platform: Platform,
    ip: Ipv4Addr,
    stage: RouteStageView,
    out: Seq<char>,
)
    ensures
        next_step(platform, ip, stage, out) matches Ok((RouteStageView::Adding(delete), RouteStepView::Run(c)))
            ==> match platform {
            Platform::Linux => c.program == "ip"@ && delete == c.arguments.update(2, "del"@)
                && c.arguments[2] == "add"@,
            Platform::Macos => c.program == "/sbin/route"@ && delete == c.arguments.update(
                1,
                "delete"@,
            ) && c.arguments[1] == "add"@,
            Platform::Windows => delete.len() == 1 && exists|index: u64, hop: Ipv4Addr|
                c == shell(#[trigger] windows_add(ip, index, hop)) && delete[0] == windows_delete(
                    ip,
                    index,
                    hop,
                ),
        },
{
    if let Ok((RouteStageView::Adding(delete), RouteStepView::Run(c))) = next_step(
        platform,
        ip,
        stage,
        out,
    ) {
        match platform {
            Platform::Linux => {
                assert(delete =~= c.arguments.update(2, "del"@));
            },
            Platform::Macos => {
                assert(delete =~= c.arguments.update(1, "delete"@));
            },
            Platform::Windows => {
                let v = json_document(out)->Ok_0;
                let index = json_number(v, "InterfaceIndex"@)->0;
                let hop = ipv4(json_field(v, "NextHop"@)->0)->0;
                assert(c == shell(windows_add(ip, index, hop)));
            },
        }
    }
}

/// A route that is there already is left alone, and so is this machine.
pub proof fn existing_routes_are_kept(ip: Ipv4Addr, out: Seq<char>)
    ensures
        ip.a == 127 ==> first_step(Platform::Linux, ip) == RouteStepView::Done(None)
            && first_step(Platform::Windows, ip) == RouteStepView::Done(None) && first_step(
            Platform::Macos,
            ip,
        ) == RouteStepView::Done(None),
        json_list(out) matches Ok(l) && l.len() > 0 ==> linux_next(
            ip,
            RouteStageView::Existing,
            out,
        ) matches Ok((_, RouteStepView::Done(None))),
        windows_next(ip, RouteStageView::Existing, "exists"@) matches Ok((_, RouteStepView::Done(
            None,
        ))),
{
}

/// What is taken down is what was brought up, by the same program: elsewhere than on Windows by the
/// path of its configuration, on Windows by the name of the service that the configuration's file
/// gives it.
pub proof fn interfaces_are_taken_down_as_brought_up(m: ManagedView, n: ManagedView, platform: Platform)
    requires
        m.name == n.name && m.config == n.config && m.executable == n.executable,
    ensures
        up_command(m, platform).program == m.executable,
        down_command(n, platform).program == m.executable,
        platform != Platform::Windows ==> up_command(m, platform).arguments == seq!["up"@, m.config]
            && down_command(n, platform).arguments == seq!["down"@, m.config],
        platform == Platform::Windows ==> up_command(m, platform).arguments
            == seq!["/installtunnelservice"@, m.config] && down_command(n, platform).arguments
            == seq!["/uninstalltunnelservice"@, m.name],
{
}

/// The program that manages WireGuard where none is named: the one under the directory of programs
/// on Windows, the one of the tools on macOS, and the one on the path on Linux.
pub proof fn usual_programs(directory: Seq<char>)
    ensures
        usual_executable(Platform::Linux, Some(directory), Some(directory)) == "wg-quick"@,
        usual_executable(Platform::Linux, None, None) == "wg-quick"@,
        usual_executable(Platform::Windows, Some(directory), None) == path_join(
            directory,
            "WireGuard/wireguard.exe"@,
        ),
        usual_executable(Platform::Windows, None, Some(directory)) == path_join(
            "C:\\Program Files"@,
            "WireGuard/wireguard.exe"@,
        ),
        usual_executable(Platform::Macos, None, Some(directory)) == path_join(
            directory,
            "wg-quick"@,
        ),
        usual_executable(Platform::Macos, Some(directory), None) == path_join(
            "/opt/homebrew/bin"@,
            "wg-quick"@,
        ),
{
}

/// Which texts identify a Windows user: `S-1-` and then nothing but digits, hyphens and the letter.
pub proof fn user_identifiers(s: Seq<char>)
    ensures
        sid_ok(s) <==> {
            &&& exists|rest: Seq<char>| s == #[trigger] ("S-1-"@ + rest)
            &&& forall|i: int|
                0 <= i < s.len() ==> ('0' <= #[trigger] s[i] <= '9' || s[i] == 'S' || s[i] == '-')
        },
{
    reveal_strlit("S-1-");
    if s.len() >= 4 && s.take(4) == "S-1-"@ {
        assert(s =~= "S-1-"@ + s.skip(4));
    }
    if exists|rest: Seq<char>| s == #[trigger] ("S-1-"@ + rest) {
        assert(s.take(4) =~= "S-1-"@);
    }
    assert((forall|i: int| 0 <= i < s.len() ==> sid_char(#[trigger] s[i])) <==> (forall|i: int|
        0 <= i < s.len() ==> ('0' <= #[trigger] s[i] <= '9' || s[i] == 'S' || s[i] == '-')));
}

/// A directory is made private to its user, the system and the administrators, whatever it had from
/// above.
pub proof fn private_directories(directory: Seq<char>, sid: Seq<char>)
    ensures
        ({
            let c = private_directory(directory, sid);
            &&& c.program == "icacls.exe"@
            &&& c.arguments.len() == 6
            &&& c.arguments[0] == directory
            &&& c.arguments[1] == "/inheritance:r"@
            &&& c.arguments[2] == "/grant:r"@
            &&& c.arguments[3] == "*"@ + sid + ":(OI)(CI)F"@
            &&& c.arguments[4] == "*S-1-5-18:(OI)(CI)F"@
            &&& c.arguments[5] == "*S-1-5-32-544:(OI)(CI)F"@
        }),
{
}

/// The times that commands and services are given.
pub proof fn times_of_commands()
    ensures
        COMMAND_SECS == 20,
        SERVICE_SECS == 15,
{
}

/// The questions that are asked before a route is added name the server and nothing else: first
/// whether there is a route to it alone, then which way leads to it. macOS answers both at once.
pub proof fn questions_name_the_server(ip: Ipv4Addr)
    ensures
        linux_existing(ip) == (CommandLineView {
            program: "ip"@,
            arguments: seq!["-j"@, "-4"@, "route"@, "show"@, "exact"@, ipv4_text(ip) + "/32"@],
        }),
        linux_lookup(ip) == (CommandLineView {
            program: "ip"@,
            arguments: seq!["-j"@, "-4"@, "route"@, "get"@, ipv4_text(ip)],
        }),
        macos_lookup(ip) == (CommandLineView {
            program: "/sbin/route"@,
            arguments: seq!["-n"@, "get"@, "-inet"@, ipv4_text(ip)],
        }),
        windows_existing(ip) == shell(
            "$r = Get-NetRoute -AddressFamily IPv4 -PolicyStore ActiveStore | Where-Object { $_.DestinationPrefix -eq '"@
                + ipv4_text(ip) + "/32' }; if ($r) { 'exists' }"@,
        ),
        windows_lookup(ip) == shell(
            "Find-NetRoute -RemoteIPAddress '"@ + ipv4_text(ip)
                + "' | Where-Object { $null -ne $_.NextHop } | Select-Object -First 1 InterfaceIndex,NextHop | ConvertTo-Json -Compress"@,
        ),
        ip.a != 127 ==> first_step(Platform::Linux, ip) == RouteStepView::Run(linux_existing(ip))
            && first_step(Platform::Windows, ip) == RouteStepView::Run(windows_existing(ip))
            && first_step(Platform::Macos, ip) == RouteStepView::Run(macos_lookup(ip)),
        forall|script: Seq<char>| #[trigger]
            shell(script) == (CommandLineView {
                program: "powershell.exe"@,
                arguments: seq![
                    "-NoLogo"@,
                    "-NoProfile"@,
                    "-NonInteractive"@,
                    "-Command"@,
                    "$ErrorActionPreference='Stop'; "@ + script,
                ],
            }),
{
}

/// The field of a name is the value on the first line that gives it, behind its colon; there is none
/// where no line does.
pub proof fn first_fields_count(all: Seq<Seq<char>>, key: Seq<char>, i: int)
    requires
        0 <= i <= all.len(),
        forall|j: int|
            0 <= j < i ==> !(split_first(trimmed(#[trigger] all[j]), ':') matches Some((name, _))
                && name == key),
        i < all.len() ==> (split_first(trimmed(all[i]), ':') matches Some((name, _)) && name == key),
    ensures
        i < all.len() ==> (split_first(trimmed(all[i]), ':') matches Some((_, value)) && line_field(
            all,
            key,
        ) == Some(trimmed(value))),
        i == all.len() ==> line_field(all, key) is None,
    decreases all.len(),
{
    if i > 0 {
        assert(!(split_first(trimmed(all[0]), ':') matches Some((name, _)) && name == key));
        let rest = all.skip(1);
        assert forall|j: int| 0 <= j < i - 1 implies !(split_first(trimmed(#[trigger] rest[j]), ':')
            matches Some((name, _)) && name == key) by {
            assert(rest[j] == all[j + 1]);
        }
        first_fields_count(rest, key, i - 1);
    }
}

/// A flag is there where it stands alone between two marks, or between a mark and an end; as a part of
/// another it does not count.
pub proof fn flags_stand_between_marks(before: Seq<char>, flag: Seq<char>, behind: Seq<char>)
    requires
        forall|i: int|
            0 <= i < flag.len() ==> #[trigger] flag[i] != ',' && flag[i] != '<' && flag[i] != '>',
    ensures
        (before.len() == 0 || before.last() == ',' || before.last() == '<' || before.last() == '>')
            && (behind.len() == 0 || behind[0] == ',' || behind[0] == '<' || behind[0] == '>')
            ==> has_flag(before + flag + behind, flag),
        (forall|i: int|
            0 <= i < before.len() ==> #[trigger] before[i] != ',' && before[i] != '<' && before[i]
                != '>') ==> (has_flag(before, flag) <==> before == flag),
{
    let s = before + flag + behind;
    let a = before.len() as int;
    let b = a + flag.len();
    if (before.len() == 0 || before.last() == ',' || before.last() == '<' || before.last() == '>')
        && (behind.len() == 0 || behind[0] == ',' || behind[0] == '<' || behind[0] == '>') {
        assert(s.subrange(a, b) =~= flag);
        assert forall|i: int| a <= i < b implies !flag_mark(#[trigger] s[i]) by {
            assert(s[i] == flag[i - a]);
        }
        assert(a > 0 ==> s[a - 1] == before.last());
        assert(b < s.len() ==> s[b] == behind[0]);
        assert(stands_between(s, flag, a, b));
    }
    if forall|i: int|
        0 <= i < before.len() ==> #[trigger] before[i] != ',' && before[i] != '<' && before[i] != '>' {
        if has_flag(before, flag) {
            let (x, y) = choose|x: int, y: int| #[trigger] stands_between(before, flag, x, y);
            assert(x == 0 || !flag_mark(before[x - 1]));
            assert(y == before.len() || !flag_mark(before[y]));
            assert(before.subrange(x, y) =~= before);
        }
        if before == flag {
            assert(before.subrange(0, before.len() as int) =~= before);
            assert(stands_between(before, flag, 0, before.len() as int));
        }
    }
}

/// A field of an object is what stands at its key, where that is of the kind that is asked for.
pub proof fn fields_stand_at_their_key(m: Map<Seq<char>, JsonView>, key: Seq<char>, s: Seq<char>, n: u64)
    ensures
        json_field(JsonView::Object(m), key) == Some(s) <==> m.dom().contains(key) && m[key]
            == JsonView::Text(s),
        json_number(JsonView::Object(m), key) == Some(n) <==> m.dom().contains(key) && m[key]
            == JsonView::Natural(n),
{
}

} // verus!
