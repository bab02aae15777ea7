use xxtab::logging::{Feed, Status};
use xxtab::macos::{
    bundle_root, candidate_roots, check_directory, check_input, check_length, dependencies_ready,
    dependency_root, executable_root, may_serve, missing_tools, should_stop, status_text, worker_config, Candidate,
    Metadata, Owner, Snapshots, StopReason, MAX_INPUT,
};
use xxtab::net::Ipv4Addr;
use xxtab::recovery::{
    command_query, query_result, read_command, recover, recovery_line, service_exists, service_gone, Journal,
    Session,
};
use xxtab::system::{
    args, check_free, config_name, default_executable, link_query, lock_name, make_private,
    mapping_path, ps, run, service_running, state_query, tool_path, CommandLine, Managed, Output,
    Platform, Route, RoutePlan, RouteStep, StopStep,
};

fn line(c: &CommandLine) -> String {
    format!("{} {}", c.program, c.arguments.join(" "))
}

fn command(s: &RouteStep) -> String {
    match s {
        RouteStep::Run(c) => line(c),
        RouteStep::Done(_) => panic!(),
    }
}

#[test]
fn distinguishes_query_failure_from_conflict() {
    assert!(query_result(Some(0), "test").unwrap());
    assert!(!query_result(Some(1060), "test").unwrap());
    assert!(query_result(Some(5), "test").unwrap_err().message.contains("访问被拒绝"));
    assert!(query_result(Some(1722), "test").is_err());
    assert!(query_result(None, "test").is_err());
}

#[test]
fn recovery_requires_exact_recorded_service() {
    let root = r"C:\Users\Test User\Temp";
    let exe = r"C:\Program Files\WireGuard\wireguard.exe";
    let config = format!("{root}/xxtab-AbC123/xxtab0.conf");
    let session = Session { config: config.clone(), executable: exe.to_string() };
    let command = vec![exe.to_string(), "/tunnelservice".to_string(), config.clone()];
    assert!(session.matches(&command, "xxtab0", exe, root));
    let other: Vec<String> = command.iter().map(|a| a.replace("xxtab-AbC123", "other")).collect();
    assert!(!session.matches(&other, "xxtab0", exe, root));
    let install: Vec<String> =
        command.iter().map(|a| a.replace("/tunnelservice", "/installtunnelservice")).collect();
    assert!(!session.matches(&install, "xxtab0", exe, root));
    let mut longer = command.clone();
    longer.push("extra".to_string());
    assert!(!session.matches(&longer, "xxtab0", exe, root));
    assert!(!session.matches(&command, "xxtab0", exe, r"C:\OtherUser\Temp"));
    let foreign_config = format!("{root}/foreign/xxtab0.conf");
    let foreign = Session { config: foreign_config.clone(), executable: exe.to_string() };
    let foreign_command = vec![exe.to_string(), "/tunnelservice".to_string(), foreign_config];
    assert!(!foreign.matches(&foreign_command, "xxtab0", exe, root));
}

#[test]
fn only_recorded_services_are_recovered() {
    let exe = "wg.exe";
    let config = "/tmp/xxtab-1/xxtab0.conf".to_string();
    let command = vec![exe.to_string(), "/tunnelservice".to_string(), config.clone()];
    let session = || Session { config: config.clone(), executable: exe.to_string() };
    assert!(recover(Journal::NoService, "xxtab0", exe, "/tmp").unwrap().is_none());
    let e = recover(Journal::Missing, "xxtab0", exe, "/tmp").unwrap_err();
    assert!(e.message.contains("WireGuardTunnel$xxtab0"));
    let found = recover(Journal::Recorded(session(), command.clone()), "xxtab0", exe, "/tmp")
        .unwrap()
        .unwrap();
    assert_eq!(found.config, config);
    assert!(recover(Journal::Recorded(session(), command), "xxtab1", exe, "/tmp").is_err());
    assert_eq!(line(&service_exists("xxtab0")), "sc.exe query WireGuardTunnel$xxtab0");
    assert!(command_query("xxtab0").arguments[4].contains("WireGuardTunnel$xxtab0"));
    assert_eq!(
        recovery_line("xxtab0"),
        "检测到上次异常退出残留的 WireGuard 服务 xxtab0，正在恢复"
    );
    assert!(service_gone(false, true, "x").unwrap());
    assert!(!service_gone(true, false, "x").unwrap());
    assert!(service_gone(true, true, "x").unwrap_err().message.contains("卸载尚未完成"));
    assert!(query_result(Some(-7), "n").unwrap_err().message.contains("Some(-7)"));
    assert!(query_result(None, "n").unwrap_err().message.contains("None"));
}

#[test]
fn routes_are_added_on_linux() {
    let ip = Ipv4Addr::new(192, 0, 2, 1);
    let (mut plan, step) = RoutePlan::begin(Platform::Linux, ip);
    assert_eq!(command(&step), "ip -j -4 route show exact 192.0.2.1/32");
    let step = plan.next("[]").unwrap();
    assert_eq!(command(&step), "ip -j -4 route get 192.0.2.1");
    let step = plan.next("[{\"dst\":\"192.0.2.1\",\"gateway\":\"10.0.0.1\",\"dev\":\"eth0\"}]").unwrap();
    assert_eq!(command(&step), "ip -4 route add 192.0.2.1/32 via 10.0.0.1 dev eth0");
    let RouteStep::Done(Some(route)) = plan.next("").unwrap() else { panic!() };
    assert_eq!(
        line(&route.remove(Platform::Linux)),
        "ip -4 route del 192.0.2.1/32 via 10.0.0.1 dev eth0"
    );
    let (mut plan, _) = RoutePlan::begin(Platform::Linux, ip);
    assert!(matches!(plan.next("[{\"dst\":\"192.0.2.1\"}]"), Ok(RouteStep::Done(None))));
    let (mut plan, _) = RoutePlan::begin(Platform::Linux, ip);
    plan.next("[]").unwrap();
    assert_eq!(plan.next("[]").unwrap_err().message, "no route to server");
    let (mut plan, _) = RoutePlan::begin(Platform::Linux, ip);
    plan.next("[]").unwrap();
    assert_eq!(plan.next("[{}]").unwrap_err().message, "route has no device");
    let (mut plan, _) = RoutePlan::begin(Platform::Linux, ip);
    assert!(plan.next("nonsense").is_err());
    let (_, step) = RoutePlan::begin(Platform::Linux, Ipv4Addr::localhost());
    assert!(matches!(step, RouteStep::Done(None)));
}

#[test]
fn routes_are_added_on_windows() {
    let ip = Ipv4Addr::new(192, 0, 2, 1);
    let (mut plan, step) = RoutePlan::begin(Platform::Windows, ip);
    assert!(command(&step).contains("-eq '192.0.2.1/32' }; if ($r) { 'exists' }"));
    let step = plan.next("").unwrap();
    assert!(command(&step).contains("Find-NetRoute -RemoteIPAddress '192.0.2.1'"));
    let step = plan.next("{\"InterfaceIndex\":7,\"NextHop\":\"10.0.0.1\"}").unwrap();
    assert!(command(&step).contains(
        "New-NetRoute -DestinationPrefix '192.0.2.1/32' -InterfaceIndex 7 -NextHop '10.0.0.1' -RouteMetric 1"
    ));
    let RouteStep::Done(Some(route)) = plan.next("").unwrap() else { panic!() };
    assert_eq!(
        line(&route.remove(Platform::Windows)),
        "powershell.exe -NoLogo -NoProfile -NonInteractive -Command $ErrorActionPreference='Stop'; Get-NetRoute -DestinationPrefix '192.0.2.1/32' -InterfaceIndex 7 -NextHop '10.0.0.1' -PolicyStore ActiveStore | Remove-NetRoute -Confirm:$false"
    );
    let fault = |out: &str| {
        let (mut plan, _) = RoutePlan::begin(Platform::Windows, ip);
        plan.next("").unwrap();
        plan.next(out).unwrap_err().message
    };
    assert!(fault("x").starts_with("cannot find physical route to server"));
    assert_eq!(fault("{}"), "missing route interface");
    assert_eq!(fault("{\"InterfaceIndex\":7}"), "missing gateway");
    let words = "::".parse::<core::net::Ipv4Addr>().unwrap_err().to_string();
    assert_eq!(fault("{\"InterfaceIndex\":7,\"NextHop\":\"::\"}"), words);
    assert_eq!(words, "invalid IPv4 address syntax");
    let (mut plan, _) = RoutePlan::begin(Platform::Windows, ip);
    assert!(matches!(plan.next("exists"), Ok(RouteStep::Done(None))));
}

#[test]
fn routes_are_added_on_macos() {
    let ip = Ipv4Addr::new(192, 0, 2, 1);
    let (mut plan, step) = RoutePlan::begin(Platform::Macos, ip);
    assert_eq!(command(&step), "/sbin/route -n get -inet 192.0.2.1");
    let step = plan
        .next("   route to: 192.0.2.1\ndestination: default\n    gateway: 10.0.0.1\n  interface: en0\n")
        .unwrap();
    assert_eq!(command(&step), "/sbin/route -n add -host 192.0.2.1 -gateway 10.0.0.1");
    let RouteStep::Done(Some(route)) = plan.next("").unwrap() else { panic!() };
    assert_eq!(
        line(&route.remove(Platform::Macos)),
        "/sbin/route -n delete -host 192.0.2.1 -gateway 10.0.0.1"
    );
    let (mut plan, _) = RoutePlan::begin(Platform::Macos, ip);
    let step = plan.next("gateway: link#4\ninterface: en0").unwrap();
    assert_eq!(command(&step), "/sbin/route -n add -host 192.0.2.1 -interface en0");
    let (mut plan, _) = RoutePlan::begin(Platform::Macos, ip);
    assert_eq!(plan.next("").unwrap_err().message, "missing outer route interface");
    let (mut plan, _) = RoutePlan::begin(Platform::Macos, ip);
    let there = "destination: 192.0.2.1\nflags: <UP,GATEWAY,HOST,DONE>\ngateway: 10.0.0.1";
    assert!(matches!(plan.next(there), Ok(RouteStep::Done(None))));
    let (mut plan, _) = RoutePlan::begin(Platform::Macos, ip);
    let no_host = "destination: 192.0.2.1\nflags: <UP,HOSTS>\ngateway: 10.0.0.1";
    assert!(matches!(plan.next(no_host), Ok(RouteStep::Run(_))));
}

#[test]
fn commands_tell_their_failure_without_their_output() {
    let output = |success, stdout: &[u8]| Output {
        success,
        status: "exit status: 3".to_string(),
        stdout: stdout.to_vec(),
    };
    assert_eq!(run("ip", &output(true, b"  a \xff\n")).unwrap(), "a \u{fffd}");
    let e = run("wg-quick", &output(false, b"secret")).unwrap_err();
    assert_eq!(
        e.message,
        "wg-quick failed with status exit status: 3; check administrator/root rights, installed tools and configuration"
    );
    assert_eq!(args(&["a", "b"]), ["a", "b"]);
    assert_eq!(ps("x").arguments[4], "$ErrorActionPreference='Stop'; x");
    assert_eq!(tool_path(Some("/A/b")), "/A/b:/usr/bin:/bin:/usr/sbin:/sbin");
    assert_eq!(tool_path(None), "/opt/homebrew/bin:/usr/local/bin:/usr/bin:/bin:/usr/sbin:/sbin");
}

#[test]
fn interfaces_are_taken_down_before_their_route() {
    let route = || Some(Route { delete: args(&["-4", "route", "del"]) });
    let mut m = Managed::prepare("wg0".into(), "/tmp/wg0.conf".into(), "wg-quick".into());
    assert!(matches!(m.stop(Platform::Linux), StopStep::Finished));
    assert_eq!(line(&m.start(route(), Platform::Linux)), "wg-quick up /tmp/wg0.conf");
    assert_eq!(m.started_line(), "WireGuard wg0 started; runtime config: /tmp/wg0.conf");
    assert!(matches!(m.stop(Platform::Linux), StopStep::Query));
    let down = m.answered(true, Platform::Linux).unwrap();
    assert_eq!(line(&down), "wg-quick down /tmp/wg0.conf");
    assert!(matches!(m.stop(Platform::Linux), StopStep::Query));
    m.taken_down();
    let StopStep::RemoveRoute(c) = m.stop(Platform::Linux) else { panic!() };
    assert_eq!(line(&c), "ip -4 route del");
    m.route_removed();
    assert!(matches!(m.stop(Platform::Linux), StopStep::Finished));
    assert_eq!(line(&m.start(None, Platform::Windows)), "wg-quick /installtunnelservice /tmp/wg0.conf");
    assert_eq!(
        line(&m.answered(true, Platform::Windows).unwrap()),
        "wg-quick /uninstalltunnelservice wg0"
    );
    assert!(m.answered(false, Platform::Windows).is_none());
    assert!(matches!(m.stop(Platform::Windows), StopStep::Finished));
    assert_eq!(
        m.kept_line("why"),
        "cleanup failed: why; preserve runtime config /tmp/wg0.conf for manual recovery"
    );
}

#[test]
fn names_and_queries_of_an_interface() {
    assert_eq!(lock_name("wg0"), "xxtab-wg0.lock");
    assert_eq!(config_name("wg0"), "wg0.conf");
    assert_eq!(mapping_path("wg0"), "/var/run/wireguard/wg0.name");
    assert_eq!(line(&link_query("wg0")), "ip link show dev wg0");
    assert!(line(&state_query("wg0")).contains("'WireGuardTunnel$wg0').Status"));
    assert!(check_free(Platform::Linux, false).is_ok());
    assert!(check_free(Platform::Linux, true).unwrap_err().message.contains("interface already exists"));
    assert!(check_free(Platform::Macos, true).unwrap_err().message.contains("mapping already exists"));
    assert!(service_running("Running", true).unwrap());
    assert!(!service_running("Stopped", false).unwrap());
    assert_eq!(
        service_running("Stopped", true).unwrap_err().message,
        "WireGuard service failed to start"
    );
    let c = make_private("C:\\t", "S-1-5-21-7").unwrap();
    assert_eq!(
        line(&c),
        "icacls.exe C:\\t /inheritance:r /grant:r *S-1-5-21-7:(OI)(CI)F *S-1-5-18:(OI)(CI)F *S-1-5-32-544:(OI)(CI)F"
    );
    assert_eq!(make_private("d", "S-2-5").unwrap_err().message, "invalid user SID");
    assert_eq!(make_private("d", "S-1-5;x").unwrap_err().message, "invalid user SID");
    assert_eq!(default_executable(Platform::Linux, None, None), "wg-quick");
    assert_eq!(default_executable(Platform::Macos, None, Some("/A")), "/A/wg-quick");
    assert_eq!(default_executable(Platform::Macos, None, None), "/opt/homebrew/bin/wg-quick");
    assert_eq!(
        default_executable(Platform::Windows, Some("/pf"), None),
        "/pf/WireGuard/wireguard.exe"
    );
}

#[test]
fn rejects_symlinks_and_unprotected_input() {
    let file = Metadata { regular: true, owner: 501, links: 1, mode: 0o100600, len: 1 };
    assert!(check_input(file, 501).is_ok());
    assert!(check_directory(501, 0o40700, 501).is_ok());
    for bad in [
        Metadata { regular: false, ..file },
        Metadata { owner: 0, ..file },
        Metadata { links: 2, ..file },
        Metadata { mode: 0o100644, ..file },
        Metadata { len: MAX_INPUT + 1, ..file },
    ] {
        assert_eq!(check_input(bad, 501), Err("invalid session input"));
    }
    assert!(check_directory(501, 0o40755, 501).is_err());
    assert!(check_directory(0, 0o40700, 501).is_err());
    assert!(check_length(524_288).is_ok());
    assert_eq!(check_length(524_289), Err("session input too large"));
    assert!(may_serve(0, 501).is_ok() && may_serve(501, 501).is_err() && may_serve(0, 0).is_err());
}

#[test]
fn applications_use_their_own_tools() {
    let inside = "/Applications/xxtab.app/Contents/MacOS/xxtab";
    let root = "/Applications/xxtab.app/Contents/Resources/wireguard";
    assert_eq!(bundle_root(inside).unwrap(), root);
    assert!(bundle_root("/usr/local/bin/xxtab").is_none());
    assert_eq!(candidate_roots(inside), [root]);
    assert_eq!(candidate_roots("/x"), ["/opt/homebrew/bin", "/usr/local/bin"]);
    let at = |root: &str, bash| Candidate {
        root: root.to_string(),
        bash,
        wg_quick: true,
        wg: true,
        wireguard_go: true,
    };
    assert_eq!(dependency_root(&vec![at("a", false), at("b", true)]).unwrap(), "b");
    let mut bare = at("a", true);
    bare.wg_quick = false;
    assert_eq!(executable_root("/x", &vec![bare, at("b", false)]).unwrap(), "b");
    assert!(executable_root("/x", &vec![]).is_none());
    assert_eq!(executable_root(inside, &vec![at("b", true)]).unwrap(), root);
    assert!(dependencies_ready(&vec![at("a", true)]));
    assert!(!dependencies_ready(&vec![at("a", false)]));
    assert!(missing_tools(true).contains("内置") && missing_tools(false).contains("brew install"));
}

#[test]
fn workers_run_the_settings_of_the_user_with_their_own_tools() {
    let text = worker_config(
        "server='ws://a'\n[wireguard]\nconfig='x'\nexecutable='/evil'\nname='other'\nmtu=1300",
        501,
        "/tools",
    )
    .unwrap();
    let cfg = xxtab::config::Config::parse(&text, "/p/xxtab.toml").unwrap();
    let w = cfg.wireguard.unwrap();
    assert_eq!(w.config, "/p/wg.conf");
    assert_eq!(w.name, "xxm501");
    assert_eq!(w.executable.unwrap(), "/tools/wg-quick");
    assert_eq!(w.mtu, 1300);
    let text = worker_config("x=[1, 2]\n[wireguard]", 7, "/t").unwrap();
    assert!(text.starts_with("x = [1, 2]\n"), "{text}");
    assert_eq!(worker_config("x", 1, "/t").unwrap_err(), "invalid tunnel TOML");
    assert_eq!(worker_config("x=1", 1, "/t").unwrap_err(), "missing wireguard section");
}

#[test]
fn snapshots_are_written_on_change_only() {
    let mut s = Snapshots::new();
    let mut feed = Feed { lines: Default::default(), status: Status::Idle };
    assert!(s.collect(&mut feed, false));
    s.published(feed.status, false);
    assert!(!s.collect(&mut feed, false));
    feed.lines.push_back("é".repeat(2000));
    assert!(s.collect(&mut feed, false));
    assert!(feed.lines.is_empty());
    assert_eq!(s.lines[0].chars().count(), 1024);
    s.published(feed.status, false);
    assert!(s.collect(&mut feed, true));
    for _ in 0..200 {
        feed.lines.push_back("x".to_string());
    }
    assert!(s.collect(&mut feed, true));
    assert_eq!((s.lines.len(), s.sequence), (128, 201));
    assert_eq!(status_text(Status::Reconnecting), "Reconnecting");
}

#[test]
fn snapshots_are_json() {
    let mut s = Snapshots::new();
    let mut feed = Feed { lines: Default::default(), status: Status::Connected };
    feed.lines.push_back("a \"quoted\"\nline".to_string());
    feed.lines.push_back("b".to_string());
    let text = s.publish(&mut feed, false).unwrap();
    assert_eq!(
        text,
        r#"{"finished":false,"lines":["a \"quoted\"\nline","b"],"sequence":2,"status":"Connected"}"#
    );
    s.published(feed.status, false);
    assert!(s.publish(&mut feed, false).is_none());
    let last = s.publish(&mut feed, true).unwrap();
    let value: serde_json::Value = serde_json::from_str(&last).unwrap();
    assert_eq!(value["finished"], true);
    assert_eq!(value["lines"][1], "b");
    assert_eq!(
        Snapshots::new().text(Status::Idle, true),
        r#"{"finished":true,"lines":[],"sequence":0,"status":"Idle"}"#
    );
}

#[test]
fn the_command_of_a_service_is_read_from_json() {
    let out = r#""\"C:\\wg.exe\" /tunnelservice C:\\x.conf""#;
    assert_eq!(read_command(out).unwrap(), r#""C:\wg.exe" /tunnelservice C:\x.conf"#);
    assert_eq!(
        read_command("5").unwrap_err().message,
        "已有 WireGuard 服务信息不可用，请稍后重试: invalid type: integer `5`, expected a string at line 1 column 1"
    );
    assert!(read_command("").unwrap_err().message.starts_with(
        "已有 WireGuard 服务信息不可用，请稍后重试: EOF while parsing"
    ));
    assert!(read_command("null").is_err());
    assert!(read_command("\"a\" x").is_err());
}

#[test]
fn tunnels_end_with_their_window_or_on_request() {
    assert_eq!(should_stop(false, false, Owner::Alive), None);
    assert_eq!(should_stop(true, false, Owner::Alive), Some(StopReason::Terminated));
    assert_eq!(should_stop(false, true, Owner::Alive), Some(StopReason::Requested));
    assert_eq!(should_stop(false, false, Owner::Gone), Some(StopReason::OwnerGone));
    assert_eq!(should_stop(false, false, Owner::Unknown), Some(StopReason::LockFailed));
    assert_ne!(StopReason::OwnerGone.message(), StopReason::LockFailed.message());
}

#[test]
fn second_routes_to_a_server_are_not_added() {
    // The host routes of a system, each as the command that took it in wrote it.
    fn answer(c: &CommandLine, table: &mut Vec<String>) -> String {
        let a = c.arguments.join(" ");
        if let Some(route) = a.strip_prefix("-4 route add ") {
            table.push(route.to_string());
        } else if let Some(route) = a.strip_prefix("-4 route del ") {
            table.retain(|r| r != route);
        } else if let Some(prefix) = a.strip_prefix("-j -4 route show exact ") {
            let found = table.iter().any(|r| r.starts_with(prefix));
            return if found { "[{}]".to_string() } else { "[]".to_string() };
        } else {
            return "[{\"dev\":\"eth0\",\"gateway\":\"10.0.0.1\"}]".to_string();
        }
        String::new()
    }
    fn install(ip: Ipv4Addr, table: &mut Vec<String>) -> Option<Route> {
        let (mut plan, mut step) = RoutePlan::begin(Platform::Linux, ip);
        loop {
            step = match step {
                RouteStep::Done(route) => return route,
                RouteStep::Run(c) => plan.next(&answer(&c, table)).unwrap(),
            };
        }
    }
    let before = vec!["198.51.100.7/32 dev eth1".to_string()];
    let mut table = before.clone();
    let ip = Ipv4Addr::new(192, 0, 2, 1);
    assert!(install(Ipv4Addr::localhost(), &mut table).is_none());
    let route = install(ip, &mut table).unwrap();
    assert_eq!(table, ["198.51.100.7/32 dev eth1", "192.0.2.1/32 via 10.0.0.1 dev eth0"]);
    assert!(install(ip, &mut table).is_none());
    assert_eq!(table.len(), 2);
    answer(&route.remove(Platform::Linux), &mut table);
    assert_eq!(table, before);
}
