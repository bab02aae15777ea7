//! What the installation of a route does to the host routes of a system.
//!
//! A table holds the host routes of a system, each as the commands of the system write it: the
//! arguments behind the verb, or the part of the script that names the route.
use crate::net::{ipv4, ipv4_text, Ipv4Addr};
use crate::outside::{json_document, json_list};
use crate::pieces::lines;
use crate::system::{
    first_step, has_flag, host_prefix, json_field, json_number, line_field, linux_existing,
    linux_lookup, macos_gateway, macos_lookup, next_step, removal, shell, windows_existing,
    windows_lookup, windows_route, CommandLineView, Platform, RouteStageView, RouteStepView,
};
use vstd::prelude::*;

verus! {

/// The host routes of a system.
pub type Table = Set<Seq<Seq<char>>>;

/// The script that adds a route of a name.
pub open spec fn adding_script(route: Seq<char>) -> Seq<char> {
    "New-"@ + route + "' -RouteMetric 1 -PolicyStore ActiveStore | Out-Null"@
}

/// The script that takes away a route of a name.
pub open spec fn taking_script(route: Seq<char>) -> Seq<char> {
    "Get-"@ + route + "' -PolicyStore ActiveStore | Remove-NetRoute -Confirm:$false"@
}

/// The route that arguments with a head name behind it.
pub open spec fn behind(c: CommandLineView, program: Seq<char>, head: Seq<Seq<char>>) -> Option<
    Seq<Seq<char>>,
> {
    if c.program == program && c.arguments.len() > head.len() && c.arguments.take(head.len() as int)
        == head {
        Some(c.arguments.skip(head.len() as int))
    } else {
        None
    }
}

/// The route that a command adds, where it adds one.
pub open spec fn added_by(platform: Platform, c: CommandLineView) -> Option<Seq<Seq<char>>> {
    match platform {
        Platform::Linux => behind(c, "ip"@, seq!["-4"@, "route"@, "add"@]),
        Platform::Macos => behind(c, "/sbin/route"@, seq!["-n"@, "add"@, "-host"@]),
        Platform::Windows => if exists|d: Seq<char>| c == shell(#[trigger] adding_script(d)) {
            Some(seq![choose|d: Seq<char>| c == shell(#[trigger] adding_script(d))])
        } else {
            None
        },
    }
}

/// The route that a command takes away, where it takes one away.
pub open spec fn taken_by(platform: Platform, c: CommandLineView) -> Option<Seq<Seq<char>>> {
    match platform {
        Platform::Linux => behind(c, "ip"@, seq!["-4"@, "route"@, "del"@]),
        Platform::Macos => behind(c, "/sbin/route"@, seq!["-n"@, "delete"@, "-host"@]),
        Platform::Windows => if exists|d: Seq<char>| c == shell(#[trigger] taking_script(d)) {
            Some(seq![choose|d: Seq<char>| c == shell(#[trigger] taking_script(d))])
        } else {
            None
        },
    }
}

/// The table after a command that succeeded.
pub open spec fn applied(platform: Platform, table: Table, c: CommandLineView) -> Table {
    match (added_by(platform, c), taken_by(platform, c)) {
        (Some(route), _) => table.insert(route),
        (None, Some(route)) => table.remove(route),
        (None, None) => table,
    }
}

/// How the name of a host route on Windows begins.
pub open spec fn windows_head(ip: Ipv4Addr) -> Seq<char> {
    "NetRoute -DestinationPrefix '"@ + ipv4_text(ip) + "/32'"@
}

/// Whether a route is one to an address alone.
pub open spec fn leads_to(platform: Platform, route: Seq<Seq<char>>, ip: Ipv4Addr) -> bool {
    route.len() > 0 && match platform {
        Platform::Linux => route[0] == host_prefix(ip),
        Platform::Macos => route[0] == ipv4_text(ip),
        Platform::Windows => windows_head(ip).is_prefix_of(route[0]),
    }
}

/// Whether a table has a host route to an address.
pub open spec fn has_host(platform: Platform, table: Table, ip: Ipv4Addr) -> bool {
    exists|route: Seq<Seq<char>>| #[trigger]
        table.contains(route) && leads_to(platform, route, ip)
}

/// Whether what the first question printed is true of a table: it tells of a host route exactly
/// where there is one.
pub open spec fn truthful(platform: Platform, table: Table, ip: Ipv4Addr, out: Seq<char>) -> bool {
    match platform {
        Platform::Linux => json_list(out) matches Ok(l) && (l.len() > 0 <==> has_host(
            platform,
            table,
            ip,
        )),
        Platform::Windows => out == "exists"@ <==> has_host(platform, table, ip),
        Platform::Macos => (line_field(lines(out), "destination"@) == Some(ipv4_text(ip)) && (
        line_field(lines(out), "flags"@) matches Some(v) && has_flag(v, "HOST"@))) <==> has_host(
            platform,
            table,
            ip,
        ),
    }
}

/// The host route to an address through the gateway or interface that an answer tells of.
pub open spec fn told_route(platform: Platform, ip: Ipv4Addr, out: Seq<char>) -> Option<
    Seq<Seq<char>>,
> {
    match platform {
        Platform::Linux => match json_list(out) {
            Ok(l) if l.len() > 0 => match (json_field(l[0], "gateway"@), json_field(l[0], "dev"@)) {
                (Some(g), Some(dev)) => Some(seq![host_prefix(ip), "via"@, g, "dev"@, dev]),
                (None, Some(dev)) => Some(seq![host_prefix(ip), "dev"@, dev]),
                (_, None) => None,
            },
            _ => None,
        },
        Platform::Macos => match (
            macos_gateway(lines(out)),
            line_field(lines(out), "interface"@),
        ) {
            (Some(g), _) => Some(seq![ipv4_text(ip), "-gateway"@, ipv4_text(g)]),
            (None, Some(i)) => Some(seq![ipv4_text(ip), "-interface"@, i]),
            (None, None) => None,
        },
        Platform::Windows => match json_document(out) {
            Ok(v) => match (json_number(v, "InterfaceIndex"@), json_field(v, "NextHop"@)) {
                (Some(index), Some(text)) => match ipv4(text) {
                    Some(hop) => Some(seq![windows_route(ip, index, hop)]),
                    None => None,
                },
                _ => None,
            },
            Err(_) => None,
        },
    }
}

/// What an installation came to.
#[verifier::ext_equal]
pub struct Installed {
    pub table: Table,
    /// The commands that ran.
    pub commands: Seq<CommandLineView>,
    /// What takes the added route away; none where none was added. An installation that failed
    /// has no result.
    pub result: Option<Option<Seq<Seq<char>>>>,
}

/// What an installation comes to from a step on, given what the commands print one after the
/// other; where the answers end, a command fails and changes nothing.
pub open spec fn carried_out(
    platform: Platform,
    ip: Ipv4Addr,
    stage: RouteStageView,
    step: RouteStepView,
    before: Installed,
    answers: Seq<Seq<char>>,
) -> Installed
    decreases answers.len(),
{
    match step {
        RouteStepView::Done(route) => Installed { result: Some(route), ..before },
        RouteStepView::Run(c) => if answers.len() == 0 {
            Installed { result: None, ..before }
        } else {
            let after = Installed {
                table: applied(platform, before.table, c),
                commands: before.commands.push(c),
                result: None,
            };
            match next_step(platform, ip, stage, answers[0]) {
                Err(_) => after,
                Ok((next, then_step)) => carried_out(
                    platform,
                    ip,
                    next,
                    then_step,
                    after,
                    answers.skip(1),
                ),
            }
        },
    }
}

/// What the installation of a route to an address comes to.
pub open spec fn install(
    platform: Platform,
    ip: Ipv4Addr,
    table: Table,
    answers: Seq<Seq<char>>,
) -> Installed {
    carried_out(
        platform,
        ip,
        RouteStageView::Existing,
        first_step(platform, ip),
        Installed { table, commands: seq![], result: None },
        answers,
    )
}

/// A script is all that tells one command of the Windows shell from another.
proof fn scripts_are_told(a: Seq<char>, b: Seq<char>)
    requires
        shell(a) == shell(b),
    ensures
        a == b,
{
    let head = "$ErrorActionPreference='Stop'; "@;
    assert(shell(a).arguments[4] == head + a && shell(b).arguments[4] == head + b);
    assert((head + a).skip(head.len() as int) =~= a);
    assert((head + b).skip(head.len() as int) =~= b);
}

/// A text between two others is told by the whole.
proof fn middles_are_told(head: Seq<char>, a: Seq<char>, b: Seq<char>, tail: Seq<char>)
    requires
        head + a + tail == head + b + tail,
    ensures
        a == b,
{
    assert((head + a + tail).len() == head.len() + a.len() + tail.len());
    assert((head + b + tail).len() == head.len() + b.len() + tail.len());
    assert((head + a + tail).subrange(head.len() as int, (head.len() + a.len()) as int) =~= a);
    assert((head + b + tail).subrange(head.len() as int, (head.len() + b.len()) as int) =~= b);
}

/// The command that adds a route.
pub open spec fn addition(platform: Platform, route: Seq<Seq<char>>) -> CommandLineView {
    match platform {
        Platform::Linux => CommandLineView {
            program: "ip"@,
            arguments: seq!["-4"@, "route"@, "add"@] + route,
        },
        Platform::Macos => CommandLineView {
            program: "/sbin/route"@,
            arguments: seq!["-n"@, "add"@, "-host"@] + route,
        },
        Platform::Windows => shell(adding_script(route[0])),
    }
}

/// What takes a route away.
pub open spec fn deletion(platform: Platform, route: Seq<Seq<char>>) -> Seq<Seq<char>> {
    match platform {
        Platform::Linux => seq!["-4"@, "route"@, "del"@] + route,
        Platform::Macos => seq!["-n"@, "delete"@, "-host"@] + route,
        Platform::Windows => seq![taking_script(route[0])],
    }
}

/// The command that adds a route adds this one, and the one that takes it away takes this one.
proof fn changes_are_told(platform: Platform, route: Seq<Seq<char>>)
    requires
        route.len() > 0,
        platform == Platform::Windows ==> route.len() == 1,
    ensures
        added_by(platform, addition(platform, route)) == Some(route),
        added_by(platform, removal(platform, deletion(platform, route))) is None,
        taken_by(platform, removal(platform, deletion(platform, route))) == Some(route),
{
    match platform {
        Platform::Linux => {
            let add = seq!["-4"@, "route"@, "add"@];
            let del = seq!["-4"@, "route"@, "del"@];
            assert((add + route).take(3) =~= add && (add + route).skip(3) =~= route);
            assert((del + route).take(3) =~= del && (del + route).skip(3) =~= route);
            reveal_strlit("add");
            reveal_strlit("del");
            assert("add"@[0] != "del"@[0]);
            assert(add[2] != del[2]);
        },
        Platform::Macos => {
            let add = seq!["-n"@, "add"@, "-host"@];
            let del = seq!["-n"@, "delete"@, "-host"@];
            assert((add + route).take(3) =~= add && (add + route).skip(3) =~= route);
            assert((del + route).take(3) =~= del && (del + route).skip(3) =~= route);
            reveal_strlit("add");
            reveal_strlit("delete");
            assert("add"@.len() != "delete"@.len());
            assert(add[1] != del[1]);
        },
        Platform::Windows => {
            let c = shell(adding_script(route[0]));
            let d = shell(taking_script(route[0]));
            assert forall|x: Seq<char>| c == shell(#[trigger] adding_script(x)) implies x
                == route[0] by {
                scripts_are_told(adding_script(x), adding_script(route[0]));
                middles_are_told(
                    "New-"@,
                    x,
                    route[0],
                    "' -RouteMetric 1 -PolicyStore ActiveStore | Out-Null"@,
                );
            }
            assert forall|x: Seq<char>| d == shell(#[trigger] taking_script(x)) implies x
                == route[0] by {
                scripts_are_told(taking_script(x), taking_script(route[0]));
                middles_are_told(
                    "Get-"@,
                    x,
                    route[0],
                    "' -PolicyStore ActiveStore | Remove-NetRoute -Confirm:$false"@,
                );
            }
            assert forall|x: Seq<char>| d != shell(#[trigger] adding_script(x)) by {
                reveal_strlit("New-");
                reveal_strlit("Get-");
                assert(adding_script(x)[0] == 'N' && taking_script(route[0])[0] == 'G');
                if d == shell(adding_script(x)) {
                    scripts_are_told(adding_script(x), taking_script(route[0]));
                }
            }
            assert(seq![route[0]] =~= route);
        },
    }
}

/// A script that begins as no change does changes nothing.
proof fn other_scripts_change_nothing(script: Seq<char>, table: Table)
    requires
        script.len() > 0,
        script[0] != 'N',
        script[0] != 'G',
    ensures
        applied(Platform::Windows, table, shell(script)) == table,
{
    reveal_strlit("New-");
    reveal_strlit("Get-");
    assert forall|x: Seq<char>| shell(script) != shell(#[trigger] adding_script(x)) by {
        assert(adding_script(x)[0] == 'N');
        if shell(script) == shell(adding_script(x)) {
            scripts_are_told(script, adding_script(x));
        }
    }
    assert forall|x: Seq<char>| shell(script) != shell(#[trigger] taking_script(x)) by {
        assert(taking_script(x)[0] == 'G');
        if shell(script) == shell(taking_script(x)) {
            scripts_are_told(script, taking_script(x));
        }
    }
}

/// The questions change nothing.
proof fn questions_change_nothing(ip: Ipv4Addr, table: Table)
    ensures
        applied(Platform::Linux, table, linux_existing(ip)) == table,
        applied(Platform::Linux, table, linux_lookup(ip)) == table,
        applied(Platform::Macos, table, macos_lookup(ip)) == table,
        applied(Platform::Windows, table, windows_existing(ip)) == table,
        applied(Platform::Windows, table, windows_lookup(ip)) == table,
{
    reveal_strlit("-4");
    reveal_strlit("-j");
    reveal_strlit("add");
    reveal_strlit("delete");
    reveal_strlit("get");
    assert("-4"@[1] != "-j"@[1]);
    assert("get"@[0] != "add"@[0]);
    assert("get"@.len() != "delete"@.len());
    assert(linux_existing(ip).arguments.take(3)[0] == "-j"@);
    assert(linux_lookup(ip).arguments.take(3)[0] == "-j"@);
    assert(seq!["-4"@, "route"@, "add"@][0] == "-4"@);
    assert(seq!["-4"@, "route"@, "del"@][0] == "-4"@);
    assert(macos_lookup(ip).arguments.take(3)[1] == "get"@);
    assert(seq!["-n"@, "add"@, "-host"@][1] == "add"@);
    assert(seq!["-n"@, "delete"@, "-host"@][1] == "delete"@);
    reveal_strlit(
        "$r = Get-NetRoute -AddressFamily IPv4 -PolicyStore ActiveStore | Where-Object { $_.DestinationPrefix -eq '",
    );
    reveal_strlit("Find-NetRoute -RemoteIPAddress '");
    other_scripts_change_nothing(
        "$r = Get-NetRoute -AddressFamily IPv4 -PolicyStore ActiveStore | Where-Object { $_.DestinationPrefix -eq '"@
            + ipv4_text(ip) + "/32' }; if ($r) { 'exists' }"@,
        table,
    );
    other_scripts_change_nothing(
        "Find-NetRoute -RemoteIPAddress '"@ + ipv4_text(ip)
            + "' | Where-Object { $null -ne $_.NextHop } | Select-Object -First 1 InterfaceIndex,NextHop | ConvertTo-Json -Compress"@,
        table,
    );
}

/// The route that an answer tells of leads to the address.
proof fn told_routes_lead_to_the_address(platform: Platform, ip: Ipv4Addr, out: Seq<char>)
    ensures
        told_route(platform, ip, out) matches Some(route) ==> leads_to(platform, route, ip) && (
        platform == Platform::Windows ==> route.len() == 1),
{
    if platform == Platform::Windows {
        if let Some(route) = told_route(platform, ip, out) {
            let v = json_document(out)->Ok_0;
            let index = json_number(v, "InterfaceIndex"@)->0;
            let hop = ipv4(json_field(v, "NextHop"@)->0)->0;
            assert(route == seq![windows_route(ip, index, hop)]);
            reveal_strlit("/32'");
            reveal_strlit("/32' -InterfaceIndex ");
            let head = windows_head(ip);
            let whole = windows_route(ip, index, hop);
            let text = "NetRoute -DestinationPrefix '"@ + ipv4_text(ip);
            assert forall|i: int| 0 <= i < head.len() implies head[i] == whole[i] by {
                if i >= text.len() {
                    assert("/32'"@[i - text.len()] == "/32' -InterfaceIndex "@[i - text.len()]);
                }
            }
            assert(head =~= whole.subrange(0, head.len() as int));
        }
    }
}

/// What follows a lookup: the route that its answer tells of is added, or nothing is done.
proof fn lookups_lead_to_the_told_route(
    platform: Platform,
    ip: Ipv4Addr,
    stage: RouteStageView,
    out: Seq<char>,
)
    requires
        platform == Platform::Macos || stage == RouteStageView::Lookup,
        !(stage is Adding),
    ensures
        match next_step(platform, ip, stage, out) {
            Err(_) => told_route(platform, ip, out) is None,
            Ok((next, RouteStepView::Done(route))) => platform == Platform::Macos && route is None,
            Ok((next, RouteStepView::Run(c))) => told_route(platform, ip, out) matches Some(route)
                && c == addition(platform, route) && next == RouteStageView::Adding(
                deletion(platform, route),
            ),
        },
{
    if let Ok((next, RouteStepView::Run(c))) = next_step(platform, ip, stage, out) {
        let route = told_route(platform, ip, out)->0;
        match platform {
            Platform::Linux => {
                assert(c.arguments =~= addition(platform, route).arguments);
                assert(next->Adding_0 =~= deletion(platform, route));
            },
            Platform::Macos => {
                assert(c.arguments =~= addition(platform, route).arguments);
                assert(next->Adding_0 =~= deletion(platform, route));
            },
            Platform::Windows => {
                assert(next->Adding_0 =~= deletion(platform, route));
            },
        }
    }
}

/// The place of the answer that tells the way to the server: on macOS the only question asks both
/// for a host route and for the way.
pub open spec fn lookup_place(platform: Platform) -> int {
    if platform == Platform::Macos {
        0
    } else {
        1
    }
}

/// What an installation from a table with true answers came to.
pub open spec fn as_promised(
    platform: Platform,
    ip: Ipv4Addr,
    table: Table,
    answers: Seq<Seq<char>>,
    done: Installed,
) -> bool {
    match done.result {
        // Nothing was added: the server is this machine, or there is a host route to it.
        Some(None) => done.table == table && if ip.a == 127 {
            done.commands.len() == 0
        } else {
            has_host(platform, table, ip)
        },
        // One host route was added, through what the system said of its way to the server.
        Some(Some(delete)) => {
            &&& ip.a != 127 && !has_host(platform, table, ip)
            &&& done.commands.len() == lookup_place(platform) + 2
            &&& told_route(platform, ip, answers[lookup_place(platform)]) matches Some(route) && {
                &&& leads_to(platform, route, ip)
                &&& !table.contains(route)
                &&& done.table == table.insert(route)
                &&& applied(platform, done.table, removal(platform, delete)) == table
            }
        },
        // It failed, and nothing was changed.
        None => done.table == table,
    }
}

/// The installation of a route to a server adds at most one host route, and only where there was
/// none and the server is not this machine; taking the added route away gives the table back.
/// Whatever fails, fails before the table is changed; where the system tells its way to the
/// server and adds the route, nothing fails.
pub proof fn installing_adds_at_most_one_host_route(
    platform: Platform,
    ip: Ipv4Addr,
    table: Table,
    answers: Seq<Seq<char>>,
)
    requires
        answers.len() > 0 ==> truthful(platform, table, ip, answers[0]),
    ensures
        as_promised(platform, ip, table, answers, install(platform, ip, table, answers)),
        ip.a != 127 && !has_host(platform, table, ip) && answers.len() >= lookup_place(platform) + 2
            && told_route(platform, ip, answers[lookup_place(platform)]) is Some ==> install(
            platform,
            ip,
            table,
            answers,
        ).result matches Some(Some(_)),
{
    reveal_with_fuel(carried_out, 5);
    questions_change_nothing(ip, table);
    if ip.a != 127 && answers.len() > 0 {
        let at = lookup_place(platform);
        let stage = if platform == Platform::Macos {
            RouteStageView::Existing
        } else {
            RouteStageView::Lookup
        };
        if at < answers.len() {
            let out = answers[at];
            lookups_lead_to_the_told_route(platform, ip, stage, out);
            told_routes_lead_to_the_address(platform, ip, out);
            if let Some(route) = told_route(platform, ip, out) {
                changes_are_told(platform, route);
                if !has_host(platform, table, ip) {
                    assert(!table.contains(route));
                    assert(table.insert(route).remove(route) =~= table);
                }
            }
        }
    }
}

/// Where there is a host route to a server, an installation asks once and changes nothing; for
/// this machine not even a question is asked.
pub proof fn nothing_is_added_twice(
    platform: Platform,
    ip: Ipv4Addr,
    table: Table,
    answers: Seq<Seq<char>>,
)
    requires
        answers.len() > 0,
        truthful(platform, table, ip, answers[0]),
    ensures
        ip.a == 127 ==> install(platform, ip, table, answers) == (Installed {
            table,
            commands: seq![],
            result: Some(None),
        }),
        ip.a != 127 && has_host(platform, table, ip) ==> install(platform, ip, table, answers).result
            == Some(None::<Seq<Seq<char>>>) && install(platform, ip, table, answers).table == table
            && install(platform, ip, table, answers).commands.len() == 1,
{
    reveal_with_fuel(carried_out, 3);
    questions_change_nothing(ip, table);
}

/// After an installation that added a route, a second one for the same server adds none and
/// leaves the table as it is.
pub proof fn second_installations_add_nothing(
    platform: Platform,
    ip: Ipv4Addr,
    table: Table,
    answers: Seq<Seq<char>>,
    again: Seq<Seq<char>>,
)
    requires
        answers.len() > 0 ==> truthful(platform, table, ip, answers[0]),
        install(platform, ip, table, answers).result matches Some(Some(_)),
        again.len() > 0,
        truthful(platform, install(platform, ip, table, answers).table, ip, again[0]),
    ensures
        install(platform, ip, install(platform, ip, table, answers).table, again).result == Some(
            None::<Seq<Seq<char>>>,
        ),
        install(platform, ip, install(platform, ip, table, answers).table, again).table == install(
            platform,
            ip,
            table,
            answers,
        ).table,
{
    let done = install(platform, ip, table, answers);
    installing_adds_at_most_one_host_route(platform, ip, table, answers);
    let route = told_route(platform, ip, answers[lookup_place(platform)])->0;
    assert(done.table.contains(route));
    assert(has_host(platform, done.table, ip));
    nothing_is_added_twice(platform, ip, done.table, again);
}

} // verus!
