//! The elevated worker on macOS: the tools it uses, the input it accepts, what it publishes and
//! when it stops. The window remains unprivileged.
use crate::config::{name_char, name_ok};
use crate::logging::{Feed, FeedView, Status};
use crate::numbers::{decimal, push_decimal};
use crate::outside::{
    document_of, edit, edited, join_path, json_string, parse_toml, path_join, print_plain_toml,
    put_inner_text, quote_json, settled, toml_at, toml_document, toml_keys, toml_plain, toml_tree,
    unmixed, TomlView,
};
use crate::pieces::{join, join_texts, texts};
use crate::text::{chars_of, text_of, text_view};
use crate::transport::{count, counted};
use std::collections::VecDeque;
use vstd::prelude::*;
use vstd::slice::slice_subrange;

verus! {

/// The largest input of a session: 512 KiB.
pub const MAX_INPUT: u64 = 524_288;

/// The largest number of lines that are published.
pub const MAX_LINES: usize = 128;

/// The largest number of characters of a line that is published.
pub const MAX_LINE: usize = 1024;

// ---------------------------------------------------------------- tools

/// The directory in which the tools are kept in an application, and how an application is told
/// from its path.
pub open spec fn bundle_mark() -> Seq<char> {
    ".app/Contents/"@
}

/// Where a text stands first in another; the length of the other where it does not.
pub open spec fn place_of(s: Seq<char>, part: Seq<char>) -> int
    decreases s.len(),
{
    if s.len() < part.len() || s.len() == 0 {
        s.len() as int
    } else if s.take(part.len() as int) == part {
        0
    } else {
        1 + place_of(s.skip(1), part)
    }
}

/// The directory of the tools of the application that a program lies in.
pub open spec fn bundle_of(executable: Seq<char>) -> Option<Seq<char>> {
    let i = place_of(executable, bundle_mark());
    if 0 <= i < executable.len() {
        Some(executable.take(i) + bundle_mark() + "Resources/wireguard"@)
    } else {
        None
    }
}

proof fn lemma_place_of(s: Seq<char>, part: Seq<char>)
    ensures
        0 <= place_of(s, part) <= s.len(),
    decreases s.len(),
{
    if !(s.len() < part.len() || s.len() == 0) && s.take(part.len() as int) != part {
        lemma_place_of(s.skip(1), part);
    }
}

/// The directory of the tools of the application that a program lies in; none where it lies in no
/// application.
pub fn bundle_root(executable: &str) -> (r: Option<String>)
    ensures
        text_view(r) == bundle_of(executable@),
{
    let chars = chars_of(executable);
    let mark = chars_of(".app/Contents/");
    let ghost e = executable@;
    proof {
        reveal_strlit(".app/Contents/");
        assert(e.skip(0) =~= e);
        lemma_place_of(e, bundle_mark());
    }
    for i in 0..chars.len()
        invariant
            chars@ == e,
            e == executable@,
            mark@ == bundle_mark(),
            mark@.len() == 14,
            place_of(e, bundle_mark()) == i + place_of(e.skip(i as int), bundle_mark()),
            0 <= place_of(e, bundle_mark()) <= e.len(),
    {
        let ghost rest = e.skip(i as int);
        assert(rest.skip(1) =~= e.skip(i + 1));
        if chars.len() - i >= mark.len() {
            let piece = slice_subrange(&chars, i, i + mark.len());
            assert(piece@ =~= rest.take(14));
            if crate::text::same_chars(piece, &mark) {
                let mut out = text_of(slice_subrange(&chars, 0, i));
                assert(out@ =~= e.take(i as int));
                out.append(".app/Contents/");
                out.append("Resources/wireguard");
                assert(out@ =~= bundle_of(e)->0);
                return Some(out);
            }
        } else {
            assert(place_of(rest, bundle_mark()) == rest.len());
            return None;
        }
    }
    assert(e.skip(e.len() as int).len() == 0);
    None
}

/// A directory in which tools are looked for, and which of them it holds.
#[derive(Debug)]
pub struct Candidate {
    pub root: String,
    pub bash: bool,
    pub wg_quick: bool,
    pub wg: bool,
    pub wireguard_go: bool,
}

impl Candidate {
    /// Whether the directory holds every tool.
    pub open spec fn complete(&self) -> bool {
        self.bash && self.wg_quick && self.wg && self.wireguard_go
    }
}

/// The directories in which tools are looked for: that of the application, and the usual ones only
/// outside an application. An application that lacks a tool does not use another's.
pub open spec fn tool_roots(bundle: Option<Seq<char>>) -> Seq<Seq<char>> {
    match bundle {
        Some(root) => seq![root],
        None => seq!["/opt/homebrew/bin"@, "/usr/local/bin"@],
    }
}

pub fn candidate_roots(executable: &str) -> (r: Vec<String>)
    ensures
        texts(r@) == tool_roots(bundle_of(executable@)),
{
    let mut out: Vec<String> = Vec::new();
    match bundle_root(executable) {
        Some(root) => {
            out.push(root);
        },
        None => {
            out.push("/opt/homebrew/bin".to_owned());
            out.push("/usr/local/bin".to_owned());
        },
    }
    assert(texts(out@) =~= tool_roots(bundle_of(executable@)));
    out
}

/// The first directory that holds every tool.
pub open spec fn first_complete(all: Seq<Candidate>) -> Option<Seq<char>>
    decreases all.len(),
{
    if all.len() == 0 {
        None
    } else if all[0].complete() {
        Some(all[0].root@)
    } else {
        first_complete(all.skip(1))
    }
}

/// The first directory that holds every tool.
pub fn dependency_root(all: &Vec<Candidate>) -> (r: Option<String>)
    ensures
        text_view(r) == first_complete(all@),
{
    assert(all@.skip(0) =~= all@);
    for i in 0..all.len()
        invariant
            first_complete(all@) == first_complete(all@.skip(i as int)),
    {
        assert(all@.skip(i as int)[0] == all@[i as int]);
        assert(all@.skip(i as int).skip(1) =~= all@.skip(i + 1));
        let c = &all[i];
        if c.bash && c.wg_quick && c.wg && c.wireguard_go {
            return Some(c.root.clone());
        }
    }
    assert(all@.skip(all@.len() as int) =~= Seq::empty());
    None
}

/// The first directory that holds the program that manages WireGuard.
pub open spec fn first_quick(all: Seq<Candidate>) -> Option<Seq<char>>
    decreases all.len(),
{
    if all.len() == 0 {
        None
    } else if all[0].wg_quick {
        Some(all[0].root@)
    } else {
        first_quick(all.skip(1))
    }
}

/// The directory of the program that manages WireGuard where a configuration names none: that of
/// the application, and outside an application the first that holds it.
pub fn executable_root(executable: &str, all: &Vec<Candidate>) -> (r: Option<String>)
    ensures
        text_view(r) == match bundle_of(executable@) {
            Some(root) => Some(root),
            None => first_quick(all@),
        },
{
    if let Some(root) = bundle_root(executable) {
        return Some(root);
    }
    assert(all@.skip(0) =~= all@);
    for i in 0..all.len()
        invariant
            first_quick(all@) == first_quick(all@.skip(i as int)),
            bundle_of(executable@) is None,
    {
        assert(all@.skip(i as int)[0] == all@[i as int]);
        assert(all@.skip(i as int).skip(1) =~= all@.skip(i + 1));
        if all[i].wg_quick {
            return Some(all[i].root.clone());
        }
    }
    assert(all@.skip(all@.len() as int) =~= Seq::empty());
    None
}

/// Whether every tool is there.
pub fn dependencies_ready(all: &Vec<Candidate>) -> (r: bool)
    ensures
        r == (first_complete(all@) is Some),
{
    dependency_root(all).is_some()
}

/// What is told where a tool is missing, in an application and outside of one.
pub fn missing_tools(bundled: bool) -> (r: &'static str)
    ensures
        r@ == if bundled {
            "xxtab.app 内置的 WireGuard 组件不完整，请重新安装"@
        } else {
            "Install dependencies first: brew install bash wireguard-tools wireguard-go"@
        },
{
    if bundled {
        "xxtab.app 内置的 WireGuard 组件不完整，请重新安装"
    } else {
        "Install dependencies first: brew install bash wireguard-tools wireguard-go"
    }
}

// ---------------------------------------------------------------- input

/// Whether a worker may run: with the rights of the administrator, for a user without them.
pub fn may_serve(effective: u32, uid: u32) -> (r: Result<(), &'static str>)
    ensures
        match r {
            Ok(()) => effective == 0 && uid > 0,
            Err(words) => !(effective == 0 && uid > 0) && words@
                == "session requires administrator authorization and a non-root owner"@,
        },
{
    if effective == 0 && uid > 0 {
        Ok(())
    } else {
        Err("session requires administrator authorization and a non-root owner")
    }
}

/// Whether permissions leave nothing to others: their last six bits are zero.
pub open spec fn private_mode(mode: u32) -> bool {
    mode % 64 == 0
}

/// Whether a directory is private to its user.
pub fn check_directory(owner: u32, mode: u32, uid: u32) -> (r: Result<(), &'static str>)
    ensures
        match r {
            Ok(()) => owner == uid && private_mode(mode),
            Err(words) => !(owner == uid && private_mode(mode)) && words@
                == "session directory must be private and owned by requesting user"@,
        },
{
    if owner == uid && mode % 64 == 0 {
        Ok(())
    } else {
        Err("session directory must be private and owned by requesting user")
    }
}

/// What is known of a file before it is read.
#[derive(Clone, Copy, PartialEq, Eq, Structural, Debug)]
pub struct Metadata {
    pub regular: bool,
    pub owner: u32,
    pub links: u64,
    pub mode: u32,
    pub len: u64,
}

/// Whether a file may be read as input: an ordinary file of the user with no other name, private
/// and not too long.
pub open spec fn input_ok(m: Metadata, uid: u32) -> bool {
    m.regular && m.owner == uid && m.links == 1 && private_mode(m.mode) && m.len <= MAX_INPUT
}

pub fn check_input(m: Metadata, uid: u32) -> (r: Result<(), &'static str>)
    ensures
        match r {
            Ok(()) => input_ok(m, uid),
            Err(words) => !input_ok(m, uid) && words@ == "invalid session input"@,
        },
{
    if m.regular && m.owner == uid && m.links == 1 && m.mode % 64 == 0 && m.len <= MAX_INPUT {
        Ok(())
    } else {
        Err("invalid session input")
    }
}

/// Whether what was read of a file is all of it.
pub fn check_length(len: usize) -> (r: Result<(), &'static str>)
    ensures
        match r {
            Ok(()) => len <= MAX_INPUT,
            Err(words) => len > MAX_INPUT && words@ == "session input too large"@,
        },
{
    if len as u64 <= MAX_INPUT {
        Ok(())
    } else {
        Err("session input too large")
    }
}

/// The low six bits are the permissions of others.
pub proof fn private_mode_is_a_mask(mode: u32)
    ensures
        private_mode(mode) <==> mode & 0o077 == 0,
{
    assert(mode % 64 == 0 <==> mode & 0o077 == 0) by (bit_vector);
}

// ---------------------------------------------------------------- configuration

/// The name of the interface of a user.
pub open spec fn interface_name(uid: u32) -> Seq<char> {
    "xxm"@ + decimal(uid as nat)
}

/// The configuration that a worker runs for a user: the user's own, with the managed files, the
/// interface of the user, and the given tools whatever the user asks for.
pub open spec fn worker_tree(document: Option<TomlView>, uid: u32, tools: Seq<char>) -> Result<
    TomlView,
    Seq<char>,
> {
    match document {
        None => Err("invalid tunnel TOML"@),
        Some(TomlView::Table(m)) => if m.dom().contains("wireguard"@) && m["wireguard"@] is Table {
            let own = m["wireguard"@]->Table_0.insert("config"@, TomlView::Text("wg.conf"@)).insert(
                "name"@,
                TomlView::Text(interface_name(uid)),
            ).insert("executable"@, TomlView::Text(path_join(tools, "wg-quick"@)));
            Ok(TomlView::Table(m.insert("wireguard"@, TomlView::Table(own))))
        } else {
            Err("missing wireguard section"@)
        },
        Some(_) => Err("missing wireguard section"@),
    }
}

/// Puts a document into the form that a worker runs.
pub fn prepare_document(document: &mut toml::Value, uid: u32, tools: &str) -> (r: Result<
    (),
    &'static str,
>)
    ensures
        match r {
            Ok(()) => worker_tree(Some(toml_tree(*old(document))), uid, tools@) == Ok::<
                _,
                Seq<char>,
            >(toml_tree(*final(document))),
            Err(words) => worker_tree(Some(toml_tree(*old(document))), uid, tools@) == Err::<
                TomlView,
                _,
            >(words@) && *final(document) == *old(document),
        },
{
    let present = match toml_at(document, "wireguard") {
        None => false,
        Some(wg) => toml_keys(wg).is_some(),
    };
    if !present {
        return Err("missing wireguard section");
    }
    let ghost m = toml_tree(*document)->Table_0;
    let mut name = String::new();
    name.append("xxm");
    push_decimal(&mut name, uid as u64);
    assert(name@ =~= interface_name(uid));
    let executable = join_path(tools, "wg-quick");
    put_inner_text(document, "wireguard", "config", "wg.conf".to_owned());
    put_inner_text(document, "wireguard", "name", name);
    put_inner_text(document, "wireguard", "executable", executable);
    assert(toml_tree(*document)->Table_0 =~= worker_tree(
        Some(TomlView::Table(m)),
        uid,
        tools@,
    )->Ok_0->Table_0);
    Ok(())
}

/// The configuration that a worker runs for a user.
pub fn worker_config(tunnel: &str, uid: u32, tools: &str) -> (r: Result<String, String>)
    ensures
        match worker_tree(toml_document(tunnel@), uid, tools@) {
            Err(words) => r matches Err(own) && own@ == words,
            Ok(t) => match toml_plain(t) {
                Ok(text) => r matches Ok(own) && own@ == text,
                Err(words) => r matches Err(own) && own@ == words,
            },
        },
        r matches Ok(own) ==> ({
            let t = worker_tree(toml_document(tunnel@), uid, tools@)->Ok_0;
            settled(t) || unmixed(t) && document_of(own@) is Some ==> toml_document(own@) == Some(t)
                && document_of(own@) == Some(t)
        }),
{
    let mut document = match parse_toml(tunnel) {
        None => return Err("invalid tunnel TOML".to_owned()),
        Some(v) => v,
    };
    match prepare_document(&mut document, uid, tools) {
        Err(words) => Err(words.to_owned()),
        Ok(()) => {
            proof {
                lemma_worker_tree_is_edited(tunnel@, uid, tools@);
            }
            print_plain_toml(&document)
        },
    }
}

/// The configuration of a worker is the user's own with three texts put into it.
proof fn lemma_worker_tree_is_edited(tunnel: Seq<char>, uid: u32, tools: Seq<char>)
    requires
        worker_tree(toml_document(tunnel), uid, tools) is Ok,
    ensures
        exists|edits: nat|
            edited(worker_tree(toml_document(tunnel), uid, tools)->Ok_0, edits),
{
    crate::profiles::lemma_dates_are_no_fields();
    let at = Some("wireguard"@);
    let none = toml_document(tunnel)->0;
    let one = edit(none, at, "config"@, "wg.conf"@)->0;
    let two = edit(one, at, "name"@, interface_name(uid))->0;
    let three = edit(two, at, "executable"@, path_join(tools, "wg-quick"@))->0;
    assert(edited(none, 0));
    assert(edit(none, at, "config"@, "wg.conf"@) == Some(one));
    assert(edited(one, 1));
    assert(edit(one, at, "name"@, interface_name(uid)) == Some(two));
    assert(edited(two, 2));
    assert(edit(two, at, "executable"@, path_join(tools, "wg-quick"@)) == Some(three));
    assert(edited(three, 3));
    assert(three->Table_0 =~= worker_tree(toml_document(tunnel), uid, tools)->Ok_0->Table_0);
}

proof fn lemma_decimal_digits(n: nat)
    ensures
        crate::text::all_digits(decimal(n)),
        decimal(n).len() > 0,
    decreases n,
{
    if n >= 10 {
        lemma_decimal_digits(n / 10);
    }
}

proof fn lemma_decimal_len(n: nat, k: nat)
    requires
        n < vstd::arithmetic::power::pow(10, k),
        k > 0,
    ensures
        decimal(n).len() <= k,
    decreases k,
{
    vstd::arithmetic::power::lemma_pow_positive(10, (k - 1) as nat);
    vstd::arithmetic::power::lemma_pow_adds(10, 1, (k - 1) as nat);
    vstd::arithmetic::power::lemma_pow1(10);
    if n >= 10 {
        if k == 1 {
            assert(vstd::arithmetic::power::pow(10, 1) == 10);
        } else {
            assert(n / 10 < vstd::arithmetic::power::pow(10, (k - 1) as nat)) by (nonlinear_arith)
                requires
                    n < 10 * vstd::arithmetic::power::pow(10, (k - 1) as nat),
            ;
            lemma_decimal_len(n / 10, (k - 1) as nat);
        }
    }
}

/// The name of the interface of any user is one that a configuration may give.
pub proof fn interface_names_are_accepted(uid: u32)
    ensures
        name_ok(interface_name(uid)),
{
    let d = decimal(uid as nat);
    reveal_strlit("xxm");
    lemma_decimal_digits(uid as nat);
    assert(vstd::arithmetic::power::pow(10, 10) == 10_000_000_000) by {
        reveal_with_fuel(vstd::arithmetic::power::pow, 11);
    }
    lemma_decimal_len(uid as nat, 10);
    let s = interface_name(uid);
    assert forall|i: int| 0 <= i < s.len() implies name_char(#[trigger] s[i]) by {
        if i >= 3 {
            assert(s[i] == d[i - 3]);
        }
    }
}

/// Whatever program a user's configuration names, the worker runs the given tools.
pub proof fn worker_runs_its_own_tools(document: Option<TomlView>, uid: u32, tools: Seq<char>)
    requires
        worker_tree(document, uid, tools) is Ok,
    ensures
        ({
            let t = worker_tree(document, uid, tools)->Ok_0->Table_0;
            let wg = t["wireguard"@]->Table_0;
            &&& wg["executable"@] == TomlView::Text(path_join(tools, "wg-quick"@))
            &&& wg["name"@] == TomlView::Text(interface_name(uid))
            &&& wg["config"@] == TomlView::Text("wg.conf"@)
        }),
{
    reveal_strlit("config");
    reveal_strlit("name");
    reveal_strlit("executable");
    assert("config"@.len() != "name"@.len());
    assert("config"@.len() != "executable"@.len());
    assert("name"@.len() != "executable"@.len());
}

// ---------------------------------------------------------------- snapshots

/// The name of a state.
pub open spec fn status_name(status: Status) -> Seq<char> {
    match status {
        Status::Idle => "Idle"@,
        Status::Connecting => "Connecting"@,
        Status::Connected => "Connected"@,
        Status::Reconnecting => "Reconnecting"@,
        Status::Failed => "Failed"@,
    }
}

pub fn status_text(status: Status) -> (r: &'static str)
    ensures
        r@ == status_name(status),
{
    match status {
        Status::Idle => "Idle",
        Status::Connecting => "Connecting",
        Status::Connected => "Connected",
        Status::Reconnecting => "Reconnecting",
        Status::Failed => "Failed",
    }
}

/// What is published of a session.
pub struct Snapshots {
    pub lines: VecDeque<String>,
    /// How many lines there were in all.
    pub sequence: u64,
    /// The state that was published last, and whether it was the last one.
    pub previous: Option<(Status, bool)>,
}

#[verifier::ext_equal]
pub struct SnapshotsView {
    pub lines: Seq<Seq<char>>,
    pub sequence: u64,
    pub previous: Option<(Status, bool)>,
}

impl View for Snapshots {
    type V = SnapshotsView;

    open spec fn view(&self) -> SnapshotsView {
        SnapshotsView {
            lines: self.lines@.map_values(|s: String| s@),
            sequence: self.sequence,
            previous: self.previous,
        }
    }
}

/// A line as it is published.
pub open spec fn published_line(s: Seq<char>) -> Seq<char> {
    if s.len() <= MAX_LINE {
        s
    } else {
        s.take(MAX_LINE as int)
    }
}

/// The last of a number of lines, as many as are published.
pub open spec fn newest(all: Seq<Seq<char>>) -> Seq<Seq<char>> {
    if all.len() <= MAX_LINES {
        all
    } else {
        all.skip(all.len() - MAX_LINES)
    }
}

/// Whether there is anything new to publish.
pub open spec fn unchanged(s: SnapshotsView, feed: FeedView, finished: bool) -> bool {
    feed.lines.len() == 0 && s.previous == Some((feed.status, finished))
}

/// What is kept after the lines of a feed were taken.
pub open spec fn collected(s: SnapshotsView, feed: FeedView) -> SnapshotsView {
    SnapshotsView {
        lines: newest(s.lines + feed.lines.map_values(|l: Seq<char>| published_line(l))),
        sequence: counted(s.sequence, feed.lines.len()),
        previous: s.previous,
    }
}

/// Lines as JSON strings.
pub open spec fn quoted_lines(all: Seq<Seq<char>>) -> Seq<Seq<char>> {
    all.map_values(|l: Seq<char>| json_string(l))
}

/// The JSON text of a snapshot: whether it is the last one, its lines, how many lines there were in
/// all, and the state.
pub open spec fn snapshot_text(s: SnapshotsView, status: Status, finished: bool) -> Seq<char> {
    "{\"finished\":"@ + (if finished {
        "true"@
    } else {
        "false"@
    }) + ",\"lines\":["@ + join(quoted_lines(s.lines), ","@) + "],\"sequence\":"@ + decimal(
        s.sequence as nat,
    ) + ",\"status\":"@ + json_string(status_name(status)) + "}"@
}

fn clip(line: &str) -> (r: String)
    ensures
        r@ == published_line(line@),
{
    let chars = chars_of(line);
    let end: usize = if chars.len() <= MAX_LINE {
        chars.len()
    } else {
        MAX_LINE
    };
    let kept = slice_subrange(&chars, 0, end);
    assert(kept@ =~= published_line(line@));
    text_of(kept)
}

impl Snapshots {
    /// Nothing has been published yet.
    pub fn new() -> (r: Self)
        ensures
            r@ == (SnapshotsView { lines: seq![], sequence: 0, previous: None }),
    {
        let r = Snapshots { lines: VecDeque::new(), sequence: 0, previous: None };
        assert(r@.lines =~= seq![]);
        r
    }

    /// Takes the lines of a feed; true where there is something to publish.
    pub fn collect(&mut self, feed: &mut Feed, finished: bool) -> (r: bool)
        ensures
            r == !unchanged(old(self)@, old(feed)@, finished),
            final(self)@ == if r {
                collected(old(self)@, old(feed)@)
            } else {
                old(self)@
            },
            final(feed)@ == (FeedView { lines: seq![], ..old(feed)@ }),
    {
        let ghost before = self@;
        let ghost taken = feed@;
        let ghost clipped = taken.lines.map_values(|l: Seq<char>| published_line(l));
        let same_state = match self.previous {
            Some((status, last)) => status == feed.status && last == finished,
            None => false,
        };
        if feed.lines.len() == 0 && same_state {
            assert(feed@.lines =~= seq![]);
            return false;
        }
        let total: usize = feed.lines.len();
        for i in 0..total
            invariant
                total == taken.lines.len(),
                feed.lines@.len() == total - i,
                feed@.status == taken.status,
                feed@.lines =~= taken.lines.skip(i as int),
                clipped == taken.lines.map_values(|l: Seq<char>| published_line(l)),
                self@.previous == before.previous,
                self@.sequence == counted(before.sequence, i as nat),
                self@.lines =~= before.lines + clipped.take(i as int),
        {
            let ghost left = feed@.lines;
            let ghost kept = self@.lines;
            assert(left == taken.lines.skip(i as int));
            assert(left[0] == taken.lines[i as int]);
            match feed.lines.pop_front() {
                Some(line) => {
                    assert(line@ == left[0]);
                    assert(feed@.lines =~= left.skip(1));
                    assert(left.skip(1) =~= taken.lines.skip(i + 1));
                    self.lines.push_back(clip(line.as_str()));
                    assert(self@.lines =~= kept.push(published_line(line@)));
                    assert(clipped.take(i + 1) =~= clipped.take(i as int).push(
                        published_line(line@),
                    ));
                    self.sequence = count(self.sequence, 1);
                },
                None => {},
            }
        }
        assert(clipped.take(total as int) =~= clipped);
        let ghost all = before.lines + clipped;
        assert(self@.lines =~= all);
        assert(all.skip(0) =~= all);
        while self.lines.len() > MAX_LINES
            invariant
                self@.previous == before.previous,
                self@.sequence == counted(before.sequence, taken.lines.len()),
                self@.lines.len() <= all.len(),
                self@.lines =~= all.skip(all.len() - self@.lines.len()),
                self@.lines.len() >= MAX_LINES || self@.lines.len() == all.len(),
            decreases self.lines@.len(),
        {
            let ghost kept = self@.lines;
            let _ = self.lines.pop_front();
            assert(self@.lines =~= kept.skip(1));
            assert(kept.skip(1) =~= all.skip(all.len() - kept.len() + 1));
        }
        assert(feed@.lines =~= seq![]);
        assert(self@.lines =~= newest(all));
        assert(self@ =~= collected(before, taken));
        true
    }

    /// Takes the lines of a feed; the text of the snapshot to publish, where there is something new.
    pub fn publish(&mut self, feed: &mut Feed, finished: bool) -> (r: Option<String>)
        ensures
            final(feed)@ == (FeedView { lines: seq![], ..old(feed)@ }),
            match r {
                None => unchanged(old(self)@, old(feed)@, finished) && final(self)@ == old(self)@,
                Some(text) => !unchanged(old(self)@, old(feed)@, finished) && final(self)@
                    == collected(old(self)@, old(feed)@) && text@ == snapshot_text(
                    collected(old(self)@, old(feed)@),
                    old(feed)@.status,
                    finished,
                ),
            },
    {
        if self.collect(feed, finished) {
            Some(self.text(feed.status, finished))
        } else {
            None
        }
    }

    /// The text of a snapshot.
    pub fn text(&self, status: Status, finished: bool) -> (r: String)
        ensures
            r@ == snapshot_text(self@, status, finished),
    {
        let mut quoted: Vec<String> = Vec::new();
        for i in 0..self.lines.len()
            invariant
                quoted@.len() == i,
                i <= self.lines@.len(),
                forall|j: int| 0 <= j < i ==> (#[trigger] quoted@[j])@ == json_string(self.lines@[j]@),
        {
            quoted.push(quote_json(self.lines[i].as_str()));
        }
        assert(texts(quoted@) =~= quoted_lines(self@.lines));
        let mut out = String::new();
        out.append("{\"finished\":");
        out.append(if finished { "true" } else { "false" });
        out.append(",\"lines\":[");
        out.append(join_texts(&quoted, ",").as_str());
        out.append("],\"sequence\":");
        push_decimal(&mut out, self.sequence);
        out.append(",\"status\":");
        out.append(quote_json(status_text(status)).as_str());
        out.append("}");
        assert(out@ =~= snapshot_text(self@, status, finished));
        out
    }

    /// What was collected has been published.
    pub fn published(&mut self, status: Status, finished: bool)
        ensures
            final(self)@ == (SnapshotsView { previous: Some((status, finished)), ..old(self)@ }),
    {
        self.previous = Some((status, finished));
    }
}

/// No more than 128 lines of no more than 1024 characters are published, the newest ones.
pub proof fn snapshots_are_bounded(s: SnapshotsView, feed: FeedView)
    requires
        forall|i: int| 0 <= i < s.lines.len() ==> (#[trigger] s.lines[i]).len() <= MAX_LINE,
    ensures
        collected(s, feed).lines.len() <= MAX_LINES,
        forall|i: int|
            0 <= i < collected(s, feed).lines.len() ==> (#[trigger] collected(s, feed).lines[i]).len()
                <= MAX_LINE,
        feed.lines.len() > 0 ==> collected(s, feed).lines.last() == published_line(
            feed.lines.last(),
        ),
{
    let all = s.lines + feed.lines.map_values(|l: Seq<char>| published_line(l));
    let kept = newest(all);
    let from = all.len() - kept.len();
    assert forall|i: int| 0 <= i < kept.len() implies (#[trigger] kept[i]).len() <= MAX_LINE by {
        assert(kept[i] == all[from + i]);
        if from + i < s.lines.len() {
            assert(all[from + i] == s.lines[from + i]);
        } else {
            assert(all[from + i] == published_line(feed.lines[from + i - s.lines.len()]));
        }
    }
}

// ---------------------------------------------------------------- liveness

/// What a worker knows of the window that started it: the window holds a lock for as long as it
/// lives.
#[derive(Clone, Copy, PartialEq, Eq, Structural, Debug)]
pub enum Owner {
    /// The lock is held.
    Alive,
    /// The lock is free.
    Gone,
    /// The lock could not be asked for.
    Unknown,
}

/// Why a worker stops.
#[derive(Clone, Copy, PartialEq, Eq, Structural, Debug)]
pub enum StopReason {
    Terminated,
    Requested,
    OwnerGone,
    LockFailed,
}

/// Whether a worker stops, and why. A window that is slow or hidden keeps its lock, and the tunnel
/// with it.
pub open spec fn stop_reason(signal: bool, requested: bool, owner: Owner) -> Option<StopReason> {
    if signal {
        Some(StopReason::Terminated)
    } else if requested {
        Some(StopReason::Requested)
    } else {
        match owner {
            Owner::Alive => None,
            Owner::Gone => Some(StopReason::OwnerGone),
            Owner::Unknown => Some(StopReason::LockFailed),
        }
    }
}

pub fn should_stop(signal: bool, requested: bool, owner: Owner) -> (r: Option<StopReason>)
    ensures
        r == stop_reason(signal, requested, owner),
{
    if signal {
        Some(StopReason::Terminated)
    } else if requested {
        Some(StopReason::Requested)
    } else {
        match owner {
            Owner::Alive => None,
            Owner::Gone => Some(StopReason::OwnerGone),
            Owner::Unknown => Some(StopReason::LockFailed),
        }
    }
}

pub open spec fn stop_words(reason: StopReason) -> Seq<char> {
    match reason {
        StopReason::Terminated => "收到终止信号，正在停止连接"@,
        StopReason::Requested => "收到断开请求，正在停止连接"@,
        StopReason::OwnerGone => "界面进程已退出，连接意外停止"@,
        StopReason::LockFailed => "存活锁检查失败，连接意外停止"@,
    }
}

impl StopReason {
    /// The reason in words.
    pub fn message(&self) -> (r: &'static str)
        ensures
            r@ == stop_words(*self),
    {
        match self {
            StopReason::Terminated => "收到终止信号，正在停止连接",
            StopReason::Requested => "收到断开请求，正在停止连接",
            StopReason::OwnerGone => "界面进程已退出，连接意外停止",
            StopReason::LockFailed => "存活锁检查失败，连接意外停止",
        }
    }
}

/// As long as the window lives and nobody asks, a worker goes on.
pub proof fn live_windows_keep_the_tunnel(signal: bool, requested: bool, owner: Owner)
    ensures
        stop_reason(signal, requested, owner) is None <==> !signal && !requested && owner
            == Owner::Alive,
{
}

// ---------------------------------------------------------------- laws

/// Whether a text stands at a place of another.
pub open spec fn stands_at(s: Seq<char>, part: Seq<char>, i: int) -> bool {
    0 <= i && i + part.len() <= s.len() && s.subrange(i, i + part.len()) == part
}

proof fn lemma_place_is_first(s: Seq<char>, part: Seq<char>, i: int)
    requires
        part.len() > 0,
        0 <= i <= s.len(),
        i < s.len() ==> stands_at(s, part, i),
        forall|j: int| 0 <= j < i ==> !#[trigger] stands_at(s, part, j),
    ensures
        place_of(s, part) == i,
    decreases s.len(),
{
    if s.len() >= part.len() && s.len() > 0 {
        assert(s.take(part.len() as int) =~= s.subrange(0, part.len() as int));
        if i == 0 {
            assert(s.take(part.len() as int) == part);
        } else {
            assert(!stands_at(s, part, 0));
            let rest = s.skip(1);
            if i < s.len() {
                assert(rest.subrange(i - 1, i - 1 + part.len()) =~= s.subrange(i, i + part.len()));
            }
            assert forall|j: int| 0 <= j < i - 1 implies !#[trigger] stands_at(rest, part, j) by {
                assert(!stands_at(s, part, j + 1));
                if stands_at(rest, part, j) {
                    assert(s.subrange(j + 1, j + 1 + part.len()) =~= rest.subrange(
                        j,
                        j + part.len(),
                    ));
                }
            }
            lemma_place_is_first(rest, part, i - 1);
        }
    } else if i < s.len() {
        assert(stands_at(s, part, i));
    }
}

/// The tools of an application lie in its own directory: that of the first `.app/Contents/` in the
/// path of the program. A program without one lies in no application.
pub proof fn applications_have_their_own_tools(executable: Seq<char>, i: int)
    requires
        0 <= i <= executable.len(),
        i < executable.len() ==> stands_at(executable, ".app/Contents/"@, i),
        forall|j: int| 0 <= j < i ==> !#[trigger] stands_at(executable, ".app/Contents/"@, j),
    ensures
        i < executable.len() ==> bundle_of(executable) == Some(
            executable.take(i) + ".app/Contents/Resources/wireguard"@,
        ),
        i == executable.len() ==> bundle_of(executable) is None,
{
    reveal_strlit(".app/Contents/");
    reveal_strlit("Resources/wireguard");
    reveal_strlit(".app/Contents/Resources/wireguard");
    lemma_place_is_first(executable, ".app/Contents/"@, i);
    assert(".app/Contents/"@ + "Resources/wireguard"@ =~= ".app/Contents/Resources/wireguard"@);
    assert(executable.take(i) + ".app/Contents/"@ + "Resources/wireguard"@ =~= executable.take(i)
        + ".app/Contents/Resources/wireguard"@);
}

/// An application uses its own tools alone; outside of one the two usual directories are looked at in
/// their order.
pub proof fn tools_are_looked_for(root: Seq<char>)
    ensures
        tool_roots(Some(root)) == seq![root],
        tool_roots(None) == seq!["/opt/homebrew/bin"@, "/usr/local/bin"@],
{
}

/// The directory that is used is the first that holds all of the four tools, and that of the program
/// that manages WireGuard the first that holds it.
pub proof fn first_directories_are_used(all: Seq<Candidate>, i: int, quick: bool)
    requires
        0 <= i <= all.len(),
        i < all.len() ==> all[i].wg_quick && (quick || (all[i].bash && all[i].wg
            && all[i].wireguard_go)),
        forall|j: int|
            0 <= j < i ==> !((#[trigger] all[j]).wg_quick && (quick || (all[j].bash && all[j].wg
                && all[j].wireguard_go))),
    ensures
        ({
            let found = if quick {
                first_quick(all)
            } else {
                first_complete(all)
            };
            &&& i < all.len() ==> found == Some(all[i].root@)
            &&& i == all.len() ==> found is None
        }),
    decreases all.len(),
{
    if i > 0 {
        let rest = all.skip(1);
        assert(!(all[0].wg_quick && (quick || (all[0].bash && all[0].wg && all[0].wireguard_go))));
        assert forall|j: int| 0 <= j < i - 1 implies !((#[trigger] rest[j]).wg_quick && (quick || (
        rest[j].bash && rest[j].wg && rest[j].wireguard_go))) by {
            assert(rest[j] == all[j + 1]);
        }
        first_directories_are_used(rest, i - 1, quick);
    }
}

/// A file is read as input exactly where it is an ordinary file of the user, with no other name, with
/// no permission for others, and of 512 KiB at most.
pub proof fn inputs_are_private(m: Metadata, uid: u32)
    ensures
        input_ok(m, uid) <==> m.regular && m.owner == uid && m.links == 1 && m.mode & 0o077 == 0
            && m.len <= 524_288,
{
    private_mode_is_a_mask(m.mode);
}

/// The configuration of a worker is the user's own but for three settings of its WireGuard section:
/// nothing else of it changes. Without that section there is none.
pub proof fn workers_run_the_configuration_of_the_user(
    m: Map<Seq<char>, TomlView>,
    uid: u32,
    tools: Seq<char>,
)
    ensures
        ({
            let r = worker_tree(Some(TomlView::Table(m)), uid, tools);
            let good = m.dom().contains("wireguard"@) && m["wireguard"@] is Table;
            &&& r is Ok <==> good
            &&& good ==> r->Ok_0 is Table && {
                let t = r->Ok_0->Table_0;
                let w = m["wireguard"@]->Table_0;
                &&& t.dom() == m.dom()
                &&& forall|k: Seq<char>|
                    m.dom().contains(k) && k != "wireguard"@ ==> #[trigger] t[k] == m[k]
                &&& t["wireguard"@] is Table
                &&& forall|k: Seq<char>|
                    k != "config"@ && k != "name"@ && k != "executable"@ ==> (
                    #[trigger] t["wireguard"@]->Table_0.dom().contains(k) <==> w.dom().contains(k))
                &&& forall|k: Seq<char>|
                    w.dom().contains(k) && k != "config"@ && k != "name"@ && k != "executable"@
                        ==> #[trigger] t["wireguard"@]->Table_0[k] == w[k]
                &&& t["wireguard"@]->Table_0.dom().contains("config"@)
                    && t["wireguard"@]->Table_0["config"@] == TomlView::Text("wg.conf"@)
                &&& t["wireguard"@]->Table_0.dom().contains("name"@)
                    && t["wireguard"@]->Table_0["name"@] == TomlView::Text(
                    "xxm"@ + decimal(uid as nat),
                )
                &&& t["wireguard"@]->Table_0.dom().contains("executable"@)
                    && t["wireguard"@]->Table_0["executable"@] == TomlView::Text(
                    path_join(tools, "wg-quick"@),
                )
            }
        }),
        worker_tree(None, uid, tools) is Err,
{
    reveal_strlit("config");
    reveal_strlit("name");
    reveal_strlit("executable");
    assert("config"@.len() != "name"@.len());
    assert("config"@.len() != "executable"@.len());
    assert("name"@.len() != "executable"@.len());
    if let Ok(t) = worker_tree(Some(TomlView::Table(m)), uid, tools) {
        assert(t->Table_0.dom() =~= m.dom());
    }
}

/// Different users have different interfaces.
pub proof fn users_have_their_own_interface(a: u32, b: u32)
    ensures
        interface_name(a) == interface_name(b) ==> a == b,
        interface_name(a) == "xxm"@ + decimal(a as nat),
{
    crate::numbers::decimal_round_trip(a as nat);
    crate::numbers::decimal_round_trip(b as nat);
    let head = "xxm"@;
    assert(interface_name(a).skip(head.len() as int) =~= decimal(a as nat));
    assert(interface_name(b).skip(head.len() as int) =~= decimal(b as nat));
}

/// What is kept to be published: the lines that were kept, then the new ones cut after 1024
/// characters, of all these the last 128; and how many there were in all.
pub proof fn newest_lines_are_published(s: SnapshotsView, feed: FeedView)
    ensures
        ({
            let after = collected(s, feed);
            let total = s.lines.len() + feed.lines.len();
            let kept = if total < 128 {
                total as int
            } else {
                128
            };
            &&& after.lines.len() == kept
            &&& forall|i: int|
                0 <= i < kept ==> #[trigger] after.lines[i] == {
                    let at = total - kept + i;
                    if at < s.lines.len() {
                        s.lines[at]
                    } else {
                        let line = feed.lines[at - s.lines.len()];
                        if line.len() <= 1024 {
                            line
                        } else {
                            line.take(1024)
                        }
                    }
                }
            &&& after.sequence == counted(s.sequence, feed.lines.len())
            &&& after.previous == s.previous
        }),
{
    let all = s.lines + feed.lines.map_values(|l: Seq<char>| published_line(l));
    let after = collected(s, feed);
    let from = all.len() - after.lines.len();
    assert forall|i: int| 0 <= i < after.lines.len() implies #[trigger] after.lines[i] == all[from
        + i] by {}
}

/// Something is published where a line came, or the state or whether it is the last one changed.
pub proof fn news_are_published(s: SnapshotsView, feed: FeedView, finished: bool)
    ensures
        unchanged(s, feed, finished) <==> feed.lines.len() == 0 && (s.previous matches Some((
            status,
            last,
        )) && status == feed.status && last == finished),
{
}

/// What is published is an object of four fields.
pub proof fn snapshots_are_objects(s: SnapshotsView, status: Status, finished: bool)
    ensures
        snapshot_text(s, status, finished) == "{\"finished\":"@ + (if finished {
            "true"@
        } else {
            "false"@
        }) + ",\"lines\":["@ + join(
            Seq::new(s.lines.len(), |i: int| json_string(s.lines[i])),
            ","@,
        ) + "],\"sequence\":"@ + decimal(s.sequence as nat) + ",\"status\":"@ + json_string(
            match status {
                Status::Idle => "Idle"@,
                Status::Connecting => "Connecting"@,
                Status::Connected => "Connected"@,
                Status::Reconnecting => "Reconnecting"@,
                Status::Failed => "Failed"@,
            },
        ) + "}"@,
{
    assert(quoted_lines(s.lines) =~= Seq::new(s.lines.len(), |i: int| json_string(s.lines[i])));
}

/// A signal comes before a request, and both before what is known of the window.
pub proof fn reasons_to_stop(requested: bool, owner: Owner)
    ensures
        stop_reason(true, requested, owner) == Some(StopReason::Terminated),
        stop_reason(false, true, owner) == Some(StopReason::Requested),
        stop_reason(false, false, Owner::Gone) == Some(StopReason::OwnerGone),
        stop_reason(false, false, Owner::Unknown) == Some(StopReason::LockFailed),
        stop_reason(false, false, Owner::Alive) is None,
{
}

} // verus!
