//! What the main window does: which actions are open, what it shows, and what follows from each
//! event.
//!
//! Instants are nanoseconds on the clock of the window.
use crate::logging::{Feed, FeedView, Status};
use crate::numbers::{push_two_digits, two_digits};
use crate::pieces::{join, lines, lines_of, split_first, split_once, trim, trimmed, views};
use crate::text::{chars_of, spells, text_of};
use crate::transport::{elapsed, since};
use crate::update::{Check, CheckView, Download};
use std::collections::VecDeque;
use vstd::prelude::*;
use vstd::slice::slice_subrange;
use vstd::utf8::encode_utf8;

verus! {

/// The numbers of the commands.
pub const CONFIG: usize = 100;

pub const CONNECT: usize = 101;

pub const DISCONNECT: usize = 102;

pub const RECONNECT: usize = 103;

pub const NEW: usize = 104;

pub const IMPORT: usize = 105;

pub const EDIT: usize = 106;

pub const CLEAR: usize = 107;

pub const EXIT: usize = 108;

pub const ABOUT: usize = 109;

pub const VIEW: usize = 110;

pub const UPDATE: usize = 111;

/// The largest number of lines that are shown.
pub const MAX_HISTORY: usize = 256;

/// The largest number of bytes that are shown: 48 KiB.
pub const MAX_HISTORY_BYTES: usize = 49_152;

/// The largest number of characters of a line that is shown.
pub const MAX_ENTRY: usize = 1024;

// ---------------------------------------------------------------- state

/// The state of the main window.
pub struct Ui {
    /// Whether a tunnel is running or ending.
    pub working: bool,
    /// Whether an update is being looked for or downloaded.
    pub updating: bool,
    /// Whether that began by itself: then only news are shown.
    pub quiet: bool,
    /// Whether a package is to be installed on exit.
    pub pending: bool,
    pub stopping: bool,
    /// Whether to connect again once the tunnel has ended.
    pub restart: bool,
    pub closing: bool,
    pub status: Status,
    pub connected_at: Option<u64>,
    pub history: VecDeque<String>,
}

#[verifier::ext_equal]
pub struct UiView {
    pub working: bool,
    pub updating: bool,
    pub quiet: bool,
    pub pending: bool,
    pub stopping: bool,
    pub restart: bool,
    pub closing: bool,
    pub status: Status,
    pub connected_at: Option<u64>,
    pub history: Seq<Seq<char>>,
}

pub open spec fn history_view(s: Seq<String>) -> Seq<Seq<char>> {
    s.map_values(|x: String| x@)
}

impl View for Ui {
    type V = UiView;

    open spec fn view(&self) -> UiView {
        UiView {
            working: self.working,
            updating: self.updating,
            quiet: self.quiet,
            pending: self.pending,
            stopping: self.stopping,
            restart: self.restart,
            closing: self.closing,
            status: self.status,
            connected_at: self.connected_at,
            history: history_view(self.history@),
        }
    }
}

/// The time of day.
#[derive(Clone, Copy, PartialEq, Eq, Structural, Debug)]
pub struct Clock {
    pub hour: u16,
    pub minute: u16,
    pub second: u16,
}

// ---------------------------------------------------------------- log

/// A text without the characters that break lines.
pub open spec fn without_breaks(s: Seq<char>) -> Seq<char>
    decreases s.len(),
{
    if s.len() == 0 {
        s
    } else if s.last() == '\r' || s.last() == '\n' {
        without_breaks(s.drop_last())
    } else {
        without_breaks(s.drop_last()).push(s.last())
    }
}

/// A message as a line that is shown.
pub open spec fn clean(s: Seq<char>) -> Seq<char> {
    let t = without_breaks(s);
    if t.len() <= MAX_ENTRY {
        t
    } else {
        t.take(MAX_ENTRY as int)
    }
}

/// A line that is shown: the time, and the message.
pub open spec fn entry(s: Seq<char>, clock: Clock) -> Seq<char> {
    "["@ + two_digits(clock.hour as nat) + ":"@ + two_digits(clock.minute as nat) + ":"@
        + two_digits(clock.second as nat) + "] "@ + clean(s)
}

/// The bytes of a number of lines.
pub open spec fn total_bytes(h: Seq<Seq<char>>) -> nat
    decreases h.len(),
{
    if h.len() == 0 {
        0
    } else {
        total_bytes(h.drop_last()) + encode_utf8(h.last()).len()
    }
}

/// Whether there is more than is shown.
pub open spec fn too_much(h: Seq<Seq<char>>) -> bool {
    h.len() > MAX_HISTORY || total_bytes(h) > MAX_HISTORY_BYTES
}

/// The newest of a number of lines, as many as are shown.
pub open spec fn shown(h: Seq<Seq<char>>) -> Seq<Seq<char>>
    decreases h.len(),
{
    if h.len() > 0 && too_much(h) {
        shown(h.skip(1))
    } else {
        h
    }
}

/// The lines after one more message.
pub open spec fn logged(h: Seq<Seq<char>>, s: Seq<char>, clock: Clock) -> Seq<Seq<char>> {
    shown(h.push(entry(s, clock)))
}

/// The lines after a number of messages.
pub open spec fn all_logged(h: Seq<Seq<char>>, all: Seq<Seq<char>>, clock: Clock) -> Seq<Seq<char>>
    decreases all.len(),
{
    if all.len() == 0 {
        h
    } else {
        logged(all_logged(h, all.drop_last(), clock), all.last(), clock)
    }
}

fn clean_text(s: &str) -> (r: String)
    ensures
        r@ == clean(s@),
{
    let chars = chars_of(s);
    let mut kept: Vec<char> = Vec::new();
    for i in 0..chars.len()
        invariant
            chars@ == s@,
            kept@ == without_breaks(s@.take(i as int)),
    {
        assert(s@.take(i + 1).drop_last() =~= s@.take(i as int));
        assert(s@.take(i + 1).last() == s@[i as int]);
        let c = chars[i];
        if c != '\r' && c != '\n' {
            kept.push(c);
        }
    }
    assert(s@.take(s@.len() as int) =~= s@);
    let end: usize = if kept.len() <= MAX_ENTRY {
        kept.len()
    } else {
        MAX_ENTRY
    };
    let piece = slice_subrange(&kept, 0, end);
    assert(piece@ =~= clean(s@));
    text_of(piece)
}

fn entry_text(s: &str, clock: Clock) -> (r: String)
    ensures
        r@ == entry(s@, clock),
{
    let mut out = String::new();
    out.append("[");
    push_two_digits(&mut out, clock.hour as u64);
    out.append(":");
    push_two_digits(&mut out, clock.minute as u64);
    out.append(":");
    push_two_digits(&mut out, clock.second as u64);
    out.append("] ");
    out.append(clean_text(s).as_str());
    assert(out@ =~= entry(s@, clock));
    out
}

proof fn lemma_total_bytes_prefix(h: Seq<Seq<char>>, i: int)
    requires
        0 <= i <= h.len(),
    ensures
        total_bytes(h.take(i)) <= total_bytes(h),
    decreases h.len() - i,
{
    if i < h.len() {
        lemma_total_bytes_prefix(h, i + 1);
        assert(h.take(i + 1).drop_last() =~= h.take(i));
    } else {
        assert(h.take(i) =~= h);
    }
}

fn is_too_much(h: &VecDeque<String>) -> (r: bool)
    ensures
        r == too_much(history_view(h@)),
{
    if h.len() > MAX_HISTORY {
        return true;
    }
    let ghost v = history_view(h@);
    let mut sum: usize = 0;
    let n: usize = h.len();
    for i in 0..n
        invariant
            n == h@.len(),
            v == history_view(h@),
            sum == total_bytes(v.take(i as int)),
            sum <= MAX_HISTORY_BYTES,
    {
        let more: usize = h[i].as_str().as_bytes().len();
        assert(v.take(i + 1).drop_last() =~= v.take(i as int));
        assert(v.take(i + 1).last() == h@[i as int]@);
        proof {
            lemma_total_bytes_prefix(v, i + 1);
        }
        if more > MAX_HISTORY_BYTES - sum {
            return true;
        }
        sum = sum + more;
    }
    assert(v.take(n as int) =~= v);
    false
}

impl Ui {
    /// The window when it opens.
    pub fn new() -> (r: Self)
        ensures
            r@ == (UiView {
                working: false,
                updating: false,
                quiet: false,
                pending: false,
                stopping: false,
                restart: false,
                closing: false,
                status: Status::Idle,
                connected_at: None,
                history: seq![],
            }),
    {
        let r = Ui {
            working: false,
            updating: false,
            quiet: false,
            pending: false,
            stopping: false,
            restart: false,
            closing: false,
            status: Status::Idle,
            connected_at: None,
            history: VecDeque::new(),
        };
        assert(r@.history =~= seq![]);
        r
    }

    /// Shows a message.
    pub fn append(&mut self, s: &str, clock: Clock)
        ensures
            final(self)@ == (UiView { history: logged(old(self)@.history, s@, clock), ..old(self)@ }),
    {
        let ghost before = self@;
        let ghost all = before.history.push(entry(s@, clock));
        self.history.push_back(entry_text(s, clock));
        assert(self@.history =~= all);
        let mut more = is_too_much(&self.history);
        while more && self.history.len() > 0
            invariant
                more == too_much(self@.history),
                shown(self@.history) == shown(all),
                self@ == (UiView { history: self@.history, ..before }),
            decreases self.history@.len(),
        {
            let ghost kept = self@.history;
            let _ = self.history.pop_front();
            assert(self@.history =~= kept.skip(1));
            more = is_too_much(&self.history);
        }
        assert(self@ =~= (UiView { history: logged(before.history, s@, clock), ..before }));
    }

    /// The lines as they are shown.
    pub fn log_text(&self) -> (r: String)
        ensures
            r@ == join(self@.history, "\r\n"@),
    {
        let mut all: Vec<String> = Vec::new();
        let n: usize = self.history.len();
        for i in 0..n
            invariant
                n == self.history@.len(),
                all@.len() == i,
                forall|j: int| 0 <= j < i ==> (#[trigger] all@[j])@ == self.history@[j]@,
        {
            all.push(self.history[i].clone());
        }
        assert(crate::pieces::texts(all@) =~= self@.history);
        crate::pieces::join_texts(&all, "\r\n")
    }

    /// Shows nothing any more.
    pub fn clear(&mut self)
        ensures
            final(self)@ == (UiView { history: seq![], ..old(self)@ }),
    {
        self.history.clear();
        assert(self@.history =~= seq![]);
    }
}

// ---------------------------------------------------------------- actions

/// The profile that the list shows as selected, given its place and how many there are.
pub fn selected(index: i64, count: usize) -> (r: Option<usize>)
    ensures
        r == if 0 <= index < count {
            Some(index as usize)
        } else {
            None
        },
{
    if index >= 0 && (index as u64) < count as u64 {
        Some(index as usize)
    } else {
        None
    }
}

/// The profile that is selected when the list is filled: the last one where the old one is gone.
pub fn clamp_selection(selected: usize, count: usize) -> (r: Option<usize>)
    ensures
        r == if count == 0 {
            None
        } else if selected < count {
            Some(selected)
        } else {
            Some((count - 1) as usize)
        },
{
    if count == 0 {
        None
    } else if selected < count {
        Some(selected)
    } else {
        Some(count - 1)
    }
}

/// Whether an action on the connection is open.
pub open spec fn action_open(u: UiView, id: usize, selected: bool) -> bool {
    !u.closing && !u.stopping && if id == CONNECT {
        !u.working && selected
    } else if id == DISCONNECT || id == RECONNECT {
        u.working
    } else {
        false
    }
}

/// Which controls and menu entries are open.
#[derive(Clone, Copy, PartialEq, Eq, Structural, Debug)]
pub struct Buttons {
    pub combo: bool,
    pub new: bool,
    pub import: bool,
    pub edit: bool,
    pub view: bool,
    pub connect: bool,
    pub disconnect: bool,
    pub reconnect: bool,
    pub update: bool,
}

/// Which controls are open. A profile is neither chosen nor changed while a tunnel runs.
pub open spec fn buttons_of(u: UiView, selected: bool) -> Buttons {
    Buttons {
        combo: !u.working,
        new: !u.working,
        import: !u.working,
        edit: !u.working && selected,
        view: selected,
        connect: action_open(u, CONNECT, selected),
        disconnect: action_open(u, DISCONNECT, selected),
        reconnect: action_open(u, RECONNECT, selected),
        update: !u.updating && !u.closing,
    }
}

/// An entry of the menu of the icon.
#[derive(Clone, Copy, Debug)]
pub struct TrayItem {
    pub id: usize,
    pub label: &'static str,
    pub enabled: bool,
}

/// What a command leads to.
#[derive(Clone, Copy, PartialEq, Eq, Structural, Debug)]
pub enum Step {
    Nothing,
    CheckUpdate,
    Connect,
    Disconnect,
    Reconnect,
    /// Edit a new profile.
    New,
    /// Choose a file to import.
    Import,
    Edit(usize),
    View(usize),
    /// Remember the selected profile, where there is one, and show it.
    Select(Option<usize>),
    Clear,
    Exit,
    About,
}

/// What a command leads to.
pub open spec fn step_of(u: UiView, id: usize, selected: Option<usize>) -> Step {
    if (id == CONNECT || id == DISCONNECT || id == RECONNECT) && !action_open(
        u,
        id,
        selected is Some,
    ) {
        Step::Nothing
    } else if u.working && (id == NEW || id == IMPORT || id == EDIT || id == CONFIG) {
        Step::Nothing
    } else if id == UPDATE {
        Step::CheckUpdate
    } else if id == CONNECT {
        Step::Connect
    } else if id == DISCONNECT {
        Step::Disconnect
    } else if id == RECONNECT {
        Step::Reconnect
    } else if id == NEW {
        Step::New
    } else if id == IMPORT {
        Step::Import
    } else if id == EDIT {
        match selected {
            Some(i) => Step::Edit(i),
            None => Step::Nothing,
        }
    } else if id == VIEW {
        match selected {
            Some(i) => Step::View(i),
            None => Step::Nothing,
        }
    } else if id == CONFIG {
        Step::Select(selected)
    } else if id == CLEAR {
        Step::Clear
    } else if id == EXIT {
        Step::Exit
    } else if id == ABOUT {
        Step::About
    } else {
        Step::Nothing
    }
}

impl Ui {
    /// Whether an action on the connection is open.
    pub fn connection_action_enabled(&self, id: usize, selected: bool) -> (r: bool)
        ensures
            r == action_open(self@, id, selected),
    {
        if self.closing || self.stopping {
            return false;
        }
        if id == CONNECT {
            !self.working && selected
        } else if id == DISCONNECT || id == RECONNECT {
            self.working
        } else {
            false
        }
    }

    /// Which controls are open.
    pub fn buttons(&self, selected: bool) -> (r: Buttons)
        ensures
            r == buttons_of(self@, selected),
    {
        Buttons {
            combo: !self.working,
            new: !self.working,
            import: !self.working,
            edit: !self.working && selected,
            view: selected,
            connect: self.connection_action_enabled(CONNECT, selected),
            disconnect: self.connection_action_enabled(DISCONNECT, selected),
            reconnect: self.connection_action_enabled(RECONNECT, selected),
            update: !self.updating && !self.closing,
        }
    }

    /// The menu of the icon. Nothing is open in it while another window waits for an answer.
    pub fn tray_menu(&self, available: bool, selected: bool) -> (r: [TrayItem; 4])
        ensures
            r@[0].id == CONNECT && r@[0].label@ == "连接"@ && r@[0].enabled == (available
                && action_open(self@, CONNECT, selected)),
            r@[1].id == DISCONNECT && r@[1].label@ == "断开"@ && r@[1].enabled == (available
                && action_open(self@, DISCONNECT, selected)),
            r@[2].id == RECONNECT && r@[2].label@ == "重新连接"@ && r@[2].enabled == (available
                && action_open(self@, RECONNECT, selected)),
            r@[3].id == EXIT && r@[3].label@ == "退出"@ && r@[3].enabled == (available
                && !self@.closing),
    {
        [
            TrayItem {
                id: CONNECT,
                label: "连接",
                enabled: available && self.connection_action_enabled(CONNECT, selected),
            },
            TrayItem {
                id: DISCONNECT,
                label: "断开",
                enabled: available && self.connection_action_enabled(DISCONNECT, selected),
            },
            TrayItem {
                id: RECONNECT,
                label: "重新连接",
                enabled: available && self.connection_action_enabled(RECONNECT, selected),
            },
            TrayItem { id: EXIT, label: "退出", enabled: available && !self.closing },
        ]
    }

    /// What a command leads to.
    pub fn command(&self, id: usize, selected: Option<usize>) -> (r: Step)
        ensures
            r == step_of(self@, id, selected),
    {
        if (id == CONNECT || id == DISCONNECT || id == RECONNECT)
            && !self.connection_action_enabled(id, selected.is_some()) {
            return Step::Nothing;
        }
        if self.working && (id == NEW || id == IMPORT || id == EDIT || id == CONFIG) {
            return Step::Nothing;
        }
        if id == UPDATE {
            Step::CheckUpdate
        } else if id == CONNECT {
            Step::Connect
        } else if id == DISCONNECT {
            Step::Disconnect
        } else if id == RECONNECT {
            Step::Reconnect
        } else if id == NEW {
            Step::New
        } else if id == IMPORT {
            Step::Import
        } else if id == EDIT {
            match selected {
                Some(i) => Step::Edit(i),
                None => Step::Nothing,
            }
        } else if id == VIEW {
            match selected {
                Some(i) => Step::View(i),
                None => Step::Nothing,
            }
        } else if id == CONFIG {
            Step::Select(selected)
        } else if id == CLEAR {
            Step::Clear
        } else if id == EXIT {
            Step::Exit
        } else if id == ABOUT {
            Step::About
        } else {
            Step::Nothing
        }
    }
}

// ---------------------------------------------------------------- connection

/// What follows the end of a tunnel.
#[derive(Clone, Copy, PartialEq, Eq, Structural, Debug)]
pub enum AfterWork {
    Stay,
    /// Start the installation of the update, and close.
    Install,
    Close,
    Restart,
}

/// What a wish to close leads to.
#[derive(Clone, Copy, PartialEq, Eq, Structural, Debug)]
pub enum CloseStep {
    /// The tunnel is asked to end first.
    Wait,
    Destroy,
}

/// The window after a tunnel was asked to end.
pub open spec fn after_stop(u: UiView, restart: bool, clock: Clock) -> UiView {
    if u.working {
        UiView {
            restart,
            stopping: true,
            history: logged(
                u.history,
                if restart {
                    "正在断开，清理完成后重新连接…"@
                } else {
                    "正在断开并清理 WireGuard 接口与路由…"@
                },
                clock,
            ),
            ..u
        }
    } else {
        UiView { restart, ..u }
    }
}

/// The window once a tunnel has ended, well or with a reason, before it is decided what follows.
pub open spec fn ended(u: UiView, failure: Option<Seq<char>>, clock: Clock) -> UiView {
    UiView {
        working: false,
        stopping: false,
        connected_at: None,
        status: match failure {
            None => Status::Idle,
            Some(_) => Status::Failed,
        },
        history: logged(
            u.history,
            match failure {
                None => "已断开连接，清理完成。"@,
                Some(reason) => "连接失败："@ + reason,
            },
            clock,
        ),
        ..u
    }
}

/// What follows the end of a tunnel. An update is installed only after a clean end.
pub open spec fn after_work(u: UiView, success: bool) -> AfterWork {
    if u.closing {
        if u.pending {
            if success {
                AfterWork::Install
            } else {
                AfterWork::Stay
            }
        } else {
            AfterWork::Close
        }
    } else if u.restart && success {
        AfterWork::Restart
    } else {
        AfterWork::Stay
    }
}

/// The window once it is decided what follows the end of a tunnel.
pub open spec fn settled(u: UiView, failure: Option<Seq<char>>, clock: Clock) -> UiView {
    let e = ended(u, failure, clock);
    if u.closing && u.pending && failure is Some {
        UiView {
            closing: false,
            pending: false,
            history: logged(e.history, "连接清理失败，已取消安装更新。请查看日志。"@, clock),
            ..e
        }
    } else if !u.closing {
        UiView { restart: false, ..e }
    } else {
        e
    }
}

/// The window after it looked at the feed: new lines are shown, and a new state is taken.
pub open spec fn observed(u: UiView, feed: FeedView, now: u64, clock: Clock) -> UiView {
    UiView {
        history: all_logged(u.history, feed.lines, clock),
        status: feed.status,
        connected_at: if u.status != feed.status && feed.status == Status::Connected {
            Some(now)
        } else {
            u.connected_at
        },
        ..u
    }
}

impl Ui {
    /// Looks at the feed; true where there are new lines.
    pub fn observe(&mut self, feed: &mut Feed, now: u64, clock: Clock) -> (r: bool)
        ensures
            r == (old(feed)@.lines.len() > 0),
            final(self)@ == observed(old(self)@, old(feed)@, now, clock),
            final(feed)@ == (FeedView { lines: seq![], ..old(feed)@ }),
    {
        let ghost before = self@;
        let ghost taken = feed@;
        let total: usize = feed.lines.len();
        for i in 0..total
            invariant
                total == taken.lines.len(),
                feed.lines@.len() == total - i,
                feed@.status == taken.status,
                feed@.lines == taken.lines.skip(i as int),
                self@ == (UiView {
                    history: all_logged(before.history, taken.lines.take(i as int), clock),
                    ..before
                }),
        {
            let ghost left = feed@.lines;
            assert(left[0] == taken.lines[i as int]);
            match feed.lines.pop_front() {
                Some(line) => {
                    assert(line@ == left[0]);
                    assert(feed@.lines =~= left.skip(1));
                    assert(left.skip(1) =~= taken.lines.skip(i + 1));
                    assert(taken.lines.take(i + 1).drop_last() =~= taken.lines.take(i as int));
                    self.append(line.as_str(), clock);
                },
                None => {},
            }
        }
        assert(taken.lines.take(total as int) =~= taken.lines);
        assert(feed@.lines =~= seq![]);
        if self.status != feed.status {
            self.status = feed.status;
            if feed.status == Status::Connected {
                self.connected_at = Some(now);
            }
        }
        assert(self@ =~= observed(before, taken, now, clock));
        total > 0
    }

    /// Begins to connect the selected profile; none where a tunnel is running.
    pub fn start(&self, selected: Option<usize>) -> (r: Result<Option<usize>, &'static str>)
        ensures
            match r {
                Ok(None) => self@.working,
                Ok(Some(i)) => !self@.working && selected == Some(i),
                Err(words) => !self@.working && selected is None && words@ == "请先导入或新建配置"@,
            },
    {
        if self.working {
            return Ok(None);
        }
        match selected {
            Some(i) => Ok(Some(i)),
            None => Err("请先导入或新建配置"),
        }
    }

    /// Shows that a tunnel is about to start.
    pub fn connecting(&mut self, clock: Clock)
        ensures
            final(self)@ == (UiView {
                connected_at: None,
                stopping: false,
                status: Status::Connecting,
                history: logged(old(self)@.history, "开始连接：正在检查配置并建立隧道…"@, clock),
                ..old(self)@
            }),
    {
        self.connected_at = None;
        self.stopping = false;
        self.status = Status::Connecting;
        self.append("开始连接：正在检查配置并建立隧道…", clock);
    }

    /// A tunnel has been started.
    pub fn started(&mut self)
        ensures
            final(self)@ == (UiView { working: true, ..old(self)@ }),
    {
        self.working = true;
    }

    /// Asks the tunnel to end; true where there is one to ask.
    pub fn stop(&mut self, restart: bool, clock: Clock) -> (r: bool)
        ensures
            r == old(self)@.working,
            final(self)@ == after_stop(old(self)@, restart, clock),
    {
        self.restart = restart;
        if !self.working {
            return false;
        }
        self.stopping = true;
        if restart {
            self.append("正在断开，清理完成后重新连接…", clock);
        } else {
            self.append("正在断开并清理 WireGuard 接口与路由…", clock);
        }
        true
    }

    /// Takes the end of the tunnel, with the reason where it failed.
    pub fn finished(&mut self, failure: Option<&str>, clock: Clock) -> (r: AfterWork)
        ensures
            r == after_work(old(self)@, failure is None),
            final(self)@ == settled(old(self)@, crate::text::str_view(failure), clock),
    {
        let ghost before = self@;
        let ghost reason = crate::text::str_view(failure);
        self.working = false;
        self.stopping = false;
        self.connected_at = None;
        let success = failure.is_none();
        match failure {
            None => {
                self.status = Status::Idle;
                self.append("已断开连接，清理完成。", clock);
            },
            Some(words) => {
                self.status = Status::Failed;
                let told = crate::text::joined("连接失败：", words);
                self.append(told.as_str(), clock);
            },
        }
        assert(self@ =~= ended(before, reason, clock));
        if self.closing {
            if self.pending {
                if !success {
                    self.closing = false;
                    self.pending = false;
                    self.append("连接清理失败，已取消安装更新。请查看日志。", clock);
                    return AfterWork::Stay;
                }
                return AfterWork::Install;
            }
            return AfterWork::Close;
        }
        let again = self.restart;
        self.restart = false;
        if again && success {
            AfterWork::Restart
        } else {
            AfterWork::Stay
        }
    }

    /// Takes a wish to close the window.
    pub fn close(&mut self, clock: Clock) -> (r: CloseStep)
        ensures
            r == if old(self)@.working {
                CloseStep::Wait
            } else {
                CloseStep::Destroy
            },
            final(self)@ == if old(self)@.working {
                after_stop(UiView { closing: true, ..old(self)@ }, false, clock)
            } else {
                old(self)@
            },
    {
        if self.working {
            self.closing = true;
            let _ = self.stop(false, clock);
            CloseStep::Wait
        } else {
            CloseStep::Destroy
        }
    }

    /// Shows that the installation could not be started, and stays.
    pub fn install_failed(&mut self, reason: &str, clock: Clock)
        ensures
            final(self)@ == (UiView {
                closing: false,
                history: logged(old(self)@.history, "无法安装更新："@ + reason@, clock),
                ..old(self)@
            }),
    {
        self.closing = false;
        let told = crate::text::joined("无法安装更新：", reason);
        self.append(told.as_str(), clock);
    }

    /// Takes the package that waits to be installed; true where there is one.
    pub fn take_pending(&mut self) -> (r: bool)
        ensures
            r == old(self)@.pending,
            final(self)@ == (UiView { pending: false, ..old(self)@ }),
    {
        let r = self.pending;
        self.pending = false;
        r
    }
}

// ---------------------------------------------------------------- what is shown

/// A duration in hours, minutes and seconds.
pub open spec fn duration(secs: u64) -> Seq<char> {
    two_digits((secs / 3600) as nat) + ":"@ + two_digits(((secs / 60) % 60) as nat) + ":"@
        + two_digits((secs % 60) as nat)
}

/// The state as the window shows it.
pub open spec fn state_of(u: UiView, now: u64) -> Seq<char> {
    if u.stopping {
        "● 正在断开…"@
    } else {
        match u.status {
            Status::Idle => "● 未连接"@,
            Status::Connecting => "● 正在连接…"@,
            Status::Reconnecting => "● 连接中断，正在重连…"@,
            Status::Failed => "● 连接失败，请查看日志"@,
            Status::Connected => "● 隧道已连接    "@ + duration(
                match u.connected_at {
                    Some(t) => since(t, now) / 1_000_000_000,
                    None => 0,
                },
            ),
        }
    }
}

/// The state as the icon shows it.
pub open spec fn tip_of(u: UiView) -> Seq<char> {
    if u.closing {
        "xxtab · 正在退出"@
    } else if u.stopping {
        "xxtab · 正在断开"@
    } else {
        match u.status {
            Status::Idle => "xxtab · 未连接"@,
            Status::Connecting => "xxtab · 正在连接"@,
            Status::Connected => "xxtab · 隧道已连接"@,
            Status::Reconnecting => "xxtab · 正在重连"@,
            Status::Failed => "xxtab · 连接失败，点击查看日志"@,
        }
    }
}

/// The color of the state, as the system writes colors.
pub open spec fn color_of(status: Status) -> u32 {
    match status {
        Status::Connected => 0x388E00,
        Status::Failed => 0x3030C0,
        Status::Connecting => 0x0080A0,
        Status::Reconnecting => 0x0080A0,
        Status::Idle => 0x666666,
    }
}

impl Ui {
    /// The state as the window shows it.
    pub fn state_text(&self, now: u64) -> (r: String)
        ensures
            r@ == state_of(self@, now),
    {
        if self.stopping {
            return "● 正在断开…".to_owned();
        }
        match self.status {
            Status::Idle => "● 未连接".to_owned(),
            Status::Connecting => "● 正在连接…".to_owned(),
            Status::Reconnecting => "● 连接中断，正在重连…".to_owned(),
            Status::Failed => "● 连接失败，请查看日志".to_owned(),
            Status::Connected => {
                let secs: u64 = match self.connected_at {
                    Some(t) => elapsed(t, now) / 1_000_000_000,
                    None => 0,
                };
                let mut out = String::new();
                out.append("● 隧道已连接    ");
                push_two_digits(&mut out, secs / 3600);
                out.append(":");
                push_two_digits(&mut out, (secs / 60) % 60);
                out.append(":");
                push_two_digits(&mut out, secs % 60);
                assert(out@ =~= state_of(self@, now));
                out
            },
        }
    }

    /// The state as the icon shows it.
    pub fn tip(&self) -> (r: &'static str)
        ensures
            r@ == tip_of(self@),
    {
        if self.closing {
            "xxtab · 正在退出"
        } else if self.stopping {
            "xxtab · 正在断开"
        } else {
            match self.status {
                Status::Idle => "xxtab · 未连接",
                Status::Connecting => "xxtab · 正在连接",
                Status::Connected => "xxtab · 隧道已连接",
                Status::Reconnecting => "xxtab · 正在重连",
                Status::Failed => "xxtab · 连接失败，点击查看日志",
            }
        }
    }

    /// The color of the state.
    pub fn status_color(&self) -> (r: u32)
        ensures
            r == color_of(self@.status),
    {
        match self.status {
            Status::Connected => 0x388E00,
            Status::Failed => 0x3030C0,
            Status::Connecting | Status::Reconnecting => 0x0080A0,
            Status::Idle => 0x666666,
        }
    }
}

/// The value of the first `Address` setting.
pub open spec fn address_in(all: Seq<Seq<char>>) -> Seq<char>
    decreases all.len(),
{
    if all.len() == 0 {
        Seq::empty()
    } else {
        match split_first(all[0], '=') {
            Some((key, value)) if trimmed(key) == "Address"@ => trimmed(value),
            _ => address_in(all.skip(1)),
        }
    }
}

/// What the window tells of the selected profile: its address, and its server.
pub fn summary(wireguard: &str, server: &str) -> (r: String)
    ensures
        r@ == address_in(lines(wireguard@)) + "    ·    "@ + server@,
{
    let chars = chars_of(wireguard);
    let all = lines_of(&chars);
    let ghost v = views(all@);
    let mut out = String::new();
    let mut looking = true;
    assert(v.skip(0) =~= v);
    for i in 0..all.len()
        invariant
            v == views(all@),
            looking ==> out@ == Seq::<char>::empty() && address_in(v) == address_in(
                v.skip(i as int),
            ),
            !looking ==> out@ == address_in(v),
    {
        if looking {
            assert(v.skip(i as int)[0] == all@[i as int]@);
            assert(v.skip(i as int).skip(1) =~= v.skip(i + 1));
            if let Some((key, value)) = split_once(all[i], '=') {
                if spells(trim(key), "Address") {
                    out = text_of(trim(value));
                    looking = false;
                }
            }
        }
    }
    assert(v.skip(all@.len() as int) =~= Seq::empty());
    out.append("    ·    ");
    out.append(server);
    assert(out@ =~= address_in(lines(wireguard@)) + "    ·    "@ + server@);
    out
}

// ---------------------------------------------------------------- updates

/// What a finished search or download leads to.
#[derive(Debug)]
pub enum Prompt {
    Nothing,
    /// Tell something, under a title.
    Tell(&'static str, String),
    /// Ask whether to download, under a title.
    AskDownload(&'static str, String),
    /// Ask whether to install, under a title.
    AskInstall(&'static str, &'static str),
    /// Tell that something failed.
    Error(String),
}

#[verifier::ext_equal]
pub enum PromptView {
    Nothing,
    Tell(Seq<char>, Seq<char>),
    AskDownload(Seq<char>, Seq<char>),
    AskInstall(Seq<char>, Seq<char>),
    Error(Seq<char>),
}

impl View for Prompt {
    type V = PromptView;

    open spec fn view(&self) -> PromptView {
        match *self {
            Prompt::Nothing => PromptView::Nothing,
            Prompt::Tell(title, text) => PromptView::Tell(title@, text@),
            Prompt::AskDownload(title, text) => PromptView::AskDownload(title@, text@),
            Prompt::AskInstall(title, text) => PromptView::AskInstall(title@, text@),
            Prompt::Error(text) => PromptView::Error(text@),
        }
    }
}

/// The line that tells that an update failed.
pub open spec fn update_failure(reason: Seq<char>) -> Seq<char> {
    "更新失败："@ + reason
}

/// What a search that ended leads to. One that began by itself only brings news.
pub open spec fn after_check(c: CheckView, quiet: bool) -> PromptView {
    match (c.available, c.release) {
        (true, Some(release)) => PromptView::AskDownload(
            "发现新版本"@,
            "当前版本："@ + c.current + "\n新版本："@ + release.version
                + "\n\n从 GitHub Releases 下载更新？\n下载完成后将再次询问是否安装。"@,
        ),
        (true, None) => if quiet {
            PromptView::Nothing
        } else {
            PromptView::Error(update_failure("缺少更新信息"@))
        },
        (false, release) => if quiet {
            PromptView::Nothing
        } else {
            PromptView::Tell(
                "检查更新"@,
                "当前版本："@ + c.current + if release is None {
                    "\nGitHub 尚未发布正式版本。"@
                } else {
                    "\n没有更新的正式版本。"@
                },
            )
        },
    }
}

/// The line that tells that a package was downloaded.
pub open spec fn download_line(version: Seq<char>, path: Seq<char>) -> Seq<char> {
    "更新 "@ + version + " 下载完成，SHA256 校验通过："@ + path
}

/// What a wish to install leads to.
#[derive(Clone, Copy, PartialEq, Eq, Structural, Debug)]
pub enum InstallStep {
    /// The tunnel is asked to end first.
    Wait,
    /// Start the installation, and close.
    Launch,
}

impl Ui {
    /// Begins to look for an update, or to download one; false where neither is open. `quiet` tells
    /// that it begins by itself.
    pub fn start_update(&mut self, download: bool, quiet: bool, clock: Clock) -> (r: bool)
        ensures
            r == (!old(self)@.updating && !old(self)@.closing),
            final(self)@ == if r {
                UiView {
                    updating: true,
                    quiet,
                    history: logged(
                        old(self)@.history,
                        if download {
                            "正在从 GitHub 下载更新并校验 SHA256…"@
                        } else {
                            "正在检查 GitHub Releases…"@
                        },
                        clock,
                    ),
                    ..old(self)@
                }
            } else {
                old(self)@
            },
    {
        if self.updating || self.closing {
            return false;
        }
        if download {
            self.append("正在从 GitHub 下载更新并校验 SHA256…", clock);
        } else {
            self.append("正在检查 GitHub Releases…", clock);
        }
        self.updating = true;
        self.quiet = quiet;
        true
    }

    /// Whether the end of a search or a download can be dealt with.
    pub fn update_ready(&self, enabled: bool, ended: bool) -> (r: bool)
        ensures
            r == (!self@.closing && enabled && self@.updating && ended),
    {
        !self.closing && enabled && self.updating && ended
    }

    /// Takes what a search found.
    pub fn checked(&mut self, check: &Check, clock: Clock) -> (r: Prompt)
        ensures
            r@ == after_check(check@, old(self)@.quiet),
            final(self)@ == (UiView {
                updating: false,
                history: if check@.available && check@.release is None {
                    logged(old(self)@.history, update_failure("缺少更新信息"@), clock)
                } else {
                    old(self)@.history
                },
                ..old(self)@
            }),
    {
        self.updating = false;
        if check.available {
            match &check.release {
                Some(release) => {
                    let mut text = String::new();
                    text.append("当前版本：");
                    text.append(check.current.as_str());
                    text.append("\n新版本：");
                    text.append(release.version.as_str());
                    text.append(
                        "\n\n从 GitHub Releases 下载更新？\n下载完成后将再次询问是否安装。",
                    );
                    assert(text@ =~= after_check(check@, self@.quiet)->AskDownload_1);
                    Prompt::AskDownload("发现新版本", text)
                },
                None => self.failed_update("缺少更新信息", clock),
            }
        } else if self.quiet {
            Prompt::Nothing
        } else {
            let mut text = String::new();
            text.append("当前版本：");
            text.append(check.current.as_str());
            if check.release.is_none() {
                text.append("\nGitHub 尚未发布正式版本。");
            } else {
                text.append("\n没有更新的正式版本。");
            }
            assert(text@ =~= after_check(check@, self@.quiet)->Tell_1);
            Prompt::Tell("检查更新", text)
        }
    }

    /// Takes a search or a download that failed: it is logged, and told unless it began by itself.
    pub fn update_failed(&mut self, reason: &str, clock: Clock) -> (r: Prompt)
        ensures
            r@ == if old(self)@.quiet {
                PromptView::Nothing
            } else {
                PromptView::Error(update_failure(reason@))
            },
            final(self)@ == (UiView {
                updating: false,
                history: logged(old(self)@.history, update_failure(reason@), clock),
                ..old(self)@
            }),
    {
        self.updating = false;
        self.failed_update(reason, clock)
    }

    fn failed_update(&mut self, reason: &str, clock: Clock) -> (r: Prompt)
        ensures
            r@ == if old(self)@.quiet {
                PromptView::Nothing
            } else {
                PromptView::Error(update_failure(reason@))
            },
            final(self)@ == (UiView {
                history: logged(old(self)@.history, update_failure(reason@), clock),
                ..old(self)@
            }),
    {
        let told = crate::text::joined("更新失败：", reason);
        self.append(told.as_str(), clock);
        if self.quiet {
            Prompt::Nothing
        } else {
            Prompt::Error(told)
        }
    }

    /// Takes a package that was downloaded and verified.
    pub fn downloaded(&mut self, download: &Download, clock: Clock) -> (r: Prompt)
        ensures
            r@ == PromptView::AskInstall(
                "安装更新"@,
                "更新包校验通过。\n立即断开连接并退出，打开更新安装向导？\n已有配置会保留。"@,
            ),
            final(self)@ == (UiView {
                updating: false,
                history: logged(
                    old(self)@.history,
                    download_line(download.version@, download.path@),
                    clock,
                ),
                ..old(self)@
            }),
    {
        self.updating = false;
        let mut told = String::new();
        told.append("更新 ");
        told.append(download.version.as_str());
        told.append(" 下载完成，SHA256 校验通过：");
        told.append(download.path.as_str());
        assert(told@ =~= download_line(download.version@, download.path@));
        self.append(told.as_str(), clock);
        Prompt::AskInstall(
            "安装更新",
            "更新包校验通过。\n立即断开连接并退出，打开更新安装向导？\n已有配置会保留。",
        )
    }

    /// Takes a wish to install: the tunnel ends first.
    pub fn install(&mut self, clock: Clock) -> (r: InstallStep)
        ensures
            r == if old(self)@.working {
                InstallStep::Wait
            } else {
                InstallStep::Launch
            },
            final(self)@ == if old(self)@.working {
                after_stop(UiView { pending: true, closing: true, ..old(self)@ }, false, clock)
            } else {
                UiView { pending: true, ..old(self)@ }
            },
    {
        self.pending = true;
        if self.working {
            self.closing = true;
            let _ = self.stop(false, clock);
            InstallStep::Wait
        } else {
            InstallStep::Launch
        }
    }
}

// ---------------------------------------------------------------- messages

/// What the icon reports.
#[derive(Clone, Copy, PartialEq, Eq, Structural, Debug)]
pub enum TrayAction {
    Menu,
    Restore,
    Nothing,
}

/// What an event of the icon leads to: the right button and the menu key open the menu, the left
/// button and the keyboard bring the window back.
pub open spec fn tray_action_of(event: u32) -> TrayAction {
    let code = event % 0x10000;
    if code == 0x7B || code == 0x205 {
        TrayAction::Menu
    } else if code == 0x400 || code == 0x401 || code == 0x202 || code == 0x203 {
        TrayAction::Restore
    } else {
        TrayAction::Nothing
    }
}

pub fn tray_action(event: u32) -> (r: TrayAction)
    ensures
        r == tray_action_of(event),
{
    let code: u32 = event % 0x10000;
    if code == 0x7B || code == 0x205 {
        TrayAction::Menu
    } else if code == 0x400 || code == 0x401 || code == 0x202 || code == 0x203 {
        TrayAction::Restore
    } else {
        TrayAction::Nothing
    }
}

/// What the system tells the main window.
#[derive(Clone, Copy, PartialEq, Eq, Structural, Debug)]
pub enum Message {
    /// The bar that shows the icons is new.
    TaskbarCreated,
    Tray(u32),
    RestoreWindow,
    /// A command, with the notification of its control.
    Command(usize),
    Timer,
    /// The size changed, or the window was minimized.
    Size(bool),
    Close,
    /// The color of a text is asked for; whether it is that of the state.
    Color(bool),
    MinSize,
    DpiChanged,
    Destroy,
    Other,
}

/// What is to be done about a message.
#[derive(Clone, Copy, PartialEq, Eq, Structural, Debug)]
pub enum Reaction {
    /// Leave it to the system.
    Default,
    Nothing,
    /// Add the icon again, now or once the window is free.
    AddIcon,
    AddIconLater,
    ShowMenu,
    Restore,
    /// Ask the window to close.
    PostClose,
    Run(usize),
    Tick,
    Minimize,
    Layout,
    Close,
    Color(u32),
    MinSize,
    Resize,
    Quit,
}

/// The number of a command in what the system tells of it.
pub open spec fn command_id(w: usize) -> usize {
    w % 0x10000
}

/// What is to be done about a message. `busy` tells that the window, or the editor, is in the midst
/// of another message, `open` that the window takes commands.
pub open spec fn reaction(u: UiView, message: Message, busy: bool, editor_busy: bool, open: bool) -> Reaction {
    match message {
        Message::TaskbarCreated => if busy {
            Reaction::AddIconLater
        } else {
            Reaction::AddIcon
        },
        Message::Tray(event) => if busy || editor_busy {
            Reaction::Nothing
        } else {
            match tray_action_of(event) {
                TrayAction::Menu => Reaction::ShowMenu,
                TrayAction::Restore => Reaction::Restore,
                TrayAction::Nothing => Reaction::Nothing,
            }
        },
        Message::RestoreWindow => Reaction::Restore,
        Message::Command(w) => if busy || !open {
            Reaction::Nothing
        } else if command_id(w) == EXIT && !u.closing {
            Reaction::PostClose
        } else if command_id(w) != CONFIG || (w / 0x10000) % 0x10000 == 1 {
            Reaction::Run(command_id(w))
        } else {
            Reaction::Nothing
        },
        Message::Timer => if busy {
            Reaction::Nothing
        } else {
            Reaction::Tick
        },
        Message::Size(minimized) => if busy {
            Reaction::Nothing
        } else if minimized {
            Reaction::Minimize
        } else {
            Reaction::Layout
        },
        Message::Close => if busy {
            Reaction::Nothing
        } else {
            Reaction::Close
        },
        Message::Color(own) => if own && !busy {
            Reaction::Color(color_of(u.status))
        } else {
            Reaction::Default
        },
        Message::MinSize => Reaction::MinSize,
        Message::DpiChanged => Reaction::Resize,
        Message::Destroy => Reaction::Quit,
        Message::Other => Reaction::Default,
    }
}

impl Ui {
    /// What is to be done about a message.
    pub fn react(&self, message: Message, busy: bool, editor_busy: bool, open: bool) -> (r: Reaction)
        ensures
            r == reaction(self@, message, busy, editor_busy, open),
    {
        match message {
            Message::TaskbarCreated => if busy {
                Reaction::AddIconLater
            } else {
                Reaction::AddIcon
            },
            Message::Tray(event) => {
                if busy || editor_busy {
                    return Reaction::Nothing;
                }
                match tray_action(event) {
                    TrayAction::Menu => Reaction::ShowMenu,
                    TrayAction::Restore => Reaction::Restore,
                    TrayAction::Nothing => Reaction::Nothing,
                }
            },
            Message::RestoreWindow => Reaction::Restore,
            Message::Command(w) => {
                let id: usize = w % 0x10000;
                if busy || !open {
                    Reaction::Nothing
                } else if id == EXIT && !self.closing {
                    Reaction::PostClose
                } else if id != CONFIG || (w / 0x10000) % 0x10000 == 1 {
                    Reaction::Run(id)
                } else {
                    Reaction::Nothing
                }
            },
            Message::Timer => if busy {
                Reaction::Nothing
            } else {
                Reaction::Tick
            },
            Message::Size(minimized) => if busy {
                Reaction::Nothing
            } else if minimized {
                Reaction::Minimize
            } else {
                Reaction::Layout
            },
            Message::Close => if busy {
                Reaction::Nothing
            } else {
                Reaction::Close
            },
            Message::Color(own) => if own && !busy {
                Reaction::Color(self.status_color())
            } else {
                Reaction::Default
            },
            Message::MinSize => Reaction::MinSize,
            Message::DpiChanged => Reaction::Resize,
            Message::Destroy => Reaction::Quit,
            Message::Other => Reaction::Default,
        }
    }

    /// Shows that a command failed.
    pub fn command_failed(&mut self, reason: &str, clock: Clock)
        ensures
            final(self)@ == (UiView {
                history: logged(old(self)@.history, "操作失败："@ + reason@, clock),
                ..old(self)@
            }),
    {
        let told = crate::text::joined("操作失败：", reason);
        self.append(told.as_str(), clock);
    }
}

// ---------------------------------------------------------------- laws

proof fn lemma_shown_bounded(h: Seq<Seq<char>>)
    ensures
        !too_much(shown(h)),
    decreases h.len(),
{
    if h.len() > 0 && too_much(h) {
        lemma_shown_bounded(h.skip(1));
    }
}

/// However much is logged, no more than 256 lines and 48 KiB are shown.
pub proof fn history_is_bounded(h: Seq<Seq<char>>, s: Seq<char>, clock: Clock)
    ensures
        logged(h, s, clock).len() <= MAX_HISTORY,
        total_bytes(logged(h, s, clock)) <= MAX_HISTORY_BYTES,
{
    lemma_shown_bounded(h.push(entry(s, clock)));
}

/// A line that is shown is one line: no message can add another.
pub proof fn messages_stay_on_their_line(s: Seq<char>)
    ensures
        forall|i: int| 0 <= i < clean(s).len() ==> #[trigger] clean(s)[i] != '\r' && clean(s)[i]
            != '\n',
{
    lemma_without_breaks(s);
}

proof fn lemma_without_breaks(s: Seq<char>)
    ensures
        forall|i: int| 0 <= i < without_breaks(s).len() ==> #[trigger] without_breaks(s)[i] != '\r'
            && without_breaks(s)[i] != '\n',
    decreases s.len(),
{
    if s.len() > 0 {
        let before = without_breaks(s.drop_last());
        lemma_without_breaks(s.drop_last());
        assert forall|i: int| 0 <= i < without_breaks(s).len() implies #[trigger] without_breaks(
            s,
        )[i] != '\r' && without_breaks(s)[i] != '\n' by {
            if i < before.len() {
                assert(without_breaks(s)[i] == before[i]);
            }
        }
    }
}

/// Connecting is open exactly where disconnecting is not, in a window with a selected profile that
/// is neither ending a tunnel nor closing.
pub proof fn connect_and_disconnect_exclude_each_other(u: UiView)
    ensures
        !(action_open(u, CONNECT, true) && action_open(u, DISCONNECT, true)),
        !u.closing && !u.stopping ==> action_open(u, CONNECT, true) != action_open(
            u,
            DISCONNECT,
            true,
        ),
        action_open(u, DISCONNECT, true) == action_open(u, RECONNECT, true),
{
}

/// While a tunnel runs, no command leads to a change of the profiles.
pub proof fn profiles_are_fixed_while_working(u: UiView, id: usize, selected: Option<usize>)
    requires
        u.working,
    ensures
        !(step_of(u, id, selected) is New),
        !(step_of(u, id, selected) is Import),
        !(step_of(u, id, selected) is Edit),
        !(step_of(u, id, selected) is Select),
        !(step_of(u, id, selected) is Connect),
{
}

/// A window that is asked to close while a tunnel runs closes once the tunnel has ended, and opens
/// nothing meanwhile.
pub proof fn closing_waits_for_the_tunnel(u: UiView, clock: Clock, failure: Option<Seq<char>>)
    requires
        u.working,
        !u.pending,
    ensures
        ({
            let asked = after_stop(UiView { closing: true, ..u }, false, clock);
            &&& asked.working && asked.closing && asked.stopping
            &&& !action_open(asked, CONNECT, true) && !action_open(asked, DISCONNECT, true)
            &&& after_work(asked, failure is None) == AfterWork::Close
        }),
{
}

/// While the window is in the midst of a message, no other changes it.
pub proof fn busy_windows_do_not_reenter(u: UiView, message: Message, editor_busy: bool, open: bool)
    ensures
        ({
            let r = reaction(u, message, true, editor_busy, open);
            !(r is Run) && !(r is Tick) && !(r is Close) && !(r is Layout) && !(r is Minimize) && !(
            r is ShowMenu) && !(r is AddIcon)
        }),
{
}

/// A search that began by itself says nothing unless there is something new.
pub proof fn quiet_checks_bring_only_news(c: CheckView)
    ensures
        after_check(c, true) is Nothing || after_check(c, true) is AskDownload,
        after_check(c, true) is AskDownload <==> c.available && c.release is Some,
{
}

/// An update is never installed over a tunnel that did not end cleanly: the window stays.
pub proof fn failed_cleanup_cancels_the_update(u: UiView, reason: Seq<char>, clock: Clock)
    requires
        u.closing,
        u.pending,
    ensures
        after_work(u, false) == AfterWork::Stay,
        !settled(u, Some(reason), clock).closing,
        !settled(u, Some(reason), clock).pending,
{
}

/// Whether lines are the newest of others, as many as 256 and 48 KiB allow: one more would be too
/// many.
pub open spec fn newest(all: Seq<Seq<char>>, kept: Seq<Seq<char>>, gone: int) -> bool {
    &&& 0 <= gone <= all.len()
    &&& kept == all.skip(gone)
    &&& kept.len() <= 256 && total_bytes(kept) <= 49_152
    &&& gone > 0 ==> all.skip(gone - 1).len() > 256 || total_bytes(all.skip(gone - 1)) > 49_152
}

proof fn lemma_shown_is_newest(h: Seq<Seq<char>>) -> (gone: int)
    ensures
        newest(h, shown(h), gone),
    decreases h.len(),
{
    assert(h.skip(0) =~= h);
    if h.len() > 0 && too_much(h) {
        let n = lemma_shown_is_newest(h.skip(1));
        assert(h.skip(1).skip(n) =~= h.skip(n + 1));
        if n > 0 {
            assert(h.skip(1).skip(n - 1) =~= h.skip(n));
        }
        n + 1
    } else {
        0
    }
}

/// A message is shown behind the others, and the oldest go only where it is too much: no more than
/// 256 lines and 48 KiB are shown, and no fewer than that allows.
pub proof fn newest_lines_are_shown(h: Seq<Seq<char>>, s: Seq<char>, clock: Clock)
    ensures
        exists|gone: int| #[trigger] newest(h.push(entry(s, clock)), logged(h, s, clock), gone),
{
    let gone = lemma_shown_is_newest(h.push(entry(s, clock)));
    assert(newest(h.push(entry(s, clock)), logged(h, s, clock), gone));
}

/// What is shown of a message is the time, and its characters but for line breaks, 1024 at most.
pub proof fn messages_are_shown_with_the_time(s: Seq<char>, clock: Clock)
    ensures
        ({
            let text = s.filter(|c: char| c != '\r' && c != '\n');
            entry(s, clock) == "["@ + two_digits(clock.hour as nat) + ":"@ + two_digits(
                clock.minute as nat,
            ) + ":"@ + two_digits(clock.second as nat) + "] "@ + if text.len() <= 1024 {
                text
            } else {
                text.take(1024)
            }
        }),
{
    lemma_breaks_are_filtered(s);
}

proof fn lemma_breaks_are_filtered(s: Seq<char>)
    ensures
        without_breaks(s) == s.filter(|c: char| c != '\r' && c != '\n'),
    decreases s.len(),
{
    reveal(Seq::filter);
    if s.len() > 0 {
        lemma_breaks_are_filtered(s.drop_last());
    }
}

/// What each command leads to. A tunnel is connected where none runs and a profile is selected, and
/// ended or begun anew where one runs; neither while it ends or the window closes. Profiles are
/// made, imported, edited and chosen where no tunnel runs.
pub proof fn commands_lead_to_their_steps(u: UiView, id: usize, selected: Option<usize>)
    ensures
        ({
            let free = !u.closing && !u.stopping;
            let step = step_of(u, id, selected);
            &&& step is Connect <==> id == 101 && free && !u.working && selected is Some
            &&& step is Disconnect <==> id == 102 && free && u.working
            &&& step is Reconnect <==> id == 103 && free && u.working
            &&& step is New <==> id == 104 && !u.working
            &&& step is Import <==> id == 105 && !u.working
            &&& step is Edit <==> id == 106 && !u.working && selected is Some
            &&& step matches Step::Edit(i) ==> selected == Some(i)
            &&& step is View <==> id == 110 && selected is Some
            &&& step matches Step::View(i) ==> selected == Some(i)
            &&& step is Select <==> id == 100 && !u.working
            &&& step matches Step::Select(s) ==> s == selected
            &&& step is Clear <==> id == 107
            &&& step is Exit <==> id == 108
            &&& step is About <==> id == 109
            &&& step is CheckUpdate <==> id == 111
        }),
{
}

/// A control is open exactly where its command leads to something.
pub proof fn open_controls_lead_somewhere(u: UiView, selected: Option<usize>)
    ensures
        ({
            let b = buttons_of(u, selected is Some);
            &&& b.connect <==> step_of(u, 101, selected) is Connect
            &&& b.disconnect <==> step_of(u, 102, selected) is Disconnect
            &&& b.reconnect <==> step_of(u, 103, selected) is Reconnect
            &&& b.new <==> step_of(u, 104, selected) is New
            &&& b.import <==> step_of(u, 105, selected) is Import
            &&& b.edit <==> step_of(u, 106, selected) is Edit
            &&& b.view <==> step_of(u, 110, selected) is View
            &&& b.combo <==> step_of(u, 100, selected) is Select
            &&& b.update <==> !u.updating && !u.closing
            &&& b.connect <==> action_open(u, 101, selected is Some)
            &&& b.disconnect <==> action_open(u, 102, selected is Some)
            &&& b.reconnect <==> action_open(u, 103, selected is Some)
        }),
{
}

/// What is asked of a tunnel that runs is kept until it ends: it is ending from then on, and begins
/// anew where that was asked.
pub proof fn tunnels_are_asked_to_end(u: UiView, restart: bool, clock: Clock)
    ensures
        after_stop(u, restart, clock).restart == restart,
        u.working ==> after_stop(u, restart, clock).stopping,
        after_stop(u, restart, clock) == (UiView {
            restart,
            stopping: u.stopping || u.working,
            history: after_stop(u, restart, clock).history,
            ..u
        }),
        !u.working ==> after_stop(u, restart, clock).history == u.history,
        u.working ==> after_stop(u, restart, clock).history == logged(
            u.history,
            if restart {
                "正在断开，清理完成后重新连接…"@
            } else {
                "正在断开并清理 WireGuard 接口与路由…"@
            },
            clock,
        ),
{
}

/// What follows the end of a tunnel. A window that closes closes, or installs the update where the
/// end was clean; one that does not close stays, or begins anew where that was asked and the end
/// was clean. Nothing is asked any more afterwards.
pub proof fn tunnels_end(u: UiView, failure: Option<Seq<char>>, clock: Clock)
    ensures
        ({
            let after = settled(u, failure, clock);
            let next = after_work(u, failure is None);
            &&& !after.working && !after.stopping && after.connected_at is None
            &&& after.status == if failure is None {
                Status::Idle
            } else {
                Status::Failed
            }
            &&& next == AfterWork::Install <==> u.closing && u.pending && failure is None
            &&& next == AfterWork::Close <==> u.closing && !u.pending
            &&& next == AfterWork::Restart <==> !u.closing && u.restart && failure is None
            &&& !u.closing ==> !after.restart && !after.closing
            &&& after.closing <==> u.closing && !(u.pending && failure is Some)
            &&& after.pending <==> u.pending && !(u.closing && failure is Some)
            &&& after.updating == u.updating && after.quiet == u.quiet
            &&& !(u.closing && u.pending && failure is Some) ==> after.history == logged(
                u.history,
                match failure {
                    None => "已断开连接，清理完成。"@,
                    Some(reason) => "连接失败："@ + reason,
                },
                clock,
            )
            &&& u.closing && u.pending && failure is Some ==> after.history == logged(
                logged(u.history, "连接失败："@ + failure->0, clock),
                "连接清理失败，已取消安装更新。请查看日志。"@,
                clock,
            )
        }),
{
}

/// The window takes the state of the feed and shows its lines in their order. It counts from when
/// the tunnel was found connected, not from later looks at it.
pub proof fn feeds_are_observed(u: UiView, feed: FeedView, now: u64, clock: Clock)
    ensures
        ({
            let after = observed(u, feed, now, clock);
            &&& after.status == feed.status
            &&& feed.lines.len() == 0 ==> after.history == u.history
            &&& feed.lines.len() > 0 ==> after.history == logged(
                observed(
                    u,
                    FeedView { lines: feed.lines.drop_last(), ..feed },
                    now,
                    clock,
                ).history,
                feed.lines.last(),
                clock,
            )
            &&& feed.status == Status::Connected && u.status != Status::Connected
                ==> after.connected_at == Some(now)
            &&& feed.status != Status::Connected || u.status == Status::Connected
                ==> after.connected_at == u.connected_at
            &&& after == (UiView {
                status: after.status,
                history: after.history,
                connected_at: after.connected_at,
                ..u
            })
        }),
{
}

/// A duration is told in hours, minutes and seconds that add up to it.
pub proof fn durations_add_up(secs: u64)
    ensures
        exists|h: nat, m: nat, s: nat|
            h * 3600 + m * 60 + s == secs && m < 60 && s < 60 && #[trigger] two_digits(h) + ":"@
                + #[trigger] two_digits(m) + ":"@ + #[trigger] two_digits(s) == duration(secs),
{
    let h = (secs / 3600) as nat;
    let m = ((secs / 60) % 60) as nat;
    let s = (secs % 60) as nat;
    assert(h * 3600 + m * 60 + s == secs) by {
        vstd::arithmetic::div_mod::lemma_div_denominator(secs as int, 60, 60);
    }
    assert(two_digits(h) + ":"@ + two_digits(m) + ":"@ + two_digits(s) == duration(secs));
}

/// What is shown of a tunnel that is connected is how long it has been, in whole seconds.
pub proof fn connected_time_is_shown(u: UiView, now: u64)
    requires
        !u.stopping,
        u.status == Status::Connected,
    ensures
        u.connected_at matches Some(t) ==> (t <= now ==> state_of(u, now)
            == "● 隧道已连接    "@ + duration(((now - t) / 1_000_000_000) as u64)),
        u.connected_at is None ==> state_of(u, now) == "● 隧道已连接    "@ + duration(0),
{
}

/// What is shown of each state, in the window and at the icon; a tunnel that is ending is shown as
/// such, and a window that closes too.
pub proof fn states_are_shown(u: UiView, now: u64)
    ensures
        u.stopping ==> state_of(u, now) == "● 正在断开…"@,
        !u.stopping && u.status == Status::Idle ==> state_of(u, now) == "● 未连接"@,
        !u.stopping && u.status == Status::Connecting ==> state_of(u, now) == "● 正在连接…"@,
        !u.stopping && u.status == Status::Reconnecting ==> state_of(u, now)
            == "● 连接中断，正在重连…"@,
        !u.stopping && u.status == Status::Failed ==> state_of(u, now)
            == "● 连接失败，请查看日志"@,
        u.closing ==> tip_of(u) == "xxtab · 正在退出"@,
        !u.closing && u.stopping ==> tip_of(u) == "xxtab · 正在断开"@,
        !u.closing && !u.stopping ==> tip_of(u) == match u.status {
            Status::Idle => "xxtab · 未连接"@,
            Status::Connecting => "xxtab · 正在连接"@,
            Status::Connected => "xxtab · 隧道已连接"@,
            Status::Reconnecting => "xxtab · 正在重连"@,
            Status::Failed => "xxtab · 连接失败，点击查看日志"@,
        },
        color_of(u.status) == match u.status {
            Status::Connected => 0x388E00u32,
            Status::Failed => 0x3030C0,
            Status::Idle => 0x666666,
            _ => 0x0080A0,
        },
{
}

/// The address that is told of a profile is the value of its first `Address` line; none where there
/// is no such line.
pub proof fn first_address_is_told(all: Seq<Seq<char>>, i: int)
    requires
        0 <= i <= all.len(),
        forall|j: int|
            0 <= j < i ==> !(split_first(#[trigger] all[j], '=') matches Some((key, _)) && trimmed(key)
                == "Address"@),
        i < all.len() ==> (split_first(all[i], '=') matches Some((key, _)) && trimmed(key)
            == "Address"@),
    ensures
        i < all.len() ==> (split_first(all[i], '=') matches Some((_, value)) && address_in(all)
            == trimmed(value)),
        i == all.len() ==> address_in(all) == Seq::<char>::empty(),
    decreases all.len(),
{
    if i > 0 {
        assert(!(split_first(all[0], '=') matches Some((key, _)) && trimmed(key) == "Address"@));
        let rest = all.skip(1);
        assert forall|j: int| 0 <= j < i - 1 implies !(split_first(#[trigger] rest[j], '=') matches Some(
            (key, _),
        ) && trimmed(key) == "Address"@) by {
            assert(rest[j] == all[j + 1]);
        }
        first_address_is_told(rest, i - 1);
    }
}

/// What a search leads to: the question whether to download what is newer, the news that there is
/// nothing, or that something failed; one that began by itself tells news alone.
pub proof fn searches_lead_to_questions(c: CheckView, quiet: bool)
    ensures
        after_check(c, quiet) is AskDownload <==> c.available && c.release is Some,
        after_check(c, quiet) is Tell <==> !c.available && !quiet,
        after_check(c, quiet) is Error <==> c.available && c.release is None && !quiet,
        !(after_check(c, quiet) is AskInstall),
        after_check(c, quiet) matches PromptView::AskDownload(title, text) ==> text == "当前版本："@
            + c.current + "\n新版本："@ + c.release->0.version
            + "\n\n从 GitHub Releases 下载更新？\n下载完成后将再次询问是否安装。"@,
        after_check(c, quiet) matches PromptView::Tell(title, text) ==> text == "当前版本："@
            + c.current + if c.release is None {
            "\nGitHub 尚未发布正式版本。"@
        } else {
            "\n没有更新的正式版本。"@
        },
{
}

/// What the icon reports: the right button and the menu key ask for the menu, the left button, a
/// double click and the keyboard for the window, and nothing else asks for anything.
pub proof fn icon_events(event: u32)
    ensures
        tray_action_of(event) == TrayAction::Menu <==> event % 65536 == 0x7B || event % 65536
            == 0x205,
        tray_action_of(event) == TrayAction::Restore <==> event % 65536 == 0x400 || event % 65536
            == 0x401 || event % 65536 == 0x202 || event % 65536 == 0x203,
{
}

/// What is done about each message: nothing that needs the window while it is busy; commands only
/// while it takes them, and that of the list only where its selection changed. The command that
/// ends the program asks the window to close, once.
pub proof fn messages_lead_to_reactions(
    u: UiView,
    message: Message,
    busy: bool,
    editor_busy: bool,
    open: bool,
)
    ensures
        ({
            let r = reaction(u, message, busy, editor_busy, open);
            &&& message == Message::TaskbarCreated ==> r == if busy {
                Reaction::AddIconLater
            } else {
                Reaction::AddIcon
            }
            &&& message matches Message::Tray(event) ==> r == if busy || editor_busy {
                Reaction::Nothing
            } else {
                match tray_action_of(event) {
                    TrayAction::Menu => Reaction::ShowMenu,
                    TrayAction::Restore => Reaction::Restore,
                    TrayAction::Nothing => Reaction::Nothing,
                }
            }
            &&& message == Message::RestoreWindow ==> r == Reaction::Restore
            &&& message matches Message::Command(w) ==> {
                let id = w % 65536;
                let told = (w / 65536) % 65536;
                &&& r is PostClose <==> !busy && open && id == 108 && !u.closing
                &&& r is Run <==> !busy && open && !(id == 108 && !u.closing) && (id != 100 || told
                    == 1)
                &&& r matches Reaction::Run(own) ==> own == id
                &&& r is PostClose || r is Run || r is Nothing
            }
            &&& message == Message::Timer ==> r == if busy {
                Reaction::Nothing
            } else {
                Reaction::Tick
            }
            &&& message matches Message::Size(minimized) ==> r == if busy {
                Reaction::Nothing
            } else if minimized {
                Reaction::Minimize
            } else {
                Reaction::Layout
            }
            &&& message == Message::Close ==> r == if busy {
                Reaction::Nothing
            } else {
                Reaction::Close
            }
            &&& message matches Message::Color(own) ==> r == if own && !busy {
                Reaction::Color(color_of(u.status))
            } else {
                Reaction::Default
            }
            &&& message == Message::MinSize ==> r == Reaction::MinSize
            &&& message == Message::DpiChanged ==> r == Reaction::Resize
            &&& message == Message::Destroy ==> r == Reaction::Quit
            &&& message == Message::Other ==> r == Reaction::Default
        }),
{
}

/// What is told of an update that failed, and of a package that was downloaded.
pub proof fn words_of_updates(reason: Seq<char>, version: Seq<char>, path: Seq<char>)
    ensures
        update_failure(reason) == "更新失败："@ + reason,
        download_line(version, path) == "更新 "@ + version + " 下载完成，SHA256 校验通过："@ + path,
{
}

/// What lines take is counted in the bytes of their text.
pub proof fn lines_take_their_bytes(h: Seq<Seq<char>>, line: Seq<char>)
    ensures
        total_bytes(seq![]) == 0,
        total_bytes(h.push(line)) == total_bytes(h) + encode_utf8(line).len(),
{
    assert(h.push(line).drop_last() =~= h);
}

} // verus!
