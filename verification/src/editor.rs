//! The window that edits or shows a profile.
use crate::pieces::{
    dos_endings, line_endings_round_trip, to_dos_endings, to_unix_endings, unix_endings,
};
use crate::profiles::{Draft, DraftView};
use crate::text::{chars_of, same};
use vstd::prelude::*;

verus! {

/// The numbers of the commands.
pub const SAVE: usize = 205;

pub const CANCEL: usize = 206;

pub const IMPORT_WG: usize = 207;

/// The largest number of characters of a name, and of a text.
pub const NAME_LIMIT: usize = 60;

pub const TEXT_LIMIT: usize = 131_072;

/// A profile that is being edited or shown.
#[derive(Debug)]
pub struct Editor {
    pub read_only: bool,
    /// The place of the profile; none of a new one.
    pub index: Option<usize>,
    /// The profile as it was opened.
    pub original: Draft,
}

/// What the window shows when it opens.
#[derive(Debug)]
pub struct Opening {
    pub title: &'static str,
    pub name: String,
    pub tunnel: String,
    pub wireguard: String,
    pub hint: &'static str,
    pub cancel: &'static str,
    /// Whether the texts can be changed, and the buttons that save and import are there.
    pub editable: bool,
}

/// The title of the window.
pub open spec fn title_of(read_only: bool, index: Option<usize>) -> Seq<char> {
    if read_only {
        "当前配置（只读）— xxtab"@
    } else if index is Some {
        "编辑配置 — xxtab"@
    } else {
        "新建 / 导入配置 — xxtab"@
    }
}

pub open spec fn hint_of(read_only: bool) -> Seq<char> {
    if read_only {
        "当前选中的已保存配置，只读。"@
    } else {
        "保存时会检查配置格式和密钥。"@
    }
}

/// What a command leads to.
#[derive(Clone, Copy, PartialEq, Eq, Structural, Debug)]
pub enum EditorStep {
    Nothing,
    /// Save the profile, and close where that succeeds.
    Save,
    /// Close, after a question where something would be lost.
    Close,
    /// Choose a WireGuard configuration.
    Import,
}

/// What a command leads to. A profile that is only shown can only be closed.
pub open spec fn editor_step(read_only: bool, id: usize) -> EditorStep {
    if id == CANCEL {
        EditorStep::Close
    } else if read_only {
        EditorStep::Nothing
    } else if id == SAVE {
        EditorStep::Save
    } else if id == IMPORT_WG {
        EditorStep::Import
    } else {
        EditorStep::Nothing
    }
}

/// The profile that the texts of the window give.
pub open spec fn draft_of(name: Seq<char>, tunnel: Seq<char>, wireguard: Seq<char>) -> DraftView {
    DraftView { name, tunnel: unix_endings(tunnel), wireguard: unix_endings(wireguard) }
}

/// The profile that the texts of the window give.
pub fn draft(name: &str, tunnel: &str, wireguard: &str) -> (r: Draft)
    ensures
        r@ == draft_of(name@, tunnel@, wireguard@),
{
    Draft {
        name: name.to_owned(),
        tunnel: to_unix_endings(&chars_of(tunnel)),
        wireguard: to_unix_endings(&chars_of(wireguard)),
    }
}

/// A text as the window shows it.
pub fn shown_text(s: &str) -> (r: String)
    ensures
        r@ == dos_endings(s@),
{
    to_dos_endings(&chars_of(s))
}

/// What the system tells the editor.
#[derive(Clone, Copy, PartialEq, Eq, Structural, Debug)]
pub enum EditorMessage {
    Command(usize),
    Close,
    Size,
    MinSize,
    DpiChanged,
    Other,
}

/// What is to be done about a message.
#[derive(Clone, Copy, PartialEq, Eq, Structural, Debug)]
pub enum EditorReaction {
    /// Leave it to the system.
    Default,
    Nothing,
    Layout,
    Run(EditorStep),
    MinSize,
    Resize,
}

/// What is to be done about a message; `busy` tells that the editor is in the midst of another.
pub open spec fn editor_reaction(read_only: bool, message: EditorMessage, busy: bool) -> EditorReaction {
    match message {
        EditorMessage::Command(w) => if busy {
            EditorReaction::Nothing
        } else {
            EditorReaction::Run(editor_step(read_only, w % 0x10000))
        },
        EditorMessage::Close => if busy {
            EditorReaction::Nothing
        } else {
            EditorReaction::Run(EditorStep::Close)
        },
        EditorMessage::Size => if busy {
            EditorReaction::Nothing
        } else {
            EditorReaction::Layout
        },
        EditorMessage::MinSize => EditorReaction::MinSize,
        EditorMessage::DpiChanged => EditorReaction::Resize,
        EditorMessage::Other => EditorReaction::Default,
    }
}

/// What is to be done about a message while the editor is in the midst of another: whether the
/// profile can be changed makes no difference.
pub fn busy_reaction(message: EditorMessage) -> (r: EditorReaction)
    ensures
        forall|read_only: bool| r == #[trigger] editor_reaction(read_only, message, true),
{
    match message {
        EditorMessage::Command(_) | EditorMessage::Close | EditorMessage::Size => {
            EditorReaction::Nothing
        },
        EditorMessage::MinSize => EditorReaction::MinSize,
        EditorMessage::DpiChanged => EditorReaction::Resize,
        EditorMessage::Other => EditorReaction::Default,
    }
}

impl Editor {
    /// Opens a profile, to edit it or to show it.
    pub fn open(index: Option<usize>, original: Draft, read_only: bool) -> (r: (Self, Opening))
        ensures
            r.0.read_only == read_only,
            r.0.index == index,
            r.0.original@ == original@,
            r.1.title@ == title_of(read_only, index),
            r.1.name@ == original@.name,
            r.1.tunnel@ == dos_endings(original@.tunnel),
            r.1.wireguard@ == dos_endings(original@.wireguard),
            r.1.hint@ == hint_of(read_only),
            r.1.cancel@ == if read_only {
                "关闭"@
            } else {
                "取消"@
            },
            r.1.editable == !read_only,
    {
        let opening = Opening {
            title: if read_only {
                "当前配置（只读）— xxtab"
            } else if index.is_some() {
                "编辑配置 — xxtab"
            } else {
                "新建 / 导入配置 — xxtab"
            },
            name: original.name.clone(),
            tunnel: shown_text(original.tunnel.as_str()),
            wireguard: shown_text(original.wireguard.as_str()),
            hint: if read_only {
                "当前选中的已保存配置，只读。"
            } else {
                "保存时会检查配置格式和密钥。"
            },
            cancel: if read_only {
                "关闭"
            } else {
                "取消"
            },
            editable: !read_only,
        };
        (Editor { read_only, index, original }, opening)
    }

    /// Whether the texts of the window differ from the profile.
    pub fn changed(&self, current: &Draft) -> (r: bool)
        ensures
            r == (current@ != self.original@),
    {
        let alike = same(current.name.as_str(), self.original.name.as_str()) && same(
            current.tunnel.as_str(),
            self.original.tunnel.as_str(),
        ) && same(current.wireguard.as_str(), self.original.wireguard.as_str());
        assert(alike <==> current@ =~= self.original@);
        !alike
    }

    /// Whether the window closes without a question.
    pub fn closes_silently(&self, current: &Draft) -> (r: bool)
        ensures
            r == (self.read_only || current@ == self.original@),
    {
        self.read_only || !self.changed(current)
    }

    /// What a command leads to.
    pub fn command(&self, id: usize) -> (r: EditorStep)
        ensures
            r == editor_step(self.read_only, id),
    {
        if id == CANCEL {
            EditorStep::Close
        } else if self.read_only {
            EditorStep::Nothing
        } else if id == SAVE {
            EditorStep::Save
        } else if id == IMPORT_WG {
            EditorStep::Import
        } else {
            EditorStep::Nothing
        }
    }

    /// What is to be done about a message.
    pub fn react(&self, message: EditorMessage, busy: bool) -> (r: EditorReaction)
        ensures
            r == editor_reaction(self.read_only, message, busy),
    {
        if busy {
            let r = busy_reaction(message);
            assert(r == editor_reaction(self.read_only, message, true));
            return r;
        }
        match message {
            EditorMessage::Command(w) => EditorReaction::Run(self.command(w % 0x10000)),
            EditorMessage::Close => EditorReaction::Run(EditorStep::Close),
            EditorMessage::Size => EditorReaction::Layout,
            EditorMessage::MinSize => EditorReaction::MinSize,
            EditorMessage::DpiChanged => EditorReaction::Resize,
            EditorMessage::Other => EditorReaction::Default,
        }
    }
}

/// A window whose texts nobody changed gives back the profile that it opened: it closes without a
/// question.
pub proof fn untouched_texts_are_unchanged(d: DraftView)
    ensures
        draft_of(d.name, dos_endings(d.tunnel), dos_endings(d.wireguard)) == d,
{
    line_endings_round_trip(d.tunnel);
    line_endings_round_trip(d.wireguard);
}

/// A profile that is only shown is never saved, whatever the window is told.
pub proof fn read_only_profiles_are_not_saved(message: EditorMessage, busy: bool)
    ensures
        editor_reaction(true, message, busy) matches EditorReaction::Run(step) ==> step
            == EditorStep::Close || step == EditorStep::Nothing,
{
}

/// What the commands of the window lead to: closing always, saving and importing where the profile
/// may be changed, and any other to nothing.
pub proof fn editor_commands(read_only: bool, id: usize)
    ensures
        editor_step(read_only, id) == EditorStep::Close <==> id == 206,
        editor_step(read_only, id) == EditorStep::Save <==> id == 205 && !read_only,
        editor_step(read_only, id) == EditorStep::Import <==> id == 207 && !read_only,
{
}

/// What is done about each message: a command runs by its number, the window closes and is laid out
/// where it is not in the midst of something, and its least size and its new place are always told.
pub proof fn editor_messages(read_only: bool, w: usize, busy: bool)
    ensures
        editor_reaction(read_only, EditorMessage::Command(w), false) == EditorReaction::Run(
            editor_step(read_only, (w % 65536) as usize),
        ),
        editor_reaction(read_only, EditorMessage::Close, false) == EditorReaction::Run(
            EditorStep::Close,
        ),
        editor_reaction(read_only, EditorMessage::Size, false) == EditorReaction::Layout,
        editor_reaction(read_only, EditorMessage::Command(w), true) == EditorReaction::Nothing,
        editor_reaction(read_only, EditorMessage::Close, true) == EditorReaction::Nothing,
        editor_reaction(read_only, EditorMessage::Size, true) == EditorReaction::Nothing,
        editor_reaction(read_only, EditorMessage::MinSize, busy) == EditorReaction::MinSize,
        editor_reaction(read_only, EditorMessage::DpiChanged, busy) == EditorReaction::Resize,
        editor_reaction(read_only, EditorMessage::Other, busy) == EditorReaction::Default,
{
}

/// The profile that a window gives is its name as it stands, and its two texts with Unix line
/// endings, each in its place.
pub proof fn windows_give_their_profile(name: Seq<char>, tunnel: Seq<char>, wireguard: Seq<char>)
    ensures
        draft_of(name, tunnel, wireguard).name == name,
        draft_of(name, tunnel, wireguard).tunnel == unix_endings(tunnel),
        draft_of(name, tunnel, wireguard).wireguard == unix_endings(wireguard),
{
}

/// The title tells whether a profile is shown, changed or new; the hint tells what can be done.
pub proof fn windows_tell_what_they_are_for(index: usize)
    ensures
        forall|i: Option<usize>| #[trigger] title_of(true, i) == "当前配置（只读）— xxtab"@,
        title_of(false, Some(index)) == "编辑配置 — xxtab"@,
        title_of(false, None) == "新建 / 导入配置 — xxtab"@,
        hint_of(true) == "当前选中的已保存配置，只读。"@,
        hint_of(false) == "保存时会检查配置格式和密钥。"@,
{
}

/// The bounds of what the editor takes.
pub proof fn bounds_of_the_editor()
    ensures
        NAME_LIMIT == 60,
        TEXT_LIMIT == 131_072,
        (SAVE, CANCEL, IMPORT_WG) == (205usize, 206usize, 207usize),
{
}

} // verus!
