//! The state and the log of a tunnel as a window shows them.
use crate::text::{chars_of, text_of};
use std::collections::VecDeque;
use vstd::prelude::*;
use vstd::slice::slice_subrange;

verus! {

/// The largest number of lines that wait to be shown.
pub const MAX_LINES: usize = 256;

/// The largest number of characters of a line.
pub const MAX_LINE: usize = 2048;

/// What a tunnel is doing.
#[derive(Clone, Copy, PartialEq, Eq, Structural, Debug)]
pub enum Status {
    Idle,
    Connecting,
    Connected,
    Reconnecting,
    Failed,
}

impl Default for Status {
    fn default() -> (r: Self)
        ensures
            r == Status::Idle,
    {
        Status::Idle
    }
}

/// The lines that wait to be shown, and the state to show.
pub struct Feed {
    pub lines: VecDeque<String>,
    pub status: Status,
}

#[verifier::ext_equal]
pub struct FeedView {
    pub lines: Seq<Seq<char>>,
    pub status: Status,
}

impl View for Feed {
    type V = FeedView;

    open spec fn view(&self) -> FeedView {
        FeedView { lines: self.lines@.map_values(|s: String| s@), status: self.status }
    }
}

impl Default for Feed {
    fn default() -> (r: Self)
        ensures
            r@ == (FeedView { lines: seq![], status: Status::Idle }),
    {
        let r = Feed { lines: VecDeque::new(), status: Status::Idle };
        assert(r@.lines =~= seq![]);
        r
    }
}

pub open spec fn feed_view(f: Option<Feed>) -> Option<FeedView> {
    match f {
        Some(f) => Some(f@),
        None => None,
    }
}

/// A message as it is kept: no longer than a line may be.
pub open spec fn clipped(message: Seq<char>) -> Seq<char> {
    if message.len() <= MAX_LINE {
        message
    } else {
        message.take(MAX_LINE as int)
    }
}

/// The lines after one more; the oldest goes where there are too many.
pub open spec fn with_line(lines: Seq<Seq<char>>, message: Seq<char>) -> Seq<Seq<char>> {
    if lines.len() == MAX_LINES {
        lines.skip(1).push(clipped(message))
    } else {
        lines.push(clipped(message))
    }
}

/// Shows the log through a feed. The first feed stays.
pub fn attach(slot: &mut Option<Feed>, feed: Feed)
    ensures
        feed_view(*final(slot)) == match feed_view(*old(slot)) {
            Some(f) => Some(f),
            None => Some(feed@),
        },
{
    if slot.is_none() {
        *slot = Some(feed);
    }
}

/// Shows a state, where there is a feed.
pub fn state(slot: &mut Option<Feed>, status: Status)
    ensures
        feed_view(*final(slot)) == match feed_view(*old(slot)) {
            Some(f) => Some(FeedView { status, ..f }),
            None => None,
        },
{
    match slot.take() {
        Some(feed) => {
            let ghost before = feed@;
            let shown = Feed { lines: feed.lines, status };
            assert(shown@ =~= (FeedView { status, ..before }));
            *slot = Some(shown);
        },
        None => {},
    }
}

/// Logs a message to the feed; false where there is none and the message is to be printed.
pub fn write(slot: &mut Option<Feed>, message: &str) -> (r: bool)
    ensures
        r == (*old(slot) is Some),
        feed_view(*final(slot)) == match feed_view(*old(slot)) {
            Some(f) => Some(FeedView { lines: with_line(f.lines, message@), ..f }),
            None => None,
        },
{
    match slot.take() {
        Some(feed) => {
            let ghost before = feed@;
            let mut lines = feed.lines;
            if lines.len() == MAX_LINES {
                let _ = lines.pop_front();
            }
            let chars = chars_of(message);
            let end: usize = if chars.len() <= MAX_LINE {
                chars.len()
            } else {
                MAX_LINE
            };
            let kept = slice_subrange(&chars, 0, end);
            assert(kept@ =~= clipped(message@));
            lines.push_back(text_of(kept));
            let shown = Feed { lines, status: feed.status };
            assert(shown@.lines =~= with_line(before.lines, message@));
            *slot = Some(shown);
            true
        },
        None => false,
    }
}

/// The lines after a number of messages.
pub open spec fn with_lines(lines: Seq<Seq<char>>, all: Seq<Seq<char>>) -> Seq<Seq<char>>
    decreases all.len(),
{
    if all.len() == 0 {
        lines
    } else {
        with_line(with_lines(lines, all.drop_last()), all.last())
    }
}

/// However much is logged, no more than 256 lines of no more than 2048 characters are kept.
pub proof fn log_is_bounded(all: Seq<Seq<char>>)
    ensures
        with_lines(seq![], all).len() <= MAX_LINES,
        forall|i: int|
            0 <= i < with_lines(seq![], all).len() ==> (#[trigger] with_lines(seq![], all)[i]).len()
                <= MAX_LINE,
    decreases all.len(),
{
    if all.len() > 0 {
        log_is_bounded(all.drop_last());
        let before = with_lines(seq![], all.drop_last());
        let after = with_lines(seq![], all);
        assert forall|i: int| 0 <= i < after.len() implies (#[trigger] after[i]).len()
            <= MAX_LINE by {
            if i < after.len() - 1 {
                if before.len() == MAX_LINES {
                    assert(after[i] == before[i + 1]);
                } else {
                    assert(after[i] == before[i]);
                }
            }
        }
    }
}

/// The newest message is always kept.
pub proof fn newest_message_is_kept(lines: Seq<Seq<char>>, message: Seq<char>)
    ensures
        with_line(lines, message).last() == clipped(message),
{
}

/// The lines that are kept are the last 256 messages in their order, each cut after 2048
/// characters.
pub proof fn last_messages_are_kept(all: Seq<Seq<char>>)
    ensures
        ({
            let kept = if all.len() < 256 {
                all.len() as int
            } else {
                256
            };
            let lines = with_lines(seq![], all);
            &&& lines.len() == kept
            &&& forall|i: int|
                0 <= i < kept ==> #[trigger] lines[i] == {
                    let message = all[all.len() - kept + i];
                    if message.len() <= 2048 {
                        message
                    } else {
                        message.take(2048)
                    }
                }
        }),
    decreases all.len(),
{
    if all.len() > 0 {
        let head = all.drop_last();
        last_messages_are_kept(head);
        let before = with_lines(seq![], head);
        let lines = with_lines(seq![], all);
        let kept = lines.len() as int;
        assert forall|i: int| 0 <= i < kept implies #[trigger] lines[i] == {
            let message = all[all.len() - kept + i];
            if message.len() <= 2048 {
                message
            } else {
                message.take(2048)
            }
        } by {
            if i < kept - 1 {
                if before.len() == 256 {
                    assert(lines[i] == before[i + 1]);
                    assert(head[head.len() - 256 + i + 1] == all[all.len() - kept + i]);
                } else {
                    assert(lines[i] == before[i]);
                    assert(head[i] == all[i]);
                }
            } else {
                assert(lines[i] == clipped(all.last()));
            }
        }
    }
}

} // verus!
