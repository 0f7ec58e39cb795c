use vstd::prelude::*;

use crate::cursor::{cursor_cell, spec_cursor_cell};
use crate::state::{AppState, AppView, Mode, channel_index};
use crate::timeline::{ChannelView, MessageView};

verus! {

/// The status-line label of a mode.
pub open spec fn mode_label(m: Mode) -> Seq<char> {
    match m {
        Mode::Insert => "INSERT"@,
        Mode::Normal => "NORMAL"@,
        Mode::SelectChannel => "SELECT"@,
        Mode::ScrollMessages => "SCROLL"@,
    }
}

impl Mode {
    pub fn label(&self) -> (r: &'static str)
        ensures
            r@ == mode_label(*self),
    {
        match self {
            Mode::Insert => "INSERT",
            Mode::Normal => "NORMAL",
            Mode::SelectChannel => "SELECT",
            Mode::ScrollMessages => "SCROLL",
        }
    }
}

/// One message as the renderer shows it.
pub struct MessageLine {
    pub sender: String,
    pub body: String,
    pub edited: bool,
}

pub struct LineView {
    pub sender: Seq<char>,
    pub body: Seq<char>,
    pub edited: bool,
}

impl View for MessageLine {
    type V = LineView;

    open spec fn view(&self) -> LineView {
        LineView { sender: self.sender@, body: self.body@, edited: self.edited }
    }
}

pub open spec fn line_of(m: MessageView) -> LineView {
    LineView { sender: m.sender, body: m.body, edited: m.edited }
}

/// The names of the listed channels that are known, in roster order.
pub open spec fn listed_names(chs: Seq<ChannelView>, ids: Seq<Seq<char>>) -> Seq<Seq<char>>
    decreases ids.len(),
{
    if ids.len() == 0 {
        Seq::empty()
    } else {
        let rest = listed_names(chs, ids.drop_last());
        let i = channel_index(chs, ids.last());
        if i >= 0 {
            rest.push(chs[i].name)
        } else {
            rest
        }
    }
}

/// The messages of the current channel, newest first; none without a
/// current channel.
pub open spec fn shown_lines(s: AppView) -> Seq<LineView> {
    let i = s.current_index();
    if i < 0 {
        Seq::empty()
    } else {
        let msgs = s.channels[i].messages;
        Seq::new(msgs.len(), |j: int| line_of(msgs[msgs.len() - 1 - j]))
    }
}

/// What the renderer draws in one frame.
pub struct Snapshot {
    pub channel_names: Vec<String>,
    pub channel_highlight: Option<usize>,
    /// The current channel's messages, newest first.
    pub messages: Vec<MessageLine>,
    pub message_highlight: Option<usize>,
    pub input: String,
    /// Where the text cursor goes inside the input box, in Normal and Insert
    /// mode.
    pub cursor: Option<(usize, usize)>,
    pub mode_label: &'static str,
}

impl AppState {
    /// A read-only picture of the state for one frame; `wrap_width` is the
    /// usable width of the input box.
    pub fn snapshot(&self, wrap_width: usize) -> (r: Snapshot)
        requires
            self.wf(),
            wrap_width > 0,
        ensures
            r.channel_names@.map_values(|s: String| s@) == listed_names(
                self@.channels,
                self@.selector.ids,
            ),
            r.channel_highlight == self@.selector.highlight,
            r.messages@.map_values(|m: MessageLine| m@) == shown_lines(self@),
            r.message_highlight == self@.message_highlight,
            r.input@ == self@.input.text,
            r.cursor == (if self@.mode == Mode::Normal || self@.mode == Mode::Insert {
                let c = spec_cursor_cell(self@.input.cursor, wrap_width as nat);
                Some((c.0 as usize, c.1 as usize))
            } else {
                None::<(usize, usize)>
            }),
            r.mode_label@ == mode_label(self@.mode),
    {
        let channel_names = self.listed_channel_names();
        let messages = self.current_lines();
        let mode = self.mode();
        let cursor = if mode == Mode::Normal || mode == Mode::Insert {
            Some(cursor_cell(self.input().char_pos(), wrap_width))
        } else {
            None
        };
        Snapshot {
            channel_names,
            channel_highlight: self.selector().highlight(),
            messages,
            message_highlight: self.message_highlight(),
            input: self.input().contents(),
            cursor,
            mode_label: mode.label(),
        }
    }

    fn listed_channel_names(&self) -> (r: Vec<String>)
        requires
            self.wf(),
        ensures
            r@.map_values(|s: String| s@) == listed_names(self@.channels, self@.selector.ids),
    {
        let ghost ids = self@.selector.ids;
        let mut names: Vec<String> = Vec::new();
        let mut k: usize = 0;
        let selector = self.selector();
        proof {
            assert(ids.subrange(0, 0) =~= Seq::<Seq<char>>::empty());
            assert(names@.map_values(|s: String| s@) =~= Seq::<Seq<char>>::empty());
        }
        while k < selector.len()
            invariant
                self.wf(),
                selector@ == self@.selector,
                ids == self@.selector.ids,
                k <= ids.len(),
                names@.map_values(|s: String| s@) == listed_names(
                    self@.channels,
                    ids.subrange(0, k as int),
                ),
            decreases ids.len() - k,
        {
            let ghost before = names@.map_values(|s: String| s@);
            proof {
                assert(ids.subrange(0, k + 1).drop_last() =~= ids.subrange(0, k as int));
                assert(ids.subrange(0, k + 1).last() == ids[k as int]);
            }
            match self.channel(selector.id(k)) {
                Some(c) => {
                    names.push(c.name().clone());
                    proof {
                        assert(names@.map_values(|s: String| s@) =~= before.push(c@.name));
                    }
                },
                None => {},
            }
            k = k + 1;
        }
        proof {
            assert(ids.subrange(0, ids.len() as int) =~= ids);
        }
        names
    }

    fn current_lines(&self) -> (r: Vec<MessageLine>)
        requires
            self.wf(),
        ensures
            r@.map_values(|m: MessageLine| m@) == shown_lines(self@),
    {
        let mut lines: Vec<MessageLine> = Vec::new();
        let ch = match self.current_channel() {
            Some(c) => match self.channel(c) {
                Some(ch) => ch,
                None => {
                    assert(lines@.map_values(|m: MessageLine| m@) =~= shown_lines(self@));
                    return lines;
                },
            },
            None => {
                assert(lines@.map_values(|m: MessageLine| m@) =~= shown_lines(self@));
                return lines;
            },
        };
        let n: usize = ch.message_count();
        let ghost msgs = ch@.messages;
        let mut j: usize = 0;
        while j < n
            invariant
                j <= n,
                n == msgs.len(),
                msgs == ch@.messages,
                lines@.len() == j,
                forall|a: int| 0 <= a < j ==> #[trigger] lines@[a]@ == line_of(msgs[n - 1 - a]),
            decreases n - j,
        {
            let m = ch.message(n - 1 - j);
            lines.push(MessageLine { sender: m.sender.clone(), body: m.body.clone(), edited: m.edited });
            j = j + 1;
        }
        assert(lines@.map_values(|m: MessageLine| m@) =~= shown_lines(self@));
        lines
    }
}

} // verus!
