use vstd::prelude::*;

use crate::input::{InputBuffer, InputView, utf8_len};
use crate::selector::{ChannelSelector, SelectorView};
use crate::timeline::{Channel, ChannelView, EventView, TimelineEvent, lemma_with_event_wf, token_view};

verus! {

/// The interaction mode; exactly one is active.
#[derive(Clone, Copy, Debug, PartialEq, Eq, Structural)]
pub enum Mode {
    Normal,
    Insert,
    SelectChannel,
    ScrollMessages,
}

/// A key as the controller sees it.
#[derive(Clone, Copy, Debug, PartialEq, Eq, Structural)]
pub enum Key {
    Char(char),
    Enter,
    Esc,
    Backspace,
    Left,
    Right,
    Up,
    Down,
    Other,
}

/// A key press; `control` is set when Control is the only modifier held.
#[derive(Clone, Copy, Debug, PartialEq, Eq, Structural)]
pub struct KeyPress {
    pub key: Key,
    pub control: bool,
}

/// Outside work that a key press asks for.
#[derive(Clone, Debug, PartialEq, Eq)]
pub enum Action {
    Nothing,
    /// Shut the client down.
    Quit,
    /// Send `body` to `channel`.
    Send { channel: String, body: String },
    /// Ask the server to redact `message` in `channel`.
    Redact { channel: String, message: String },
    /// Fetch the page of history before `from`; with no token, start from
    /// the latest sync position.
    FetchHistory { channel: String, from: Option<String> },
}

pub enum ActionView {
    Nothing,
    Quit,
    Send { channel: Seq<char>, body: Seq<char> },
    Redact { channel: Seq<char>, message: Seq<char> },
    FetchHistory { channel: Seq<char>, from: Option<Seq<char>> },
}

impl View for Action {
    type V = ActionView;

    open spec fn view(&self) -> ActionView {
        match self {
            Action::Nothing => ActionView::Nothing,
            Action::Quit => ActionView::Quit,
            Action::Send { channel, body } => ActionView::Send { channel: channel@, body: body@ },
            Action::Redact { channel, message } => ActionView::Redact {
                channel: channel@,
                message: message@,
            },
            Action::FetchHistory { channel, from } => ActionView::FetchHistory {
                channel: channel@,
                from: token_view(*from),
            },
        }
    }
}

/// The whole client state.
pub struct AppView {
    pub channels: Seq<ChannelView>,
    pub selector: SelectorView,
    pub current: Option<Seq<char>>,
    pub message_highlight: Option<usize>,
    pub input: InputView,
    pub mode: Mode,
}

/// Index of the channel with identifier `id`, or -1.
pub open spec fn channel_index(chs: Seq<ChannelView>, id: Seq<char>) -> int {
    if exists|i: int| 0 <= i < chs.len() && #[trigger] chs[i].id == id {
        choose|i: int| 0 <= i < chs.len() && #[trigger] chs[i].id == id
    } else {
        -1
    }
}

pub open spec fn unique_channels(chs: Seq<ChannelView>) -> bool {
    forall|i: int, j: int|
        0 <= i < chs.len() && 0 <= j < chs.len() && i != j ==> #[trigger] chs[i].id
            != #[trigger] chs[j].id
}

pub proof fn lemma_channel_index(chs: Seq<ChannelView>, id: Seq<char>)
    requires
        unique_channels(chs),
    ensures
        -1 <= channel_index(chs, id) < chs.len(),
        channel_index(chs, id) >= 0 ==> chs[channel_index(chs, id)].id == id,
        forall|i: int| 0 <= i < chs.len() && #[trigger] chs[i].id == id ==> channel_index(chs, id) == i,
{
}

/// Replacing a channel by a well-formed one with the same identifier keeps
/// the state well formed.
pub proof fn lemma_replace_channel(s: AppView, i: int, c: ChannelView)
    requires
        s.wf(),
        0 <= i < s.channels.len(),
        c.wf(),
        c.id == s.channels[i].id,
    ensures
        (AppView { channels: s.channels.update(i, c), ..s }).wf(),
{
    let chs = s.channels.update(i, c);
    assert forall|a: int, b: int|
        0 <= a < chs.len() && 0 <= b < chs.len() && a != b implies #[trigger] chs[a].id
        != #[trigger] chs[b].id by {
        assert(chs[a].id == s.channels[a].id);
        assert(chs[b].id == s.channels[b].id);
    }
    assert forall|a: int| 0 <= a < chs.len() implies #[trigger] chs[a].wf() by {
        if a != i {
            assert(chs[a] == s.channels[a]);
        }
    }
}

/// The message highlight after a message went in at `pos`: a highlight at
/// or after the insertion point moves back by one, where it can.
pub open spec fn highlight_after_insert(h: Option<usize>, pos: int) -> Option<usize> {
    match h {
        Some(x) => if pos <= x && x > 0 {
            Some((x - 1) as usize)
        } else {
            h
        },
        None => None,
    }
}

impl AppView {
    pub open spec fn wf(self) -> bool {
        &&& unique_channels(self.channels)
        &&& forall|i: int| 0 <= i < self.channels.len() ==> #[trigger] self.channels[i].wf()
        &&& self.selector.wf()
    }

    /// Index of the current channel, or -1 when none is selected or it is
    /// unknown.
    pub open spec fn current_index(self) -> int {
        match self.current {
            Some(c) => channel_index(self.channels, c),
            None => -1,
        }
    }

    /// A channel created the first time it is referenced.
    pub open spec fn with_channel(self, id: Seq<char>, name: Seq<char>) -> AppView {
        if channel_index(self.channels, id) >= 0 {
            self
        } else {
            AppView { channels: self.channels.push(ChannelView::fresh(id, name)), ..self }
        }
    }

    /// A channel of the roster: created if needed and listed for selection.
    pub open spec fn with_joined(self, id: Seq<char>, name: Seq<char>) -> AppView {
        let s = self.with_channel(id, name);
        AppView { selector: SelectorView { ids: s.selector.ids.push(id), ..s.selector }, ..s }
    }

    /// A timeline event for `channel` applied; a message inserted at or
    /// before the highlighted position shifts the highlight.
    pub open spec fn with_event(self, channel: Seq<char>, e: EventView) -> AppView {
        let i = channel_index(self.channels, channel);
        if i < 0 {
            self
        } else {
            let c = self.channels[i];
            AppView {
                channels: self.channels.update(i, c.with_event(e)),
                message_highlight: match c.insertion_of(e) {
                    Some(p) => highlight_after_insert(self.message_highlight, p),
                    None => self.message_highlight,
                },
                ..self
            }
        }
    }

    /// A fetched history page applied: the continuation token recorded, then
    /// each event in page order, as live events are.
    pub open spec fn with_page(self, channel: Seq<char>, end: Option<Seq<char>>, events: Seq<EventView>) -> AppView {
        let i = channel_index(self.channels, channel);
        if i < 0 {
            self
        } else {
            let s = AppView {
                channels: self.channels.update(i, self.channels[i].with_page_end(end)),
                ..self
            };
            app_with_events(s, channel, events)
        }
    }
}

pub open spec fn app_with_events(s: AppView, channel: Seq<char>, events: Seq<EventView>) -> AppView
    decreases events.len(),
{
    if events.len() == 0 {
        s
    } else {
        app_with_events(s, channel, events.drop_last()).with_event(channel, events.last())
    }
}

// ---------------------------------------------------------------------------
// The key state machine

pub open spec fn stay(s: AppView) -> (AppView, ActionView) {
    (s, ActionView::Nothing)
}

/// Enter in Normal or Insert mode: `/quit` asks for shutdown; other
/// non-empty text is sent to the current channel, if there is one, and the
/// input is cleared.
pub open spec fn enter_step(s: AppView) -> (AppView, ActionView) {
    if s.input.text == "/quit"@ {
        (s, ActionView::Quit)
    } else if s.input.text.len() == 0 {
        stay(s)
    } else {
        let t = AppView { input: InputView::empty(), ..s };
        match s.current {
            Some(c) => if channel_index(s.channels, c) >= 0 {
                (t, ActionView::Send { channel: c, body: s.input.text })
            } else {
                stay(t)
            },
            None => stay(t),
        }
    }
}

pub open spec fn normal_step(s: AppView, k: KeyPress) -> (AppView, ActionView) {
    match k.key {
        Key::Enter => enter_step(s),
        Key::Char(c) => if c == 'i' {
            stay(AppView { mode: Mode::Insert, ..s })
        } else if c == 'C' {
            stay(AppView { mode: Mode::SelectChannel, ..s })
        } else if c == 'S' {
            if s.current_index() >= 0 {
                stay(AppView { mode: Mode::ScrollMessages, message_highlight: Some(0), ..s })
            } else {
                stay(s)
            }
        } else if c == 'h' {
            stay(AppView { input: s.input.moved_left(), ..s })
        } else if c == 'l' {
            stay(AppView { input: s.input.moved_right(), ..s })
        } else {
            stay(s)
        },
        Key::Left => stay(AppView { input: s.input.moved_left(), ..s }),
        Key::Right => stay(AppView { input: s.input.moved_right(), ..s }),
        _ => stay(s),
    }
}

pub open spec fn insert_step(s: AppView, k: KeyPress) -> (AppView, ActionView) {
    match k.key {
        Key::Enter => enter_step(s),
        Key::Esc => stay(AppView { mode: Mode::Normal, ..s }),
        Key::Backspace => stay(AppView { input: s.input.deleted(), ..s }),
        Key::Left => stay(AppView { input: s.input.moved_left(), ..s }),
        Key::Right => stay(AppView { input: s.input.moved_right(), ..s }),
        Key::Char(c) => if utf8_len(s.input.text) + 4 <= isize::MAX {
            stay(AppView { input: s.input.inserted(c), ..s })
        } else {
            stay(s)
        },
        _ => stay(s),
    }
}

pub open spec fn select_step(s: AppView, k: KeyPress) -> (AppView, ActionView) {
    let up = k.key == Key::Up || k.key == Key::Char('k');
    let down = k.key == Key::Down || k.key == Key::Char('j');
    if k.key == Key::Enter {
        stay(AppView { current: s.selector.highlighted(), mode: Mode::Normal, ..s })
    } else if k.key == Key::Esc {
        stay(
            AppView {
                selector: SelectorView { highlight: None, ..s.selector },
                current: None,
                mode: Mode::Normal,
                ..s
            },
        )
    } else if (up || down) && s.selector.ids.len() > 0 {
        stay(
            AppView {
                selector: if up {
                    s.selector.moved_up()
                } else {
                    s.selector.moved_down()
                },
                ..s
            },
        )
    } else {
        stay(s)
    }
}

pub open spec fn scroll_step(s: AppView, k: KeyPress) -> (AppView, ActionView) {
    let i = s.current_index();
    let up = k.key == Key::Up || k.key == Key::Char('k');
    let down = k.key == Key::Down || k.key == Key::Char('j');
    if k.key == Key::Esc {
        stay(AppView { message_highlight: None, mode: Mode::Normal, ..s })
    } else if i < 0 {
        stay(s)
    } else {
        let ch = s.channels[i];
        let n = ch.messages.len();
        if up {
            match s.message_highlight {
                Some(h) => if h + 1 < n {
                    stay(AppView { message_highlight: Some((h + 1) as usize), ..s })
                } else if !ch.at_top {
                    (s, ActionView::FetchHistory { channel: ch.id, from: ch.prev_token })
                } else {
                    stay(s)
                },
                None => if n > 0 {
                    stay(AppView { message_highlight: Some(0), ..s })
                } else {
                    stay(s)
                },
            }
        } else if down {
            match s.message_highlight {
                Some(h) => if h > 0 {
                    stay(AppView { message_highlight: Some((h - 1) as usize), ..s })
                } else {
                    stay(s)
                },
                None => if n > 0 {
                    stay(AppView { message_highlight: Some(0), ..s })
                } else {
                    stay(s)
                },
            }
        } else if k.key == Key::Char('d') && k.control {
            match s.message_highlight {
                Some(h) => if h < n {
                    (
                        s,
                        ActionView::Redact {
                            channel: ch.id,
                            message: ch.messages[n - 1 - h].id,
                        },
                    )
                } else {
                    stay(s)
                },
                None => stay(s),
            }
        } else {
            stay(s)
        }
    }
}

/// The effect of one key press in the current mode: the next state and the
/// outside work it asks for. Every key is handled in every mode.
pub open spec fn key_step(s: AppView, k: KeyPress) -> (AppView, ActionView) {
    match s.mode {
        Mode::Normal => normal_step(s, k),
        Mode::Insert => insert_step(s, k),
        Mode::SelectChannel => select_step(s, k),
        Mode::ScrollMessages => scroll_step(s, k),
    }
}

/// Enter on the exact text `/quit`, in Normal or Insert mode, asks for
/// shutdown and changes nothing else, wherever the cursor is and whatever
/// else the state holds.
pub proof fn law_quit(s: AppView, control: bool)
    requires
        s.mode == Mode::Normal || s.mode == Mode::Insert,
        s.input.text == "/quit"@,
    ensures
        key_step(s, KeyPress { key: Key::Enter, control }) == (s, ActionView::Quit),
{
}

/// A history page with no events and no continuation token marks the
/// channel's history exhausted; from then on, moving up past the oldest
/// message neither moves the highlight nor asks for another fetch.
pub proof fn law_history_exhausted(s: AppView, channel: Seq<char>, h: usize, control: bool)
    requires
        s.wf(),
        s.mode == Mode::ScrollMessages,
        s.current == Some(channel),
        channel_index(s.channels, channel) >= 0,
        s.message_highlight == Some(h),
        h + 1 >= s.channels[channel_index(s.channels, channel)].messages.len(),
    ensures
        ({
            let t = s.with_page(channel, None, Seq::empty());
            let i = channel_index(t.channels, channel);
            &&& i >= 0
            &&& t.channels[i].at_top
            &&& key_step(t, KeyPress { key: Key::Up, control }) == (t, ActionView::Nothing)
        }),
{
    let i = channel_index(s.channels, channel);
    lemma_channel_index(s.channels, channel);
    let t = s.with_page(channel, None, Seq::empty());
    assert(t.channels[i].id == channel);
    assert(unique_channels(t.channels)) by {
        assert forall|a: int, b: int|
            0 <= a < t.channels.len() && 0 <= b < t.channels.len() && a != b implies #[trigger] t.channels[a].id
            != #[trigger] t.channels[b].id by {
            assert(t.channels[a].id == s.channels[a].id);
            assert(t.channels[b].id == s.channels[b].id);
        }
    }
    lemma_channel_index(t.channels, channel);
}

// ---------------------------------------------------------------------------
// Executable client state

/// The highlight after a message went in at `pos`.
fn shift_highlight(h: Option<usize>, pos: usize) -> (r: Option<usize>)
    ensures
        r == highlight_after_insert(h, pos as int),
{
    match h {
        Some(x) => if pos <= x && x > 0 {
            Some(x - 1)
        } else {
            h
        },
        None => None,
    }
}

/// All the client's state: channels and their timelines, the channel
/// selector, the current channel, the message highlight, the input buffer
/// and the mode.
pub struct AppState {
    channels: Vec<Channel>,
    selector: ChannelSelector,
    current: Option<String>,
    message_highlight: Option<usize>,
    input: InputBuffer,
    mode: Mode,
}

impl View for AppState {
    type V = AppView;

    closed spec fn view(&self) -> AppView {
        AppView {
            channels: self.channels@.map_values(|c: Channel| c@),
            selector: self.selector@,
            current: token_view(self.current),
            message_highlight: self.message_highlight,
            input: self.input@,
            mode: self.mode,
        }
    }
}

impl AppState {
    pub closed spec fn wf(&self) -> bool {
        &&& self@.wf()
        &&& self.input.wf()
    }

    /// No channels, nothing selected, empty input, Normal mode.
    pub fn new() -> (r: AppState)
        ensures
            r.wf(),
            r@.channels == Seq::<ChannelView>::empty(),
            r@.selector.ids == Seq::<Seq<char>>::empty(),
            r@.selector.highlight is None,
            r@.current is None,
            r@.message_highlight is None,
            r@.input == InputView::empty(),
            r@.mode == Mode::Normal,
    {
        let r = AppState {
            channels: Vec::new(),
            selector: ChannelSelector::new(),
            current: None,
            message_highlight: None,
            input: InputBuffer::new(),
            mode: Mode::Normal,
        };
        assert(r@.channels =~= Seq::<ChannelView>::empty());
        r
    }

    pub fn mode(&self) -> (r: Mode)
        ensures
            r == self@.mode,
    {
        self.mode
    }

    pub fn input(&self) -> (r: &InputBuffer)
        ensures
            r@ == self@.input,
            self.wf() ==> r.wf(),
    {
        &self.input
    }

    pub fn selector(&self) -> (r: &ChannelSelector)
        ensures
            r@ == self@.selector,
    {
        &self.selector
    }

    pub fn current_channel(&self) -> (r: Option<&String>)
        ensures
            match r {
                Some(c) => self@.current == Some(c@),
                None => self@.current is None,
            },
    {
        match &self.current {
            Some(c) => Some(c),
            None => None,
        }
    }

    pub fn message_highlight(&self) -> (r: Option<usize>)
        ensures
            r == self@.message_highlight,
    {
        self.message_highlight
    }

    fn find_channel(&self, id: &String) -> (r: Option<usize>)
        requires
            self.wf(),
        ensures
            match r {
                Some(i) => i as int == channel_index(self@.channels, id@),
                None => channel_index(self@.channels, id@) == -1,
            },
    {
        let mut i: usize = 0;
        while i < self.channels.len()
            invariant
                i <= self.channels.len(),
                self.wf(),
                forall|j: int| 0 <= j < i ==> #[trigger] self@.channels[j].id != id@,
            decreases self.channels.len() - i,
        {
            if *self.channels[i].id() == *id {
                proof {
                    lemma_channel_index(self@.channels, id@);
                    assert(self@.channels[i as int].id == id@);
                }
                return Some(i);
            }
            i = i + 1;
        }
        None
    }

    /// The channel with identifier `id`, if known.
    pub fn channel(&self, id: &String) -> (r: Option<&Channel>)
        requires
            self.wf(),
        ensures
            match r {
                Some(c) => channel_index(self@.channels, id@) >= 0 && c@ == self@.channels[channel_index(
                    self@.channels,
                    id@,
                )],
                None => channel_index(self@.channels, id@) < 0,
            },
    {
        match self.find_channel(id) {
            Some(i) => Some(&self.channels[i]),
            None => None,
        }
    }

    fn current_position(&self) -> (r: Option<usize>)
        requires
            self.wf(),
        ensures
            match r {
                Some(i) => i as int == self@.current_index() && i < self@.channels.len(),
                None => self@.current_index() < 0,
            },
    {
        match &self.current {
            Some(c) => {
                proof {
                    lemma_channel_index(self@.channels, c@);
                }
                self.find_channel(c)
            },
            None => None,
        }
    }

    /// Creates the channel `id` unless it exists.
    pub fn add_channel(&mut self, id: String, name: String)
        requires
            old(self).wf(),
        ensures
            final(self).wf(),
            final(self)@ == old(self)@.with_channel(id@, name@),
    {
        if self.find_channel(&id).is_none() {
            let ghost old_chs = self@.channels;
            self.channels.push(Channel::new(id, name));
            proof {
                let chs = self@.channels;
                assert(chs =~= old_chs.push(chs[old_chs.len() as int]));
                assert forall|i: int, j: int|
                    0 <= i < chs.len() && 0 <= j < chs.len() && i != j implies #[trigger] chs[i].id
                    != #[trigger] chs[j].id by {
                    if i < old_chs.len() && j < old_chs.len() {
                        assert(chs[i] == old_chs[i] && chs[j] == old_chs[j]);
                    } else if i < old_chs.len() {
                        assert(chs[i] == old_chs[i]);
                    } else if j < old_chs.len() {
                        assert(chs[j] == old_chs[j]);
                    }
                }
                assert forall|i: int| 0 <= i < chs.len() implies #[trigger] chs[i].wf() by {
                    if i < old_chs.len() {
                        assert(chs[i] == old_chs[i]);
                    }
                }
            }
        }
    }

    /// Adds a channel of the roster: created if needed and listed for
    /// selection.
    pub fn join_channel(&mut self, id: String, name: String)
        requires
            old(self).wf(),
        ensures
            final(self).wf(),
            final(self)@ == old(self)@.with_joined(id@, name@),
    {
        let listed = id.clone();
        self.add_channel(id, name);
        self.selector.push(listed);
    }

    /// Applies a live timeline event to `channel`; events of unknown channels
    /// are ignored.
    pub fn handle_event(&mut self, channel: &String, e: &TimelineEvent)
        requires
            old(self).wf(),
        ensures
            final(self).wf(),
            final(self)@ == old(self)@.with_event(channel@, e@),
    {
        match self.find_channel(channel) {
            Some(i) => {
                let ghost old_chs = self@.channels;
                let ghost old_view = self@;
                proof {
                    lemma_channel_index(old_chs, channel@);
                }
                let mut ch = self.channels.remove(i);
                let inserted = ch.apply_event(e);
                self.channels.insert(i, ch);
                match inserted {
                    Some(p) => {
                        self.message_highlight = shift_highlight(self.message_highlight, p);
                    },
                    None => {},
                }
                proof {
                    lemma_with_event_wf(old_chs[i as int], e@);
                    lemma_replace_channel(old_view, i as int, old_chs[i as int].with_event(e@));
                    assert(self@.channels =~= old_chs.update(i as int, old_chs[i as int].with_event(e@)));
                }
            },
            None => {},
        }
    }

    /// Applies a fetched page of history to `channel`: records the
    /// continuation token (history is exhausted when none came back), then
    /// applies each event in page order as a live one.
    pub fn apply_history_page(&mut self, channel: &String, end: Option<String>, events: &Vec<TimelineEvent>)
        requires
            old(self).wf(),
        ensures
            final(self).wf(),
            final(self)@ == old(self)@.with_page(
                channel@,
                token_view(end),
                events@.map_values(|e: TimelineEvent| e@),
            ),
    {
        let ghost evs = events@.map_values(|e: TimelineEvent| e@);
        match self.find_channel(channel) {
            None => {},
            Some(i) => {
                let ghost old_view = self@;
                let ghost old_chs = self@.channels;
                proof {
                    lemma_channel_index(old_chs, channel@);
                }
                let mut ch = self.channels.remove(i);
                ch.set_page_end(end);
                self.channels.insert(i, ch);
                let ghost c = old_chs[i as int].with_page_end(token_view(end));
                proof {
                    lemma_replace_channel(old_view, i as int, c);
                    assert(self@.channels =~= old_chs.update(i as int, c));
                    assert(evs.subrange(0, 0) =~= Seq::<EventView>::empty());
                }
                let ghost start = self@;
                let mut k: usize = 0;
                while k < events.len()
                    invariant
                        self.wf(),
                        k <= events.len(),
                        evs == events@.map_values(|e: TimelineEvent| e@),
                        self@ == app_with_events(start, channel@, evs.subrange(0, k as int)),
                    decreases events.len() - k,
                {
                    self.handle_event(channel, &events[k]);
                    proof {
                        assert(evs.subrange(0, k + 1).drop_last() =~= evs.subrange(0, k as int));
                    }
                    k = k + 1;
                }
                proof {
                    assert(evs.subrange(0, events.len() as int) =~= evs);
                }
            },
        }
    }

    /// Enter in Normal or Insert mode.
    fn enter(&mut self) -> (r: Action)
        requires
            old(self).wf(),
        ensures
            final(self).wf(),
            (final(self)@, r@) == enter_step(old(self)@),
    {
        let text = self.input.contents();
        let quit = String::from_str("/quit");
        if text == quit {
            return Action::Quit;
        }
        if text.as_str().is_empty() {
            return Action::Nothing;
        }
        self.input.clear();
        let pos = self.current_position();
        match &self.current {
            Some(c) => if pos.is_some() {
                Action::Send { channel: c.clone(), body: text }
            } else {
                Action::Nothing
            },
            None => Action::Nothing,
        }
    }

    fn normal_key(&mut self, k: KeyPress) -> (r: Action)
        requires
            old(self).wf(),
            old(self)@.mode == Mode::Normal,
        ensures
            final(self).wf(),
            (final(self)@, r@) == normal_step(old(self)@, k),
    {
        match k.key {
            Key::Enter => self.enter(),
            Key::Char(c) => {
                if c == 'i' {
                    self.mode = Mode::Insert;
                } else if c == 'C' {
                    self.mode = Mode::SelectChannel;
                } else if c == 'S' {
                    if self.current_position().is_some() {
                        self.mode = Mode::ScrollMessages;
                        self.message_highlight = Some(0);
                    }
                } else if c == 'h' {
                    self.input.move_left();
                } else if c == 'l' {
                    self.input.move_right();
                }
                Action::Nothing
            },
            Key::Left => {
                self.input.move_left();
                Action::Nothing
            },
            Key::Right => {
                self.input.move_right();
                Action::Nothing
            },
            _ => Action::Nothing,
        }
    }

    fn insert_key(&mut self, k: KeyPress) -> (r: Action)
        requires
            old(self).wf(),
            old(self)@.mode == Mode::Insert,
        ensures
            final(self).wf(),
            (final(self)@, r@) == insert_step(old(self)@, k),
    {
        match k.key {
            Key::Enter => self.enter(),
            Key::Esc => {
                self.mode = Mode::Normal;
                Action::Nothing
            },
            Key::Backspace => {
                self.input.delete_before_cursor();
                Action::Nothing
            },
            Key::Left => {
                self.input.move_left();
                Action::Nothing
            },
            Key::Right => {
                self.input.move_right();
                Action::Nothing
            },
            Key::Char(c) => {
                if self.input.byte_len() <= (isize::MAX as usize) - 4 {
                    self.input.insert_char(c);
                }
                Action::Nothing
            },
            _ => Action::Nothing,
        }
    }

    fn select_key(&mut self, k: KeyPress) -> (r: Action)
        requires
            old(self).wf(),
            old(self)@.mode == Mode::SelectChannel,
        ensures
            final(self).wf(),
            (final(self)@, r@) == select_step(old(self)@, k),
    {
        let up = k.key == Key::Up || k.key == Key::Char('k');
        let down = k.key == Key::Down || k.key == Key::Char('j');
        if k.key == Key::Enter {
            self.current = self.selector.highlighted();
            self.mode = Mode::Normal;
        } else if k.key == Key::Esc {
            self.selector.clear_highlight();
            self.current = None;
            self.mode = Mode::Normal;
        } else if (up || down) && self.selector.len() > 0 {
            if up {
                self.selector.move_up();
            } else {
                self.selector.move_down();
            }
        }
        Action::Nothing
    }

    fn scroll_key(&mut self, k: KeyPress) -> (r: Action)
        requires
            old(self).wf(),
            old(self)@.mode == Mode::ScrollMessages,
        ensures
            final(self).wf(),
            (final(self)@, r@) == scroll_step(old(self)@, k),
    {
        if k.key == Key::Esc {
            self.message_highlight = None;
            self.mode = Mode::Normal;
            return Action::Nothing;
        }
        let up = k.key == Key::Up || k.key == Key::Char('k');
        let down = k.key == Key::Down || k.key == Key::Char('j');
        let i = match self.current_position() {
            Some(i) => i,
            None => {
                return Action::Nothing;
            },
        };
        let ch = &self.channels[i];
        let n: usize = ch.message_count();
        if up {
            match self.message_highlight {
                Some(h) => if n > 0 && h < n - 1 {
                    self.message_highlight = Some(h + 1);
                    Action::Nothing
                } else if !ch.at_top() {
                    let from = match ch.prev_token() {
                        Some(t) => Some(t.clone()),
                        None => None,
                    };
                    Action::FetchHistory { channel: ch.id().clone(), from }
                } else {
                    Action::Nothing
                },
                None => {
                    if n > 0 {
                        self.message_highlight = Some(0);
                    }
                    Action::Nothing
                },
            }
        } else if down {
            match self.message_highlight {
                Some(h) => {
                    if h > 0 {
                        self.message_highlight = Some(h - 1);
                    }
                    Action::Nothing
                },
                None => {
                    if n > 0 {
                        self.message_highlight = Some(0);
                    }
                    Action::Nothing
                },
            }
        } else if k.key == Key::Char('d') && k.control {
            match self.message_highlight {
                Some(h) => if h < n {
                    Action::Redact {
                        channel: ch.id().clone(),
                        message: ch.message(n - 1 - h).id.clone(),
                    }
                } else {
                    Action::Nothing
                },
                None => Action::Nothing,
            }
        } else {
            Action::Nothing
        }
    }

    /// Runs one key press through the mode state machine and returns the
    /// outside work it asks for.
    pub fn handle_key(&mut self, k: KeyPress) -> (r: Action)
        requires
            old(self).wf(),
        ensures
            final(self).wf(),
            (final(self)@, r@) == key_step(old(self)@, k),
    {
        match self.mode {
            Mode::Normal => self.normal_key(k),
            Mode::Insert => self.insert_key(k),
            Mode::SelectChannel => self.select_key(k),
            Mode::ScrollMessages => self.scroll_key(k),
        }
    }
}

} // verus!
