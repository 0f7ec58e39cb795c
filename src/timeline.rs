use vstd::prelude::*;

verus! {

/// A message as the timeline sees it.
pub struct MessageView {
    pub id: Seq<char>,
    pub sender: Seq<char>,
    pub body: Seq<char>,
    pub edited: bool,
    pub timestamp: u64,
}

/// An edit that arrived before the message it replaces.
pub struct EditView {
    pub target: Seq<char>,
    pub body: Seq<char>,
    pub timestamp: u64,
}

/// One event of a channel's timeline, live or from a history page.
pub enum EventView {
    Message { id: Seq<char>, sender: Seq<char>, body: Seq<char>, timestamp: u64 },
    Edit { target: Seq<char>, body: Seq<char>, timestamp: u64 },
    Redaction { target: Seq<char> },
}

/// A channel's state: its messages in display order (oldest first), the
/// edits still waiting for their target, and how far back history was
/// fetched.
pub struct ChannelView {
    pub id: Seq<char>,
    pub name: Seq<char>,
    pub messages: Seq<MessageView>,
    pub pending: Seq<EditView>,
    pub at_top: bool,
    pub prev_token: Option<Seq<char>>,
}

/// Index of the message with identifier `id`, or -1.
pub open spec fn message_index(msgs: Seq<MessageView>, id: Seq<char>) -> int {
    if exists|i: int| 0 <= i < msgs.len() && #[trigger] msgs[i].id == id {
        choose|i: int| 0 <= i < msgs.len() && #[trigger] msgs[i].id == id
    } else {
        -1
    }
}

/// Index of the pending edit aimed at `target`, or -1.
pub open spec fn edit_index(edits: Seq<EditView>, target: Seq<char>) -> int {
    if exists|i: int| 0 <= i < edits.len() && #[trigger] edits[i].target == target {
        choose|i: int| 0 <= i < edits.len() && #[trigger] edits[i].target == target
    } else {
        -1
    }
}

/// Where a message stamped `t` goes: right after the last message whose
/// timestamp is at most `t`, found by walking back from the end.
pub open spec fn insert_pos(msgs: Seq<MessageView>, t: u64) -> int
    decreases msgs.len(),
{
    if msgs.len() == 0 {
        0
    } else if msgs.last().timestamp <= t {
        msgs.len() as int
    } else {
        insert_pos(msgs.drop_last(), t)
    }
}

pub open spec fn sorted_by_time(msgs: Seq<MessageView>) -> bool {
    forall|i: int, j: int|
        0 <= i <= j < msgs.len() ==> #[trigger] msgs[i].timestamp <= #[trigger] msgs[j].timestamp
}

pub open spec fn unique_ids(msgs: Seq<MessageView>) -> bool {
    forall|i: int, j: int|
        0 <= i < msgs.len() && 0 <= j < msgs.len() && i != j ==> #[trigger] msgs[i].id
            != #[trigger] msgs[j].id
}

pub open spec fn unique_targets(edits: Seq<EditView>) -> bool {
    forall|i: int, j: int|
        0 <= i < edits.len() && 0 <= j < edits.len() && i != j ==> #[trigger] edits[i].target
            != #[trigger] edits[j].target
}

impl ChannelView {
    /// A channel just created: no messages, no pending edits, history not
    /// fetched.
    pub open spec fn fresh(id: Seq<char>, name: Seq<char>) -> ChannelView {
        ChannelView {
            id,
            name,
            messages: Seq::empty(),
            pending: Seq::empty(),
            at_top: false,
            prev_token: None,
        }
    }

    /// Messages sorted by timestamp with unique identifiers; at most one
    /// pending edit per target.
    pub open spec fn wf(self) -> bool {
        &&& sorted_by_time(self.messages)
        &&& unique_ids(self.messages)
        &&& unique_targets(self.pending)
    }

    pub open spec fn has_message(self, id: Seq<char>) -> bool {
        message_index(self.messages, id) >= 0
    }

    /// The messages keyed by identifier.
    pub open spec fn by_id(self) -> Map<Seq<char>, MessageView> {
        Map::new(
            |id: Seq<char>| self.has_message(id),
            |id: Seq<char>| self.messages[message_index(self.messages, id)],
        )
    }

    /// The identifiers in display order.
    pub open spec fn order(self) -> Seq<Seq<char>> {
        self.messages.map_values(|m: MessageView| m.id)
    }

    /// A new message observed: ignored when its identifier is known;
    /// otherwise placed after every message stamped no later than it, with a
    /// waiting edit applied and consumed.
    pub open spec fn with_message(
        self,
        id: Seq<char>,
        sender: Seq<char>,
        body: Seq<char>,
        timestamp: u64,
    ) -> ChannelView {
        if self.has_message(id) {
            self
        } else {
            let p = edit_index(self.pending, id);
            let m = if p >= 0 {
                MessageView { id, sender, body: self.pending[p].body, edited: true, timestamp }
            } else {
                MessageView { id, sender, body, edited: false, timestamp }
            };
            ChannelView {
                messages: self.messages.insert(insert_pos(self.messages, timestamp), m),
                pending: if p >= 0 {
                    self.pending.remove(p)
                } else {
                    self.pending
                },
                ..self
            }
        }
    }

    /// An edit observed: applied to its target when present; otherwise kept
    /// until the target arrives, unless an edit stamped no earlier waits.
    pub open spec fn with_edit(self, target: Seq<char>, body: Seq<char>, timestamp: u64) -> ChannelView {
        let i = message_index(self.messages, target);
        let p = edit_index(self.pending, target);
        let e = EditView { target, body, timestamp };
        if i >= 0 {
            ChannelView {
                messages: self.messages.update(
                    i,
                    MessageView { body, edited: true, ..self.messages[i] },
                ),
                ..self
            }
        } else if p < 0 {
            ChannelView { pending: self.pending.push(e), ..self }
        } else if self.pending[p].timestamp < timestamp {
            ChannelView { pending: self.pending.update(p, e), ..self }
        } else {
            self
        }
    }

    /// A redaction observed: the message leaves the timeline, if present.
    pub open spec fn with_redaction(self, target: Seq<char>) -> ChannelView {
        let i = message_index(self.messages, target);
        if i >= 0 {
            ChannelView { messages: self.messages.remove(i), ..self }
        } else {
            self
        }
    }

    pub open spec fn with_event(self, e: EventView) -> ChannelView {
        match e {
            EventView::Message { id, sender, body, timestamp } => self.with_message(
                id,
                sender,
                body,
                timestamp,
            ),
            EventView::Edit { target, body, timestamp } => self.with_edit(target, body, timestamp),
            EventView::Redaction { target } => self.with_redaction(target),
        }
    }

    /// The end of a fetched history page recorded: `at_top` once no
    /// continuation token came back.
    pub open spec fn with_page_end(self, end: Option<Seq<char>>) -> ChannelView {
        ChannelView { at_top: end is None, prev_token: end, ..self }
    }

    /// Where a message event would be inserted, if it would be.
    pub open spec fn insertion_of(self, e: EventView) -> Option<int> {
        match e {
            EventView::Message { id, timestamp, .. } => if self.has_message(id) {
                None
            } else {
                Some(insert_pos(self.messages, timestamp))
            },
            _ => None,
        }
    }
}

// ---------------------------------------------------------------------------
// Lemmas on the model

pub proof fn lemma_message_index(msgs: Seq<MessageView>, id: Seq<char>)
    requires
        unique_ids(msgs),
    ensures
        -1 <= message_index(msgs, id) < msgs.len(),
        message_index(msgs, id) >= 0 ==> msgs[message_index(msgs, id)].id == id,
        message_index(msgs, id) < 0 ==> forall|i: int| 0 <= i < msgs.len() ==> #[trigger] msgs[i].id != id,
        forall|i: int| 0 <= i < msgs.len() && #[trigger] msgs[i].id == id ==> message_index(msgs, id) == i,
{
}

pub proof fn lemma_edit_index(edits: Seq<EditView>, target: Seq<char>)
    requires
        unique_targets(edits),
    ensures
        -1 <= edit_index(edits, target) < edits.len(),
        edit_index(edits, target) >= 0 ==> edits[edit_index(edits, target)].target == target,
        edit_index(edits, target) < 0 ==> forall|i: int| 0 <= i < edits.len() ==> #[trigger] edits[i].target != target,
        forall|i: int| 0 <= i < edits.len() && #[trigger] edits[i].target == target ==> edit_index(edits, target) == i,
{
}

/// Every message after the insertion point is stamped later; in a sorted
/// timeline every message before it is stamped no later.
pub proof fn lemma_insert_pos(msgs: Seq<MessageView>, t: u64)
    ensures
        0 <= insert_pos(msgs, t) <= msgs.len(),
        forall|j: int| insert_pos(msgs, t) <= j < msgs.len() ==> #[trigger] msgs[j].timestamp > t,
        sorted_by_time(msgs) ==> forall|j: int| 0 <= j < insert_pos(msgs, t) ==> #[trigger] msgs[j].timestamp <= t,
    decreases msgs.len(),
{
    if msgs.len() > 0 && msgs.last().timestamp > t {
        let d = msgs.drop_last();
        lemma_insert_pos(d, t);
        assert forall|j: int| insert_pos(msgs, t) <= j < msgs.len() implies #[trigger] msgs[j].timestamp > t by {
            if j < msgs.len() - 1 {
                assert(d[j] == msgs[j]);
            }
        }
        if sorted_by_time(msgs) {
            assert(sorted_by_time(d)) by {
                assert forall|i: int, j: int| 0 <= i <= j < d.len() implies #[trigger] d[i].timestamp <= #[trigger] d[j].timestamp by {
                    assert(d[i] == msgs[i] && d[j] == msgs[j]);
                }
            }
            assert forall|j: int| 0 <= j < insert_pos(msgs, t) implies #[trigger] msgs[j].timestamp <= t by {
                assert(d[j] == msgs[j]);
            }
        }
    } else if msgs.len() > 0 && sorted_by_time(msgs) {
        assert forall|j: int| 0 <= j < insert_pos(msgs, t) implies #[trigger] msgs[j].timestamp <= t by {
            assert(msgs[j].timestamp <= msgs[msgs.len() - 1].timestamp);
        }
    }
}

/// Every transition keeps a channel well formed.
pub proof fn lemma_with_message_wf(
    c: ChannelView,
    id: Seq<char>,
    sender: Seq<char>,
    body: Seq<char>,
    timestamp: u64,
)
    requires
        c.wf(),
    ensures
        c.with_message(id, sender, body, timestamp).wf(),
{
    if !c.has_message(id) {
        lemma_message_index(c.messages, id);
        lemma_edit_index(c.pending, id);
        lemma_insert_pos(c.messages, timestamp);
        let r = c.with_message(id, sender, body, timestamp);
        let pos = insert_pos(c.messages, timestamp);
        let n = r.messages;
        assert forall|i: int, j: int| 0 <= i <= j < n.len() implies #[trigger] n[i].timestamp
            <= #[trigger] n[j].timestamp by {
            if i < pos && j > pos {
                assert(n[j] == c.messages[j - 1]);
            } else if i > pos {
                assert(n[i] == c.messages[i - 1] && n[j] == c.messages[j - 1]);
            } else if j < pos {
                assert(n[i] == c.messages[i] && n[j] == c.messages[j]);
            }
        }
        assert forall|i: int, j: int|
            0 <= i < n.len() && 0 <= j < n.len() && i != j implies #[trigger] n[i].id
            != #[trigger] n[j].id by {
            if i != pos && j != pos {
                let ii = if i < pos { i } else { i - 1 };
                let jj = if j < pos { j } else { j - 1 };
                assert(n[i] == c.messages[ii] && n[j] == c.messages[jj]);
            } else if i == pos {
                let jj = if j < pos { j } else { j - 1 };
                assert(n[j] == c.messages[jj]);
            } else {
                let ii = if i < pos { i } else { i - 1 };
                assert(n[i] == c.messages[ii]);
            }
        }
        let p = edit_index(c.pending, id);
        if p >= 0 {
            let e = r.pending;
            assert forall|i: int, j: int|
                0 <= i < e.len() && 0 <= j < e.len() && i != j implies #[trigger] e[i].target
                != #[trigger] e[j].target by {
                let ii = if i < p { i } else { i + 1 };
                let jj = if j < p { j } else { j + 1 };
                assert(e[i] == c.pending[ii] && e[j] == c.pending[jj]);
            }
        }
    }
}

pub proof fn lemma_with_edit_wf(c: ChannelView, target: Seq<char>, body: Seq<char>, timestamp: u64)
    requires
        c.wf(),
    ensures
        c.with_edit(target, body, timestamp).wf(),
{
    lemma_message_index(c.messages, target);
    lemma_edit_index(c.pending, target);
    let r = c.with_edit(target, body, timestamp);
    let i = message_index(c.messages, target);
    if i >= 0 {
        let n = r.messages;
        assert forall|a: int, b: int| 0 <= a <= b < n.len() implies #[trigger] n[a].timestamp
            <= #[trigger] n[b].timestamp by {
            assert(n[a].timestamp == c.messages[a].timestamp);
            assert(n[b].timestamp == c.messages[b].timestamp);
        }
        assert forall|a: int, b: int|
            0 <= a < n.len() && 0 <= b < n.len() && a != b implies #[trigger] n[a].id
            != #[trigger] n[b].id by {
            assert(n[a].id == c.messages[a].id);
            assert(n[b].id == c.messages[b].id);
        }
    } else {
        let e = r.pending;
        assert forall|a: int, b: int|
            0 <= a < e.len() && 0 <= b < e.len() && a != b implies #[trigger] e[a].target
            != #[trigger] e[b].target by {
            if a < c.pending.len() && b < c.pending.len() {
                assert(e[a].target == c.pending[a].target);
                assert(e[b].target == c.pending[b].target);
            }
        }
    }
}

pub proof fn lemma_with_redaction_wf(c: ChannelView, target: Seq<char>)
    requires
        c.wf(),
    ensures
        c.with_redaction(target).wf(),
{
    lemma_message_index(c.messages, target);
    let i = message_index(c.messages, target);
    if i >= 0 {
        let n = c.with_redaction(target).messages;
        assert forall|a: int, b: int| 0 <= a <= b < n.len() implies #[trigger] n[a].timestamp
            <= #[trigger] n[b].timestamp by {
            let aa = if a < i { a } else { a + 1 };
            let bb = if b < i { b } else { b + 1 };
            assert(n[a] == c.messages[aa] && n[b] == c.messages[bb]);
        }
        assert forall|a: int, b: int|
            0 <= a < n.len() && 0 <= b < n.len() && a != b implies #[trigger] n[a].id
            != #[trigger] n[b].id by {
            let aa = if a < i { a } else { a + 1 };
            let bb = if b < i { b } else { b + 1 };
            assert(n[a] == c.messages[aa] && n[b] == c.messages[bb]);
        }
    }
}

pub proof fn lemma_with_event_wf(c: ChannelView, e: EventView)
    requires
        c.wf(),
    ensures
        c.with_event(e).wf(),
{
    match e {
        EventView::Message { id, sender, body, timestamp } => lemma_with_message_wf(
            c,
            id,
            sender,
            body,
            timestamp,
        ),
        EventView::Edit { target, body, timestamp } => lemma_with_edit_wf(c, target, body, timestamp),
        EventView::Redaction { target } => lemma_with_redaction_wf(c, target),
    }
}

/// Events applied one after another, first to last.
pub open spec fn with_events(c: ChannelView, events: Seq<EventView>) -> ChannelView
    decreases events.len(),
{
    if events.len() == 0 {
        c
    } else {
        with_events(c, events.drop_last()).with_event(events.last())
    }
}

/// Whatever events arrive, in whatever order, a channel stays sorted by
/// timestamp with unique message identifiers.
pub proof fn law_events_keep_order(c: ChannelView, events: Seq<EventView>)
    requires
        c.wf(),
    ensures
        with_events(c, events).wf(),
        sorted_by_time(with_events(c, events).messages),
    decreases events.len(),
{
    if events.len() > 0 {
        law_events_keep_order(c, events.drop_last());
        lemma_with_event_wf(with_events(c, events.drop_last()), events.last());
    }
}

/// A new message lands after every message stamped no later than it, so
/// equal timestamps keep their arrival order, and before every message
/// stamped later; the other messages keep their relative order.
pub proof fn law_message_placement(
    c: ChannelView,
    id: Seq<char>,
    sender: Seq<char>,
    body: Seq<char>,
    timestamp: u64,
)
    requires
        c.wf(),
        !c.has_message(id),
    ensures
        ({
            let r = c.with_message(id, sender, body, timestamp).messages;
            let p = insert_pos(c.messages, timestamp);
            &&& sorted_by_time(r)
            &&& r.len() == c.messages.len() + 1
            &&& r[p].id == id
            &&& r[p].timestamp == timestamp
            &&& forall|j: int|
                0 <= j < p ==> #[trigger] r[j] == c.messages[j] && c.messages[j].timestamp
                    <= timestamp
            &&& forall|j: int|
                p <= j < c.messages.len() ==> #[trigger] r[j + 1] == c.messages[j]
                    && c.messages[j].timestamp > timestamp
        }),
{
    lemma_with_message_wf(c, id, sender, body, timestamp);
    lemma_insert_pos(c.messages, timestamp);
}

/// Delivering a message a second time changes nothing, whatever else the
/// second delivery carries.
pub proof fn law_message_idempotent(
    c: ChannelView,
    id: Seq<char>,
    sender: Seq<char>,
    body: Seq<char>,
    timestamp: u64,
    sender2: Seq<char>,
    body2: Seq<char>,
    timestamp2: u64,
)
    requires
        c.wf(),
    ensures
        ({
            let once = c.with_message(id, sender, body, timestamp);
            once.with_message(id, sender2, body2, timestamp2) == once
        }),
{
    let once = c.with_message(id, sender, body, timestamp);
    if !c.has_message(id) {
        lemma_with_message_wf(c, id, sender, body, timestamp);
        lemma_insert_pos(c.messages, timestamp);
        let p = insert_pos(c.messages, timestamp);
        assert(once.messages[p].id == id);
        lemma_message_index(once.messages, id);
    }
}

/// An edit that arrives before its message shows on the message once the
/// message arrives, and is then no longer pending.
pub proof fn law_edit_before_message(
    c: ChannelView,
    target: Seq<char>,
    new_body: Seq<char>,
    edit_time: u64,
    sender: Seq<char>,
    body: Seq<char>,
    timestamp: u64,
)
    requires
        c.wf(),
        !c.has_message(target),
        edit_index(c.pending, target) < 0,
    ensures
        ({
            let r = c.with_edit(target, new_body, edit_time).with_message(
                target,
                sender,
                body,
                timestamp,
            );
            let i = message_index(r.messages, target);
            &&& i >= 0
            &&& r.messages[i].body == new_body
            &&& r.messages[i].edited
            &&& edit_index(r.pending, target) < 0
        }),
{
    let c1 = c.with_edit(target, new_body, edit_time);
    lemma_with_edit_wf(c, target, new_body, edit_time);
    lemma_message_index(c.messages, target);
    lemma_edit_index(c.pending, target);
    let p = c.pending.len() as int;
    assert(c1.pending[p].target == target);
    lemma_edit_index(c1.pending, target);
    lemma_with_message_wf(c1, target, sender, body, timestamp);
    lemma_insert_pos(c1.messages, timestamp);
    let r = c1.with_message(target, sender, body, timestamp);
    let q = insert_pos(c1.messages, timestamp);
    assert(r.messages[q].id == target);
    lemma_message_index(r.messages, target);
    assert forall|j: int| 0 <= j < r.pending.len() implies #[trigger] r.pending[j].target
        != target by {
        assert(r.pending[j] == c.pending[j]);
    }
}

/// An edit of a message already present shows at once, without moving it.
pub proof fn law_edit_after_message(c: ChannelView, target: Seq<char>, new_body: Seq<char>, edit_time: u64)
    requires
        c.wf(),
        c.has_message(target),
    ensures
        ({
            let r = c.with_edit(target, new_body, edit_time);
            let i = message_index(c.messages, target);
            &&& message_index(r.messages, target) == i
            &&& r.messages[i].body == new_body
            &&& r.messages[i].edited
            &&& r.order() == c.order()
        }),
{
    lemma_message_index(c.messages, target);
    let r = c.with_edit(target, new_body, edit_time);
    lemma_with_edit_wf(c, target, new_body, edit_time);
    let i = message_index(c.messages, target);
    assert(r.messages[i].id == target);
    lemma_message_index(r.messages, target);
    assert(r.order() =~= c.order());
}

/// Of two edits to a message not yet seen, the one stamped later is the one
/// kept, in whichever order they arrive.
pub proof fn law_newest_edit_wins(
    c: ChannelView,
    target: Seq<char>,
    body1: Seq<char>,
    time1: u64,
    body2: Seq<char>,
    time2: u64,
)
    requires
        c.wf(),
        !c.has_message(target),
        edit_index(c.pending, target) < 0,
        time1 < time2,
    ensures
        c.with_edit(target, body1, time1).with_edit(target, body2, time2) == c.with_edit(
            target,
            body2,
            time2,
        ).with_edit(target, body1, time1),
        c.with_edit(target, body1, time1).with_edit(target, body2, time2).pending == c.pending.push(
            EditView { target, body: body2, timestamp: time2 },
        ),
{
    lemma_message_index(c.messages, target);
    lemma_edit_index(c.pending, target);
    let p = c.pending.len() as int;
    let a = c.with_edit(target, body1, time1);
    let b = c.with_edit(target, body2, time2);
    lemma_with_edit_wf(c, target, body1, time1);
    lemma_with_edit_wf(c, target, body2, time2);
    assert(a.pending[p].target == target);
    assert(b.pending[p].target == target);
    lemma_edit_index(a.pending, target);
    lemma_edit_index(b.pending, target);
    assert(a.messages == c.messages);
    assert(b.messages == c.messages);
    assert(a.with_edit(target, body2, time2).pending =~= c.pending.push(
        EditView { target, body: body2, timestamp: time2 },
    ));
}

/// A redaction takes the message out of both the order and the map, and
/// nothing else; a redaction of an unknown message changes nothing.
pub proof fn law_redaction(c: ChannelView, target: Seq<char>)
    requires
        c.wf(),
    ensures
        !c.has_message(target) ==> c.with_redaction(target) == c,
        c.has_message(target) ==> {
            let r = c.with_redaction(target);
            &&& !r.has_message(target)
            &&& r.order() == c.order().remove(message_index(c.messages, target))
            &&& r.by_id() == c.by_id().remove(target)
            &&& r.pending == c.pending
        },
{
    lemma_message_index(c.messages, target);
    if c.has_message(target) {
        let r = c.with_redaction(target);
        let i = message_index(c.messages, target);
        lemma_with_redaction_wf(c, target);
        assert forall|k: Seq<char>| k != target implies #[trigger] r.has_message(k) == c.has_message(k)
            && (c.has_message(k) ==> r.by_id()[k] == c.by_id()[k]) by {
            lemma_message_index(c.messages, k);
            lemma_message_index(r.messages, k);
            if c.has_message(k) {
                let j = message_index(c.messages, k);
                let jr = if j < i { j } else { j - 1 };
                assert(r.messages[jr] == c.messages[j]);
            } else {
                assert forall|a: int| 0 <= a < r.messages.len() implies #[trigger] r.messages[a].id
                    != k by {
                    if a < i {
                        assert(r.messages[a] == c.messages[a]);
                    } else {
                        assert(r.messages[a] == c.messages[a + 1]);
                    }
                }
            }
        }
        assert forall|j: int| 0 <= j < r.messages.len() implies #[trigger] r.messages[j].id
            != target by {
            if j < i {
                assert(r.messages[j] == c.messages[j]);
            } else {
                assert(r.messages[j] == c.messages[j + 1]);
            }
        }
        assert(r.order() =~= c.order().remove(i));
        assert(r.by_id() =~= c.by_id().remove(target));
    }
}

// ---------------------------------------------------------------------------
// Executable timeline

/// A message of a channel.
pub struct Message {
    pub id: String,
    pub sender: String,
    pub body: String,
    pub edited: bool,
    pub timestamp: u64,
}

impl View for Message {
    type V = MessageView;

    open spec fn view(&self) -> MessageView {
        MessageView {
            id: self.id@,
            sender: self.sender@,
            body: self.body@,
            edited: self.edited,
            timestamp: self.timestamp,
        }
    }
}

/// An edit waiting for the message it replaces.
pub struct PendingEdit {
    pub target: String,
    pub body: String,
    pub timestamp: u64,
}

impl View for PendingEdit {
    type V = EditView;

    open spec fn view(&self) -> EditView {
        EditView { target: self.target@, body: self.body@, timestamp: self.timestamp }
    }
}

/// One event of a channel's timeline.
pub enum TimelineEvent {
    Message { id: String, sender: String, body: String, timestamp: u64 },
    Edit { target: String, body: String, timestamp: u64 },
    Redaction { target: String },
}

impl View for TimelineEvent {
    type V = EventView;

    open spec fn view(&self) -> EventView {
        match self {
            TimelineEvent::Message { id, sender, body, timestamp } => EventView::Message {
                id: id@,
                sender: sender@,
                body: body@,
                timestamp: *timestamp,
            },
            TimelineEvent::Edit { target, body, timestamp } => EventView::Edit {
                target: target@,
                body: body@,
                timestamp: *timestamp,
            },
            TimelineEvent::Redaction { target } => EventView::Redaction { target: target@ },
        }
    }
}

pub open spec fn token_view(t: Option<String>) -> Option<Seq<char>> {
    match t {
        Some(s) => Some(s@),
        None => None,
    }
}

/// One conversation: its ordered, deduplicated messages, the edits waiting
/// for their target, and the state of backward pagination.
pub struct Channel {
    id: String,
    name: String,
    messages: Vec<Message>,
    pending: Vec<PendingEdit>,
    at_top: bool,
    prev_token: Option<String>,
}

impl View for Channel {
    type V = ChannelView;

    closed spec fn view(&self) -> ChannelView {
        ChannelView {
            id: self.id@,
            name: self.name@,
            messages: self.messages@.map_values(|m: Message| m@),
            pending: self.pending@.map_values(|e: PendingEdit| e@),
            at_top: self.at_top,
            prev_token: token_view(self.prev_token),
        }
    }
}

impl Channel {
    /// An empty channel whose history has not been fetched yet.
    pub fn new(id: String, name: String) -> (r: Channel)
        ensures
            r@.wf(),
            r@ == ChannelView::fresh(id@, name@),
    {
        let r = Channel {
            id,
            name,
            messages: Vec::new(),
            pending: Vec::new(),
            at_top: false,
            prev_token: None,
        };
        proof {
            assert(r@.messages =~= Seq::<MessageView>::empty());
            assert(r@.pending =~= Seq::<EditView>::empty());
        }
        r
    }

    pub fn id(&self) -> (r: &String)
        ensures
            r@ == self@.id,
    {
        &self.id
    }

    pub fn name(&self) -> (r: &String)
        ensures
            r@ == self@.name,
    {
        &self.name
    }

    pub fn message_count(&self) -> (r: usize)
        ensures
            r == self@.messages.len(),
    {
        self.messages.len()
    }

    /// The message at position `i`, oldest first.
    pub fn message(&self, i: usize) -> (r: &Message)
        requires
            i < self@.messages.len(),
        ensures
            r@ == self@.messages[i as int],
    {
        &self.messages[i]
    }

    /// The identifiers of the messages, oldest first.
    pub fn order(&self) -> (r: Vec<String>)
        ensures
            r@.map_values(|s: String| s@) == self@.order(),
    {
        let mut r: Vec<String> = Vec::new();
        let mut i: usize = 0;
        while i < self.messages.len()
            invariant
                i <= self.messages.len(),
                r@.len() == i,
                forall|j: int| 0 <= j < i ==> #[trigger] r@[j]@ == self.messages@[j].id@,
            decreases self.messages.len() - i,
        {
            r.push(self.messages[i].id.clone());
            i = i + 1;
        }
        proof {
            assert(r@.map_values(|s: String| s@) =~= self@.order());
        }
        r
    }

    /// The edit waiting for `target`, if one is.
    pub fn pending_edit(&self, target: &String) -> (r: Option<&PendingEdit>)
        requires
            self@.wf(),
        ensures
            match r {
                Some(e) => edit_index(self@.pending, target@) >= 0 && e@ == self@.pending[edit_index(
                    self@.pending,
                    target@,
                )],
                None => edit_index(self@.pending, target@) < 0,
            },
    {
        match self.find_edit(target) {
            Some(p) => Some(&self.pending[p]),
            None => None,
        }
    }

    pub fn at_top(&self) -> (r: bool)
        ensures
            r == self@.at_top,
    {
        self.at_top
    }

    /// Continuation token for the next backward history fetch.
    pub fn prev_token(&self) -> (r: Option<&String>)
        ensures
            match r {
                Some(t) => self@.prev_token == Some(t@),
                None => self@.prev_token is None,
            },
    {
        match &self.prev_token {
            Some(t) => Some(t),
            None => None,
        }
    }

    fn find_message(&self, id: &String) -> (r: Option<usize>)
        requires
            self@.wf(),
        ensures
            match r {
                Some(i) => i as int == message_index(self@.messages, id@),
                None => message_index(self@.messages, id@) == -1,
            },
    {
        let mut i: usize = 0;
        while i < self.messages.len()
            invariant
                i <= self.messages.len(),
                self@.wf(),
                forall|j: int| 0 <= j < i ==> #[trigger] self@.messages[j].id != id@,
            decreases self.messages.len() - i,
        {
            if self.messages[i].id == *id {
                proof {
                    lemma_message_index(self@.messages, id@);
                    assert(self@.messages[i as int].id == id@);
                }
                return Some(i);
            }
            i = i + 1;
        }
        None
    }

    fn find_edit(&self, target: &String) -> (r: Option<usize>)
        requires
            self@.wf(),
        ensures
            match r {
                Some(i) => i as int == edit_index(self@.pending, target@),
                None => edit_index(self@.pending, target@) == -1,
            },
    {
        let mut i: usize = 0;
        while i < self.pending.len()
            invariant
                i <= self.pending.len(),
                self@.wf(),
                forall|j: int| 0 <= j < i ==> #[trigger] self@.pending[j].target != target@,
            decreases self.pending.len() - i,
        {
            if self.pending[i].target == *target {
                proof {
                    lemma_edit_index(self@.pending, target@);
                    assert(self@.pending[i as int].target == target@);
                }
                return Some(i);
            }
            i = i + 1;
        }
        None
    }

    /// Where a message stamped `t` is inserted, walking back from the newest.
    fn insert_position(&self, t: u64) -> (r: usize)
        ensures
            r == insert_pos(self@.messages, t),
    {
        let ghost msgs = self@.messages;
        let mut i: usize = self.messages.len();
        assert(msgs.subrange(0, i as int) =~= msgs);
        while i > 0
            invariant
                i <= msgs.len(),
                msgs == self@.messages,
                insert_pos(msgs, t) == insert_pos(msgs.subrange(0, i as int), t),
            decreases i,
        {
            let ghost sub = msgs.subrange(0, i as int);
            assert(sub.last() == msgs[i - 1]);
            assert(sub.drop_last() =~= msgs.subrange(0, i - 1));
            if self.messages[i - 1].timestamp <= t {
                return i;
            }
            i = i - 1;
        }
        0
    }

    /// Applies a new message; returns where it was inserted, or `None` when
    /// its identifier was already present.
    pub fn apply_message(&mut self, id: String, sender: String, body: String, timestamp: u64) -> (r:
        Option<usize>)
        requires
            old(self)@.wf(),
        ensures
            final(self)@.wf(),
            final(self)@ == old(self)@.with_message(id@, sender@, body@, timestamp),
            match r {
                Some(i) => !old(self)@.has_message(id@) && i == insert_pos(
                    old(self)@.messages,
                    timestamp,
                ),
                None => old(self)@.has_message(id@),
            },
    {
        proof {
            lemma_with_message_wf(self@, id@, sender@, body@, timestamp);
            lemma_insert_pos(self@.messages, timestamp);
        }
        if self.find_message(&id).is_some() {
            return None;
        }
        let ghost final_view = self@.with_message(id@, sender@, body@, timestamp);
        let mut m = Message { id, sender, body, edited: false, timestamp };
        match self.find_edit(&m.id) {
            Some(p) => {
                let e = self.pending.remove(p);
                m.body = e.body;
                m.edited = true;
            },
            None => {},
        }
        let pos = self.insert_position(timestamp);
        self.messages.insert(pos, m);
        proof {
            assert(self@.messages =~= final_view.messages);
            assert(self@.pending =~= final_view.pending);
        }
        Some(pos)
    }

    /// Applies an edit to its target, or keeps it until the target arrives.
    pub fn apply_edit(&mut self, target: String, body: String, timestamp: u64)
        requires
            old(self)@.wf(),
        ensures
            final(self)@.wf(),
            final(self)@ == old(self)@.with_edit(target@, body@, timestamp),
    {
        proof {
            lemma_with_edit_wf(self@, target@, body@, timestamp);
        }
        let ghost final_view = self@.with_edit(target@, body@, timestamp);
        match self.find_message(&target) {
            Some(i) => {
                let mut m = self.messages.remove(i);
                m.body = body;
                m.edited = true;
                self.messages.insert(i, m);
                proof {
                    assert(self@.messages =~= final_view.messages);
                }
            },
            None => match self.find_edit(&target) {
                None => {
                    self.pending.push(PendingEdit { target, body, timestamp });
                    proof {
                        assert(self@.pending =~= final_view.pending);
                    }
                },
                Some(p) => {
                    if self.pending[p].timestamp < timestamp {
                        self.pending.set(p, PendingEdit { target, body, timestamp });
                        proof {
                            assert(self@.pending =~= final_view.pending);
                        }
                    }
                },
            },
        }
    }

    /// Removes the message `target` from the timeline, if present.
    pub fn apply_redaction(&mut self, target: &String)
        requires
            old(self)@.wf(),
        ensures
            final(self)@.wf(),
            final(self)@ == old(self)@.with_redaction(target@),
    {
        proof {
            lemma_with_redaction_wf(self@, target@);
        }
        let ghost final_view = self@.with_redaction(target@);
        match self.find_message(target) {
            Some(i) => {
                self.messages.remove(i);
                proof {
                    assert(self@.messages =~= final_view.messages);
                }
            },
            None => {},
        }
    }

    /// Applies one event; returns where a new message was inserted.
    pub fn apply_event(&mut self, e: &TimelineEvent) -> (r: Option<usize>)
        requires
            old(self)@.wf(),
        ensures
            final(self)@.wf(),
            final(self)@ == old(self)@.with_event(e@),
            match r {
                Some(i) => old(self)@.insertion_of(e@) == Some(i as int),
                None => old(self)@.insertion_of(e@) is None,
            },
    {
        match e {
            TimelineEvent::Message { id, sender, body, timestamp } => self.apply_message(
                id.clone(),
                sender.clone(),
                body.clone(),
                *timestamp,
            ),
            TimelineEvent::Edit { target, body, timestamp } => {
                self.apply_edit(target.clone(), body.clone(), *timestamp);
                None
            },
            TimelineEvent::Redaction { target } => {
                self.apply_redaction(target);
                None
            },
        }
    }

    /// Records the continuation token that a history page returned: history
    /// is exhausted when there is none.
    pub fn set_page_end(&mut self, end: Option<String>)
        requires
            old(self)@.wf(),
        ensures
            final(self)@.wf(),
            final(self)@ == old(self)@.with_page_end(token_view(end)),
    {
        self.at_top = end.is_none();
        self.prev_token = end;
    }
}

} // verus!
