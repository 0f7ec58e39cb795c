use chat_core::{Channel, TimelineEvent};

fn s(x: &str) -> String {
    x.to_string()
}

fn channel() -> Channel {
    Channel::new(s("!room"), s("Room"))
}

fn post(c: &mut Channel, id: &str, ts: u64) -> Option<usize> {
    c.apply_message(s(id), s("@alice"), format!("body of {}", id), ts)
}

fn order(c: &Channel) -> Vec<String> {
    c.order()
}

fn stamps(c: &Channel) -> Vec<u64> {
    (0..c.message_count()).map(|i| c.message(i).timestamp).collect()
}

#[test]
fn new_channel_is_empty() {
    let c = channel();
    assert_eq!(c.id(), "!room");
    assert_eq!(c.name(), "Room");
    assert_eq!(c.message_count(), 0);
    assert!(!c.at_top());
    assert!(c.prev_token().is_none());
}

#[test]
fn out_of_order_messages_end_sorted_by_timestamp() {
    let mut c = channel();
    for (id, ts) in [("e", 50), ("a", 10), ("c", 30), ("d", 40), ("b", 20)] {
        post(&mut c, id, ts);
    }
    assert_eq!(order(&c), vec!["a", "b", "c", "d", "e"]);
    assert_eq!(stamps(&c), vec![10, 20, 30, 40, 50]);
}

#[test]
fn equal_timestamps_keep_arrival_order() {
    let mut c = channel();
    post(&mut c, "x", 5);
    post(&mut c, "early", 1);
    post(&mut c, "y", 5);
    post(&mut c, "late", 9);
    post(&mut c, "z", 5);
    assert_eq!(order(&c), vec!["early", "x", "y", "z", "late"]);
}

#[test]
fn insertion_index_is_reported() {
    let mut c = channel();
    assert_eq!(post(&mut c, "a", 10), Some(0));
    assert_eq!(post(&mut c, "b", 30), Some(1));
    assert_eq!(post(&mut c, "c", 20), Some(1));
    assert_eq!(post(&mut c, "d", 5), Some(0));
    assert_eq!(post(&mut c, "e", 30), Some(4));
}

#[test]
fn duplicate_message_is_ignored() {
    let mut c = channel();
    post(&mut c, "a", 1);
    post(&mut c, "b", 2);
    let again = c.apply_message(s("a"), s("@mallory"), s("other"), 99);
    assert_eq!(again, None);
    assert_eq!(order(&c), vec!["a", "b"]);
    assert_eq!(c.message(0).body, "body of a");
    assert_eq!(c.message(0).sender, "@alice");
    assert_eq!(c.message(0).timestamp, 1);
}

#[test]
fn edit_after_message_applies_at_once() {
    let mut c = channel();
    post(&mut c, "a", 1);
    post(&mut c, "b", 2);
    c.apply_edit(s("a"), s("fixed"), 7);
    assert_eq!(c.message(0).body, "fixed");
    assert!(c.message(0).edited);
    assert!(!c.message(1).edited);
    assert_eq!(order(&c), vec!["a", "b"]);
    assert!(c.pending_edit(&s("a")).is_none());
}

#[test]
fn edit_before_message_applies_on_arrival() {
    let mut c = channel();
    c.apply_edit(s("a"), s("fixed"), 7);
    assert_eq!(c.message_count(), 0);
    let pending = c.pending_edit(&s("a")).unwrap();
    assert_eq!(pending.body, "fixed");
    assert_eq!(pending.timestamp, 7);
    post(&mut c, "a", 1);
    assert_eq!(c.message(0).body, "fixed");
    assert!(c.message(0).edited);
    assert!(c.pending_edit(&s("a")).is_none());
}

#[test]
fn newer_pending_edit_wins_in_either_arrival_order() {
    let mut first = channel();
    first.apply_edit(s("a"), s("old"), 3);
    first.apply_edit(s("a"), s("new"), 8);
    let mut second = channel();
    second.apply_edit(s("a"), s("new"), 8);
    second.apply_edit(s("a"), s("old"), 3);
    for c in [&mut first, &mut second] {
        assert_eq!(c.pending_edit(&s("a")).unwrap().body, "new");
        post(c, "a", 1);
        assert_eq!(c.message(0).body, "new");
        assert!(c.message(0).edited);
    }
}

#[test]
fn pending_edit_with_equal_timestamp_keeps_the_first() {
    let mut c = channel();
    c.apply_edit(s("a"), s("first"), 5);
    c.apply_edit(s("a"), s("second"), 5);
    assert_eq!(c.pending_edit(&s("a")).unwrap().body, "first");
}

#[test]
fn redaction_removes_the_message() {
    let mut c = channel();
    post(&mut c, "a", 1);
    post(&mut c, "b", 2);
    post(&mut c, "c", 3);
    c.apply_redaction(&s("b"));
    assert_eq!(order(&c), vec!["a", "c"]);
    c.apply_redaction(&s("b"));
    assert_eq!(order(&c), vec!["a", "c"]);
}

#[test]
fn redaction_of_unknown_message_is_a_no_op() {
    let mut c = channel();
    post(&mut c, "a", 1);
    c.apply_redaction(&s("zzz"));
    assert_eq!(order(&c), vec!["a"]);
    assert_eq!(c.message(0).body, "body of a");
}

#[test]
fn insert_redact_then_orphaned_edit() {
    let mut c = channel();
    post(&mut c, "m1", 1);
    post(&mut c, "m3", 3);
    post(&mut c, "m5", 5);
    post(&mut c, "m4", 4);
    assert_eq!(stamps(&c), vec![1, 3, 4, 5]);
    c.apply_redaction(&s("m3"));
    assert_eq!(stamps(&c), vec![1, 4, 5]);
    assert_eq!(order(&c), vec!["m1", "m4", "m5"]);
    c.apply_edit(s("m3"), s("too late"), 6);
    assert_eq!(stamps(&c), vec![1, 4, 5]);
    assert_eq!(c.pending_edit(&s("m3")).unwrap().body, "too late");
    for i in 0..c.message_count() {
        assert!(!c.message(i).edited);
    }
}

#[test]
fn apply_event_dispatches_each_kind() {
    let mut c = channel();
    let m = TimelineEvent::Message { id: s("a"), sender: s("@bob"), body: s("hi"), timestamp: 4 };
    assert_eq!(c.apply_event(&m), Some(0));
    assert_eq!(c.apply_event(&m), None);
    let e = TimelineEvent::Edit { target: s("a"), body: s("hello"), timestamp: 5 };
    assert_eq!(c.apply_event(&e), None);
    assert_eq!(c.message(0).body, "hello");
    let r = TimelineEvent::Redaction { target: s("a") };
    assert_eq!(c.apply_event(&r), None);
    assert_eq!(c.message_count(), 0);
}

#[test]
fn page_end_records_token_and_top() {
    let mut c = channel();
    c.set_page_end(Some(s("t1")));
    assert!(!c.at_top());
    assert_eq!(c.prev_token().unwrap(), "t1");
    c.set_page_end(None);
    assert!(c.at_top());
    assert!(c.prev_token().is_none());
}
