use chat_core::{Action, AppState, ChannelSelector, Key, KeyPress, Mode, TimelineEvent};

fn s(x: &str) -> String {
    x.to_string()
}

fn press(state: &mut AppState, k: Key) -> Action {
    state.handle_key(KeyPress { key: k, control: false })
}

fn type_text(state: &mut AppState, text: &str) {
    for c in text.chars() {
        press(state, Key::Char(c));
    }
}

fn two_channels() -> AppState {
    let mut st = AppState::new();
    st.join_channel(s("!a"), s("Alpha"));
    st.join_channel(s("!b"), s("Beta"));
    st
}

fn message(id: &str, ts: u64) -> TimelineEvent {
    TimelineEvent::Message { id: s(id), sender: s("@al"), body: format!("text {}", id), timestamp: ts }
}

/// Selects the channel at roster position `target` (0 or 1 of two).
fn select(st: &mut AppState, target: usize) {
    press(st, Key::Char('C'));
    press(st, Key::Up);
    if target == 0 {
        press(st, Key::Up);
    }
    press(st, Key::Enter);
}

#[test]
fn starts_in_normal_mode_with_nothing_selected() {
    let st = AppState::new();
    assert_eq!(st.mode(), Mode::Normal);
    assert!(st.current_channel().is_none());
    assert_eq!(st.message_highlight(), None);
    assert_eq!(st.input().text(), "");
    assert_eq!(st.selector().len(), 0);
}

#[test]
fn mode_transitions_between_normal_insert_and_select() {
    let mut st = two_channels();
    assert_eq!(press(&mut st, Key::Char('i')), Action::Nothing);
    assert_eq!(st.mode(), Mode::Insert);
    press(&mut st, Key::Esc);
    assert_eq!(st.mode(), Mode::Normal);
    press(&mut st, Key::Char('C'));
    assert_eq!(st.mode(), Mode::SelectChannel);
    press(&mut st, Key::Esc);
    assert_eq!(st.mode(), Mode::Normal);
    press(&mut st, Key::Char('x'));
    press(&mut st, Key::Up);
    assert_eq!(st.mode(), Mode::Normal);
}

#[test]
fn quit_from_insert_mode() {
    let mut st = two_channels();
    press(&mut st, Key::Char('i'));
    type_text(&mut st, "/quit");
    assert_eq!(press(&mut st, Key::Enter), Action::Quit);
}

#[test]
fn quit_from_normal_mode_after_editing() {
    let mut st = AppState::new();
    press(&mut st, Key::Char('i'));
    type_text(&mut st, "/quitxy");
    press(&mut st, Key::Backspace);
    press(&mut st, Key::Left);
    press(&mut st, Key::Backspace);
    press(&mut st, Key::Right);
    press(&mut st, Key::Esc);
    assert_eq!(st.input().text(), "/quix");
    press(&mut st, Key::Char('i'));
    press(&mut st, Key::Backspace);
    type_text(&mut st, "t");
    press(&mut st, Key::Esc);
    press(&mut st, Key::Char('h'));
    assert_eq!(st.input().text(), "/quit");
    assert_eq!(press(&mut st, Key::Enter), Action::Quit);
    assert_eq!(st.input().text(), "/quit");
}

#[test]
fn quit_needs_the_exact_text() {
    let mut st = AppState::new();
    press(&mut st, Key::Char('i'));
    type_text(&mut st, "/quit ");
    assert_eq!(press(&mut st, Key::Enter), Action::Nothing);
    assert_eq!(st.input().text(), "");
}

#[test]
fn enter_sends_to_the_current_channel_and_clears_input() {
    let mut st = two_channels();
    select(&mut st, 1);
    assert_eq!(st.current_channel().unwrap(), "!b");
    press(&mut st, Key::Char('i'));
    type_text(&mut st, "héllo");
    let action = press(&mut st, Key::Enter);
    assert_eq!(action, Action::Send { channel: s("!b"), body: s("héllo") });
    assert_eq!(st.input().text(), "");
    assert_eq!(st.input().char_pos(), 0);
    assert_eq!(st.mode(), Mode::Insert);
}

#[test]
fn enter_without_channel_only_clears_input() {
    let mut st = two_channels();
    press(&mut st, Key::Char('i'));
    type_text(&mut st, "hello");
    assert_eq!(press(&mut st, Key::Enter), Action::Nothing);
    assert_eq!(st.input().text(), "");
}

#[test]
fn enter_on_empty_input_does_nothing() {
    let mut st = two_channels();
    select(&mut st, 0);
    assert_eq!(press(&mut st, Key::Enter), Action::Nothing);
}

#[test]
fn selector_wraps_both_ways_and_starts_at_last() {
    let mut st = two_channels();
    press(&mut st, Key::Char('C'));
    press(&mut st, Key::Up);
    assert_eq!(st.selector().highlight(), Some(1));
    press(&mut st, Key::Char('k'));
    assert_eq!(st.selector().highlight(), Some(0));
    press(&mut st, Key::Up);
    assert_eq!(st.selector().highlight(), Some(1));
    press(&mut st, Key::Down);
    assert_eq!(st.selector().highlight(), Some(0));
    press(&mut st, Key::Char('j'));
    assert_eq!(st.selector().highlight(), Some(1));
    press(&mut st, Key::Enter);
    assert_eq!(st.current_channel().unwrap(), "!b");
    assert_eq!(st.mode(), Mode::Normal);
}

#[test]
fn first_move_down_lands_on_last_entry() {
    let mut st = two_channels();
    press(&mut st, Key::Char('C'));
    press(&mut st, Key::Down);
    assert_eq!(st.selector().highlight(), Some(1));
}

#[test]
fn selector_type_moves_directly() {
    let mut sel = ChannelSelector::new();
    sel.push(s("!x"));
    sel.push(s("!y"));
    sel.push(s("!z"));
    sel.move_down();
    assert_eq!(sel.highlight(), Some(2));
    sel.move_down();
    assert_eq!(sel.highlight(), Some(0));
    sel.move_up();
    assert_eq!(sel.highlight(), Some(2));
    assert_eq!(sel.highlighted(), Some(s("!z")));
    sel.clear_highlight();
    assert_eq!(sel.highlighted(), None);
}

#[test]
fn moving_in_an_empty_roster_is_a_no_op() {
    let mut st = AppState::new();
    press(&mut st, Key::Char('C'));
    press(&mut st, Key::Up);
    press(&mut st, Key::Down);
    assert_eq!(st.selector().highlight(), None);
    press(&mut st, Key::Enter);
    assert!(st.current_channel().is_none());
}

#[test]
fn escape_from_select_clears_channel_and_highlight() {
    let mut st = two_channels();
    select(&mut st, 0);
    press(&mut st, Key::Char('C'));
    press(&mut st, Key::Down);
    press(&mut st, Key::Esc);
    assert!(st.current_channel().is_none());
    assert_eq!(st.selector().highlight(), None);
}

#[test]
fn scroll_mode_needs_a_current_channel() {
    let mut st = two_channels();
    press(&mut st, Key::Char('S'));
    assert_eq!(st.mode(), Mode::Normal);
    select(&mut st, 0);
    press(&mut st, Key::Char('S'));
    assert_eq!(st.mode(), Mode::ScrollMessages);
    assert_eq!(st.message_highlight(), Some(0));
    press(&mut st, Key::Esc);
    assert_eq!(st.mode(), Mode::Normal);
    assert_eq!(st.message_highlight(), None);
}

#[test]
fn scrolling_moves_the_highlight_and_then_asks_for_history() {
    let mut st = two_channels();
    let a = s("!a");
    for (id, ts) in [("m1", 1), ("m2", 2), ("m3", 3)] {
        st.handle_event(&a, &message(id, ts));
    }
    select(&mut st, 0);
    press(&mut st, Key::Char('S'));
    assert_eq!(press(&mut st, Key::Up), Action::Nothing);
    assert_eq!(st.message_highlight(), Some(1));
    press(&mut st, Key::Char('k'));
    assert_eq!(st.message_highlight(), Some(2));
    let fetch = press(&mut st, Key::Up);
    assert_eq!(fetch, Action::FetchHistory { channel: s("!a"), from: None });
    assert_eq!(st.message_highlight(), Some(2));
    press(&mut st, Key::Down);
    assert_eq!(st.message_highlight(), Some(1));
    press(&mut st, Key::Char('j'));
    press(&mut st, Key::Char('j'));
    assert_eq!(st.message_highlight(), Some(0));
}

#[test]
fn history_page_token_is_used_for_the_next_fetch() {
    let mut st = two_channels();
    let a = s("!a");
    select(&mut st, 0);
    press(&mut st, Key::Char('S'));
    let page = vec![message("old2", 2), message("old1", 1)];
    st.apply_history_page(&a, Some(s("tok")), &page);
    let ch = st.channel(&a).unwrap();
    assert_eq!(ch.order(), vec![s("old1"), s("old2")]);
    assert!(!ch.at_top());
    press(&mut st, Key::Up);
    let fetch = press(&mut st, Key::Up);
    assert_eq!(fetch, Action::FetchHistory { channel: s("!a"), from: Some(s("tok")) });
}

#[test]
fn empty_last_page_stops_pagination() {
    let mut st = two_channels();
    let a = s("!a");
    st.handle_event(&a, &message("m1", 1));
    select(&mut st, 0);
    press(&mut st, Key::Char('S'));
    assert!(matches!(press(&mut st, Key::Up), Action::FetchHistory { .. }));
    st.apply_history_page(&a, None, &Vec::new());
    assert!(st.channel(&a).unwrap().at_top());
    assert_eq!(press(&mut st, Key::Up), Action::Nothing);
    assert_eq!(press(&mut st, Key::Up), Action::Nothing);
    assert_eq!(st.message_highlight(), Some(0));
}

#[test]
fn history_page_for_unknown_channel_is_ignored() {
    let mut st = two_channels();
    st.apply_history_page(&s("!nope"), None, &vec![message("x", 1)]);
    assert!(st.channel(&s("!nope")).is_none());
    assert_eq!(st.channel(&s("!a")).unwrap().message_count(), 0);
}

#[test]
fn control_d_asks_to_redact_the_highlighted_message() {
    let mut st = two_channels();
    let b = s("!b");
    st.handle_event(&b, &message("m1", 1));
    st.handle_event(&b, &message("m2", 2));
    select(&mut st, 1);
    press(&mut st, Key::Char('S'));
    let plain_d = press(&mut st, Key::Char('d'));
    assert_eq!(plain_d, Action::Nothing);
    let newest = st.handle_key(KeyPress { key: Key::Char('d'), control: true });
    assert_eq!(newest, Action::Redact { channel: s("!b"), message: s("m2") });
    press(&mut st, Key::Up);
    let oldest = st.handle_key(KeyPress { key: Key::Char('d'), control: true });
    assert_eq!(oldest, Action::Redact { channel: s("!b"), message: s("m1") });
    assert_eq!(st.channel(&b).unwrap().message_count(), 2);
}

#[test]
fn insertion_at_or_before_the_highlight_shifts_it_back() {
    let mut st = two_channels();
    let a = s("!a");
    for (id, ts) in [("m1", 10), ("m2", 20), ("m3", 30)] {
        st.handle_event(&a, &message(id, ts));
    }
    select(&mut st, 0);
    press(&mut st, Key::Char('S'));
    press(&mut st, Key::Up);
    press(&mut st, Key::Up);
    assert_eq!(st.message_highlight(), Some(2));
    st.handle_event(&a, &message("m0", 15));
    assert_eq!(st.message_highlight(), Some(1));
    st.handle_event(&a, &message("m9", 99));
    assert_eq!(st.message_highlight(), Some(1));
    st.handle_event(&a, &message("m0", 15));
    assert_eq!(st.message_highlight(), Some(1));
}

#[test]
fn events_for_unknown_channels_are_ignored() {
    let mut st = two_channels();
    st.handle_event(&s("!zzz"), &message("m1", 1));
    assert!(st.channel(&s("!zzz")).is_none());
    st.add_channel(s("!zzz"), s("Late"));
    st.handle_event(&s("!zzz"), &message("m1", 1));
    assert_eq!(st.channel(&s("!zzz")).unwrap().message_count(), 1);
    assert_eq!(st.selector().len(), 2);
}

#[test]
fn normal_mode_moves_the_cursor_with_h_and_l() {
    let mut st = AppState::new();
    press(&mut st, Key::Char('i'));
    type_text(&mut st, "añb");
    press(&mut st, Key::Esc);
    press(&mut st, Key::Char('h'));
    assert_eq!(st.input().char_pos(), 2);
    assert_eq!(st.input().byte_pos(), 3);
    press(&mut st, Key::Left);
    assert_eq!(st.input().byte_pos(), 1);
    press(&mut st, Key::Char('l'));
    press(&mut st, Key::Right);
    press(&mut st, Key::Right);
    assert_eq!(st.input().char_pos(), 3);
    assert_eq!(st.input().byte_pos(), 4);
}
