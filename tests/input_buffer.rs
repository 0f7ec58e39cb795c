use chat_core::{char_width, cursor_cell, InputBuffer};

fn typed(s: &str) -> InputBuffer {
    let mut b = InputBuffer::new();
    for c in s.chars() {
        b.insert_char(c);
    }
    b
}

fn check_positions(b: &InputBuffer) {
    let text = b.text();
    assert!(text.is_char_boundary(b.byte_pos()));
    assert_eq!(text[..b.byte_pos()].chars().count(), b.char_pos());
}

#[test]
fn cursor_at_wrap_boundary_stays_on_closing_row() {
    assert_eq!(cursor_cell(10, 10), (10, 0));
}

#[test]
fn cursor_after_wrap_boundary_moves_to_next_row() {
    assert_eq!(cursor_cell(11, 10), (1, 1));
}

#[test]
fn cursor_at_start_and_inside_first_row() {
    assert_eq!(cursor_cell(0, 10), (0, 0));
    assert_eq!(cursor_cell(3, 10), (3, 0));
    assert_eq!(cursor_cell(20, 10), (10, 1));
    assert_eq!(cursor_cell(25, 7), (4, 3));
}

#[test]
fn char_widths_follow_utf8() {
    assert_eq!(char_width('a'), 1);
    assert_eq!(char_width('é'), 2);
    assert_eq!(char_width('日'), 3);
    assert_eq!(char_width('😀'), 4);
}

#[test]
fn new_buffer_is_empty() {
    let b = InputBuffer::new();
    assert_eq!(b.text(), "");
    assert_eq!(b.byte_pos(), 0);
    assert_eq!(b.char_pos(), 0);
}

#[test]
fn typing_multibyte_text_tracks_both_positions() {
    let b = typed("aé日😀");
    assert_eq!(b.text(), "aé日😀");
    assert_eq!(b.char_pos(), 4);
    assert_eq!(b.byte_pos(), 10);
    assert_eq!(b.byte_len(), 10);
    check_positions(&b);
}

#[test]
fn delete_at_start_is_a_no_op() {
    let mut b = typed("héllo");
    for _ in 0..5 {
        b.move_left();
    }
    b.delete_before_cursor();
    assert_eq!(b.text(), "héllo");
    assert_eq!(b.byte_pos(), 0);
    assert_eq!(b.char_pos(), 0);
}

#[test]
fn move_left_at_start_is_a_no_op() {
    let mut b = InputBuffer::new();
    b.move_left();
    assert_eq!(b.char_pos(), 0);
    let mut b = typed("é");
    b.move_left();
    b.move_left();
    assert_eq!(b.char_pos(), 0);
    assert_eq!(b.byte_pos(), 0);
}

#[test]
fn move_right_at_end_is_a_no_op() {
    let mut b = typed("日本");
    b.move_right();
    assert_eq!(b.char_pos(), 2);
    assert_eq!(b.byte_pos(), 6);
}

#[test]
fn delete_removes_the_multibyte_char_before_the_cursor() {
    let mut b = typed("a😀b");
    b.move_left();
    b.delete_before_cursor();
    assert_eq!(b.text(), "ab");
    assert_eq!(b.char_pos(), 1);
    assert_eq!(b.byte_pos(), 1);
    check_positions(&b);
}

#[test]
fn insert_in_the_middle_of_multibyte_text() {
    let mut b = typed("日本");
    b.move_left();
    b.insert_char('é');
    assert_eq!(b.text(), "日é本");
    assert_eq!(b.char_pos(), 2);
    assert_eq!(b.byte_pos(), 5);
    check_positions(&b);
}

#[test]
fn moving_over_mixed_widths_lands_on_boundaries() {
    let mut b = typed("xé日😀y");
    let expected_bytes = [11, 10, 6, 3, 1, 0];
    for (k, want) in expected_bytes.iter().enumerate() {
        assert_eq!(b.byte_pos(), *want);
        assert_eq!(b.char_pos(), 5 - k);
        check_positions(&b);
        b.move_left();
    }
    let forward = [1, 3, 6, 10, 11, 11];
    for want in forward.iter() {
        b.move_right();
        assert_eq!(b.byte_pos(), *want);
        check_positions(&b);
    }
}

#[test]
fn mixed_operation_sequence_keeps_positions_consistent() {
    let mut b = InputBuffer::new();
    let alphabet = ['a', 'é', '日', '😀', 'z'];
    for step in 0..200usize {
        match step % 7 {
            0 | 1 | 4 => b.insert_char(alphabet[step % alphabet.len()]),
            2 => b.move_left(),
            3 => b.delete_before_cursor(),
            5 => b.move_right(),
            _ => {
                b.move_left();
                b.move_left();
            }
        }
        check_positions(&b);
    }
}

#[test]
fn clear_resets_text_and_positions() {
    let mut b = typed("héllo");
    b.clear();
    assert_eq!(b.text(), "");
    assert_eq!(b.byte_pos(), 0);
    assert_eq!(b.char_pos(), 0);
}

#[test]
fn contents_copies_the_text() {
    let b = typed("añb");
    assert_eq!(b.contents(), "añb".to_string());
}
