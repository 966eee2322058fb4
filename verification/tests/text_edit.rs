use ui4::text_edit::{
    apply_arrows, at_char_boundary, can_type_chars, encode_char, insert_char, is_control,
    move_left, move_right, remove_char, repeat_resets, repeat_ticks, textbox_update, type_char,
    type_chars, ArrowKeys, BACKSPACE, DELETE,
};

fn bytes(s: &str) -> Vec<u8> {
    s.as_bytes().to_vec()
}

fn text(b: &[u8]) -> String {
    String::from_utf8(b.to_vec()).unwrap()
}

fn no_keys() -> ArrowKeys {
    ArrowKeys { left_pressed: false, right_pressed: false, left_just_pressed: false, right_just_pressed: false }
}

#[test]
fn encode_char_matches_std() {
    for c in ['a', 'é', '€', '😀'] {
        let mut buf = [0u8; 4];
        assert_eq!(encode_char(c), c.encode_utf8(&mut buf).as_bytes().to_vec());
    }
}

#[test]
fn char_boundaries_follow_std() {
    let s = "aé€😀";
    let b = bytes(s);
    for i in 0..=b.len() + 2 {
        assert_eq!(at_char_boundary(&b, i), s.is_char_boundary(i), "offset {}", i);
    }
}

#[test]
fn move_left_skips_whole_characters() {
    let b = bytes("a€b");
    let mut i = 4usize;
    move_left(&b, &mut i);
    assert_eq!(i, 1);
    move_left(&b, &mut i);
    assert_eq!(i, 0);
    move_left(&b, &mut i);
    assert_eq!(i, 0);
}

#[test]
fn move_right_skips_whole_characters() {
    let b = bytes("a€b");
    let mut i = 1usize;
    move_right(&b, &mut i);
    assert_eq!(i, 4);
    move_right(&b, &mut i);
    assert_eq!(i, 5);
    move_right(&b, &mut i);
    assert_eq!(i, 5);
}

#[test]
fn insert_char_puts_the_encoding_at_the_cursor() {
    let mut b = bytes("ab");
    let mut i = 1usize;
    insert_char(&mut b, &mut i, '€');
    assert_eq!(text(&b), "a€b");
    assert_eq!(i, 4);
}

#[test]
fn remove_char_removes_the_character_at_the_cursor() {
    let mut b = bytes("a€b");
    let mut i = 1usize;
    remove_char(&mut b, &mut i);
    assert_eq!(text(&b), "ab");
    assert_eq!(i, 1);
    let mut end = 2usize;
    remove_char(&mut b, &mut end);
    assert_eq!(text(&b), "ab");
}

#[test]
fn control_characters() {
    assert!(is_control(BACKSPACE));
    assert!(is_control(DELETE));
    assert!(is_control('\r'));
    assert!(is_control('\u{9f}'));
    assert!(!is_control('a'));
    assert!(!is_control('\u{a0}'));
    for c in ['\0', '\n', 'x', '\u{85}', 'ß'] {
        assert_eq!(is_control(c), c.is_control());
    }
}

#[test]
fn typing_printable_backspace_delete_and_return() {
    let mut b = bytes("ab");
    let mut cur = 2usize;
    type_char(&mut b, &mut cur, 'é');
    assert_eq!(text(&b), "abé");
    assert_eq!(cur, 4);
    type_char(&mut b, &mut cur, BACKSPACE);
    assert_eq!(text(&b), "ab");
    assert_eq!(cur, 2);
    type_char(&mut b, &mut cur, '\r');
    assert_eq!(text(&b), "ab");
    assert_eq!(cur, 2);
    let mut start = 0usize;
    type_char(&mut b, &mut start, DELETE);
    assert_eq!(text(&b), "b");
    assert_eq!(start, 0);
}

#[test]
fn backspace_after_typing_restores_the_text() {
    let original = "x😀y";
    for (cur, c) in [(0usize, 'q'), (1, '€'), (5, 'ß'), (6, '😀')] {
        let mut b = bytes(original);
        let mut i = cur;
        type_char(&mut b, &mut i, c);
        type_char(&mut b, &mut i, BACKSPACE);
        assert_eq!(text(&b), original);
        assert_eq!(i, cur);
    }
}

#[test]
fn right_then_left_comes_back() {
    let b = bytes("a€😀b");
    for start in [0usize, 1, 4, 8] {
        let mut i = start;
        move_right(&b, &mut i);
        move_left(&b, &mut i);
        assert_eq!(i, start);
    }
}

#[test]
fn arrows_move_on_press_and_on_repeat() {
    let b = bytes("a€b");
    let left_now = ArrowKeys { left_pressed: true, left_just_pressed: true, ..no_keys() };
    assert_eq!(apply_arrows(&b, 4, left_now, false), 1);
    let right_held = ArrowKeys { right_pressed: true, ..no_keys() };
    assert_eq!(apply_arrows(&b, 1, right_held, false), 1);
    assert_eq!(apply_arrows(&b, 1, right_held, true), 4);
    let both = ArrowKeys { left_pressed: true, right_pressed: true, right_just_pressed: true, ..no_keys() };
    assert_eq!(apply_arrows(&b, 4, both, false), 1);
    assert_eq!(apply_arrows(&b, 99, no_keys(), false), 0);
}

#[test]
fn repeat_timer_rules() {
    let held = ArrowKeys { left_pressed: true, ..no_keys() };
    assert!(repeat_ticks(held));
    assert!(!repeat_resets(held));
    let pressed = ArrowKeys { right_just_pressed: true, ..no_keys() };
    assert!(repeat_resets(pressed));
    assert!(!repeat_ticks(no_keys()));
}

#[test]
fn type_chars_applies_in_order() {
    let mut b = bytes("");
    let mut cur = 0usize;
    let cs = vec!['h', 'i', BACKSPACE, 'o', '!'];
    assert!(can_type_chars(&b, cur, &cs));
    type_chars(&mut b, &mut cur, &cs);
    assert_eq!(text(&b), "ho!");
    assert_eq!(cur, 3);
}

#[test]
fn can_type_chars_refuses_a_cursor_inside_a_character() {
    let b = bytes("€");
    assert!(!can_type_chars(&b, 1, &vec!['a']));
    assert!(!can_type_chars(&b, 2, &vec![DELETE]));
    assert!(can_type_chars(&b, 1, &vec![BACKSPACE]));
    assert!(can_type_chars(&b, 1, &vec!['\r']));
}

#[test]
fn textbox_frame() {
    let mut b = bytes("ab");
    let keys = ArrowKeys { left_pressed: true, left_just_pressed: true, ..no_keys() };
    let cur = textbox_update(&mut b, 2, keys, false, &vec!['X']);
    assert_eq!(text(&b), "aXb");
    assert_eq!(cur, 2);
    let cur = textbox_update(&mut b, 50, no_keys(), false, &vec!['Z']);
    assert_eq!(text(&b), "ZaXb");
    assert_eq!(cur, 1);
}

#[test]
fn removing_after_any_insert_restores_the_text() {
    for c in ['\r', 'x', '€', '\u{7f}'] {
        let original = "aé";
        let mut b = bytes(original);
        let mut i = 1usize;
        insert_char(&mut b, &mut i, c);
        move_left(&b, &mut i);
        remove_char(&mut b, &mut i);
        assert_eq!(text(&b), original);
        assert_eq!(i, 1);
    }
}

#[test]
fn held_arrows_repeat_every_period() {
    let mut t = ui4::text_edit::RepeatTimer::new(100);
    let held = ArrowKeys { left_pressed: true, ..no_keys() };
    let pressed = ArrowKeys { left_pressed: true, left_just_pressed: true, ..no_keys() };
    assert!(!t.frame(pressed, 60));
    assert!(t.frame(held, 60));
    assert!(!t.frame(held, 30));
    assert!(t.frame(held, 50));
    assert!(!t.frame(no_keys(), 500));
    assert!(!t.frame(pressed, 10));
    assert!(t.tick(95));
}
