use wgx::text_input::SimpleTextInput;

#[test]
fn new_input_starts_at_the_front() {
    let input = SimpleTextInput::new("héllo");
    assert_eq!(input.text(), "héllo");
    assert_eq!(input.len(), 6);
    assert_eq!(input.curser(), 0);
    assert_eq!(input.text_before_curser(), "");
    assert_eq!(input.text_after_curser(), "héllo");
}

#[test]
fn advance_and_recede_step_over_whole_chars() {
    let mut input = SimpleTextInput::new("aé€");
    assert!(input.advance());
    assert_eq!(input.curser(), 1);
    assert!(input.advance());
    assert_eq!(input.curser(), 3);
    assert_eq!(input.text_before_curser(), "aé");
    assert!(input.advance());
    assert_eq!(input.curser(), 6);
    assert!(!input.advance());
    assert_eq!(input.curser(), 6);

    assert!(input.recede());
    assert_eq!(input.curser(), 3);
    assert_eq!(input.text_after_curser(), "€");
    assert!(input.recede());
    assert!(input.recede());
    assert_eq!(input.curser(), 0);
    assert!(!input.recede());
}

#[test]
fn recede_undoes_advance() {
    let mut input = SimpleTextInput::new("xß");
    input.advance();
    let before = input.curser();
    assert!(input.advance());
    assert!(input.recede());
    assert_eq!(input.curser(), before);
}

#[test]
fn set_curser_counts_chars() {
    let mut input = SimpleTextInput::new("äbc");
    assert!(input.set_curser(2));
    assert_eq!(input.curser(), 3);
    assert!(!input.set_curser(2));
    assert!(input.set_curser(10));
    assert_eq!(input.curser(), 4);
    assert!(input.set_curser(0));
    assert_eq!(input.curser(), 0);
}

#[test]
fn set_curser_end_goes_to_the_end() {
    let mut input = SimpleTextInput::new("ab€");
    assert!(input.set_curser_end());
    assert_eq!(input.curser(), input.len());
    assert!(!input.set_curser_end());
}

#[test]
fn insert_puts_chars_at_the_cursor() {
    let mut input = SimpleTextInput::new("ac");
    input.advance();
    assert!(input.insert('b'));
    assert_eq!(input.text(), "abc");
    assert_eq!(input.curser(), 2);
    assert!(input.insert('€'));
    assert_eq!(input.text(), "ab€c");
    assert_eq!(input.curser(), 5);
    assert!(input.insert('\n'));
    assert_eq!(input.text(), "ab€\nc");
    assert_eq!(input.curser(), 6);
}

#[test]
fn insert_tab_as_four_spaces() {
    let mut input = SimpleTextInput::new("xy");
    input.advance();
    assert!(input.insert('\t'));
    assert_eq!(input.text(), "x    y");
    assert_eq!(input.curser(), 5);
}

#[test]
fn insert_refuses_other_control_chars() {
    let mut input = SimpleTextInput::new("xy");
    assert!(!input.insert('\u{7}'));
    assert!(!input.insert('\u{85}'));
    assert_eq!(input.text(), "xy");
    assert_eq!(input.curser(), 0);
}

#[test]
fn insert_str_keeps_the_cursor() {
    let mut input = SimpleTextInput::new("ad");
    input.advance();
    input.insert_str("bc");
    assert_eq!(input.text(), "abcd");
    assert_eq!(input.curser(), 1);
}

#[test]
fn remove_deletes_before_the_cursor() {
    let mut input = SimpleTextInput::new("a€b");
    input.set_curser(2);
    assert!(input.remove());
    assert_eq!(input.text(), "ab");
    assert_eq!(input.curser(), 1);
    assert!(input.remove());
    assert_eq!(input.text(), "b");
    assert_eq!(input.curser(), 0);
    assert!(!input.remove());
    assert_eq!(input.text(), "b");
}

#[test]
fn remove_undoes_insert() {
    let mut input = SimpleTextInput::new("héllo");
    input.set_curser(3);
    let curser = input.curser();
    assert!(input.insert('ü'));
    assert!(input.remove());
    assert_eq!(input.text(), "héllo");
    assert_eq!(input.curser(), curser);
}

#[test]
fn delete_removes_after_the_cursor() {
    let mut input = SimpleTextInput::new("abc");
    input.advance();
    assert!(input.delete());
    assert_eq!(input.text(), "ac");
    assert_eq!(input.curser(), 1);
    input.set_curser_end();
    assert!(!input.delete());
    assert_eq!(input.text(), "ac");
}

#[test]
fn delete_of_a_wide_char_moves_the_cursor_back_from_its_old_end() {
    // the cursor comes to the last char boundary before the old end of the
    // removed char
    let mut input = SimpleTextInput::new("éa");
    assert!(input.delete());
    assert_eq!(input.text(), "a");
    assert_eq!(input.curser(), 1);

    let mut input = SimpleTextInput::new("€ab");
    assert!(input.delete());
    assert_eq!(input.text(), "ab");
    assert_eq!(input.curser(), 2);
}

#[test]
fn the_cursor_splits_the_text() {
    let mut input = SimpleTextInput::new("aé€z");
    for _ in 0..5 {
        let before = input.text_before_curser().to_string();
        assert_eq!(before.len(), input.curser());
        assert!(input.curser() <= input.len());
        assert!(input.text().is_char_boundary(input.curser()));
        assert_eq!(format!("{}{}", before, input.text_after_curser()), input.text());
        input.advance();
    }
}
