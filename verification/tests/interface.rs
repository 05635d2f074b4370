use machina::events::{
    handle_key_event, handle_memory_editor_key_event, handle_memory_list_key_event,
    handle_process_list_key_event, Controls, Focus, Key, KeyAction,
};
use machina::input_field::InputField;
use machina::logger::{Logger, LoggerGlobal};
use machina::scan_value::ScanValueType;
use machina::title::rotate_title;
use machina::type_selector::TypeSelector;
use std::sync::{Arc, Mutex};

fn type_text(field: &mut InputField, text: &str) {
    for c in text.chars() {
        field.handle_key_event(Key::Char(c));
    }
}

#[test]
fn input_field_typing_and_editing() {
    let mut f = InputField::new(" [V]alue ".to_string());
    assert_eq!(f.get_title(), " [V]alue ");
    assert_eq!(f.input, "");
    assert_eq!(f.get_cursor(), 0);
    type_text(&mut f, "abc");
    assert_eq!(f.input, "abc");
    assert_eq!(f.get_cursor(), 3);
    f.handle_key_event(Key::Left);
    f.handle_key_event(Key::Left);
    f.handle_key_event(Key::Char('X'));
    assert_eq!(f.input, "aXbc");
    assert_eq!(f.get_cursor(), 2);
    f.handle_key_event(Key::Backspace);
    assert_eq!(f.input, "abc");
    assert_eq!(f.get_cursor(), 1);
    f.handle_key_event(Key::Left);
    f.handle_key_event(Key::Left);
    assert_eq!(f.get_cursor(), 0);
    f.handle_key_event(Key::Backspace);
    assert_eq!(f.input, "abc");
    for _ in 0..5 {
        f.handle_key_event(Key::Right);
    }
    assert_eq!(f.get_cursor(), 3);
    f.handle_key_event(Key::Enter);
    assert_eq!(f.input, "abc");
    f.clear();
    assert_eq!(f.input, "");
    assert_eq!(f.get_cursor(), 3);
    assert!(!f.cursor_on_char_boundary());
}

#[test]
fn insert_then_delete_restores() {
    let mut f = InputField::new("t".to_string());
    type_text(&mut f, "abcd");
    f.move_left();
    f.move_left();
    f.insert_char('Z');
    assert_eq!(f.input, "abZcd");
    f.delete_char();
    assert_eq!(f.input, "abcd");
    assert_eq!(f.get_cursor(), 2);
    f.move_right();
    assert_eq!(f.get_cursor(), 3);
}

#[test]
fn input_field_cursor_parts() {
    let mut f = InputField::new("t".to_string());
    type_text(&mut f, "hello");
    assert!(f.cursor_split_ok());
    assert_eq!(f.cursor_parts(), ("hello".to_string(), " ".to_string(), "".to_string()));
    f.handle_key_event(Key::Left);
    f.handle_key_event(Key::Left);
    assert_eq!(f.cursor_parts(), ("hel".to_string(), "l".to_string(), "o".to_string()));
}

#[test]
fn selecting_the_value_field_follows_focus() {
    let mut c = Controls::new();
    assert_eq!(c.focus, Focus::ProcessListWindow);
    assert!(!c.scan_value_field.selected && !c.new_value_field.selected);
    c.set_focus(Focus::ValueInputField);
    assert_eq!(c.focus, Focus::ValueInputField);
    assert!(c.scan_value_field.selected && !c.new_value_field.selected);
    c.set_focus(Focus::MemoryEditorWindow);
    assert!(!c.scan_value_field.selected && c.new_value_field.selected);
    c.set_focus(Focus::MemoryListWindow);
    assert_eq!(c.focus, Focus::MemoryListWindow);
    assert!(!c.scan_value_field.selected && !c.new_value_field.selected);
}

#[test]
fn controls_handle_whole_key_events() {
    let mut c = Controls::new();
    assert_eq!(c.handle_key(true, Key::Char('v')), KeyAction::SetFocus(Focus::ValueInputField));
    assert!(c.scan_value_field.selected);
    assert_eq!(c.handle_key(true, Key::Char('4')), KeyAction::EditScanValue(Key::Char('4')));
    assert_eq!(c.handle_key(true, Key::Char('2')), KeyAction::EditScanValue(Key::Char('2')));
    assert_eq!(c.scan_value_field.input, "42");
    assert_eq!(c.handle_key(true, Key::Esc), KeyAction::SetFocus(Focus::ProcessListWindow));
    assert!(!c.scan_value_field.selected);
    assert_eq!(c.handle_key(true, Key::Char('t')), KeyAction::CycleType);
    assert_eq!(c.scan_type_selector.selected, ScanValueType::Word);
    assert_eq!(c.handle_key(true, Key::Char('e')), KeyAction::SetFocus(Focus::MemoryEditorWindow));
    assert!(c.new_value_field.selected);
    assert_eq!(c.handle_key(true, Key::Char('q')), KeyAction::EditNewValue(Key::Char('q')));
    assert_eq!(c.new_value_field.input, "q");
    assert_eq!(c.handle_key(true, Key::Enter), KeyAction::EditSelectedValue);
    assert_eq!(c.handle_key(true, Key::Esc), KeyAction::SetFocus(Focus::ProcessListWindow));
    assert!(!c.new_value_field.selected);
    assert_eq!(c.handle_key(true, Key::Char('m')), KeyAction::SetFocus(Focus::MemoryListWindow));
    assert_eq!(c.handle_key(true, Key::Enter), KeyAction::PinSelected);
    assert!(!c.exit);
    assert_eq!(c.handle_key(false, Key::Char('q')), KeyAction::Ignore);
    assert!(!c.exit);
    assert_eq!(c.handle_key(true, Key::Char('q')), KeyAction::Exit);
    assert!(c.exit);
}

#[test]
fn key_dispatch() {
    assert_eq!(handle_key_event(false, Key::Char('q'), Focus::ProcessListWindow), KeyAction::Ignore);
    assert_eq!(handle_key_event(true, Key::Esc, Focus::ValueInputField), KeyAction::SetFocus(Focus::ProcessListWindow));
    assert_eq!(handle_key_event(true, Key::Char('q'), Focus::ValueInputField), KeyAction::EditScanValue(Key::Char('q')));
    assert_eq!(handle_key_event(true, Key::Char('q'), Focus::MemoryListWindow), KeyAction::Exit);
    assert_eq!(handle_key_event(true, Key::Char('p'), Focus::MemoryEditorWindow), KeyAction::EditNewValue(Key::Char('p')));
    assert_eq!(handle_key_event(true, Key::Char('v'), Focus::ProcessListWindow), KeyAction::SetFocus(Focus::ValueInputField));
    assert_eq!(handle_key_event(true, Key::Char('e'), Focus::ProcessListWindow), KeyAction::SetFocus(Focus::MemoryEditorWindow));
    assert_eq!(handle_key_event(true, Key::Char('p'), Focus::MemoryListWindow), KeyAction::SetFocus(Focus::ProcessListWindow));
    assert_eq!(handle_key_event(true, Key::Char('m'), Focus::ProcessListWindow), KeyAction::SetFocus(Focus::MemoryListWindow));
    assert_eq!(handle_key_event(true, Key::Char('t'), Focus::ProcessListWindow), KeyAction::CycleType);
    assert_eq!(handle_key_event(true, Key::Char('n'), Focus::ProcessListWindow), KeyAction::NextScan);
    assert_eq!(handle_key_event(true, Key::Char('f'), Focus::MemoryListWindow), KeyAction::FirstScan);
    assert_eq!(handle_key_event(true, Key::Up, Focus::ProcessListWindow), KeyAction::SelectPreviousProcess);
    assert_eq!(handle_key_event(true, Key::Down, Focus::ProcessListWindow), KeyAction::SelectNextProcess);
    assert_eq!(handle_key_event(true, Key::Enter, Focus::ProcessListWindow), KeyAction::ChangeProcessToSelected);
    assert_eq!(handle_key_event(true, Key::Up, Focus::MemoryListWindow), KeyAction::SelectPreviousAddress);
    assert_eq!(handle_key_event(true, Key::Down, Focus::MemoryListWindow), KeyAction::SelectNextAddress);
    assert_eq!(handle_key_event(true, Key::Enter, Focus::MemoryListWindow), KeyAction::PinSelected);
    assert_eq!(handle_key_event(true, Key::Left, Focus::MemoryListWindow), KeyAction::Ignore);
    assert_eq!(handle_key_event(true, Key::Up, Focus::MemoryEditorWindow), KeyAction::SelectPreviousPinned);
    assert_eq!(handle_key_event(true, Key::Down, Focus::MemoryEditorWindow), KeyAction::SelectNextPinned);
    assert_eq!(handle_key_event(true, Key::Enter, Focus::MemoryEditorWindow), KeyAction::EditSelectedValue);
    assert_eq!(handle_key_event(true, Key::Delete, Focus::MemoryEditorWindow), KeyAction::UnpinSelected);
    assert_eq!(handle_key_event(true, Key::Char('7'), Focus::MemoryEditorWindow), KeyAction::EditNewValue(Key::Char('7')));
    assert_eq!(handle_key_event(true, Key::Esc, Focus::MemoryEditorWindow), KeyAction::SetFocus(Focus::ProcessListWindow));
    assert_eq!(handle_process_list_key_event(Key::Left), KeyAction::Ignore);
    assert_eq!(handle_memory_list_key_event(Key::Enter), KeyAction::PinSelected);
    assert_eq!(handle_memory_editor_key_event(Key::Backspace), KeyAction::EditNewValue(Key::Backspace));
}

#[test]
fn type_selector_cycles() {
    let mut t = TypeSelector::new();
    assert_eq!(t.selected, ScanValueType::Byte);
    assert_eq!(t.get_text(), "Byte    | 1 byte  | 8  bits");
    let expected = [
        (ScanValueType::Word, "Word    | 2 bytes | 16 bits"),
        (ScanValueType::DWord, "DWord   | 4 bytes | 32 bits"),
        (ScanValueType::QWord, "QWord   | 8 bytes | 64 bits"),
        (ScanValueType::Float, "Float   | 4 bytes | 32 bits"),
        (ScanValueType::Double, "Double  | 8 bytes | 64 bits"),
        (ScanValueType::String(0), "String  | any"),
        (ScanValueType::Byte, "Byte    | 1 byte  | 8  bits"),
    ];
    for (ty, text) in expected {
        t.cycle_type();
        assert_eq!(t.selected, ty);
        assert_eq!(t.get_text(), text);
    }
}

#[test]
fn logger_scrolls_and_limits_offset() {
    let logs = Arc::new(Mutex::new(Vec::<String>::new()));
    let global = LoggerGlobal::new(logs.clone());
    assert!(Arc::ptr_eq(global.logs_mutex(), &logs));
    let mut logger = Logger::new(logs);
    assert_eq!(logger.get_offset(), 0);
    logger.scroll_down();
    assert_eq!(logger.get_offset(), 0);
    logger.scroll_up();
    logger.scroll_up();
    assert_eq!(logger.get_offset(), 2);
    logger.scroll_down();
    assert_eq!(logger.get_offset(), 1);
    // nothing to show
    assert_eq!(logger.visible_range(&[], 10, 3), None);
    assert_eq!(logger.visible_range(&[3], 0, 3), None);
    assert_eq!(logger.get_offset(), 1);
}

#[test]
fn logger_visible_range() {
    let mut logger = Logger::new(Arc::new(Mutex::new(vec![])));
    // Five one-line entries in a three-line window: the last three are shown.
    assert_eq!(logger.visible_range(&[1, 1, 1, 1, 1], 10, 3), Some((2, 5)));
    // Scrolled up by one.
    logger.scroll_up();
    assert_eq!(logger.visible_range(&[1, 1, 1, 1, 1], 10, 3), Some((1, 4)));
    // Scrolling is limited: the first 4 entries overflow, the 3 before them fit,
    // so at most 2 can be scrolled out, and then the oldest entry shows at the top.
    for _ in 0..10 {
        logger.scroll_up();
    }
    assert_eq!(logger.visible_range(&[1, 1, 1, 1, 1], 10, 3), Some((0, 3)));
    assert_eq!(logger.get_offset(), 2);
    // Everything fits: offset drops to zero.
    assert_eq!(logger.visible_range(&[1, 1], 10, 3), Some((0, 2)));
    assert_eq!(logger.get_offset(), 0);
    // A 25-character entry takes three lines of width 10; an empty one takes one.
    assert_eq!(logger.visible_range(&[0, 25, 0], 10, 4), Some((1, 3)));
    // One entry taller than the window is still shown.
    assert_eq!(logger.visible_range(&[5, 100], 10, 3), Some((1, 2)));
    // When even the oldest entry alone overflows, all but it can be scrolled out.
    for _ in 0..5 {
        logger.scroll_up();
    }
    assert_eq!(logger.visible_range(&[100, 5, 5], 10, 3), Some((0, 1)));
    assert_eq!(logger.get_offset(), 2);
}

#[test]
fn logger_oldest_line_can_be_shown() {
    let mut logger = Logger::new(Arc::new(Mutex::new(vec![])));
    // Logs "a", "b", "c" in a 10x2 window.
    assert_eq!(logger.visible_range(&[1, 1, 1], 10, 2), Some((1, 3)));
    logger.scroll_up();
    assert_eq!(logger.visible_range(&[1, 1, 1], 10, 2), Some((0, 2)));
    assert_eq!(logger.get_offset(), 1);
    logger.scroll_up();
    assert_eq!(logger.visible_range(&[1, 1, 1], 10, 2), Some((0, 2)));
    assert_eq!(logger.get_offset(), 1);
}

#[test]
fn title_rotates_every_line() {
    let text: Vec<char> = "abc\nde\n\nf".chars().collect();
    let r: String = rotate_title(&text).into_iter().collect();
    assert_eq!(r, "bca\ned\n\nf");
    let text: Vec<char> = "ab\r\ncd\n".chars().collect();
    let r: String = rotate_title(&text).into_iter().collect();
    assert_eq!(r, "ba\ndc");
    let r: String = rotate_title(&Vec::new()).into_iter().collect();
    assert_eq!(r, "");
}
