use crate::input_field::InputField;
use crate::type_selector::{next_type, TypeSelector};
use vstd::prelude::*;
use vstd::string::StringExecFns;

verus! {

/// A key that the user pressed, as far as the application tells keys apart.
#[derive(Clone, Copy, Debug, PartialEq, Eq, Structural)]
pub enum Key {
    Char(char),
    Backspace,
    Delete,
    Left,
    Right,
    Up,
    Down,
    Enter,
    Esc,
    Other,
}

/// The window that keys go to.
#[derive(Clone, Copy, Debug, PartialEq, Eq, Structural)]
pub enum Focus {
    ProcessListWindow,
    MemoryListWindow,
    MemoryEditorWindow,
    ValueInputField,
}

/// What the application does in answer to a key.
#[derive(Clone, Copy, Debug, PartialEq, Eq, Structural)]
pub enum KeyAction {
    /// Nothing.
    Ignore,
    /// Moves the focus to another window.
    SetFocus(Focus),
    /// Hands the key to the scan value field.
    EditScanValue(Key),
    /// Hands the key to the new value field of the memory editor.
    EditNewValue(Key),
    /// Leaves the application.
    Exit,
    /// Moves the type selector to the next type.
    CycleType,
    /// Narrows the scan results.
    NextScan,
    /// Scans the selected process anew.
    FirstScan,
    /// Moves the process selection up.
    SelectPreviousProcess,
    /// Moves the process selection down.
    SelectNextProcess,
    /// Makes the highlighted process the one to scan.
    ChangeProcessToSelected,
    /// Moves the selection in the scanned addresses up.
    SelectPreviousAddress,
    /// Moves the selection in the scanned addresses down.
    SelectNextAddress,
    /// Pins the highlighted scanned address in the memory editor.
    PinSelected,
    /// Moves the selection in the pinned addresses up.
    SelectPreviousPinned,
    /// Moves the selection in the pinned addresses down.
    SelectNextPinned,
    /// Writes the new value at the highlighted pinned address.
    EditSelectedValue,
    /// Unpins the highlighted pinned address.
    UnpinSelected,
}

/// The action for a key event. Only presses count; `Esc` always returns to
/// the process list. The scan value field takes every other key while it has
/// the focus. The memory editor takes the arrows (to move among the pinned
/// addresses), `Enter` (to overwrite the highlighted value), `Delete` (to
/// unpin it) and hands every other key to its new value field. Elsewhere come
/// the letter commands, then the arrows and `Enter` of the process list (to
/// pick a process) and of the scanned memory list (to pin an address).
pub open spec fn spec_key_action(pressed: bool, key: Key, focus: Focus) -> KeyAction {
    if !pressed {
        KeyAction::Ignore
    } else if key == Key::Esc {
        KeyAction::SetFocus(Focus::ProcessListWindow)
    } else if focus == Focus::ValueInputField {
        KeyAction::EditScanValue(key)
    } else if focus == Focus::MemoryEditorWindow {
        match key {
            Key::Up => KeyAction::SelectPreviousPinned,
            Key::Down => KeyAction::SelectNextPinned,
            Key::Enter => KeyAction::EditSelectedValue,
            Key::Delete => KeyAction::UnpinSelected,
            _ => KeyAction::EditNewValue(key),
        }
    } else {
        match key {
            Key::Char('q') => KeyAction::Exit,
            Key::Char('v') => KeyAction::SetFocus(Focus::ValueInputField),
            Key::Char('e') => KeyAction::SetFocus(Focus::MemoryEditorWindow),
            Key::Char('p') => KeyAction::SetFocus(Focus::ProcessListWindow),
            Key::Char('m') => KeyAction::SetFocus(Focus::MemoryListWindow),
            Key::Char('t') => KeyAction::CycleType,
            Key::Char('n') => KeyAction::NextScan,
            Key::Char('f') => KeyAction::FirstScan,
            _ => if focus == Focus::ProcessListWindow {
                match key {
                    Key::Up => KeyAction::SelectPreviousProcess,
                    Key::Down => KeyAction::SelectNextProcess,
                    Key::Enter => KeyAction::ChangeProcessToSelected,
                    _ => KeyAction::Ignore,
                }
            } else {
                match key {
                    Key::Up => KeyAction::SelectPreviousAddress,
                    Key::Down => KeyAction::SelectNextAddress,
                    Key::Enter => KeyAction::PinSelected,
                    _ => KeyAction::Ignore,
                }
            },
        }
    }
}

/// The letter commands do the same whichever of the two lists has the focus:
/// `q` leaves, `v`, `e`, `p` and `m` move the focus to the value field, the
/// memory editor, the process list and the scanned memory list, `t` cycles
/// the type, `n` and `f` scan. (The value field and the memory editor take
/// letters as text instead.)
pub proof fn lemma_letter_commands(key: Key, focus: Focus)
    ensures
        focus == Focus::ProcessListWindow || focus == Focus::MemoryListWindow ==> {
            &&& spec_key_action(true, key, focus) == spec_key_action(
                true,
                key,
                Focus::ProcessListWindow,
            ) || !(key matches Key::Char(c) && (c == 'q' || c == 'v' || c == 'e' || c == 'p'
                || c == 'm' || c == 't' || c == 'n' || c == 'f'))
            &&& key == Key::Char('q') ==> spec_key_action(true, key, focus) == KeyAction::Exit
            &&& key == Key::Char('v') ==> spec_key_action(true, key, focus) == KeyAction::SetFocus(
                Focus::ValueInputField,
            )
            &&& key == Key::Char('e') ==> spec_key_action(true, key, focus) == KeyAction::SetFocus(
                Focus::MemoryEditorWindow,
            )
            &&& key == Key::Char('p') ==> spec_key_action(true, key, focus) == KeyAction::SetFocus(
                Focus::ProcessListWindow,
            )
            &&& key == Key::Char('m') ==> spec_key_action(true, key, focus) == KeyAction::SetFocus(
                Focus::MemoryListWindow,
            )
            &&& key == Key::Char('t') ==> spec_key_action(true, key, focus) == KeyAction::CycleType
            &&& key == Key::Char('n') ==> spec_key_action(true, key, focus) == KeyAction::NextScan
            &&& key == Key::Char('f') ==> spec_key_action(true, key, focus) == KeyAction::FirstScan
        },
{
}

/// Decides what a key event does, given the focused window.
pub fn handle_key_event(pressed: bool, key: Key, focus: Focus) -> (r: KeyAction)
    ensures
        r == spec_key_action(pressed, key, focus),
        pressed && focus != Focus::ValueInputField && focus != Focus::MemoryEditorWindow ==> {
            &&& key == Key::Char('q') ==> r == KeyAction::Exit
            &&& key == Key::Char('v') ==> r == KeyAction::SetFocus(Focus::ValueInputField)
            &&& key == Key::Char('e') ==> r == KeyAction::SetFocus(Focus::MemoryEditorWindow)
            &&& key == Key::Char('p') ==> r == KeyAction::SetFocus(Focus::ProcessListWindow)
            &&& key == Key::Char('m') ==> r == KeyAction::SetFocus(Focus::MemoryListWindow)
            &&& key == Key::Char('t') ==> r == KeyAction::CycleType
            &&& key == Key::Char('n') ==> r == KeyAction::NextScan
            &&& key == Key::Char('f') ==> r == KeyAction::FirstScan
        },
{
    proof {
        lemma_letter_commands(key, focus);
    }
    if !pressed {
        return KeyAction::Ignore;
    }
    match (key, focus) {
        (Key::Esc, _) => KeyAction::SetFocus(Focus::ProcessListWindow),
        (_, Focus::ValueInputField) => KeyAction::EditScanValue(key),
        (_, Focus::MemoryEditorWindow) => handle_memory_editor_key_event(key),
        (Key::Char('q'), _) => KeyAction::Exit,
        (Key::Char('v'), _) => KeyAction::SetFocus(Focus::ValueInputField),
        (Key::Char('e'), _) => KeyAction::SetFocus(Focus::MemoryEditorWindow),
        (Key::Char('p'), _) => KeyAction::SetFocus(Focus::ProcessListWindow),
        (Key::Char('m'), _) => KeyAction::SetFocus(Focus::MemoryListWindow),
        (Key::Char('t'), _) => KeyAction::CycleType,
        (Key::Char('n'), _) => KeyAction::NextScan,
        (Key::Char('f'), _) => KeyAction::FirstScan,
        (_, Focus::ProcessListWindow) => handle_process_list_key_event(key),
        _ => handle_memory_list_key_event(key),
    }
}

/// The process list's own keys: the arrows move the selection, `Enter` picks
/// the highlighted process.
pub fn handle_process_list_key_event(key: Key) -> (r: KeyAction)
    ensures
        r == (match key {
            Key::Up => KeyAction::SelectPreviousProcess,
            Key::Down => KeyAction::SelectNextProcess,
            Key::Enter => KeyAction::ChangeProcessToSelected,
            _ => KeyAction::Ignore,
        }),
{
    match key {
        Key::Up => KeyAction::SelectPreviousProcess,
        Key::Down => KeyAction::SelectNextProcess,
        Key::Enter => KeyAction::ChangeProcessToSelected,
        _ => KeyAction::Ignore,
    }
}

/// The scanned memory list's own keys: the arrows move the selection, `Enter`
/// pins the highlighted address.
pub fn handle_memory_list_key_event(key: Key) -> (r: KeyAction)
    ensures
        r == (match key {
            Key::Up => KeyAction::SelectPreviousAddress,
            Key::Down => KeyAction::SelectNextAddress,
            Key::Enter => KeyAction::PinSelected,
            _ => KeyAction::Ignore,
        }),
{
    match key {
        Key::Up => KeyAction::SelectPreviousAddress,
        Key::Down => KeyAction::SelectNextAddress,
        Key::Enter => KeyAction::PinSelected,
        _ => KeyAction::Ignore,
    }
}

/// The memory editor's keys: `Enter` overwrites the highlighted value, as the
/// editor's help text says, and every other key edits the new value. The
/// arrows (to move among the pinned addresses) and `Delete` (to unpin one)
/// are bindings of this library: without them no pinned address could be
/// chosen or unpinned from the keyboard.
pub fn handle_memory_editor_key_event(key: Key) -> (r: KeyAction)
    ensures
        r == (match key {
            Key::Up => KeyAction::SelectPreviousPinned,
            Key::Down => KeyAction::SelectNextPinned,
            Key::Enter => KeyAction::EditSelectedValue,
            Key::Delete => KeyAction::UnpinSelected,
            _ => KeyAction::EditNewValue(key),
        }),
{
    match key {
        Key::Up => KeyAction::SelectPreviousPinned,
        Key::Down => KeyAction::SelectNextPinned,
        Key::Enter => KeyAction::EditSelectedValue,
        Key::Delete => KeyAction::UnpinSelected,
        _ => KeyAction::EditNewValue(key),
    }
}

/// Whether a field is shown selected after the focus moves from `focus` to
/// `target`, for the field that belongs to window `own`: selected on entering
/// it, unselected on leaving it, unchanged otherwise.
pub open spec fn selected_after_focus(selected: bool, focus: Focus, target: Focus, own: Focus) -> bool {
    if target == own {
        true
    } else if focus == own {
        false
    } else {
        selected
    }
}

/// The state of the controls of the interface: the focused window, the two
/// text fields, the type selector, and whether the user asked to leave.
pub struct Controls {
    pub focus: Focus,
    pub scan_value_field: InputField,
    pub new_value_field: InputField,
    pub scan_type_selector: TypeSelector,
    pub exit: bool,
}

impl Controls {
    /// Each text field is shown selected exactly while its window has the focus.
    pub open spec fn fields_follow_focus(&self) -> bool {
        &&& self.scan_value_field.is_selected() == (self.focus == Focus::ValueInputField)
        &&& self.new_value_field.is_selected() == (self.focus == Focus::MemoryEditorWindow)
    }

    /// The controls at start: the process list has the focus, both fields are
    /// empty and unselected, the type is `Byte`.
    pub fn new() -> (r: Controls)
        ensures
            r.focus == Focus::ProcessListWindow,
            r.scan_value_field.text() == Seq::<char>::empty(),
            r.scan_value_field.title() == " [V]alue "@,
            r.new_value_field.text() == Seq::<char>::empty(),
            r.new_value_field.title() == " New Value "@,
            r.scan_value_field.cursor() == 0,
            r.new_value_field.cursor() == 0,
            r.scan_type_selector.selected == crate::scan_value::ScanValueType::Byte,
            !r.exit,
            r.fields_follow_focus(),
    {
        Controls {
            focus: Focus::ProcessListWindow,
            scan_value_field: InputField::new(String::from_str(" [V]alue ")),
            new_value_field: InputField::new(String::from_str(" New Value ")),
            scan_type_selector: TypeSelector::new(),
            exit: false,
        }
    }

    /// Moves the focus to `target`; a text field is shown selected on entering
    /// its window and unselected on leaving it.
    pub fn set_focus(&mut self, target: Focus)
        ensures
            final(self).focus == target,
            final(self).scan_value_field.is_selected() == selected_after_focus(
                old(self).scan_value_field.is_selected(),
                old(self).focus,
                target,
                Focus::ValueInputField,
            ),
            final(self).new_value_field.is_selected() == selected_after_focus(
                old(self).new_value_field.is_selected(),
                old(self).focus,
                target,
                Focus::MemoryEditorWindow,
            ),
            final(self).scan_value_field.text() == old(self).scan_value_field.text(),
            final(self).scan_value_field.cursor() == old(self).scan_value_field.cursor(),
            final(self).scan_value_field.title() == old(self).scan_value_field.title(),
            final(self).new_value_field.text() == old(self).new_value_field.text(),
            final(self).new_value_field.cursor() == old(self).new_value_field.cursor(),
            final(self).new_value_field.title() == old(self).new_value_field.title(),
            final(self).scan_type_selector == old(self).scan_type_selector,
            final(self).exit == old(self).exit,
            old(self).fields_follow_focus() ==> final(self).fields_follow_focus(),
    {
        match self.focus {
            Focus::ValueInputField => self.scan_value_field.set_selected(false),
            Focus::MemoryEditorWindow => self.new_value_field.set_selected(false),
            _ => {},
        }
        match target {
            Focus::ValueInputField => self.scan_value_field.set_selected(true),
            Focus::MemoryEditorWindow => self.new_value_field.set_selected(true),
            _ => {},
        }
        self.focus = target;
    }

    /// Handles a key event: decides its action, and carries out what concerns
    /// the controls themselves (the focus, the text fields, the type selector
    /// and leaving). The action is returned so that the rest can be carried out
    /// on the scan results, the lists and the process's memory.
    pub fn handle_key(&mut self, pressed: bool, key: Key) -> (r: KeyAction)
        requires
            spec_key_action(pressed, key, old(self).focus) matches KeyAction::EditScanValue(
                Key::Char(_),
            ) ==> old(self).scan_value_field.can_insert(),
            spec_key_action(pressed, key, old(self).focus) matches KeyAction::EditNewValue(
                Key::Char(_),
            ) ==> old(self).new_value_field.can_insert(),
        ensures
            r == spec_key_action(pressed, key, old(self).focus),
            match r {
                KeyAction::SetFocus(target) => {
                    &&& final(self).focus == target
                    &&& final(self).scan_value_field.is_selected() == selected_after_focus(
                        old(self).scan_value_field.is_selected(),
                        old(self).focus,
                        target,
                        Focus::ValueInputField,
                    )
                    &&& final(self).new_value_field.is_selected() == selected_after_focus(
                        old(self).new_value_field.is_selected(),
                        old(self).focus,
                        target,
                        Focus::MemoryEditorWindow,
                    )
                    &&& final(self).scan_value_field.text() == old(self).scan_value_field.text()
                    &&& final(self).scan_value_field.cursor() == old(self).scan_value_field.cursor()
                    &&& final(self).scan_value_field.title() == old(self).scan_value_field.title()
                    &&& final(self).new_value_field.text() == old(self).new_value_field.text()
                    &&& final(self).new_value_field.cursor() == old(self).new_value_field.cursor()
                    &&& final(self).new_value_field.title() == old(self).new_value_field.title()
                    &&& final(self).scan_type_selector == old(self).scan_type_selector
                    &&& final(self).exit == old(self).exit
                },
                KeyAction::EditScanValue(k) => {
                    &&& old(self).scan_value_field.edited_by(final(self).scan_value_field, k)
                    &&& final(self).new_value_field == old(self).new_value_field
                    &&& final(self).focus == old(self).focus
                    &&& final(self).scan_type_selector == old(self).scan_type_selector
                    &&& final(self).exit == old(self).exit
                },
                KeyAction::EditNewValue(k) => {
                    &&& old(self).new_value_field.edited_by(final(self).new_value_field, k)
                    &&& final(self).scan_value_field == old(self).scan_value_field
                    &&& final(self).focus == old(self).focus
                    &&& final(self).scan_type_selector == old(self).scan_type_selector
                    &&& final(self).exit == old(self).exit
                },
                KeyAction::Exit => {
                    &&& final(self).exit
                    &&& final(self).focus == old(self).focus
                    &&& final(self).scan_value_field == old(self).scan_value_field
                    &&& final(self).new_value_field == old(self).new_value_field
                    &&& final(self).scan_type_selector == old(self).scan_type_selector
                },
                KeyAction::CycleType => {
                    &&& final(self).scan_type_selector.selected == next_type(
                        old(self).scan_type_selector.selected,
                    )
                    &&& final(self).focus == old(self).focus
                    &&& final(self).scan_value_field == old(self).scan_value_field
                    &&& final(self).new_value_field == old(self).new_value_field
                    &&& final(self).exit == old(self).exit
                },
                _ => *final(self) == *old(self),
            },
            old(self).fields_follow_focus() ==> final(self).fields_follow_focus(),
    {
        let action = handle_key_event(pressed, key, self.focus);
        match action {
            KeyAction::SetFocus(target) => self.set_focus(target),
            KeyAction::EditScanValue(k) => self.scan_value_field.handle_key_event(k),
            KeyAction::EditNewValue(k) => self.new_value_field.handle_key_event(k),
            KeyAction::Exit => self.exit = true,
            KeyAction::CycleType => self.scan_type_selector.cycle_type(),
            _ => {},
        }
        action
    }
}

/// Each text field is shown selected exactly while its window has the focus:
/// the controls start that way and every key event keeps it so.
pub proof fn lemma_fields_follow_focus(before: Controls, pressed: bool, key: Key, after: Controls)
    requires
        before.fields_follow_focus(),
        ({
            let r = spec_key_action(pressed, key, before.focus);
            match r {
                KeyAction::SetFocus(target) => {
                    &&& after.focus == target
                    &&& after.scan_value_field.is_selected() == selected_after_focus(
                        before.scan_value_field.is_selected(),
                        before.focus,
                        target,
                        Focus::ValueInputField,
                    )
                    &&& after.new_value_field.is_selected() == selected_after_focus(
                        before.new_value_field.is_selected(),
                        before.focus,
                        target,
                        Focus::MemoryEditorWindow,
                    )
                },
                KeyAction::EditScanValue(k) => {
                    &&& before.scan_value_field.edited_by(after.scan_value_field, k)
                    &&& after.new_value_field == before.new_value_field
                    &&& after.focus == before.focus
                },
                KeyAction::EditNewValue(k) => {
                    &&& before.new_value_field.edited_by(after.new_value_field, k)
                    &&& after.scan_value_field == before.scan_value_field
                    &&& after.focus == before.focus
                },
                _ => {
                    &&& after.focus == before.focus
                    &&& after.scan_value_field == before.scan_value_field
                    &&& after.new_value_field == before.new_value_field
                },
            }
        }),
    ensures
        after.fields_follow_focus(),
{
}

} // verus!
