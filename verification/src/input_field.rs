use crate::events::Key;
use vstd::prelude::*;
use vstd::string::{StrSliceExecFns, StringExecFns, StringSliceAdditionalSpecFns};
use vstd::utf8::{
    encode_utf8, encode_utf8_decode_utf8, encode_utf8_valid_utf8, is_ascii_chars,
    is_ascii_chars_encode_utf8, is_char_boundary, is_char_boundary_iff_not_is_continuation_byte,
    is_char_boundary_start_end_of_seq, valid_utf8, valid_utf8_split,
};

verus! {

/// std's `String::insert`: puts `ch`, encoded in UTF-8, at byte position `idx`.
/// std panics unless `idx` lies on a character boundary of the string.
#[verifier::external_body]
fn string_insert(s: &mut String, idx: usize, ch: char)
    requires
        is_char_boundary(encode_utf8(old(s)@), idx as int),
    ensures
        encode_utf8(final(s)@) == encode_utf8(old(s)@).subrange(0, idx as int) + encode_utf8(
            seq![ch],
        ) + encode_utf8(old(s)@).subrange(idx as int, encode_utf8(old(s)@).len() as int),
{
    s.insert(idx, ch)
}

/// `pos`, but no further than the end of `s`.
pub open spec fn clamped(pos: int, s: Seq<char>) -> int {
    if pos <= s.len() {
        pos
    } else {
        s.len() as int
    }
}

/// The bytes of a text with `c` inserted at byte position `at`.
pub open spec fn inserted_bytes(bytes: Seq<u8>, at: int, c: char) -> Seq<u8> {
    bytes.subrange(0, at) + encode_utf8(seq![c]) + bytes.subrange(at, bytes.len() as int)
}

/// A text without the character before position `cursor` (counted in characters).
pub open spec fn deleted_before(text: Seq<char>, cursor: int) -> Seq<char> {
    text.subrange(0, clamped(cursor - 1, text)) + text.subrange(
        clamped(cursor, text),
        text.len() as int,
    )
}

/// One step right, stopping at the largest `usize`.
pub open spec fn step_right(cursor: usize) -> int {
    if cursor == usize::MAX {
        usize::MAX as int
    } else {
        cursor + 1
    }
}

/// One step left, stopping at zero.
pub open spec fn step_left(cursor: usize) -> int {
    if cursor == 0 {
        0
    } else {
        cursor - 1
    }
}

/// A one-line text field with a cursor. The cursor is a count of characters
/// for moving and deleting, and a byte position for inserting and display.
pub struct InputField {
    title: String,
    pub input: String,
    index: usize,
    pub selected: bool,
}

impl InputField {
    pub closed spec fn cursor(&self) -> usize {
        self.index
    }

    /// The text typed so far.
    pub closed spec fn text(&self) -> Seq<char> {
        self.input@
    }

    /// Whether the field is shown as selected.
    pub closed spec fn is_selected(&self) -> bool {
        self.selected
    }

    pub closed spec fn title(&self) -> Seq<char> {
        self.title@
    }

    /// The UTF-8 bytes of the text.
    pub open spec fn bytes(&self) -> Seq<u8> {
        encode_utf8(self.text())
    }

    /// The cursor lies where a character may be inserted.
    pub open spec fn can_insert(&self) -> bool {
        is_char_boundary(self.bytes(), self.cursor() as int)
    }

    /// The text before, at and after the cursor can be cut out.
    pub open spec fn can_split_at_cursor(&self) -> bool {
        &&& is_char_boundary(self.bytes(), self.cursor() as int)
        &&& self.cursor() < self.bytes().len() ==> is_char_boundary(
            self.bytes(),
            self.cursor() + 1,
        )
    }

    /// An empty, unselected field with the cursor at the start.
    pub fn new(title: String) -> (r: InputField)
        ensures
            r.title() == title@,
            r.text() == Seq::<char>::empty(),
            r.cursor() == 0,
            !r.is_selected(),
    {
        Self { title: title, input: String::new(), index: 0, selected: false }
    }

    /// The field's title.
    pub fn get_title(&self) -> (r: &String)
        ensures
            r@ == self.title(),
    {
        &self.title
    }

    /// Shows the field as selected or not.
    pub fn set_selected(&mut self, selected: bool)
        ensures
            final(self).is_selected() == selected,
            final(self).text() == old(self).text(),
            final(self).cursor() == old(self).cursor(),
            final(self).title() == old(self).title(),
    {
        self.selected = selected;
    }

    /// Where the cursor is.
    pub fn get_cursor(&self) -> (r: usize)
        ensures
            r == self.cursor(),
    {
        self.index
    }

    /// Empties the text; the cursor stays where it was.
    pub fn clear(&mut self)
        ensures
            final(self).text() == Seq::<char>::empty(),
            final(self).cursor() == old(self).cursor(),
            final(self).is_selected() == old(self).is_selected(),
            final(self).title() == old(self).title(),
    {
        self.input = String::new();
    }

    /// A cursor position, no further than the number of characters.
    fn clamp_cursor(&self, new_cursor_pos: usize) -> (r: usize)
        ensures
            r == clamped(new_cursor_pos as int, self.text()),
    {
        let count = self.input.as_str().unicode_len();
        if new_cursor_pos < count {
            new_cursor_pos
        } else {
            count
        }
    }

    pub fn move_left(&mut self)
        ensures
            final(self).cursor() == clamped(step_left(old(self).cursor()), old(self).text()),
            final(self).text() == old(self).text(),
            final(self).is_selected() == old(self).is_selected(),
            final(self).title() == old(self).title(),
    {
        let moved = self.index.saturating_sub(1);
        self.index = self.clamp_cursor(moved)
    }

    pub fn move_right(&mut self)
        ensures
            final(self).cursor() == clamped(step_right(old(self).cursor()), old(self).text()),
            final(self).text() == old(self).text(),
            final(self).is_selected() == old(self).is_selected(),
            final(self).title() == old(self).title(),
    {
        let moved = self.index.saturating_add(1);
        self.index = self.clamp_cursor(moved)
    }

    /// Whether the cursor lies where a character may be inserted.
    pub fn cursor_on_char_boundary(&self) -> (r: bool)
        ensures
            r == self.can_insert(),
    {
        self.input.as_str().is_char_boundary(self.index)
    }

    /// Inserts `new_char` at the cursor's byte position and moves the cursor
    /// one character right.
    pub fn insert_char(&mut self, new_char: char)
        requires
            old(self).can_insert(),
        ensures
            final(self).bytes() == inserted_bytes(
                old(self).bytes(),
                old(self).cursor() as int,
                new_char,
            ),
            final(self).cursor() == clamped(step_right(old(self).cursor()), final(self).text()),
            final(self).is_selected() == old(self).is_selected(),
            final(self).title() == old(self).title(),
            old(self).edited_by(*final(self), Key::Char(new_char)),
    {
        string_insert(&mut self.input, self.index, new_char);
        self.move_right();
    }

    /// Deletes the character before the cursor, if the cursor is not at the
    /// start, and moves the cursor one character left.
    pub fn delete_char(&mut self)
        ensures
            old(self).cursor() == 0 ==> final(self).text() == old(self).text() && final(self).cursor() == 0,
            old(self).cursor() != 0 ==> final(self).text() == deleted_before(
                old(self).text(),
                old(self).cursor() as int,
            ) && final(self).cursor() == clamped(old(self).cursor() - 1, final(self).text()),
            final(self).is_selected() == old(self).is_selected(),
            final(self).title() == old(self).title(),
            old(self).edited_by(*final(self), Key::Backspace),
    {
        if self.index != 0 {
            let current_index = self.index;
            let from_left_to_current_index = current_index - 1;
            let count = self.input.as_str().unicode_len();
            let a = if from_left_to_current_index < count {
                from_left_to_current_index
            } else {
                count
            };
            let b = if current_index < count {
                current_index
            } else {
                count
            };
            let mut rebuilt = String::from_str(self.input.as_str().substring_char(0, a));
            rebuilt.append(self.input.as_str().substring_char(b, count));
            self.input = rebuilt;
            self.move_left();
        }
    }

    /// What a key does to the field, from `self` to `after`: a character is
    /// inserted at the cursor's byte position and the cursor moves one character
    /// right; `Backspace` deletes the character before the cursor and moves it
    /// left; the arrows move the cursor; other keys change nothing. The title
    /// and the selection never change.
    pub open spec fn edited_by(self, after: InputField, key: Key) -> bool {
        &&& after.is_selected() == self.is_selected()
        &&& after.title() == self.title()
        &&& match key {
            Key::Char(c) => after.bytes() == inserted_bytes(self.bytes(), self.cursor() as int, c)
                && after.cursor() == clamped(step_right(self.cursor()), after.text()),
            Key::Backspace => if self.cursor() == 0 {
                after.text() == self.text() && after.cursor() == 0
            } else {
                after.text() == deleted_before(self.text(), self.cursor() as int) && after.cursor()
                    == clamped(self.cursor() - 1, after.text())
            },
            Key::Left => after.text() == self.text() && after.cursor() == clamped(
                step_left(self.cursor()),
                self.text(),
            ),
            Key::Right => after.text() == self.text() && after.cursor() == clamped(
                step_right(self.cursor()),
                self.text(),
            ),
            _ => after.text() == self.text() && after.cursor() == self.cursor(),
        }
    }

    /// Edits the text with a key: characters are inserted, `Backspace` deletes,
    /// the left and right arrows move the cursor; other keys do nothing.
    pub fn handle_key_event(&mut self, key: Key)
        requires
            key is Char ==> old(self).can_insert(),
        ensures
            old(self).edited_by(*final(self), key),
    {
        match key {
            Key::Char(chr) => self.insert_char(chr),
            Key::Backspace => self.delete_char(),
            Key::Left => self.move_left(),
            Key::Right => self.move_right(),
            _ => (),
        }
    }

    /// Whether the text can be cut at the cursor for display.
    pub fn cursor_split_ok(&self) -> (r: bool)
        ensures
            r == self.can_split_at_cursor(),
    {
        let s = self.input.as_str();
        if !s.is_char_boundary(self.index) {
            return false;
        }
        if self.index < s.as_bytes().len() {
            s.is_char_boundary(self.index + 1)
        } else {
            true
        }
    }

    /// The text before the cursor, the byte under the cursor (a space at the
    /// end of the text) and the text after it, as the field displays them.
    pub fn cursor_parts(&self) -> (r: (String, String, String))
        requires
            self.can_split_at_cursor(),
        ensures
            encode_utf8(r.0@) == self.bytes().subrange(0, self.cursor() as int),
            self.cursor() < self.bytes().len() ==> encode_utf8(r.1@) == self.bytes().subrange(
                self.cursor() as int,
                self.cursor() + 1,
            ) && encode_utf8(r.2@) == self.bytes().subrange(
                self.cursor() + 1,
                self.bytes().len() as int,
            ),
            self.cursor() >= self.bytes().len() ==> r.1@ == seq![' '] && r.2@ == Seq::<
                char,
            >::empty(),
    {
        let s = self.input.as_str();
        proof {
            encode_utf8_valid_utf8(self.input@);
        }
        let (before, rest) = s.split_at(self.index);
        if self.index < s.as_bytes().len() {
            proof {
                let bytes = self.bytes();
                let i = self.cursor() as int;
                let rb = bytes.subrange(i, bytes.len() as int);
                valid_utf8_split(bytes, i);
                assert(rest.spec_bytes() == rb);
                if i + 1 < bytes.len() {
                    is_char_boundary_iff_not_is_continuation_byte(bytes, i + 1);
                    is_char_boundary_iff_not_is_continuation_byte(rb, 1);
                    assert(rb[1] == bytes[i + 1]);
                } else {
                    is_char_boundary_start_end_of_seq(rb);
                }
            }
            let (cur, after) = rest.split_at(1);
            proof {
                let bytes = self.bytes();
                let i = self.cursor() as int;
                assert(cur.spec_bytes() =~= bytes.subrange(i, i + 1));
                assert(after.spec_bytes() =~= bytes.subrange(i + 1, bytes.len() as int));
            }
            (before.to_owned(), cur.to_owned(), after.to_owned())
        } else {
            let space = String::from_str(" ");
            let nothing = String::new();
            proof {
                reveal_strlit(" ");
            }
            (before.to_owned(), space, nothing)
        }
    }
}

/// UTF-8 encoding of a concatenation is the concatenation of the encodings.
proof fn lemma_encode_concat(a: Seq<char>, b: Seq<char>)
    ensures
        encode_utf8(a + b) == encode_utf8(a) + encode_utf8(b),
    decreases a.len(),
{
    if a.len() > 0 {
        lemma_encode_concat(a.drop_first(), b);
        assert((a + b).drop_first() =~= a.drop_first() + b);
        assert((a + b)[0] == a[0]);
    } else {
        assert(a + b =~= b);
    }
}

/// Typing a character and then Backspace ([`InputField::insert_char`] then
/// [`InputField::delete_char`], or the same keys through
/// [`InputField::handle_key_event`]) leaves the text and the cursor as they
/// were, when the text before the cursor is ASCII.
pub proof fn lemma_type_then_backspace(f0: InputField, c: char, f1: InputField, f2: InputField)
    requires
        f0.cursor() <= f0.text().len(),
        f0.cursor() < usize::MAX,
        is_ascii_chars(f0.text().subrange(0, f0.cursor() as int)),
        f0.edited_by(f1, Key::Char(c)),
        f1.edited_by(f2, Key::Backspace),
    ensures
        f2.text() == f0.text(),
        f2.cursor() == f0.cursor(),
{
    let t = f0.text();
    let k = f0.cursor() as int;
    let p = t.subrange(0, k);
    let q = t.subrange(k, t.len() as int);
    assert(t =~= p + q);
    lemma_encode_concat(p, q);
    is_ascii_chars_encode_utf8(p);
    let b0 = f0.bytes();
    assert(b0.subrange(0, k) =~= encode_utf8(p));
    assert(b0.subrange(k, b0.len() as int) =~= encode_utf8(q));
    let t1 = p + seq![c] + q;
    lemma_encode_concat(p, seq![c]);
    lemma_encode_concat(p + seq![c], q);
    assert(f1.bytes() =~= encode_utf8(t1));
    encode_utf8_decode_utf8(t1);
    encode_utf8_decode_utf8(f1.text());
    assert(f1.text() == t1);
    assert(f1.cursor() == k + 1);
    assert(deleted_before(t1, k + 1) =~= t);
}

} // verus!
