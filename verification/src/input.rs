//! The query line: a text with a cursor that counts characters, not bytes.

use crate::text::{lemma_bytes_determine_text, lemma_encode_concat, lemma_prefix_boundary};
use vstd::prelude::*;
use vstd::string::{StrSliceExecFns, StringExecFns};
use vstd::utf8::{encode_scalar, encode_utf8};

verus! {

/// Whether keys move through the lists or edit the query.
#[derive(Debug, Clone, Copy, PartialEq, Eq, Structural)]
pub enum InputMode {
    Normal,
    Editing,
}

/// The query line as a value: its characters, the cursor as a count of
/// characters to its left, and the mode.
pub struct InputView {
    pub text: Seq<char>,
    pub cursor: nat,
    pub mode: InputMode,
}

impl InputView {
    /// The cursor stands inside the text or right behind it.
    pub open spec fn wf(self) -> bool {
        self.cursor <= self.text.len()
    }

    /// The empty line in the given mode.
    pub open spec fn empty(mode: InputMode) -> InputView {
        InputView { text: Seq::empty(), cursor: 0, mode }
    }

    /// The line after typing `c` at the cursor.
    pub open spec fn insert(self, c: char) -> InputView {
        InputView {
            text: self.text.insert(self.cursor as int, c),
            cursor: self.cursor + 1,
            mode: self.mode,
        }
    }

    /// The line after deleting the character left of the cursor, if any.
    pub open spec fn delete_before_cursor(self) -> InputView {
        if self.cursor == 0 {
            self
        } else {
            InputView {
                text: self.text.remove(self.cursor - 1),
                cursor: (self.cursor - 1) as nat,
                mode: self.mode,
            }
        }
    }

    /// The line with the cursor one character to the left, if there is room.
    pub open spec fn move_left(self) -> InputView {
        InputView { cursor: if self.cursor == 0 { 0 } else { (self.cursor - 1) as nat }, ..self }
    }

    /// The line with the cursor one character to the right, if there is room.
    pub open spec fn move_right(self) -> InputView {
        InputView {
            cursor: if self.cursor < self.text.len() { self.cursor + 1 } else { self.cursor },
            ..self
        }
    }

    /// The line with its text removed; the mode stays.
    pub open spec fn clear(self) -> InputView {
        InputView::empty(self.mode)
    }

    /// The line in another mode.
    pub open spec fn with_mode(self, mode: InputMode) -> InputView {
        InputView { mode, ..self }
    }

    /// The line after typing the characters of `t` in order.
    pub open spec fn insert_all(self, t: Seq<char>) -> InputView
        decreases t.len(),
    {
        if t.len() == 0 {
            self
        } else {
            self.insert(t[0]).insert_all(t.drop_first())
        }
    }

    /// The line after `n` deletions.
    pub open spec fn delete_n(self, n: nat) -> InputView
        decreases n,
    {
        if n == 0 {
            self
        } else {
            self.delete_before_cursor().delete_n((n - 1) as nat)
        }
    }
}

/// The query line. The cursor never leaves the text.
#[derive(Debug)]
pub struct InputField {
    text: String,
    char_idx: usize,
    mode: InputMode,
}

impl View for InputField {
    type V = InputView;

    closed spec fn view(&self) -> InputView {
        InputView { text: self.text@, cursor: self.char_idx as nat, mode: self.mode }
    }
}

impl Default for InputField {
    fn default() -> (field: InputField)
        ensures
            field@ == InputView::empty(InputMode::Normal),
    {
        InputField { text: String::new(), char_idx: 0, mode: InputMode::Normal }
    }
}

impl Clone for InputField {
    fn clone(&self) -> (copy: InputField)
        ensures
            copy@ == self@,
    {
        proof {
            use_type_invariant(self);
        }
        InputField { text: self.text.clone(), char_idx: self.char_idx, mode: self.mode }
    }
}

impl InputField {
    /// What holds of every query line: the cursor stands in the text.
    #[verifier::type_invariant]
    pub open spec fn well_formed(self) -> bool {
        self@.wf()
    }

    /// The text typed so far.
    pub fn text(&self) -> (text: &String)
        ensures
            text@ == self@.text,
    {
        &self.text
    }

    /// The number of characters left of the cursor.
    pub fn cursor(&self) -> (cursor: usize)
        ensures
            cursor == self@.cursor,
            self@.wf(),
    {
        proof {
            use_type_invariant(self);
        }
        self.char_idx
    }

    /// The current mode.
    pub fn mode(&self) -> (mode: InputMode)
        ensures
            mode == self@.mode,
    {
        self.mode
    }

    /// Switches the mode; text and cursor stay.
    pub fn set_mode(&mut self, mode: InputMode)
        ensures
            final(self)@ == old(self)@.with_mode(mode),
    {
        proof {
            use_type_invariant(&*self);
        }
        self.mode = mode;
    }

    pub fn move_cursor_left(&mut self)
        ensures
            final(self)@ == old(self)@.move_left(),
    {
        proof {
            use_type_invariant(&*self);
        }
        let cursor_moved_left = self.char_idx.saturating_sub(1);
        self.char_idx = self.clamp_cursor(cursor_moved_left);
    }

    pub fn move_cursor_right(&mut self)
        ensures
            final(self)@ == old(self)@.move_right(),
    {
        proof {
            use_type_invariant(&*self);
        }
        let cursor_moved_right = self.char_idx.saturating_add(1);
        self.char_idx = self.clamp_cursor(cursor_moved_right);
    }

    /// Types `new_char` at the cursor and steps over it.
    pub fn enter_char(&mut self, new_char: char)
        ensures
            final(self)@ == old(self)@.insert(new_char),
    {
        proof {
            use_type_invariant(&*self);
        }
        let index = self.byte_index();
        let ghost before = self.text@.take(self.char_idx as int);
        let ghost after = self.text@.skip(self.char_idx as int);
        proof {
            assert(self.text@ == before + after);
            lemma_prefix_boundary(before, after);
            lemma_encode_concat(before, after);
        }
        let mut text = self.text.clone();
        text.insert(index, new_char);
        proof {
            let typed = self.text@.insert(self.char_idx as int, new_char);
            assert(typed == (before + seq![new_char]) + after);
            lemma_encode_concat(before + seq![new_char], after);
            lemma_encode_concat(before, seq![new_char]);
            assert(seq![new_char].drop_first() == Seq::<char>::empty());
            assert(encode_utf8(seq![new_char]) == encode_scalar(new_char as u32)) by {
                reveal_with_fuel(encode_utf8, 2);
            }
            let bytes = encode_utf8(self.text@);
            assert(bytes.subrange(0, index as int) == encode_utf8(before));
            assert(bytes.subrange(index as int, bytes.len() as int) == encode_utf8(after));
            lemma_bytes_determine_text(text@, typed);
        }
        self.text = text;
        self.move_cursor_right();
    }

    /// The byte offset in the text at which the cursor stands.
    pub fn byte_index(&self) -> (index: usize)
        ensures
            index == encode_utf8(self@.text.take(self@.cursor as int)).len(),
    {
        proof {
            use_type_invariant(self);
        }
        let left_of_cursor = self.text.as_str().substring_char(0, self.char_idx);
        assert(left_of_cursor@ == self.text@.take(self.char_idx as int));
        left_of_cursor.as_bytes().len()
    }

    /// Deletes the character left of the cursor; at the start of the line
    /// nothing happens.
    pub fn delete_char(&mut self)
        ensures
            final(self)@ == old(self)@.delete_before_cursor(),
    {
        proof {
            use_type_invariant(&*self);
        }
        let is_not_cursor_leftmost = self.char_idx != 0;
        if is_not_cursor_leftmost {
            let current_index = self.char_idx;
            let from_left_to_current_index = current_index - 1;
            let count = self.text.as_str().unicode_len();

            let before_char_to_delete = self.text.as_str().substring_char(
                0,
                from_left_to_current_index,
            );
            let after_char_to_delete = self.text.as_str().substring_char(current_index, count);

            let shorter = String::from_str(before_char_to_delete).concat(after_char_to_delete);
            assert(shorter@ == self.text@.remove(current_index - 1));
            self.char_idx = from_left_to_current_index;
            self.text = shorter;
        }
    }

    /// Empties the line and puts the cursor at its start.
    pub fn clear(&mut self)
        ensures
            final(self)@ == old(self)@.clear(),
    {
        self.char_idx = 0;
        self.text = String::new();
    }

    /// The nearest position to `new_cursor_pos` that lies in the text.
    pub fn clamp_cursor(&self, new_cursor_pos: usize) -> (pos: usize)
        ensures
            pos == if new_cursor_pos <= self@.text.len() {
                new_cursor_pos as nat
            } else {
                self@.text.len()
            },
            self@.text.len() <= usize::MAX,
    {
        let count = self.text.as_str().unicode_len();
        if new_cursor_pos > count {
            count
        } else {
            new_cursor_pos
        }
    }
}

/// Every operation keeps the cursor in the text.
pub proof fn lemma_operations_keep_wf(line: InputView, c: char, mode: InputMode)
    requires
        line.wf(),
    ensures
        line.insert(c).wf(),
        line.delete_before_cursor().wf(),
        line.move_left().wf(),
        line.move_right().wf(),
        line.clear().wf(),
        line.with_mode(mode).wf(),
{
}

/// Deleting right after typing a character gives back the line as it was.
pub proof fn lemma_insert_then_delete(line: InputView, c: char)
    requires
        line.wf(),
    ensures
        line.insert(c).delete_before_cursor() == line,
{
    assert(line.text.insert(line.cursor as int, c).remove(line.cursor as int) =~= line.text);
}

/// `n + 1` deletions are `n` deletions and one more.
pub proof fn lemma_delete_one_more(line: InputView, n: nat)
    ensures
        line.delete_n(n + 1) == line.delete_n(n).delete_before_cursor(),
    decreases n,
{
    if n > 0 {
        lemma_delete_one_more(line.delete_before_cursor(), (n - 1) as nat);
    } else {
        assert(line.delete_n(1) == line.delete_before_cursor().delete_n(0));
    }
}

/// Typing a text at the cursor and then deleting as many characters as
/// were typed gives back the line as it was.
pub proof fn lemma_type_then_erase(line: InputView, typed: Seq<char>)
    requires
        line.wf(),
    ensures
        line.insert_all(typed).delete_n(typed.len()) == line,
    decreases typed.len(),
{
    if typed.len() > 0 {
        let first = line.insert(typed[0]);
        let rest = typed.drop_first();
        lemma_type_then_erase(first, rest);
        lemma_delete_one_more(first.insert_all(rest), rest.len());
        lemma_insert_then_delete(line, typed[0]);
    }
}

/// Typing a text into an empty line, character by character, and then
/// deleting once for each character leaves the line empty again, with the
/// cursor at its start.
pub proof fn lemma_typed_text_erased(typed: Seq<char>, mode: InputMode)
    requires
        typed.len() > 0,
    ensures
        InputView::empty(mode).insert_all(typed).delete_n(typed.len()) == InputView::empty(mode),
        InputView::empty(mode).insert_all(typed).delete_n(typed.len()).text == Seq::<char>::empty(),
        InputView::empty(mode).insert_all(typed).delete_n(typed.len()).cursor == 0,
{
    lemma_type_then_erase(InputView::empty(mode), typed);
}

/// Emptying an empty line changes nothing: once is as good as twice.
pub proof fn lemma_clear_idempotent(line: InputView)
    ensures
        line.clear().clear() == line.clear(),
{
}

} // verus!
