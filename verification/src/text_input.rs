//! A line of text with a cursor, shared by the filter, the command prompt and
//! the edit form.

use crate::keys::KeyCode;
use crate::text::byte_offset;
use vstd::prelude::*;
use vstd::string::*;
use vstd::utf8::*;

verus! {

/// What a text input holds: its characters and the cursor among them.
#[verifier::ext_equal]
pub ghost struct TextView {
    pub text: Seq<char>,
    pub cursor: int,
}

impl TextView {
    /// The cursor stands at a character or behind the last one.
    pub open spec fn valid(self) -> bool {
        0 <= self.cursor <= self.text.len()
    }

    /// An input with this text and the cursor behind it.
    pub open spec fn seeded(text: Seq<char>) -> TextView {
        TextView { text, cursor: text.len() as int }
    }

    /// `c` in front of the cursor.
    pub open spec fn insert(self, c: char) -> TextView {
        TextView { text: self.text.insert(self.cursor, c), cursor: self.cursor + 1 }
    }

    /// Without the character in front of the cursor.
    pub open spec fn backspace(self) -> TextView {
        if self.cursor > 0 {
            TextView { text: self.text.remove(self.cursor - 1), cursor: self.cursor - 1 }
        } else {
            self
        }
    }

    /// Without the character at the cursor.
    pub open spec fn delete(self) -> TextView {
        if self.cursor < self.text.len() {
            TextView { text: self.text.remove(self.cursor), cursor: self.cursor }
        } else {
            self
        }
    }

    /// Whether a key edits the text or moves the cursor in it.
    pub open spec fn edits(code: KeyCode) -> bool {
        match code {
            KeyCode::Char(_) | KeyCode::Backspace | KeyCode::Delete | KeyCode::Left
            | KeyCode::Right | KeyCode::Home | KeyCode::End => true,
            _ => false,
        }
    }

    /// The input after a key.
    pub open spec fn key(self, code: KeyCode) -> TextView {
        match code {
            KeyCode::Char(c) => self.insert(c),
            KeyCode::Backspace => self.backspace(),
            KeyCode::Delete => self.delete(),
            KeyCode::Left => TextView {
                cursor: if self.cursor > 0 { self.cursor - 1 } else { 0 },
                ..self
            },
            KeyCode::Right => TextView {
                cursor: if self.cursor < self.text.len() { self.cursor + 1 } else { self.cursor },
                ..self
            },
            KeyCode::Home => TextView { cursor: 0, ..self },
            KeyCode::End => TextView { cursor: self.text.len() as int, ..self },
            _ => self,
        }
    }
}

/// A line of text with a cursor.
pub struct TextInput {
    value: String,
    cursor: usize,
}

impl View for TextInput {
    type V = TextView;

    closed spec fn view(&self) -> TextView {
        TextView { text: self.value@, cursor: self.cursor as int }
    }
}

impl TextInput {
    /// The cursor stands in the text.
    pub open spec fn wf(&self) -> bool {
        self@.valid()
    }

    /// An empty input.
    pub fn new() -> (input: TextInput)
        ensures
            input.wf(),
            input@ == TextView::seeded(Seq::empty()),
    {
        TextInput { value: String::new(), cursor: 0 }
    }

    /// An input that starts with a text; the cursor stands behind it.
    pub fn seeded(value: String) -> (input: TextInput)
        ensures
            input.wf(),
            input@ == TextView::seeded(value@),
    {
        let cursor: usize = value.as_str().unicode_len();
        TextInput { value, cursor }
    }

    /// The text.
    pub fn as_str(&self) -> (s: &str)
        ensures
            s@ == self@.text,
    {
        self.value.as_str()
    }

    /// The cursor, counted in characters.
    pub fn cursor(&self) -> (at: usize)
        ensures
            at == self@.cursor,
    {
        self.cursor
    }

    /// Empties the input.
    pub fn clear(&mut self)
        ensures
            final(self).wf(),
            final(self)@ == TextView::seeded(Seq::empty()),
    {
        self.value.clear();
        self.cursor = 0;
    }

    /// Handles an editing key; `false` where the key is none, and then nothing changes.
    pub fn handle_key(&mut self, code: KeyCode) -> (handled: bool)
        requires
            old(self).wf(),
        ensures
            final(self).wf(),
            final(self)@ == old(self)@.key(code),
            handled == TextView::edits(code),
    {
        match code {
            KeyCode::Char(c) => self.insert(c),
            KeyCode::Backspace => self.backspace(),
            KeyCode::Delete => self.delete(),
            KeyCode::Left => {
                if self.cursor > 0 {
                    self.cursor -= 1;
                }
            },
            KeyCode::Right => {
                let n: usize = self.len();
                if self.cursor < n {
                    self.cursor += 1;
                }
            },
            KeyCode::Home => {
                self.cursor = 0;
            },
            KeyCode::End => {
                self.cursor = self.len();
            },
            _ => {
                return false;
            },
        }
        true
    }

    /// Puts a character in front of the cursor.
    pub fn insert(&mut self, c: char)
        requires
            old(self).wf(),
        ensures
            final(self).wf(),
            final(self)@ == old(self)@.insert(c),
    {
        let idx: usize = self.byte_index(self.cursor);
        self.value.insert(idx, c);
        let n: usize = self.len();
        assert(n == old(self)@.text.len() + 1);
        self.cursor += 1;
    }

    /// Takes out the character in front of the cursor.
    pub fn backspace(&mut self)
        requires
            old(self).wf(),
        ensures
            final(self).wf(),
            final(self)@ == old(self)@.backspace(),
    {
        if self.cursor > 0 {
            self.cursor -= 1;
            let idx: usize = self.byte_index(self.cursor);
            self.value.remove(idx);
        }
    }

    /// Takes out the character at the cursor.
    pub fn delete(&mut self)
        requires
            old(self).wf(),
        ensures
            final(self).wf(),
            final(self)@ == old(self)@.delete(),
    {
        if self.cursor < self.len() {
            let idx: usize = self.byte_index(self.cursor);
            self.value.remove(idx);
        }
    }

    /// The number of characters.
    pub fn len(&self) -> (n: usize)
        ensures
            n == self@.text.len(),
    {
        self.value.as_str().unicode_len()
    }

    /// The byte at which a character starts; the length where there is no such character.
    pub fn byte_index(&self, char_idx: usize) -> (at: usize)
        ensures
            char_idx <= self@.text.len() ==> at == byte_offset(self@.text, char_idx as int),
            char_idx >= self@.text.len() ==> at == encode_utf8(self@.text).len(),
    {
        let n: usize = self.len();
        let k: usize = if char_idx < n { char_idx } else { n };
        assert(self.value@.subrange(0, k as int) =~= self.value@.take(k as int));
        assert(self.value@.take(n as int) =~= self.value@);
        self.value.as_str().substring_char(0, k).as_bytes().len()
    }
}

/// A character that is typed and then erased leaves the input as it was.
pub proof fn law_backspace_undoes_insert(input: TextView, c: char)
    requires
        input.valid(),
    ensures
        input.key(KeyCode::Char(c)).key(KeyCode::Backspace) == input,
{
    let typed = input.insert(c);
    assert(typed.text.remove(input.cursor) =~= input.text);
}

/// No key takes the cursor out of the text, and a key that edits nothing changes nothing.
pub proof fn law_keys_keep_input_valid(input: TextView, code: KeyCode)
    requires
        input.valid(),
    ensures
        input.key(code).valid(),
        !TextView::edits(code) ==> input.key(code) == input,
{
}

} // verus!
