//! The dialog in which a script is added or changed.

use vstd::prelude::*;
use vstd::string::*;

use crate::keys::KeyCode;
use crate::source::SourceId;
use crate::text::{is_blank_text, lemma_trimmed_empty, trim, trimmed};
use crate::text_input::{TextInput, TextView};

verus! {

/// The fields of the dialog.
#[derive(Clone, Copy, Debug, PartialEq, Eq, Structural)]
pub enum EditField {
    Name,
    Command,
}

/// What is being typed.
pub struct EditState {
    pub dir_index: usize,
    pub source: SourceId,
    /// The name that the script had; `None` where it is a new one.
    pub original: Option<String>,
    pub name: TextInput,
    pub command: TextInput,
    pub field: EditField,
}

/// What is to become of the dialog.
#[derive(Clone, Copy, Debug, PartialEq, Eq, Structural)]
pub enum EditOutcome {
    Stay,
    Cancel,
    Commit,
}

/// What is being typed, by its texts.
#[verifier::ext_equal]
pub ghost struct EditView {
    pub dir_index: int,
    pub source: Seq<char>,
    pub original: Option<Seq<char>>,
    pub name: TextView,
    pub command: TextView,
    pub field: EditField,
}

/// An optional text's characters.
pub open spec fn name_view(name: Option<String>) -> Option<Seq<char>> {
    match name {
        Some(text) => Some(text@),
        None => None,
    }
}

impl View for EditState {
    type V = EditView;

    open spec fn view(&self) -> EditView {
        EditView {
            dir_index: self.dir_index as int,
            source: self.source@,
            original: name_view(self.original),
            name: self.name@,
            command: self.command@,
            field: self.field,
        }
    }
}

impl EditView {
    /// Both fields can be typed in.
    pub open spec fn valid(self) -> bool {
        self.name.valid() && self.command.valid()
    }

    /// The dialog for a new script.
    pub open spec fn adding(dir_index: int, source: Seq<char>) -> EditView {
        EditView {
            dir_index,
            source,
            original: None,
            name: TextView::seeded(Seq::empty()),
            command: TextView::seeded(Seq::empty()),
            field: EditField::Name,
        }
    }

    /// The dialog for a script that is there.
    pub open spec fn changing(
        dir_index: int,
        source: Seq<char>,
        name: Seq<char>,
        command: Seq<char>,
    ) -> EditView {
        EditView {
            dir_index,
            source,
            original: Some(name),
            name: TextView::seeded(name),
            command: TextView::seeded(command),
            field: EditField::Name,
        }
    }

    /// The dialog after a key. Tab changes the field, Enter goes from the name to
    /// the command, and what else edits a text edits the field.
    pub open spec fn key(self, code: KeyCode) -> EditView {
        match code {
            KeyCode::Esc => self,
            KeyCode::Tab => EditView {
                field: match self.field {
                    EditField::Name => EditField::Command,
                    EditField::Command => EditField::Name,
                },
                ..self
            },
            KeyCode::Enter => EditView { field: EditField::Command, ..self },
            _ => match self.field {
                EditField::Name => EditView { name: self.name.key(code), ..self },
                EditField::Command => EditView { command: self.command.key(code), ..self },
            },
        }
    }

    /// The name can be saved: it is not blank.
    pub open spec fn named(self) -> bool {
        trimmed(self.name.text).len() > 0
    }

    /// What a key makes of the dialog. Enter on the command saves, unless the
    /// name is blank.
    pub open spec fn outcome(self, code: KeyCode) -> EditOutcome {
        match code {
            KeyCode::Esc => EditOutcome::Cancel,
            KeyCode::Enter => if self.field == EditField::Command && self.named() {
                EditOutcome::Commit
            } else {
                EditOutcome::Stay
            },
            _ => EditOutcome::Stay,
        }
    }
}

impl EditState {
    /// Both fields can be typed in.
    pub open spec fn wf(&self) -> bool {
        self@.valid()
    }

    /// Handles a key.
    pub fn handle_key(&mut self, code: KeyCode) -> (outcome: EditOutcome)
        requires
            old(self).wf(),
        ensures
            final(self).wf(),
            final(self)@ == old(self)@.key(code),
            outcome == old(self)@.outcome(code),
    {
        match code {
            KeyCode::Esc => EditOutcome::Cancel,
            KeyCode::Tab => {
                self.field = match self.field {
                    EditField::Name => EditField::Command,
                    EditField::Command => EditField::Name,
                };
                EditOutcome::Stay
            },
            KeyCode::Enter => match self.field {
                EditField::Name => {
                    self.field = EditField::Command;
                    EditOutcome::Stay
                },
                EditField::Command => {
                    if trim(self.name.as_str()).as_str().unicode_len() > 0 {
                        EditOutcome::Commit
                    } else {
                        EditOutcome::Stay
                    }
                },
            },
            other => {
                self.active_mut().handle_key(other);
                EditOutcome::Stay
            },
        }
    }

    /// The field that is typed in.
    fn active_mut(&mut self) -> (input: &mut TextInput)
        ensures
            *input == match old(self).field {
                EditField::Name => old(self).name,
                EditField::Command => old(self).command,
            },
            *final(self) == match old(self).field {
                EditField::Name => (EditState { name: *final(input), ..*old(self) }),
                EditField::Command => (EditState { command: *final(input), ..*old(self) }),
            },
    {
        match self.field {
            EditField::Name => &mut self.name,
            EditField::Command => &mut self.command,
        }
    }
}

/// Keys keep both fields such that they can be typed in.
pub proof fn law_edit_keys_keep_fields_valid(state: EditView, code: KeyCode)
    requires
        state.valid(),
    ensures
        state.key(code).valid(),
{
}

/// A script is saved under a name that is not blank only.
pub proof fn law_blank_name_is_never_saved(state: EditView, code: KeyCode)
    requires
        state.outcome(code) == EditOutcome::Commit,
    ensures
        !is_blank_text(state.name.text),
        state.field == EditField::Command,
        state.key(code) == state,
{
    lemma_trimmed_empty(state.name.text);
}

/// Changing the field twice changes nothing.
pub proof fn law_tab_twice_is_nothing(state: EditView)
    ensures
        state.key(KeyCode::Tab).key(KeyCode::Tab) == state,
{
}

} // verus!
