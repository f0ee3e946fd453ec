use crate::text::{trim, trim_of};
use vstd::prelude::*;

verus! {

/// A note as a mathematical value: its text and whether it is checked.
pub struct NoteView {
    pub text: Seq<char>,
    pub checked: bool,
}

/// One entry of a list: free text and a checked flag.
#[derive(Debug, Clone)]
pub struct Note {
    pub text: String,
    pub checked: bool,
}

impl View for Note {
    type V = NoteView;

    open spec fn view(&self) -> NoteView {
        NoteView { text: self.text@, checked: self.checked }
    }
}

impl Note {
    /// A new unchecked note whose text is `text` with surrounding white space
    /// trimmed.
    pub fn new(text: &str) -> (r: Note)
        ensures
            r@ == (NoteView { text: trim_of(text@), checked: false }),
    {
        Note { text: trim(text), checked: false }
    }

    pub fn check(&mut self)
        ensures
            final(self)@ == (NoteView { checked: true, ..old(self)@ }),
    {
        self.checked = true;
    }

    pub fn uncheck(&mut self)
        ensures
            final(self)@ == (NoteView { checked: false, ..old(self)@ }),
    {
        self.checked = false;
    }

    pub fn is_checked(&self) -> (r: bool)
        ensures
            r == self@.checked,
    {
        self.checked
    }

    /// A note equal to this one in text and flag.
    pub fn duplicate(&self) -> (r: Note)
        ensures
            r@ == self@,
    {
        Note { text: self.text.clone(), checked: self.checked }
    }
}

} // verus!
