use crate::note::{Note, NoteView};
use crate::positions::{
    ascending, drop_positions, lemma_descending_removal, lemma_sorted_distinct, positions_named,
    remove_in_turn, sort_numbers,
};
use vstd::prelude::*;

verus! {

/// The notes of `s` with every checked flag set to `flag`.
pub open spec fn with_flags(s: Seq<NoteView>, flag: bool) -> Seq<NoteView> {
    s.map_values(|n: NoteView| NoteView { checked: flag, ..n })
}

/// `s` with the flag of the note at `i` set to `flag`; `s` itself where `i` is
/// not a position of `s`.
pub open spec fn with_flag_at(s: Seq<NoteView>, i: int, flag: bool) -> Seq<NoteView> {
    if 0 <= i < s.len() {
        s.update(i, NoteView { checked: flag, ..s[i] })
    } else {
        s
    }
}

/// `s` without the note at `i`; `s` itself where `i` is not a position of `s`.
pub open spec fn without_at(s: Seq<NoteView>, i: int) -> Seq<NoteView> {
    if 0 <= i < s.len() {
        s.remove(i)
    } else {
        s
    }
}

/// The test "the note's flag is `flag`".
pub open spec fn has_flag(flag: bool) -> spec_fn(NoteView) -> bool {
    |n: NoteView| n.checked == flag
}

/// The notes of `s` whose flag is `flag`, in their order.
pub open spec fn flagged(s: Seq<NoteView>, flag: bool) -> Seq<NoteView> {
    s.filter(has_flag(flag))
}

/// `s` after setting, one number at a time in the order given, the flag of
/// the note with each 1-based number in `numbers` to `flag`; a number that
/// names no note changes nothing.
pub open spec fn flag_each(s: Seq<NoteView>, numbers: Seq<usize>, flag: bool) -> Seq<NoteView>
    decreases numbers.len(),
{
    if numbers.len() == 0 {
        s
    } else {
        with_flag_at(flag_each(s, numbers.drop_last(), flag), numbers.last() - 1, flag)
    }
}

/// An ordered sequence of notes; a note is addressed by its position.
#[derive(Debug, Clone)]
pub struct List {
    pub notes: Vec<Note>,
}

impl View for List {
    type V = Seq<NoteView>;

    open spec fn view(&self) -> Seq<NoteView> {
        self.notes@.map_values(|n: Note| n@)
    }
}

impl List {
    /// An empty list.
    pub fn new() -> (r: List)
        ensures
            r@ == Seq::<NoteView>::empty(),
    {
        List { notes: Vec::new() }
    }

    /// Appends `note` after the last note.
    pub fn add_note(&mut self, note: Note)
        ensures
            final(self)@ == old(self)@.push(note@),
    {
        self.notes.push(note);
        assert(self@ =~= old(self)@.push(note@));
    }

    /// Checks the note at 0-based `note_index`; does nothing where there is none.
    pub fn check_note(&mut self, note_index: usize)
        ensures
            final(self)@ == with_flag_at(old(self)@, note_index as int, true),
    {
        if self.notes.len() > note_index {
            self.notes[note_index].check();
            assert(self@ =~= with_flag_at(old(self)@, note_index as int, true));
        }
    }

    /// Checks every note.
    pub fn check_all(&mut self)
        ensures
            final(self)@ == with_flags(old(self)@, true),
    {
        let n = self.notes.len();
        let mut i: usize = 0;
        while i < n
            invariant
                n == self.notes.len(),
                n == old(self).notes.len(),
                i <= n,
                forall|j: int| 0 <= j < i ==> self.notes@[j]@ == (NoteView { checked: true, ..old(self).notes@[j]@ }),
                forall|j: int| i <= j < n ==> self.notes@[j] == old(self).notes@[j],
            decreases n - i,
        {
            self.notes[i].check();
            i = i + 1;
        }
        assert(self@ =~= with_flags(old(self)@, true));
    }

    /// Unchecks the note at 0-based `note_index`; does nothing where there is none.
    pub fn uncheck_note(&mut self, note_index: usize)
        ensures
            final(self)@ == with_flag_at(old(self)@, note_index as int, false),
    {
        if self.notes.len() > note_index {
            self.notes[note_index].uncheck();
            assert(self@ =~= with_flag_at(old(self)@, note_index as int, false));
        }
    }

    /// Unchecks every note.
    pub fn uncheck_all(&mut self)
        ensures
            final(self)@ == with_flags(old(self)@, false),
    {
        let n = self.notes.len();
        let mut i: usize = 0;
        while i < n
            invariant
                n == self.notes.len(),
                n == old(self).notes.len(),
                i <= n,
                forall|j: int| 0 <= j < i ==> self.notes@[j]@ == (NoteView { checked: false, ..old(self).notes@[j]@ }),
                forall|j: int| i <= j < n ==> self.notes@[j] == old(self).notes@[j],
            decreases n - i,
        {
            self.notes[i].uncheck();
            i = i + 1;
        }
        assert(self@ =~= with_flags(old(self)@, false));
    }

    /// Removes every note.
    pub fn remove_all(&mut self)
        ensures
            final(self)@ == Seq::<NoteView>::empty(),
    {
        self.notes.clear();
        assert(self@ =~= Seq::<NoteView>::empty());
    }

    /// The notes of this list whose flag is `flag`, in their order.
    fn notes_flagged(&self, flag: bool) -> (r: Vec<Note>)
        ensures
            r@.map_values(|n: Note| n@) == flagged(self@, flag),
    {
        let mut kept: Vec<Note> = Vec::new();
        let mut i: usize = 0;
        while i < self.notes.len()
            invariant
                i <= self.notes.len(),
                kept@.map_values(|n: Note| n@) == self@.take(i as int).filter(has_flag(flag)),
            decreases self.notes.len() - i,
        {
            let ghost before = self@.take(i as int);
            proof {
                assert(self@.take(i as int + 1) =~= before.push(self@[i as int]));
                before.lemma_filter_push(self@[i as int], has_flag(flag));
                assert(self@[i as int] == self.notes@[i as int]@);
            }
            if self.notes[i].is_checked() == flag {
                let copy = self.notes[i].duplicate();
                kept.push(copy);
                assert(kept@.map_values(|n: Note| n@) =~= before.filter(has_flag(flag)).push(self@[i as int]));
            }
            i = i + 1;
        }
        assert(self@.take(i as int) =~= self@);
        kept
    }

    /// Keeps the unchecked notes only, in their order.
    pub fn remove_checked(&mut self)
        ensures
            final(self)@ == flagged(old(self)@, false),
    {
        self.notes = self.notes_flagged(false);
        assert(self@ =~= flagged(old(self)@, false));
    }

    /// Keeps the checked notes only, in their order.
    pub fn remove_unchecked(&mut self)
        ensures
            final(self)@ == flagged(old(self)@, true),
    {
        self.notes = self.notes_flagged(true);
        assert(self@ =~= flagged(old(self)@, true));
    }

    /// Removes the note at 0-based `note_index`; does nothing where there is none.
    pub fn remove_note(&mut self, note_index: usize)
        ensures
            final(self)@ == without_at(old(self)@, note_index as int),
    {
        if self.notes.len() > note_index {
            self.notes.remove(note_index);
            assert(self@ =~= old(self)@.remove(note_index as int));
        }
    }

    /// Removes the notes named by the 1-based numbers in `note_numbers`, in
    /// descending order of number so that each number still names the note it
    /// named at the start. A number that names no note (zero, or past the end)
    /// removes nothing; a number given twice removes a second note.
    pub fn remove_notes(&mut self, note_numbers: &Vec<usize>)
        ensures
            exists|order: Seq<usize>|
                #![trigger remove_in_turn(old(self)@, order)]
                ascending(order) && order.to_multiset() == note_numbers@.to_multiset()
                    && final(self)@ == remove_in_turn(old(self)@, order),
            note_numbers@.no_duplicates() ==> final(self)@ == drop_positions(
                old(self)@,
                positions_named(note_numbers@),
            ),
    {
        let mut sorted = note_numbers.clone();
        sort_numbers(&mut sorted);
        let n = sorted.len();
        let mut j = n;
        while j > 0
            invariant
                j <= n == sorted.len(),
                self@ == remove_in_turn(old(self)@, sorted@.subrange(j as int, n as int)),
            decreases j,
        {
            let k = sorted[j - 1];
            if k > 0 {
                self.remove_note(k - 1);
            }
            proof {
                let done = sorted@.subrange(j as int, n as int);
                assert(sorted@.subrange(j - 1, n as int).drop_first() =~= done);
            }
            j = j - 1;
        }
        assert(sorted@.subrange(0, n as int) =~= sorted@);
        proof {
            if note_numbers@.no_duplicates() {
                lemma_sorted_distinct(sorted@, note_numbers@);
                lemma_descending_removal(old(self)@, sorted@);
            }
        }
    }

    /// Sets the flag of each note named by a 1-based number in `note_numbers`
    /// to `checked`; numbers that name no note are passed over.
    pub fn mark_notes(&mut self, note_numbers: &Vec<usize>, checked: bool)
        ensures
            final(self)@ == flag_each(old(self)@, note_numbers@, checked),
    {
        let mut i: usize = 0;
        while i < note_numbers.len()
            invariant
                i <= note_numbers.len(),
                self@ == flag_each(old(self)@, note_numbers@.take(i as int), checked),
            decreases note_numbers.len() - i,
        {
            let k = note_numbers[i];
            if k > 0 {
                if checked {
                    self.check_note(k - 1);
                } else {
                    self.uncheck_note(k - 1);
                }
            }
            assert(note_numbers@.take(i as int + 1).drop_last() =~= note_numbers@.take(i as int));
            i = i + 1;
        }
        assert(note_numbers@.take(i as int) =~= note_numbers@);
    }
}

} // verus!
