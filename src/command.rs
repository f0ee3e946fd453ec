//! What the command line asks for, and the edits it makes to a list.
use crate::list::{flag_each, flagged, with_flags, List};
use crate::note::{Note, NoteView};
use crate::positions::{ascending, drop_positions, positions_named, remove_in_turn};
use crate::text::{index_value, parse_index, trim_of, words};
use vstd::prelude::*;
use vstd::string::*;

verus! {

/// Which notes an edit applies to.
pub enum Selection {
    All,
    Checked,
    Unchecked,
    /// 1-based note numbers, in the order given.
    Numbers(Vec<usize>),
}

/// A `Selection` as a mathematical value.
pub enum SelectionView {
    All,
    Checked,
    Unchecked,
    Numbers(Seq<usize>),
}

impl View for Selection {
    type V = SelectionView;

    open spec fn view(&self) -> SelectionView {
        match self {
            Selection::All => SelectionView::All,
            Selection::Checked => SelectionView::Checked,
            Selection::Unchecked => SelectionView::Unchecked,
            Selection::Numbers(v) => SelectionView::Numbers(v@),
        }
    }
}

/// A change to the notes of one list.
pub enum NoteEdit {
    /// Adds a note with this text.
    Add(String),
    Remove(Selection),
    Check(Selection),
    Uncheck(Selection),
}

/// A `NoteEdit` as a mathematical value.
pub enum NoteEditView {
    Add(Seq<char>),
    Remove(SelectionView),
    Check(SelectionView),
    Uncheck(SelectionView),
}

impl View for NoteEdit {
    type V = NoteEditView;

    open spec fn view(&self) -> NoteEditView {
        match self {
            NoteEdit::Add(t) => NoteEditView::Add(t@),
            NoteEdit::Remove(s) => NoteEditView::Remove(s@),
            NoteEdit::Check(s) => NoteEditView::Check(s@),
            NoteEdit::Uncheck(s) => NoteEditView::Uncheck(s@),
        }
    }
}

/// A recognised command line.
pub enum Command {
    /// Names every stored list.
    ListLists,
    NewList(String),
    DeleteList(String),
    ReadList(String),
    /// `list` followed by a word that is no list subcommand.
    UnknownListCommand(String),
    /// Edits the notes of the list `list`; `rejected` holds the words that were
    /// to be note numbers and are not.
    EditNotes { list: String, edit: NoteEdit, rejected: Vec<String> },
}

/// A `Command` as a mathematical value.
pub enum CommandView {
    ListLists,
    NewList(Seq<char>),
    DeleteList(Seq<char>),
    ReadList(Seq<char>),
    UnknownListCommand(Seq<char>),
    EditNotes { list: Seq<char>, edit: NoteEditView, rejected: Seq<Seq<char>> },
}

impl View for Command {
    type V = CommandView;

    open spec fn view(&self) -> CommandView {
        match self {
            Command::ListLists => CommandView::ListLists,
            Command::NewList(n) => CommandView::NewList(n@),
            Command::DeleteList(n) => CommandView::DeleteList(n@),
            Command::ReadList(n) => CommandView::ReadList(n@),
            Command::UnknownListCommand(w) => CommandView::UnknownListCommand(w@),
            Command::EditNotes { list, edit, rejected } => CommandView::EditNotes {
                list: list@,
                edit: edit@,
                rejected: words(rejected@),
            },
        }
    }
}

/// The words of `w` separated by single spaces.
pub open spec fn joined(w: Seq<Seq<char>>) -> Seq<char>
    decreases w.len(),
{
    if w.len() == 0 {
        Seq::empty()
    } else if w.len() == 1 {
        w[0]
    } else {
        joined(w.drop_last()) + seq![' '] + w.last()
    }
}

/// The note number that the word `w` gives: a decimal number of at least 1.
/// Zero names no note and is no note number.
pub open spec fn note_number(w: Seq<char>) -> Option<usize> {
    match index_value(w) {
        Some(n) => if n > 0 {
            Some(n)
        } else {
            None
        },
        None => None,
    }
}

/// The note numbers among `w`, in their order.
pub open spec fn numbers_in(w: Seq<Seq<char>>) -> Seq<usize>
    decreases w.len(),
{
    if w.len() == 0 {
        Seq::empty()
    } else {
        match note_number(w.last()) {
            Some(n) => numbers_in(w.drop_last()).push(n),
            None => numbers_in(w.drop_last()),
        }
    }
}

/// The words of `w` that are no note number (not a number, or zero), in
/// their order.
pub open spec fn non_numbers_in(w: Seq<Seq<char>>) -> Seq<Seq<char>>
    decreases w.len(),
{
    if w.len() == 0 {
        Seq::empty()
    } else {
        match note_number(w.last()) {
            Some(n) => non_numbers_in(w.drop_last()),
            None => non_numbers_in(w.drop_last()).push(w.last()),
        }
    }
}

/// `w` is the single word `word`.
pub open spec fn is_only(w: Seq<Seq<char>>, word: Seq<char>) -> bool {
    w.len() == 1 && w[0] == word
}

/// The notes that the words `w` select; `by_flag` admits `checked` and
/// `unchecked` besides `all`.
pub open spec fn selection_of(w: Seq<Seq<char>>, by_flag: bool) -> SelectionView {
    if is_only(w, "all"@) {
        SelectionView::All
    } else if by_flag && is_only(w, "checked"@) {
        SelectionView::Checked
    } else if by_flag && is_only(w, "unchecked"@) {
        SelectionView::Unchecked
    } else {
        SelectionView::Numbers(numbers_in(w))
    }
}

/// The words of `w` that were to be note numbers and are not: they are not
/// numbers, or they are zero.
pub open spec fn rejected_of(w: Seq<Seq<char>>, by_flag: bool) -> Seq<Seq<char>> {
    match selection_of(w, by_flag) {
        SelectionView::Numbers(_) => non_numbers_in(w),
        _ => Seq::empty(),
    }
}

/// The command that the arguments `a` (without the program name) ask for, if
/// they ask for one.
pub open spec fn command_of(a: Seq<Seq<char>>) -> Option<CommandView> {
    if a.len() == 0 {
        None
    } else if a[0] == "list"@ || a[0] == "-l"@ {
        let r = a.drop_first();
        if r.len() == 0 {
            Some(CommandView::ListLists)
        } else if r.len() == 2 && r[0] == "new"@ {
            Some(CommandView::NewList(r[1]))
        } else if r.len() == 2 && r[0] == "del"@ {
            Some(CommandView::DeleteList(r[1]))
        } else if r.len() == 2 && r[0] == "read"@ {
            Some(CommandView::ReadList(r[1]))
        } else {
            Some(CommandView::UnknownListCommand(r[0]))
        }
    } else if a[0] == "note"@ || a[0] == "-n"@ {
        let r = a.drop_first();
        if r.len() < 2 {
            None
        } else {
            let t = r.subrange(2, r.len() as int);
            let by_flag = r[0] == "remove"@;
            if r[0] == "add"@ {
                Some(
                    CommandView::EditNotes {
                        list: r[1],
                        edit: NoteEditView::Add(joined(t)),
                        rejected: Seq::empty(),
                    },
                )
            } else if r[0] == "remove"@ || r[0] == "check"@ || r[0] == "uncheck"@ {
                let s = selection_of(t, by_flag);
                let edit = if r[0] == "remove"@ {
                    NoteEditView::Remove(s)
                } else if r[0] == "check"@ {
                    NoteEditView::Check(s)
                } else {
                    NoteEditView::Uncheck(s)
                };
                Some(CommandView::EditNotes { list: r[1], edit, rejected: rejected_of(t, by_flag) })
            } else {
                None
            }
        }
    } else {
        None
    }
}

/// Whether `s` is the word `w`.
fn is_word(s: &String, w: &str) -> (r: bool)
    ensures
        r == (s@ == w@),
{
    let a = s.as_str();
    let n = a.unicode_len();
    if n != w.unicode_len() {
        return false;
    }
    let mut i: usize = 0;
    while i < n
        invariant
            n == a@.len() == w@.len(),
            a@ == s@,
            i <= n,
            forall|j: int| 0 <= j < i ==> a@[j] == w@[j],
        decreases n - i,
    {
        if a.get_char(i) != w.get_char(i) {
            return false;
        }
        i = i + 1;
    }
    assert(s@ =~= w@);
    true
}

/// The words `a[from..]` separated by single spaces.
fn join_words(a: &Vec<String>, from: usize) -> (r: String)
    requires
        from <= a.len(),
    ensures
        r@ == joined(words(a@).subrange(from as int, a.len() as int)),
{
    let mut r = String::new();
    let mut i = from;
    while i < a.len()
        invariant
            from <= i <= a.len(),
            r@ == joined(words(a@).subrange(from as int, i as int)),
        decreases a.len() - i,
    {
        let ghost w = words(a@).subrange(from as int, i as int + 1);
        assert(w.drop_last() =~= words(a@).subrange(from as int, i as int));
        if i > from {
            r.append(" ");
            proof {
                reveal_strlit(" ");
            }
        } else {
            assert(words(a@).subrange(from as int, i as int).len() == 0);
        }
        r.append(a[i].as_str());
        i = i + 1;
        assert(r@ =~= joined(w));
    }
    r
}

/// The note numbers among `a[from..]`, and the words there that are none
/// (zero among them).
fn split_numbers(a: &Vec<String>, from: usize) -> (r: (Vec<usize>, Vec<String>))
    requires
        from <= a.len(),
    ensures
        r.0@ == numbers_in(words(a@).subrange(from as int, a.len() as int)),
        words(r.1@) == non_numbers_in(words(a@).subrange(from as int, a.len() as int)),
{
    let mut numbers: Vec<usize> = Vec::new();
    let mut rejected: Vec<String> = Vec::new();
    let mut i = from;
    while i < a.len()
        invariant
            from <= i <= a.len(),
            numbers@ == numbers_in(words(a@).subrange(from as int, i as int)),
            words(rejected@) == non_numbers_in(words(a@).subrange(from as int, i as int)),
        decreases a.len() - i,
    {
        let ghost w = words(a@).subrange(from as int, i as int + 1);
        assert(w.drop_last() =~= words(a@).subrange(from as int, i as int));
        let parsed = parse_index(a[i].as_str());
        match parsed {
            Some(n) if n > 0 => numbers.push(n),
            _ => {
                rejected.push(a[i].clone());
                assert(words(rejected@) =~= non_numbers_in(w));
            },
        }
        i = i + 1;
    }
    (numbers, rejected)
}

/// The notes that `a[from..]` selects, and the words there that were to be
/// note numbers and are not.
fn select(a: &Vec<String>, from: usize, by_flag: bool) -> (r: (Selection, Vec<String>))
    requires
        from <= a.len(),
    ensures
        r.0@ == selection_of(words(a@).subrange(from as int, a.len() as int), by_flag),
        words(r.1@) == rejected_of(words(a@).subrange(from as int, a.len() as int), by_flag),
{
    let ghost w = words(a@).subrange(from as int, a.len() as int);
    if a.len() - from == 1 {
        assert(w[0] == a@[from as int]@);
        if is_word(&a[from], "all") {
            return (Selection::All, Vec::new());
        }
        if by_flag && is_word(&a[from], "checked") {
            return (Selection::Checked, Vec::new());
        }
        if by_flag && is_word(&a[from], "unchecked") {
            return (Selection::Unchecked, Vec::new());
        }
    }
    let (numbers, rejected) = split_numbers(a, from);
    (Selection::Numbers(numbers), rejected)
}

/// Reads the command line `args` (without the program name). `None` where it
/// asks for nothing that this tool does; such a command line is ignored.
pub fn parse_command(args: &Vec<String>) -> (r: Option<Command>)
    ensures
        r is None <==> command_of(words(args@)) is None,
        r is Some ==> command_of(words(args@)) == Some(r->0@),
{
    let ghost a = words(args@);
    if args.len() == 0 {
        return None;
    }
    let n = args.len();
    if is_word(&args[0], "list") || is_word(&args[0], "-l") {
        let ghost r = a.drop_first();
        if n == 1 {
            return Some(Command::ListLists);
        }
        assert(r[0] == args@[1]@);
        if n == 3 {
            assert(r[1] == args@[2]@);
            if is_word(&args[1], "new") {
                return Some(Command::NewList(args[2].clone()));
            }
            if is_word(&args[1], "del") {
                return Some(Command::DeleteList(args[2].clone()));
            }
            if is_word(&args[1], "read") {
                return Some(Command::ReadList(args[2].clone()));
            }
        }
        return Some(Command::UnknownListCommand(args[1].clone()));
    }
    if is_word(&args[0], "note") || is_word(&args[0], "-n") {
        if n < 3 {
            return None;
        }
        let ghost r = a.drop_first();
        assert(r[0] == args@[1]@);
        assert(r[1] == args@[2]@);
        assert(r.subrange(2, r.len() as int) =~= a.subrange(3, n as int));
        let list = args[2].clone();
        if is_word(&args[1], "add") {
            let text = join_words(args, 3);
            let rejected: Vec<String> = Vec::new();
            assert(words(rejected@) =~= Seq::<Seq<char>>::empty());
            return Some(Command::EditNotes { list, edit: NoteEdit::Add(text), rejected });
        }
        if is_word(&args[1], "remove") {
            let (s, rejected) = select(args, 3, true);
            return Some(Command::EditNotes { list, edit: NoteEdit::Remove(s), rejected });
        }
        if is_word(&args[1], "check") {
            let (s, rejected) = select(args, 3, false);
            return Some(Command::EditNotes { list, edit: NoteEdit::Check(s), rejected });
        }
        if is_word(&args[1], "uncheck") {
            let (s, rejected) = select(args, 3, false);
            return Some(Command::EditNotes { list, edit: NoteEdit::Uncheck(s), rejected });
        }
    }
    None
}

/// `after` is what `edit` makes of the notes `before`.
pub open spec fn edited(before: Seq<NoteView>, edit: NoteEditView, after: Seq<NoteView>) -> bool {
    match edit {
        NoteEditView::Add(t) => after == before.push(NoteView { text: trim_of(t), checked: false }),
        NoteEditView::Remove(SelectionView::All) => after == Seq::<NoteView>::empty(),
        NoteEditView::Remove(SelectionView::Checked) => after == flagged(before, false),
        NoteEditView::Remove(SelectionView::Unchecked) => after == flagged(before, true),
        NoteEditView::Remove(SelectionView::Numbers(ns)) => {
            &&& exists|order: Seq<usize>|
                #![trigger remove_in_turn(before, order)]
                ascending(order) && order.to_multiset() == ns.to_multiset() && after
                    == remove_in_turn(before, order)
            &&& ns.no_duplicates() ==> after == drop_positions(before, positions_named(ns))
        },
        NoteEditView::Check(SelectionView::Numbers(ns)) => after == flag_each(before, ns, true),
        NoteEditView::Check(SelectionView::Checked) => after == before,
        NoteEditView::Check(_) => after == with_flags(before, true),
        NoteEditView::Uncheck(SelectionView::Numbers(ns)) => after == flag_each(before, ns, false),
        NoteEditView::Uncheck(SelectionView::Unchecked) => after == before,
        NoteEditView::Uncheck(_) => after == with_flags(before, false),
    }
}

/// Makes the change `edit` to `list`. Checking the checked notes, or
/// unchecking the unchecked ones, changes nothing.
pub fn apply_edit(list: &mut List, edit: &NoteEdit)
    ensures
        edited(old(list)@, edit@, final(list)@),
{
    match edit {
        NoteEdit::Add(t) => list.add_note(Note::new(t.as_str())),
        NoteEdit::Remove(Selection::All) => list.remove_all(),
        NoteEdit::Remove(Selection::Checked) => list.remove_checked(),
        NoteEdit::Remove(Selection::Unchecked) => list.remove_unchecked(),
        NoteEdit::Remove(Selection::Numbers(ns)) => list.remove_notes(ns),
        NoteEdit::Check(Selection::Numbers(ns)) => list.mark_notes(ns, true),
        NoteEdit::Check(Selection::Checked) => {},
        NoteEdit::Check(_) => list.check_all(),
        NoteEdit::Uncheck(Selection::Numbers(ns)) => list.mark_notes(ns, false),
        NoteEdit::Uncheck(Selection::Unchecked) => {},
        NoteEdit::Uncheck(_) => list.uncheck_all(),
    }
}

} // verus!
