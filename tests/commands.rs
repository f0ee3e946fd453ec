use fp_todo::command::{apply_edit, parse_command, Command, NoteEdit, Selection};
use fp_todo::list::List;
use fp_todo::note::Note;
use fp_todo::store::{edit_loaded, list_file_name};

fn args(words: &[&str]) -> Vec<String> {
    words.iter().map(|w| w.to_string()).collect()
}

fn edit_of(words: &[&str]) -> (String, NoteEdit, Vec<String>) {
    match parse_command(&args(words)) {
        Some(Command::EditNotes { list, edit, rejected }) => (list, edit, rejected),
        _ => panic!("expected a note command"),
    }
}

fn texts(list: &List) -> Vec<String> {
    list.notes.iter().map(|n| n.text.clone()).collect()
}

#[test]
fn unrecognised_arguments_are_ignored() {
    assert!(parse_command(&args(&[])).is_none());
    assert!(parse_command(&args(&["frobnicate"])).is_none());
    assert!(parse_command(&args(&["note"])).is_none());
    assert!(parse_command(&args(&["note", "add"])).is_none());
    assert!(parse_command(&args(&["note", "rename", "work", "x"])).is_none());
}

#[test]
fn list_subcommands() {
    assert!(matches!(parse_command(&args(&["list"])), Some(Command::ListLists)));
    assert!(matches!(parse_command(&args(&["-l"])), Some(Command::ListLists)));
    match parse_command(&args(&["list", "new", "work"])) {
        Some(Command::NewList(n)) => assert_eq!(n, "work"),
        _ => panic!("expected new"),
    }
    match parse_command(&args(&["-l", "del", "work"])) {
        Some(Command::DeleteList(n)) => assert_eq!(n, "work"),
        _ => panic!("expected del"),
    }
    match parse_command(&args(&["list", "read", "work"])) {
        Some(Command::ReadList(n)) => assert_eq!(n, "work"),
        _ => panic!("expected read"),
    }
    match parse_command(&args(&["list", "new"])) {
        Some(Command::UnknownListCommand(w)) => assert_eq!(w, "new"),
        _ => panic!("expected an unknown list command"),
    }
    match parse_command(&args(&["list", "show", "a"])) {
        Some(Command::UnknownListCommand(w)) => assert_eq!(w, "show"),
        _ => panic!("expected an unknown list command"),
    }
}

#[test]
fn note_add_joins_words() {
    let (list, edit, rejected) = edit_of(&["-n", "add", "work", "Buy", "milk"]);
    assert_eq!(list, "work");
    assert!(rejected.is_empty());
    match edit {
        NoteEdit::Add(t) => assert_eq!(t, "Buy milk"),
        _ => panic!("expected add"),
    }
}

#[test]
fn note_selections() {
    let (_, edit, _) = edit_of(&["note", "remove", "work", "checked"]);
    assert!(matches!(edit, NoteEdit::Remove(Selection::Checked)));
    let (_, edit, _) = edit_of(&["note", "remove", "work", "unchecked"]);
    assert!(matches!(edit, NoteEdit::Remove(Selection::Unchecked)));
    let (_, edit, _) = edit_of(&["note", "uncheck", "work", "all"]);
    assert!(matches!(edit, NoteEdit::Uncheck(Selection::All)));
    let (_, edit, rejected) = edit_of(&["note", "check", "work", "checked"]);
    assert_eq!(rejected, vec!["checked"]);
    match edit {
        NoteEdit::Check(Selection::Numbers(ns)) => assert!(ns.is_empty()),
        _ => panic!("expected numbers"),
    }
}

#[test]
fn note_numbers_and_rejected_words() {
    let (_, edit, rejected) = edit_of(&["note", "check", "work", "2", "x", "+3", "-1", "0"]);
    assert_eq!(rejected, vec!["x", "-1", "0"]);
    match edit {
        NoteEdit::Check(Selection::Numbers(ns)) => assert_eq!(ns, vec![2, 3]),
        _ => panic!("expected numbers"),
    }
}

#[test]
fn remove_one_and_three_of_three() {
    let mut list = List::new();
    for t in ["one", "two", "three"] {
        list.add_note(Note::new(t));
    }
    let (_, edit, _) = edit_of(&["note", "remove", "work", "1", "3"]);
    apply_edit(&mut list, &edit);
    assert_eq!(texts(&list), vec!["two"]);
}

#[test]
fn add_to_missing_list_fails() {
    let (_, edit, _) = edit_of(&["note", "add", "missing", "x"]);
    assert!(edit_loaded(None, &edit).is_none());
}

#[test]
fn add_to_loaded_list() {
    let (_, edit, _) = edit_of(&["note", "add", "work", " x "]);
    let r = edit_loaded(Some(List::new()), &edit).unwrap();
    assert_eq!(texts(&r), vec!["x"]);
}

#[test]
fn check_all_through_command() {
    let mut list = List::new();
    list.add_note(Note::new("a"));
    list.add_note(Note::new("b"));
    let (_, edit, _) = edit_of(&["note", "check", "work", "all"]);
    apply_edit(&mut list, &edit);
    assert!(list.notes.iter().all(|n| n.is_checked()));
}

#[test]
fn file_names_of_lists() {
    assert_eq!(list_file_name("work").unwrap(), "work.todo");
    assert!(list_file_name("").is_none());
    assert!(list_file_name("../etc").is_none());
    assert!(list_file_name("a\\b").is_none());
}

#[test]
fn zero_and_words_are_reported_and_skipped() {
    let mut list = List::new();
    for t in ["one", "two"] {
        list.add_note(Note::new(t));
    }
    let (_, edit, rejected) = edit_of(&["note", "remove", "work", "x", "0"]);
    assert_eq!(rejected, vec!["x", "0"]);
    apply_edit(&mut list, &edit);
    assert_eq!(texts(&list), vec!["one", "two"]);
}
