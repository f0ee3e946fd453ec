use fp_todo::command::{apply_edit, parse_command, Command};
use fp_todo::list::List;
use fp_todo::note::Note;
use fp_todo::render::{hang_lines, number_texts};

fn run(list: &mut List, words: &[&str]) {
    let a: Vec<String> = words.iter().map(|w| w.to_string()).collect();
    match parse_command(&a) {
        Some(Command::EditNotes { edit, .. }) => apply_edit(list, &edit),
        _ => panic!("expected a note command"),
    }
}

#[test]
fn work_list_scenario() {
    let mut list = List::new();
    run(&mut list, &["note", "add", "work", "Buy milk"]);
    run(&mut list, &["note", "add", "work", "Call Sam"]);
    run(&mut list, &["note", "check", "work", "1"]);
    assert_eq!(list.render(), "1 [#] - Buy milk\n2 [ ] - Call Sam");
}

#[test]
fn empty_list_renders_empty() {
    assert_eq!(List::new().render(), "");
}

#[test]
fn single_note_text() {
    let mut n = Note::new("Buy milk");
    assert_eq!(n.render(), "[ ] - Buy milk");
    n.check();
    assert_eq!(n.render(), "[#] - Buy milk");
}

#[test]
fn multi_line_note_text() {
    let n = Note::new("  first\r\nsecond\nthird  ");
    assert_eq!(n.render(), "[ ] - first\n      second\n      third");
}

#[test]
fn multi_line_note_in_list() {
    let mut list = List::new();
    list.add_note(Note::new("a\nb"));
    assert_eq!(list.render(), "1 [ ] - a\n        b");
}

#[test]
fn wide_numbers_align_continuation_lines() {
    let mut list = List::new();
    for i in 0..10 {
        list.add_note(Note::new(&format!("n{}", i)));
    }
    list.add_note(Note::new("x\ny"));
    let text = list.render();
    let lines: Vec<&str> = text.lines().collect();
    assert_eq!(lines[0], "1 [ ] - n0");
    assert_eq!(lines[9], "10 [ ] - n9");
    assert_eq!(lines[10], "11 [ ] - x");
    assert_eq!(lines[11], "         y");
}

#[test]
fn hanging_lines() {
    assert_eq!(hang_lines("a\r\nb\n\nc\n", 2), "a\n  b\n  \n  c\n");
    assert_eq!(hang_lines("", 4), "");
    assert_eq!(hang_lines("one", 4), "one\n");
}

#[test]
fn numbered_note_texts() {
    let texts = vec!["[ ] - a".to_string(), "[#] - b\n      c".to_string()];
    assert_eq!(number_texts(&texts), "1 [ ] - a\n2 [#] - b\n        c\n");
    assert_eq!(number_texts(&Vec::new()), "");
}
