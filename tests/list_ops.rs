use fp_todo::list::List;
use fp_todo::note::Note;

fn list_of(texts: &[&str]) -> List {
    let mut list = List::new();
    for t in texts {
        list.add_note(Note::new(t));
    }
    list
}

fn texts(list: &List) -> Vec<String> {
    list.notes.iter().map(|n| n.text.clone()).collect()
}

fn flags(list: &List) -> Vec<bool> {
    list.notes.iter().map(|n| n.is_checked()).collect()
}

#[test]
fn new_note_is_trimmed_and_unchecked() {
    let n = Note::new("  Buy milk \n");
    assert_eq!(n.text, "Buy milk");
    assert!(!n.is_checked());
}

#[test]
fn note_check_and_uncheck() {
    let mut n = Note::new("x");
    n.check();
    assert!(n.is_checked());
    n.uncheck();
    assert!(!n.is_checked());
}

#[test]
fn add_note_appends() {
    let list = list_of(&["a", "b", "c"]);
    assert_eq!(texts(&list), vec!["a", "b", "c"]);
    assert_eq!(flags(&list), vec![false, false, false]);
}

#[test]
fn check_and_uncheck_one_note() {
    let mut list = list_of(&["a", "b", "c"]);
    list.check_note(1);
    assert_eq!(flags(&list), vec![false, true, false]);
    list.check_note(0);
    list.uncheck_note(1);
    assert_eq!(flags(&list), vec![true, false, false]);
}

#[test]
fn out_of_bounds_calls_change_nothing() {
    let mut list = list_of(&["a", "b"]);
    list.check_note(0);
    list.check_note(2);
    list.uncheck_note(5);
    list.remove_note(2);
    list.remove_note(usize::MAX);
    assert_eq!(texts(&list), vec!["a", "b"]);
    assert_eq!(flags(&list), vec![true, false]);
}

#[test]
fn out_of_bounds_on_empty_list() {
    let mut list = List::new();
    list.check_note(0);
    list.uncheck_note(0);
    list.remove_note(0);
    assert!(list.notes.is_empty());
}

#[test]
fn check_all_then_uncheck_all() {
    let mut list = list_of(&["a", "b", "c"]);
    list.check_note(2);
    list.check_all();
    assert_eq!(flags(&list), vec![true, true, true]);
    list.uncheck_all();
    assert_eq!(flags(&list), vec![false, false, false]);
    list.uncheck_all();
    assert_eq!(flags(&list), vec![false, false, false]);
    assert_eq!(texts(&list), vec!["a", "b", "c"]);
}

#[test]
fn remove_all_empties() {
    let mut list = list_of(&["a", "b"]);
    list.remove_all();
    assert!(list.notes.is_empty());
}

#[test]
fn remove_checked_and_unchecked_are_complementary() {
    let mut list = list_of(&["a", "b", "c", "d"]);
    list.check_note(0);
    list.check_note(2);
    let mut kept_unchecked = list.clone();
    kept_unchecked.remove_checked();
    let mut kept_checked = list.clone();
    kept_checked.remove_unchecked();
    assert_eq!(texts(&kept_unchecked), vec!["b", "d"]);
    assert_eq!(flags(&kept_unchecked), vec![false, false]);
    assert_eq!(texts(&kept_checked), vec!["a", "c"]);
    assert_eq!(flags(&kept_checked), vec![true, true]);
}

#[test]
fn remove_note_shifts_later_notes() {
    let mut list = list_of(&["a", "b", "c"]);
    list.remove_note(0);
    assert_eq!(texts(&list), vec!["b", "c"]);
}

#[test]
fn remove_numbers_one_and_three() {
    let mut list = list_of(&["first", "second", "third"]);
    list.remove_notes(&vec![1, 3]);
    assert_eq!(texts(&list), vec!["second"]);
}

#[test]
fn remove_numbers_in_any_order() {
    let mut a = list_of(&["a", "b", "c", "d", "e"]);
    let mut b = a.clone();
    a.remove_notes(&vec![4, 2, 5]);
    b.remove_notes(&vec![2, 5, 4]);
    assert_eq!(texts(&a), vec!["a", "c"]);
    assert_eq!(texts(&b), vec!["a", "c"]);
}

#[test]
fn remove_numbers_skips_zero_and_past_end() {
    let mut list = list_of(&["a", "b", "c"]);
    list.remove_notes(&vec![0, 9, 2]);
    assert_eq!(texts(&list), vec!["a", "c"]);
}

#[test]
fn remove_number_given_twice_removes_two_notes() {
    let mut list = list_of(&["a", "b", "c", "d"]);
    list.remove_notes(&vec![2, 2]);
    assert_eq!(texts(&list), vec!["a", "d"]);
}

#[test]
fn mark_notes_by_number() {
    let mut list = list_of(&["a", "b", "c"]);
    list.mark_notes(&vec![0, 3, 1, 7], true);
    assert_eq!(flags(&list), vec![true, false, true]);
    list.mark_notes(&vec![3], false);
    assert_eq!(flags(&list), vec![true, false, false]);
}
