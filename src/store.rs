//! Where a list is stored, and what a note command makes of a stored list.
use crate::command::{apply_edit, edited, NoteEdit};
use crate::list::List;
use vstd::prelude::*;
use vstd::string::*;

verus! {

/// A list name may name a file in the storage directory: it is not empty and
/// holds no path separator.
pub open spec fn is_list_name(name: Seq<char>) -> bool {
    name.len() > 0 && !name.contains('/') && !name.contains('\\')
}

/// The name of the file that holds the list `name`, inside the storage
/// directory; `None` where `name` is no list name.
pub fn list_file_name(name: &str) -> (r: Option<String>)
    ensures
        r is Some <==> is_list_name(name@),
        r is Some ==> r->0@ == name@ + ".todo"@,
{
    let n = name.unicode_len();
    if n == 0 {
        return None;
    }
    let mut i: usize = 0;
    while i < n
        invariant
            n == name@.len(),
            i <= n,
            forall|j: int| 0 <= j < i ==> name@[j] != '/' && name@[j] != '\\',
        decreases n - i,
    {
        let c = name.get_char(i);
        if c == '/' || c == '\\' {
            return None;
        }
        i = i + 1;
    }
    let mut r = String::from_str(name);
    r.append(".todo");
    Some(r)
}

/// A note command on a stored list: where the list could be read, it is
/// edited and is to be written back; where it could not, there is nothing to
/// write, and the command has failed.
pub fn edit_loaded(loaded: Option<List>, edit: &NoteEdit) -> (r: Option<List>)
    ensures
        r is Some <==> loaded is Some,
        r is Some ==> edited(loaded->0@, edit@, r->0@),
{
    match loaded {
        Some(list) => {
            let mut list = list;
            apply_edit(&mut list, edit);
            Some(list)
        },
        None => None,
    }
}

} // verus!
