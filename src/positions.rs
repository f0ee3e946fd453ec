//! Removing several notes at once, named by their 1-based numbers.
use crate::list::without_at;
use crate::note::NoteView;
use vstd::prelude::*;

verus! {

/// The 0-based positions that the 1-based note numbers in `numbers` name.
pub open spec fn positions_named(numbers: Seq<usize>) -> Set<int> {
    Set::new(|p: int| 0 <= p < usize::MAX && numbers.contains((p + 1) as usize))
}

/// `s` without the notes at the positions in `d`, the others in their order.
pub open spec fn drop_positions(s: Seq<NoteView>, d: Set<int>) -> Seq<NoteView>
    decreases s.len(),
{
    if s.len() == 0 {
        s
    } else {
        let rest = drop_positions(s.drop_last(), d);
        if d.contains(s.len() - 1) {
            rest
        } else {
            rest.push(s.last())
        }
    }
}

/// `s` after removing, one at a time, the note numbered by each element of
/// `numbers`: the last element first, the first element last. A number that
/// names no note at its turn removes nothing. This is what successive calls of
/// `List::remove_note`, each at its number less one, make of a list.
pub open spec fn remove_in_turn(s: Seq<NoteView>, numbers: Seq<usize>) -> Seq<NoteView>
    decreases numbers.len(),
{
    if numbers.len() == 0 {
        s
    } else {
        without_at(remove_in_turn(s, numbers.drop_first()), numbers[0] - 1)
    }
}

pub open spec fn ascending(v: Seq<usize>) -> bool {
    forall|i: int, j: int| 0 <= i < j < v.len() ==> v[i] <= v[j]
}

pub open spec fn strictly_ascending(v: Seq<usize>) -> bool {
    forall|i: int, j: int| 0 <= i < j < v.len() ==> v[i] < v[j]
}

/// Relies on `slice::sort`: the same numbers, in ascending order.
#[verifier::external_body]
pub(crate) fn sort_numbers(v: &mut Vec<usize>)
    ensures
        ascending(final(v)@),
        final(v)@.to_multiset() == old(v)@.to_multiset(),
{
    v.sort();
}

/// An ascending sequence without repeated elements ascends strictly, and names
/// the same positions as any sequence with the same elements.
pub(crate) proof fn lemma_sorted_distinct(sorted: Seq<usize>, given: Seq<usize>)
    requires
        ascending(sorted),
        sorted.to_multiset() == given.to_multiset(),
        given.no_duplicates(),
    ensures
        strictly_ascending(sorted),
        positions_named(sorted) == positions_named(given),
{
    broadcast use vstd::seq_lib::group_to_multiset_ensures;

    given.lemma_multiset_has_no_duplicates();
    sorted.lemma_multiset_has_no_duplicates_conv();
    assert forall|k: usize| sorted.contains(k) == given.contains(k) by {
        sorted.to_multiset_ensures();
        given.to_multiset_ensures();
        assert(sorted.contains(k) <==> sorted.to_multiset().count(k) > 0);
        assert(given.contains(k) <==> given.to_multiset().count(k) > 0);
    }
    assert(positions_named(sorted) =~= positions_named(given));
}

proof fn lemma_drop_positions_bounds(s: Seq<NoteView>, d: Set<int>)
    ensures
        drop_positions(s, d).len() <= s.len(),
        (forall|x: int| d.contains(x) ==> x < 0 || x >= s.len()) ==> drop_positions(s, d) == s,
    decreases s.len(),
{
    if s.len() > 0 {
        lemma_drop_positions_bounds(s.drop_last(), d);
        if forall|x: int| d.contains(x) ==> x < 0 || x >= s.len() {
            assert(s.drop_last().push(s.last()) =~= s);
        }
    }
}

proof fn lemma_drop_positions_beyond(s: Seq<NoteView>, d: Set<int>, p: int)
    requires
        p >= s.len(),
    ensures
        drop_positions(s, d.insert(p)) == drop_positions(s, d),
    decreases s.len(),
{
    if s.len() > 0 {
        lemma_drop_positions_beyond(s.drop_last(), d, p);
    }
}

proof fn lemma_drop_positions_keeps_prefix(s: Seq<NoteView>, d: Set<int>, p: int)
    requires
        0 <= p < s.len(),
        forall|x: int| d.contains(x) ==> x > p,
    ensures
        drop_positions(s, d).len() > p,
    decreases s.len(),
{
    let t = s.drop_last();
    if p < t.len() {
        lemma_drop_positions_keeps_prefix(t, d, p);
    } else {
        lemma_drop_positions_bounds(t, d);
    }
}

/// Dropping one more position `p`, below all those already dropped, is
/// removing the note at `p` from what is left.
proof fn lemma_drop_one_more(s: Seq<NoteView>, d: Set<int>, p: int)
    requires
        0 <= p,
        forall|x: int| d.contains(x) ==> x > p,
    ensures
        drop_positions(s, d.insert(p)) == without_at(drop_positions(s, d), p),
    decreases s.len(),
{
    lemma_drop_positions_bounds(s, d);
    if p >= s.len() {
        lemma_drop_positions_beyond(s, d, p);
    } else {
        let t = s.drop_last();
        let last = s.len() - 1;
        if last == p {
            lemma_drop_positions_beyond(t, d, p);
            lemma_drop_positions_bounds(t, d);
            assert(t.push(s.last()) =~= s);
            assert(s.remove(p) =~= t);
        } else {
            lemma_drop_one_more(t, d, p);
            if !d.contains(last) {
                lemma_drop_positions_keeps_prefix(t, d, p);
                let rest = drop_positions(t, d);
                assert(rest.remove(p).push(s.last()) =~= rest.push(s.last()).remove(p));
            }
        }
    }
}

/// Removing notes one at a time in descending order of their numbers removes
/// exactly the notes that the numbers named at the start: the positions of the
/// later ones are not shifted by the earlier removals.
pub proof fn lemma_descending_removal(s: Seq<NoteView>, numbers: Seq<usize>)
    requires
        strictly_ascending(numbers),
    ensures
        remove_in_turn(s, numbers) == drop_positions(s, positions_named(numbers)),
    decreases numbers.len(),
{
    if numbers.len() == 0 {
        lemma_drop_positions_bounds(s, positions_named(numbers));
    } else {
        let rest = numbers.drop_first();
        lemma_descending_removal(s, rest);
        let p = numbers[0] - 1;
        assert forall|x: int| positions_named(rest).contains(x) implies x > p by {
            let j = choose|j: int| 0 <= j < rest.len() && rest[j] == (x + 1) as usize;
            assert(numbers[0] < numbers[j + 1]);
        }
        if numbers[0] == 0 {
            assert(positions_named(numbers) =~= positions_named(rest)) by {
                assert forall|x: int| positions_named(numbers).contains(x) implies positions_named(rest).contains(x) by {
                    let j = choose|j: int| 0 <= j < numbers.len() && numbers[j] == (x + 1) as usize;
                    assert(j > 0);
                    assert(rest[j - 1] == numbers[j]);
                }
                assert forall|x: int| positions_named(rest).contains(x) implies positions_named(numbers).contains(x) by {
                    let j = choose|j: int| 0 <= j < rest.len() && rest[j] == (x + 1) as usize;
                    assert(numbers[j + 1] == rest[j]);
                }
            }
        } else {
            lemma_drop_one_more(s, positions_named(rest), p);
            assert(positions_named(numbers) =~= positions_named(rest).insert(p)) by {
                assert forall|x: int| positions_named(numbers).contains(x) implies positions_named(rest).insert(p).contains(x) by {
                    let j = choose|j: int| 0 <= j < numbers.len() && numbers[j] == (x + 1) as usize;
                    if j > 0 {
                        assert(rest[j - 1] == numbers[j]);
                    }
                }
                assert forall|x: int| positions_named(rest).insert(p).contains(x) implies positions_named(numbers).contains(x) by {
                    if x == p {
                        assert(numbers[0] == (x + 1) as usize);
                    } else {
                        let j = choose|j: int| 0 <= j < rest.len() && rest[j] == (x + 1) as usize;
                        assert(numbers[j + 1] == rest[j]);
                    }
                }
            }
        }
        assert(numbers.drop_first() == rest);
    }
}

} // verus!
