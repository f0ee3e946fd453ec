//! Properties that relate several operations on a list.
use crate::list::{flagged, has_flag, with_flag_at, with_flags, without_at};
use crate::note::NoteView;
use vstd::prelude::*;

verus! {

/// The flags of the notes of `s`, in their order.
pub open spec fn flags_of(s: Seq<NoteView>) -> Seq<bool> {
    s.map_values(|n: NoteView| n.checked)
}

/// Rebuilds a sequence from two: position `i` takes the next note of
/// `checked` where `flags[i]` holds and the next note of `unchecked` where it
/// does not.
pub open spec fn interleave(
    flags: Seq<bool>,
    unchecked: Seq<NoteView>,
    checked: Seq<NoteView>,
) -> Seq<NoteView>
    decreases flags.len(),
{
    if flags.len() == 0 {
        Seq::empty()
    } else if flags.last() {
        interleave(flags.drop_last(), unchecked, checked.drop_last()).push(checked.last())
    } else {
        interleave(flags.drop_last(), unchecked.drop_last(), checked).push(unchecked.last())
    }
}

/// Removing the checked notes and removing the unchecked notes split a list
/// in two: interleaved by the original flags, the two results give back the
/// list, and together they hold exactly its notes.
pub proof fn lemma_checked_unchecked_complementary(s: Seq<NoteView>)
    ensures
        interleave(flags_of(s), flagged(s, false), flagged(s, true)) == s,
        flagged(s, false).to_multiset().add(flagged(s, true).to_multiset()) == s.to_multiset(),
    decreases s.len(),
{
    broadcast use vstd::seq_lib::group_to_multiset_ensures;

    if s.len() == 0 {
        assert(flagged(s, false) =~= Seq::<NoteView>::empty()) by {
            reveal(Seq::filter);
        }
        assert(flagged(s, true) =~= Seq::<NoteView>::empty()) by {
            reveal(Seq::filter);
        }
        assert(interleave(flags_of(s), flagged(s, false), flagged(s, true)) =~= s);
    } else {
        let t = s.drop_last();
        let x = s.last();
        assert(s =~= t.push(x));
        lemma_checked_unchecked_complementary(t);
        t.lemma_filter_push(x, has_flag(false));
        t.lemma_filter_push(x, has_flag(true));
        assert(flags_of(s).drop_last() =~= flags_of(t));
        if x.checked {
            assert(flagged(s, true).drop_last() =~= flagged(t, true));
        } else {
            assert(flagged(s, false).drop_last() =~= flagged(t, false));
        }
        assert(flagged(s, false).to_multiset().add(flagged(s, true).to_multiset())
            =~= s.to_multiset());
    }
}

/// Checking every note and then unchecking every note leaves the texts as they
/// were with every note unchecked; unchecking every note a second time changes
/// nothing more.
pub proof fn lemma_check_all_then_uncheck_all(s: Seq<NoteView>)
    ensures
        with_flags(with_flags(s, true), false) == with_flags(s, false),
        with_flags(with_flags(s, false), false) == with_flags(s, false),
        with_flags(s, false).len() == s.len(),
        forall|i: int|
            0 <= i < s.len() ==> #[trigger] with_flags(s, false)[i] == (NoteView {
                text: s[i].text,
                checked: false,
            }),
{
    assert(with_flags(with_flags(s, true), false) =~= with_flags(s, false));
    assert(with_flags(with_flags(s, false), false) =~= with_flags(s, false));
}

/// Checking, unchecking or removing a note at a position that the list does
/// not have leaves the list as it was.
pub proof fn lemma_out_of_bounds_unchanged(s: Seq<NoteView>, i: int)
    requires
        i < 0 || i >= s.len(),
    ensures
        with_flag_at(s, i, true) == s,
        with_flag_at(s, i, false) == s,
        without_at(s, i) == s,
{
}

} // verus!
