//! The general laws of the counter and the deleter, stated over the model and
//! proved once and for all.

use vstd::prelude::*;

use crate::model::{
    count_of, count_of_seq, first_unrecognized, paths_of, paths_of_seq, removal_order,
    removal_order_seq, removed_paths, Entry, EntryKind,
};
use crate::model::{lemma_first_unrecognized_seq_none, lemma_removed_paths_concat};

verus! {

/// A single file always counts as exactly one unit.
pub proof fn lemma_count_of_file(e: Entry)
    requires
        e.kind is File,
    ensures
        count_of(e) == 1,
{
}

/// A directory counts as one unit for itself plus the sum of the counts of
/// its immediate children — each child file contributing one unit, each child
/// directory its own count.
pub proof fn lemma_count_of_dir(e: Entry)
    requires
        e.kind is Dir,
    ensures
        e.kind matches EntryKind::Dir(children) && count_of(e) == 1 + count_of_seq(children@),
{
}

/// An empty directory counts as exactly one unit.
pub proof fn lemma_count_of_empty_dir(e: Entry)
    requires
        e.kind matches EntryKind::Dir(children) && children@.len() == 0,
    ensures
        count_of(e) == 1,
{
}

/// A tree with no unrecognized node is removed completely: the removal order
/// of a root removes exactly the root's own path and the paths of all of its
/// descendants, so after a successful deletion none of them is left.
pub proof fn lemma_removal_is_complete(e: Entry)
    requires
        first_unrecognized(e) is None,
    ensures
        removed_paths(removal_order(e)) == paths_of(e),
    decreases e,
{
    match e.kind {
        EntryKind::File => {
            assert(removed_paths(removal_order(e)) =~= set![e.path@]) by {
                reveal_with_fuel(removed_paths, 2);
                assert(seq![(e.path@, false)].drop_last() =~= Seq::<(Seq<char>, bool)>::empty());
                assert(removal_order(e) == seq![(e.path@, false)]);
            }
        },
        EntryKind::Dir(children) => {
            lemma_first_unrecognized_seq_none(children@);
            lemma_removal_is_complete_seq(children@);
            assert(removal_order(e) =~= removal_order_seq(children@) + seq![(e.path@, true)]);
            lemma_removed_paths_concat(removal_order_seq(children@), seq![(e.path@, true)]);
            assert(removed_paths(seq![(e.path@, true)]) =~= set![e.path@]) by {
                reveal_with_fuel(removed_paths, 2);
                assert(seq![(e.path@, true)].drop_last() =~= Seq::<(Seq<char>, bool)>::empty());
            }
            assert(paths_of_seq(children@).union(set![e.path@])
                =~= paths_of_seq(children@).insert(e.path@));
        },
        _ => {},
    }
}

/// The same, over a whole request: the concatenated removal order of a
/// sequence of recognized roots removes exactly the union of their paths.
pub proof fn lemma_removal_is_complete_seq(s: Seq<Entry>)
    requires
        forall|j: int| 0 <= j < s.len() ==> first_unrecognized(#[trigger] s[j]) is None,
    ensures
        removed_paths(removal_order_seq(s)) == paths_of_seq(s),
    decreases s,
{
    if s.len() > 0 {
        assert(forall|j: int|
            0 <= j < s.drop_last().len() ==> #[trigger] s.drop_last()[j] == s[j]);
        lemma_removal_is_complete_seq(s.drop_last());
        lemma_removal_is_complete(s.last());
        lemma_removed_paths_concat(removal_order_seq(s.drop_last()), removal_order(s.last()));
    }
}

} // verus!
