//! The snapshot model: filesystem nodes as the library sees them, and the
//! specification functions that the contracts are stated over.

use vstd::prelude::*;

verus! {

/// One observed filesystem node.
///
/// The caller walks the real filesystem and records, for every node a request
/// touches, its path and what it was classified as at observation time. The
/// snapshot is best effort: nothing prevents the filesystem from changing
/// afterwards, so the library's promises are about the snapshot it was given.
pub struct Entry {
    /// The path of this node, kept only to be carried into plan steps and
    /// error reports; the library never interprets it.
    pub path: String,
    /// What the node was classified as.
    pub kind: EntryKind,
}

/// The classification of a path at observation time: exactly one of file,
/// directory, nonexistent, or unrecognized.
pub enum EntryKind {
    /// A regular file.
    File,
    /// A directory together with the entries obtained by listing it.
    Dir(Vec<Entry>),
    /// The path did not exist.
    Missing,
    /// Something else: a special device, a broken symlink target, ...
    Other,
}

/// The number of units of work a node stands for: a directory counts once
/// itself plus every descendant; every other node counts once.
pub open spec fn count_of(e: Entry) -> nat
    decreases e,
{
    match e.kind {
        EntryKind::Dir(children) => 1 + count_of_seq(children@),
        _ => 1,
    }
}

/// The summed unit count of a sequence of nodes.
pub open spec fn count_of_seq(s: Seq<Entry>) -> nat
    decreases s,
{
    if s.len() == 0 {
        0
    } else {
        count_of_seq(s.drop_last()) + count_of(s.last())
    }
}

/// The path of the first node, in depth-first pre-order, that is neither a
/// file nor a directory; `None` when every node in the tree is recognized.
pub open spec fn first_unrecognized(e: Entry) -> Option<Seq<char>>
    decreases e,
{
    match e.kind {
        EntryKind::File => None,
        EntryKind::Dir(children) => first_unrecognized_seq(children@),
        EntryKind::Missing => Some(e.path@),
        EntryKind::Other => Some(e.path@),
    }
}

/// The first unrecognized path over a sequence of sibling nodes, scanned left
/// to right.
pub open spec fn first_unrecognized_seq(s: Seq<Entry>) -> Option<Seq<char>>
    decreases s,
{
    if s.len() == 0 {
        None
    } else if first_unrecognized(s.first()) is Some {
        first_unrecognized(s.first())
    } else {
        first_unrecognized_seq(s.drop_first())
    }
}

/// The order in which a depth-first, post-order deletion removes the nodes of
/// a tree: every child subtree first, then the directory itself. Each element
/// is the removed path paired with whether it is a directory. Defined only up
/// to recognized nodes; an unrecognized node contributes nothing, since
/// deletion refuses such trees before removing anything.
pub open spec fn removal_order(e: Entry) -> Seq<(Seq<char>, bool)>
    decreases e,
{
    match e.kind {
        EntryKind::File => seq![(e.path@, false)],
        EntryKind::Dir(children) => removal_order_seq(children@).push((e.path@, true)),
        _ => Seq::empty(),
    }
}

/// The concatenated removal order of a sequence of trees, in the order given.
pub open spec fn removal_order_seq(s: Seq<Entry>) -> Seq<(Seq<char>, bool)>
    decreases s,
{
    if s.len() == 0 {
        Seq::empty()
    } else {
        removal_order_seq(s.drop_last()) + removal_order(s.last())
    }
}

/// All paths present in a tree: the node's own path and every descendant's.
pub open spec fn paths_of(e: Entry) -> Set<Seq<char>>
    decreases e,
{
    match e.kind {
        EntryKind::Dir(children) => paths_of_seq(children@).insert(e.path@),
        _ => set![e.path@],
    }
}

/// All paths present in a sequence of trees.
pub open spec fn paths_of_seq(s: Seq<Entry>) -> Set<Seq<char>>
    decreases s,
{
    if s.len() == 0 {
        Set::empty()
    } else {
        paths_of_seq(s.drop_last()).union(paths_of(s.last()))
    }
}

/// The set of paths a removal order removes.
pub open spec fn removed_paths(o: Seq<(Seq<char>, bool)>) -> Set<Seq<char>>
    decreases o,
{
    if o.len() == 0 {
        Set::empty()
    } else {
        removed_paths(o.drop_last()).insert(o.last().0)
    }
}

/// Whether a root, taken on its own, would make the sizing phase fail: it is
/// missing, or some node under it is unrecognized.
pub open spec fn root_problem(e: Entry) -> bool {
    e.kind is Missing || first_unrecognized(e) is Some
}

/// The index of the first root the sizing phase fails on, scanning the roots
/// in the order supplied; `None` when sizing succeeds for all of them.
pub open spec fn first_problem(s: Seq<Entry>) -> Option<int>
    decreases s,
{
    if s.len() == 0 {
        None
    } else if root_problem(s.first()) {
        Some(0int)
    } else {
        match first_problem(s.drop_first()) {
            Option::None => None,
            Option::Some(j) => Some(j + 1),
        }
    }
}

/// Splitting one more element off a prefix adds that element's count.
pub(crate) proof fn lemma_count_take_step(s: Seq<Entry>, i: int)
    requires
        0 <= i < s.len(),
    ensures
        count_of_seq(s.take(i + 1)) == count_of_seq(s.take(i)) + count_of(s[i]),
{
    assert(s.take(i + 1).drop_last() =~= s.take(i));
    assert(s.take(i + 1).last() == s[i]);
}

/// A prefix never counts more than the whole sequence.
pub(crate) proof fn lemma_count_take_le(s: Seq<Entry>, i: int)
    requires
        0 <= i <= s.len(),
    ensures
        count_of_seq(s.take(i)) <= count_of_seq(s),
    decreases s.len() - i,
{
    if i == s.len() {
        assert(s.take(i) =~= s);
    } else {
        lemma_count_take_step(s, i);
        lemma_count_take_le(s, i + 1);
    }
}

/// One element never counts more than the whole sequence.
pub(crate) proof fn lemma_count_elem_le(s: Seq<Entry>, i: int)
    requires
        0 <= i < s.len(),
    ensures
        count_of(s[i]) <= count_of_seq(s),
{
    lemma_count_take_step(s, i);
    lemma_count_take_le(s, i + 1);
}

/// What a left-to-right scan that found no unrecognized node among the first
/// `i` siblings can conclude about the whole sequence.
pub(crate) proof fn lemma_first_unrecognized_seq_from(s: Seq<Entry>, i: int)
    requires
        0 <= i <= s.len(),
        forall|j: int| 0 <= j < i ==> first_unrecognized(#[trigger] s[j]) is None,
    ensures
        i == s.len() ==> first_unrecognized_seq(s) is None,
        i < s.len() && first_unrecognized(s[i]) is Some ==> first_unrecognized_seq(s)
            == first_unrecognized(s[i]),
    decreases i,
{
    if i > 0 {
        assert(first_unrecognized(s[0]) is None);
        assert(forall|j: int|
            0 <= j < i - 1 ==> first_unrecognized(#[trigger] s.drop_first()[j]) is None) by {
            assert(forall|j: int| 0 <= j < i - 1 ==> #[trigger] s.drop_first()[j] == s[j + 1]);
        }
        lemma_first_unrecognized_seq_from(s.drop_first(), i - 1);
        if i < s.len() {
            assert(s.drop_first()[i - 1] == s[i]);
        }
    }
}

/// The scan finds nothing exactly when every sibling subtree is clean.
pub(crate) proof fn lemma_first_unrecognized_seq_none(s: Seq<Entry>)
    ensures
        first_unrecognized_seq(s) is None <==> (forall|j: int|
            0 <= j < s.len() ==> first_unrecognized(#[trigger] s[j]) is None),
    decreases s,
{
    if s.len() > 0 {
        lemma_first_unrecognized_seq_none(s.drop_first());
        assert(forall|j: int|
            0 <= j < s.drop_first().len() ==> #[trigger] s.drop_first()[j] == s[j + 1]);
        if first_unrecognized_seq(s) is None {
            assert forall|j: int|
                0 <= j < s.len() implies first_unrecognized(#[trigger] s[j]) is None by {
                if j > 0 {
                    assert(s.drop_first()[j - 1] == s[j]);
                    assert(first_unrecognized(s.drop_first()[j - 1]) is None);
                }
            }
        }
        if forall|j: int| 0 <= j < s.len() ==> first_unrecognized(#[trigger] s[j]) is None {
            assert forall|j: int|
                0 <= j < s.drop_first().len() implies first_unrecognized(
                #[trigger] s.drop_first()[j],
            ) is None by {
                assert(first_unrecognized(s[j + 1]) is None);
            }
            assert(first_unrecognized(s[0]) is None);
        }
    }
}

/// In a tree with no unrecognized node, the removal order removes exactly as
/// many entries as the count promises units of work.
pub proof fn lemma_removal_order_len(e: Entry)
    requires
        first_unrecognized(e) is None,
    ensures
        removal_order(e).len() == count_of(e),
    decreases e,
{
    match e.kind {
        EntryKind::Dir(children) => {
            lemma_first_unrecognized_seq_none(children@);
            lemma_removal_order_seq_len(children@);
        },
        _ => {},
    }
}

/// Sequence form of [`lemma_removal_order_len`].
pub proof fn lemma_removal_order_seq_len(s: Seq<Entry>)
    requires
        forall|j: int| 0 <= j < s.len() ==> first_unrecognized(#[trigger] s[j]) is None,
    ensures
        removal_order_seq(s).len() == count_of_seq(s),
    decreases s,
{
    if s.len() > 0 {
        assert(forall|j: int|
            0 <= j < s.drop_last().len() ==> #[trigger] s.drop_last()[j] == s[j]);
        lemma_removal_order_seq_len(s.drop_last());
        lemma_removal_order_len(s.last());
    }
}

/// Splitting one more tree off a prefix appends that tree's removal order.
pub(crate) proof fn lemma_removal_order_take_step(s: Seq<Entry>, i: int)
    requires
        0 <= i < s.len(),
    ensures
        removal_order_seq(s.take(i + 1)) == removal_order_seq(s.take(i)) + removal_order(s[i]),
{
    assert(s.take(i + 1).drop_last() =~= s.take(i));
    assert(s.take(i + 1).last() == s[i]);
}

/// Removal orders laid end to end remove the union of their paths.
pub(crate) proof fn lemma_removed_paths_concat(a: Seq<(Seq<char>, bool)>, b: Seq<(Seq<char>, bool)>)
    ensures
        removed_paths(a + b) == removed_paths(a).union(removed_paths(b)),
    decreases b,
{
    if b.len() == 0 {
        assert(a + b =~= a);
        assert(removed_paths(a).union(removed_paths(b)) =~= removed_paths(a));
    } else {
        lemma_removed_paths_concat(a, b.drop_last());
        assert((a + b).drop_last() =~= a + b.drop_last());
        assert((a + b).last() == b.last());
        assert(removed_paths(a).union(removed_paths(b.drop_last())).insert(b.last().0)
            =~= removed_paths(a).union(removed_paths(b)));
    }
}

/// What a scan of the roots that found no problem among the first `i` can
/// conclude about where the sizing phase fails.
pub(crate) proof fn lemma_first_problem_from(s: Seq<Entry>, i: int)
    requires
        0 <= i <= s.len(),
        forall|j: int| 0 <= j < i ==> !root_problem(#[trigger] s[j]),
    ensures
        i == s.len() ==> first_problem(s) is None,
        i < s.len() && root_problem(s[i]) ==> first_problem(s) == Some(i),
    decreases i,
{
    if i > 0 {
        assert(!root_problem(s[0]));
        assert(forall|j: int| 0 <= j < i - 1 ==> !root_problem(#[trigger] s.drop_first()[j])) by {
            assert(forall|j: int| 0 <= j < i - 1 ==> #[trigger] s.drop_first()[j] == s[j + 1]);
        }
        lemma_first_problem_from(s.drop_first(), i - 1);
        if i < s.len() {
            assert(s.drop_first()[i - 1] == s[i]);
        }
    }
}

} // verus!
