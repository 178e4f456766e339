//! The Progressive Deleter: sizes a request, then works out the exact
//! depth-first, post-order deletion plan together with the progress value to
//! report after every single removal.
//!
//! The plan is handed back instead of being pushed into an event channel, so
//! the party that owns the real filesystem (and the progress listener)
//! performs each removal and delivers each notification itself, in plan
//! order, aborting at the first failure.

use vstd::prelude::*;

use crate::counter::count_entries;
use crate::error::Error;
use crate::model::{
    count_of, count_of_seq, first_problem, first_unrecognized, removal_order, removal_order_seq,
    root_problem, Entry, EntryKind,
};
use crate::model::{
    lemma_count_elem_le, lemma_count_take_le, lemma_count_take_step,
    lemma_first_problem_from, lemma_first_unrecognized_seq_none, lemma_removal_order_seq_len,
    lemma_removal_order_take_step,
};

verus! {

/// One step of a worked-out deletion plan: remove the node at `path` (with
/// the directory primitive when `is_dir` holds, since by then all of its
/// children are gone), then report that `deleted` of `total` units are done.
#[derive(Debug)]
pub struct DeleteStep {
    pub path: String,
    pub is_dir: bool,
    /// Entries removed once this step is done: the progress numerator.
    pub deleted: usize,
    /// The grand total fixed by the sizing phase: the progress denominator.
    pub total: usize,
}

/// What one plan step must say: it removes the node `item` names and reports
/// the numerator `deleted` over the denominator `total`.
pub open spec fn step_ok(s: DeleteStep, item: (Seq<char>, bool), deleted: int, total: int) -> bool {
    &&& s.path@ == item.0
    &&& s.is_dir == item.1
    &&& s.deleted == deleted
    &&& s.total == total
}

/// The steps of `plan` from index `from` on spell out `order`, in order, with
/// numerators continuing from `base` over the denominator `total`, and
/// nothing follows them.
pub open spec fn plan_extends(
    plan: Seq<DeleteStep>,
    from: int,
    order: Seq<(Seq<char>, bool)>,
    base: int,
    total: int,
) -> bool {
    &&& plan.len() == from + order.len()
    &&& forall|k: int|
        0 <= k < order.len() ==> step_ok(#[trigger] plan[from + k], order[k], base + k + 1, total)
}

/// Two adjacent plan blocks over consecutive removal orders make one block
/// over the concatenated order.
proof fn lemma_plan_extends_merge(
    plan1: Seq<DeleteStep>,
    plan2: Seq<DeleteStep>,
    from: int,
    o1: Seq<(Seq<char>, bool)>,
    o2: Seq<(Seq<char>, bool)>,
    base: int,
    total: int,
)
    requires
        0 <= from,
        plan_extends(plan1, from, o1, base, total),
        plan_extends(plan2, from + o1.len(), o2, base + o1.len(), total),
        plan2.take(from + o1.len()) == plan1,
    ensures
        plan_extends(plan2, from, o1 + o2, base, total),
{
    assert forall|k: int|
        0 <= k < (o1 + o2).len() implies step_ok(
        #[trigger] plan2[from + k],
        (o1 + o2)[k],
        base + k + 1,
        total,
    ) by {
        if k < o1.len() {
            assert(plan2.take(from + o1.len())[from + k] == plan2[from + k]);
            assert(plan1[from + k] == plan2[from + k]);
            assert(step_ok(plan1[from + k], o1[k], base + k + 1, total));
            assert((o1 + o2)[k] == o1[k]);
        } else {
            let k2 = k - o1.len();
            assert(step_ok(plan2[(from + o1.len()) + k2], o2[k2], (base + o1.len()) + k2 + 1, total));
            assert((o1 + o2)[k] == o2[k2]);
            assert(from + k == (from + o1.len()) + k2);
        }
    }
}

/// Removes one node: a file directly; a directory by first removing every
/// child, then the directory itself. Each removal appends one plan step,
/// increments `deleted`, and reports it over the fixed `total`, so the caller
/// sees one notification per removed entry, strictly after the removal.
///
/// The sizing phase has already rejected snapshots with unrecognized nodes,
/// so none reaches this function.
pub fn delete_entry_with_progress(
    e: &Entry,
    total: usize,
    deleted: &mut usize,
    steps: &mut Vec<DeleteStep>,
)
    requires
        first_unrecognized(*e) is None,
        *old(deleted) + count_of(*e) <= total,
    ensures
        *final(deleted) == *old(deleted) + count_of(*e),
        final(steps)@.take(old(steps)@.len() as int) == old(steps)@,
        plan_extends(
            final(steps)@,
            old(steps)@.len() as int,
            removal_order(*e),
            *old(deleted) as int,
            total as int,
        ),
    decreases *e,
{
    match &e.kind {
        EntryKind::File => {
            *deleted = *deleted + 1;
            steps.push(DeleteStep { path: e.path.clone(), is_dir: false, deleted: *deleted, total });
            proof {
                assert(steps@.take(old(steps)@.len() as int) =~= old(steps)@);
            }
        },
        EntryKind::Dir(children) => {
            proof {
                lemma_first_unrecognized_seq_none(children@);
            }
            let ghost from = old(steps)@.len() as int;
            let ghost base = *old(deleted) as int;
            let mut i: usize = 0;
            proof {
                assert(children@.take(0) =~= Seq::<Entry>::empty());
                assert(steps@.take(from) =~= steps@);
            }
            while i < children.len()
                invariant
                    e.kind matches EntryKind::Dir(kids) && kids@ == children@,
                    first_unrecognized(*e) is None,
                    forall|j: int|
                        0 <= j < children@.len() ==> first_unrecognized(
                            #[trigger] children@[j],
                        ) is None,
                    0 <= i <= children@.len(),
                    from == old(steps)@.len(),
                    base == *old(deleted),
                    base + count_of(*e) <= total,
                    count_of(*e) == 1 + count_of_seq(children@),
                    *deleted == base + count_of_seq(children@.take(i as int)),
                    steps@.take(from) == old(steps)@,
                    plan_extends(
                        steps@,
                        from,
                        removal_order_seq(children@.take(i as int)),
                        base,
                        total as int,
                    ),
                decreases children@.len() - i,
            {
                let ghost pre_steps = steps@;
                let ghost pre_deleted = *deleted as int;
                let ghost o1 = removal_order_seq(children@.take(i as int));
                proof {
                    lemma_count_take_step(children@, i as int);
                    lemma_count_take_le(children@, i as int + 1);
                    assert(forall|j: int|
                        0 <= j < i ==> first_unrecognized(
                            #[trigger] children@.take(i as int)[j],
                        ) is None);
                    lemma_removal_order_seq_len(children@.take(i as int));
                }
                delete_entry_with_progress(&children[i], total, deleted, steps);
                proof {
                    lemma_plan_extends_merge(
                        pre_steps,
                        steps@,
                        from,
                        o1,
                        removal_order(children@[i as int]),
                        base,
                        total as int,
                    );
                    lemma_removal_order_take_step(children@, i as int);
                    assert(steps@.take(from) =~= steps@.take(from + o1.len()).take(from));
                }
                i = i + 1;
            }
            proof {
                assert(children@.take(children@.len() as int) =~= children@);
            }
            *deleted = *deleted + 1;
            steps.push(DeleteStep { path: e.path.clone(), is_dir: true, deleted: *deleted, total });
            proof {
                let o1 = removal_order_seq(children@);
                lemma_removal_order_seq_len(children@);
                assert(steps@.take(from) =~= steps@.take(from + o1.len()).take(from));
                assert(removal_order(*e) =~= o1 + seq![(e.path@, true)]);
                lemma_plan_extends_merge(
                    steps@.take(from + o1.len()),
                    steps@,
                    from,
                    o1,
                    seq![(e.path@, true)],
                    base,
                    total as int,
                );
            }
        },
        // A missing or otherwise unrecognized node never reaches this phase:
        // sizing already failed the whole request on it.
        _ => {},
    }
}

/// The whole deletion request. Phase 1 sizes every root in the order
/// supplied: a missing root fails the request with `PathNotFound`, a root
/// with an unrecognized node fails it with `UnrecognizedPathType`, and in
/// either case nothing at all is planned for removal. Phase 2 then lays out
/// the depth-first deletion of every root into one plan whose steps report
/// `1..=total` over the grand total — so the notifications are strictly
/// increasing and the last one is exactly 100 percent. An empty request
/// yields the empty plan and no notification; no progress is ever computed
/// over a zero total.
pub fn delete_paths_with_progress(paths: &Vec<Entry>) -> (r: Result<Vec<DeleteStep>, Error>)
    requires
        count_of_seq(paths@) <= usize::MAX,
    ensures
        match r {
            Result::Ok(steps) => {
                &&& first_problem(paths@) is None
                &&& steps@.len() == count_of_seq(paths@)
                &&& plan_extends(
                    steps@,
                    0,
                    removal_order_seq(paths@),
                    0,
                    count_of_seq(paths@) as int,
                )
            },
            Result::Err(err) => {
                &&& first_problem(paths@) matches Some(j)
                &&& (if paths@[j].kind is Missing {
                    err matches Error::PathNotFound(p) && p@ == paths@[j].path@
                } else {
                    first_unrecognized(paths@[j]) matches Some(q)
                        && err matches Error::UnrecognizedPathType(p) && p@ == q
                })
            },
        },
{
    // Phase 1 — sizing: fix the grand total before anything is removed.
    let mut total: usize = 0;
    let mut i: usize = 0;
    proof {
        assert(paths@.take(0) =~= Seq::<Entry>::empty());
    }
    while i < paths.len()
        invariant
            count_of_seq(paths@) <= usize::MAX,
            0 <= i <= paths@.len(),
            forall|j: int| 0 <= j < i ==> !root_problem(#[trigger] paths@[j]),
            total == count_of_seq(paths@.take(i as int)),
        decreases paths@.len() - i,
    {
        let root = &paths[i];
        proof {
            lemma_count_elem_le(paths@, i as int);
        }
        if let EntryKind::Missing = &root.kind {
            proof {
                lemma_first_problem_from(paths@, i as int);
            }
            return Err(Error::PathNotFound(root.path.clone()));
        }
        match count_entries(root) {
            Result::Ok(c) => {
                proof {
                    lemma_count_take_step(paths@, i as int);
                    lemma_count_take_le(paths@, i as int + 1);
                }
                total = total + c;
                i = i + 1;
            },
            Result::Err(err) => {
                proof {
                    lemma_first_problem_from(paths@, i as int);
                }
                return Err(err);
            },
        }
    }
    proof {
        lemma_first_problem_from(paths@, paths@.len() as int);
        assert(paths@.take(paths@.len() as int) =~= paths@);
    }
    // Phase 2 — deletion: write out the post-order removal of every root.
    let mut deleted: usize = 0;
    let mut steps: Vec<DeleteStep> = Vec::new();
    let mut k: usize = 0;
    proof {
        assert(paths@.take(0) =~= Seq::<Entry>::empty());
    }
    while k < paths.len()
        invariant
            0 <= k <= paths@.len(),
            forall|j: int| 0 <= j < paths@.len() ==> !root_problem(#[trigger] paths@[j]),
            total == count_of_seq(paths@),
            total <= usize::MAX,
            deleted == count_of_seq(paths@.take(k as int)),
            plan_extends(
                steps@,
                0,
                removal_order_seq(paths@.take(k as int)),
                0,
                total as int,
            ),
        decreases paths@.len() - k,
    {
        let ghost pre_steps = steps@;
        let ghost o1 = removal_order_seq(paths@.take(k as int));
        proof {
            lemma_count_take_step(paths@, k as int);
            lemma_count_take_le(paths@, k as int + 1);
            assert(forall|j: int|
                0 <= j < k ==> !root_problem(#[trigger] paths@.take(k as int)[j]));
            assert(forall|j: int|
                0 <= j < k ==> first_unrecognized(#[trigger] paths@.take(k as int)[j]) is None);
            lemma_removal_order_seq_len(paths@.take(k as int));
        }
        delete_entry_with_progress(&paths[k], total, &mut deleted, &mut steps);
        proof {
            lemma_plan_extends_merge(
                pre_steps,
                steps@,
                0,
                o1,
                removal_order(paths@[k as int]),
                0,
                total as int,
            );
            lemma_removal_order_take_step(paths@, k as int);
        }
        k = k + 1;
    }
    proof {
        assert(paths@.take(paths@.len() as int) =~= paths@);
        lemma_removal_order_seq_len(paths@);
    }
    Ok(steps)
}

} // verus!
