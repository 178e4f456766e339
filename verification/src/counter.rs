//! The Entry Counter: how many units of work a snapshot stands for.
//!
//! Listing failures never show up here: the snapshot either holds a
//! directory's children or the caller already failed to observe them and
//! reported [`crate::error::Error::ReadFailed`] itself. This library applies
//! the strict policy uniformly: a tree is counted only when it was read
//! completely.

use vstd::prelude::*;

use crate::error::Error;
use crate::model::{count_of, count_of_seq, first_unrecognized, Entry, EntryKind};
use crate::model::{
    lemma_count_elem_le, lemma_count_take_le, lemma_count_take_step,
    lemma_first_unrecognized_seq_from,
};

verus! {

/// Counts the filesystem entries a node stands for: 1 for a file, and for a
/// directory 1 (itself) plus the counts of all of its children, recursively.
/// A node that is neither — including one that no longer existed when the
/// snapshot was taken — fails with `UnrecognizedPathType` naming the first
/// such node in depth-first pre-order.
pub fn count_entries(e: &Entry) -> (r: Result<usize, Error>)
    requires
        count_of(*e) <= usize::MAX,
    ensures
        match r {
            Result::Ok(c) => first_unrecognized(*e) is None && c == count_of(*e),
            Result::Err(err) => first_unrecognized(*e) matches Some(q) && err matches Error::UnrecognizedPathType(p)
                && p@ == q,
        },
    decreases *e,
{
    match &e.kind {
        EntryKind::File => Ok(1),
        EntryKind::Dir(children) => {
            let mut count: usize = 1;
            let mut i: usize = 0;
            proof {
                assert(children@.take(0) =~= Seq::<Entry>::empty());
            }
            while i < children.len()
                invariant
                    e.kind matches EntryKind::Dir(kids) && kids@ == children@,
                    1 + count_of_seq(children@) <= usize::MAX,
                    0 <= i <= children@.len(),
                    forall|j: int|
                        0 <= j < i ==> first_unrecognized(#[trigger] children@[j]) is None,
                    count == 1 + count_of_seq(children@.take(i as int)),
                decreases children@.len() - i,
            {
                proof {
                    lemma_count_elem_le(children@, i as int);
                }
                match count_entries(&children[i]) {
                    Result::Ok(c) => {
                        proof {
                            lemma_count_take_step(children@, i as int);
                            lemma_count_take_le(children@, i as int + 1);
                        }
                        count = count + c;
                        i = i + 1;
                    },
                    Result::Err(err) => {
                        proof {
                            lemma_first_unrecognized_seq_from(children@, i as int);
                        }
                        return Err(err);
                    },
                }
            }
            proof {
                lemma_first_unrecognized_seq_from(children@, children@.len() as int);
                assert(children@.take(children@.len() as int) =~= children@);
            }
            Ok(count)
        },
        EntryKind::Missing => Err(Error::UnrecognizedPathType(e.path.clone())),
        EntryKind::Other => Err(Error::UnrecognizedPathType(e.path.clone())),
    }
}

/// The caller-facing counting operation: counts a directory. A missing path
/// fails with `PathNotFound`; a path that is not a directory fails with
/// `UnrecognizedPathType`; a directory is counted as in [`count_entries`].
pub fn count_files_in_directory(e: &Entry) -> (r: Result<usize, Error>)
    requires
        count_of(*e) <= usize::MAX,
    ensures
        match e.kind {
            EntryKind::Missing => r matches Err(err) && err matches Error::PathNotFound(p)
                && p@ == e.path@,
            EntryKind::Dir(_) => match r {
                Result::Ok(c) => first_unrecognized(*e) is None && c == count_of(*e),
                Result::Err(err) => first_unrecognized(*e) matches Some(q)
                    && err matches Error::UnrecognizedPathType(p) && p@ == q,
            },
            _ => r matches Err(err) && err matches Error::UnrecognizedPathType(p)
                && p@ == e.path@,
        },
{
    match &e.kind {
        EntryKind::Missing => Err(Error::PathNotFound(e.path.clone())),
        EntryKind::Dir(_) => count_entries(e),
        _ => Err(Error::UnrecognizedPathType(e.path.clone())),
    }
}

} // verus!
