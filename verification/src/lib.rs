//! Core of a utility that deletes user-selected files and directories while
//! reporting incremental progress.
//!
//! The library works on an in-memory snapshot of the filesystem nodes that a
//! request touches (see [`model::Entry`]). The caller observes the real
//! filesystem, hands the snapshot in, and receives back either an error or a
//! fully worked-out deletion plan: the exact removal order (children before
//! their directory) together with the progress numerator and denominator to
//! report after each removal. Performing the removals and delivering the
//! progress events is the caller's side of the bargain.

pub mod counter;
pub mod deleter;
pub mod error;
pub mod laws;
pub mod model;
