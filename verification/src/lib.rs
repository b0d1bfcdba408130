//! An in-process key-value store with arbitrarily nested transactions.
//!
//! Pending, uncommitted writes layer over a durable committed map: each
//! `begin_transaction` pushes a fresh frame, `rollback` discards exactly the
//! newest frame, and `commit` flattens the whole stack into the committed
//! state at once. The semantics of every operation is stated over the
//! mathematical model in [`model`].
use vstd::prelude::*;

pub mod assoc;
pub mod in_memory;
pub mod laws;
pub mod model;

verus! {

use crate::model::{
    StoreModel, begin_model, commit_model, resolve, rollback_model, set_model, unset_model,
};

/// The one failure a store can report: `rollback` or `commit` was called
/// while no transaction was in progress.
#[derive(Clone, Copy, Debug, PartialEq, Eq, Structural)]
pub enum TransactionError {
    NoTransactionsInProgress,
}

impl TransactionError {
    /// The human-readable description of the error.
    pub fn message(&self) -> (s: String)
        ensures
            s@ == "No transactions in progress"@,
    {
        "No transactions in progress".to_owned()
    }
}

/// A key-value store with nested transactions. Every operation's effect is
/// pinned down as a transition of the abstract [`StoreModel`], and reads are
/// pinned to [`resolve`], which scans frames newest-first before falling
/// back to the committed state.
pub trait SimpleDB: Sized {
    /// The abstract state this store represents.
    spec fn model(&self) -> StoreModel;

    /// The store's internal well-formedness; every operation preserves it.
    spec fn inv(&self) -> bool;

    /// Record `key -> value`: in the newest frame while a transaction is
    /// active, else directly in the committed state. Always succeeds.
    fn set(&mut self, key: String, value: u32)
        requires
            old(self).inv(),
        ensures
            final(self).inv(),
            final(self).model() == set_model(old(self).model(), key@, value),
    ;

    /// Read `key` without mutating anything. Absence is a normal result.
    fn get(&self, key: String) -> (r: Option<u32>)
        requires
            self.inv(),
        ensures
            r == resolve(self.model(), key@),
    ;

    /// Remove `key`: a tombstone in the newest frame while a transaction is
    /// active, else removal from the committed state. Always succeeds.
    fn unset(&mut self, key: String)
        requires
            old(self).inv(),
        ensures
            final(self).inv(),
            final(self).model() == unset_model(old(self).model(), key@),
    ;

    /// Push a new empty frame; nesting is unbounded and this always succeeds.
    fn begin_transaction(&mut self)
        requires
            old(self).inv(),
        ensures
            final(self).inv(),
            final(self).model() == begin_model(old(self).model()),
    ;

    /// Discard exactly the newest frame. With no transaction in progress,
    /// fail and leave the store untouched.
    fn rollback(&mut self) -> (r: Result<(), TransactionError>)
        requires
            old(self).inv(),
        ensures
            final(self).inv(),
            old(self).model().stack.len() == 0 ==> r == Err::<(), TransactionError>(
                TransactionError::NoTransactionsInProgress,
            ) && final(self).model() == old(self).model(),
            old(self).model().stack.len() > 0 ==> r == Ok::<(), TransactionError>(())
                && final(self).model() == rollback_model(old(self).model()),
    ;

    /// Replay the whole stack, oldest frame first, into the committed state
    /// and clear it. With no transaction in progress, fail and leave the
    /// store untouched.
    fn commit(&mut self) -> (r: Result<(), TransactionError>)
        requires
            old(self).inv(),
        ensures
            final(self).inv(),
            old(self).model().stack.len() == 0 ==> r == Err::<(), TransactionError>(
                TransactionError::NoTransactionsInProgress,
            ) && final(self).model() == old(self).model(),
            old(self).model().stack.len() > 0 ==> r == Ok::<(), TransactionError>(())
                && final(self).model() == commit_model(old(self).model()),
    ;
}

} // verus!
