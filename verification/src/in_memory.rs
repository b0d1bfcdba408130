//! The executable store: committed state and transaction frames held as
//! association lists with distinct keys, tied to the abstract model by
//! [`SimpleDB::model`].
use vstd::prelude::*;

verus! {

use crate::SimpleDB;
use crate::TransactionError;
use crate::assoc::{assoc_get, assoc_put, assoc_remove, assoc_view, distinct_keys};
use crate::model::{Entry, Frame, StoreModel};

/// A key-value store holding its durable map and its stack of pending
/// frames in memory; the newest frame is last.
pub struct InMemoryDB {
    committed: Vec<(String, u32)>,
    stack: Vec<Vec<(String, Entry)>>,
}

/// The abstract frame each stored frame denotes.
pub open spec fn frames_view(stack: Seq<Vec<(String, Entry)>>) -> Seq<Frame> {
    Seq::new(stack.len(), |i: int| assoc_view(stack[i]@))
}

impl InMemoryDB {
    /// A fresh store: nothing committed, no transaction in progress.
    pub fn new() -> (db: Self)
        ensures
            db.inv(),
            db.model() == crate::model::empty_model(),
    {
        let db = InMemoryDB { committed: Vec::new(), stack: Vec::new() };
        proof {
            assert(db.model().stack =~= crate::model::empty_model().stack);
            assert(db.model() =~~= crate::model::empty_model());
        }
        db
    }
}

impl SimpleDB for InMemoryDB {
    closed spec fn model(&self) -> StoreModel {
        StoreModel { committed: assoc_view(self.committed@), stack: frames_view(self.stack@) }
    }

    closed spec fn inv(&self) -> bool {
        &&& distinct_keys(self.committed@)
        &&& forall|i: int| 0 <= i < self.stack@.len() ==> distinct_keys((#[trigger] self.stack@[i])@)
    }

    fn set(&mut self, key: String, value: u32) {
        if let Some(mut top) = self.stack.pop() {
            let ghost m0 = old(self).model();
            let ghost stack0 = old(self).stack@;
            assoc_put(&mut top, key, Entry::Present(value));
            self.stack.push(top);
            proof {
                assert(self.stack@ =~= stack0.update(stack0.len() - 1, top));
                assert(self.model().stack =~= crate::model::stack_with_claim(
                    m0.stack,
                    key@,
                    Entry::Present(value),
                ));
                assert(self.model() =~~= crate::model::set_model(m0, key@, value));
            }
        } else {
            assoc_put(&mut self.committed, key, value);
            proof {
                assert(self.model().stack =~= old(self).model().stack);
                assert(self.model() =~~= crate::model::set_model(old(self).model(), key@, value));
            }
        }
    }

    fn get(&self, key: String) -> (r: Option<u32>) {
        let ghost m = self.model();
        let mut i: usize = self.stack.len();
        proof {
            assert(m.stack.take(i as int) =~= m.stack);
        }
        while i > 0
            invariant
                self.inv(),
                i <= self.stack@.len(),
                m == self.model(),
                crate::model::frame_claim(m.stack, key@) == crate::model::frame_claim(
                    m.stack.take(i as int),
                    key@,
                ),
            decreases i,
        {
            i = i - 1;
            proof {
                assert(m.stack.take(i + 1).last() == m.stack[i as int]);
                assert(m.stack.take(i + 1).drop_last() =~= m.stack.take(i as int));
            }
            match assoc_get(&self.stack[i], &key) {
                Some(e) => {
                    proof {
                        assert(crate::model::frame_claim(m.stack.take(i + 1), key@) == Some(e));
                    }
                    match e {
                        Entry::Present(v) => {
                            return Some(v);
                        },
                        Entry::Deleted => {
                            return None;
                        },
                    }
                },
                None => {},
            }
        }
        proof {
            assert(m.stack.take(0) =~= Seq::<Frame>::empty());
        }
        assoc_get(&self.committed, &key)
    }

    fn unset(&mut self, key: String) {
        if let Some(mut top) = self.stack.pop() {
            let ghost m0 = old(self).model();
            let ghost stack0 = old(self).stack@;
            assoc_put(&mut top, key, Entry::Deleted);
            self.stack.push(top);
            proof {
                assert(self.stack@ =~= stack0.update(stack0.len() - 1, top));
                assert(self.model().stack =~= crate::model::stack_with_claim(
                    m0.stack,
                    key@,
                    Entry::Deleted,
                ));
                assert(self.model() =~~= crate::model::unset_model(m0, key@));
            }
        } else {
            assoc_remove(&mut self.committed, &key);
            proof {
                assert(self.model().stack =~= old(self).model().stack);
                assert(self.model() =~~= crate::model::unset_model(old(self).model(), key@));
            }
        }
    }

    fn begin_transaction(&mut self) {
        self.stack.push(Vec::new());
        proof {
            assert(self.model().stack =~= old(self).model().stack.push(Map::empty()));
            assert(self.model() =~~= crate::model::begin_model(old(self).model()));
        }
    }

    fn rollback(&mut self) -> (r: Result<(), TransactionError>) {
        if self.stack.pop().is_some() {
            proof {
                assert(self.model().stack =~= old(self).model().stack.drop_last());
                assert(self.model() =~~= crate::model::rollback_model(old(self).model()));
            }
            Ok(())
        } else {
            proof {
                assert(self.model() =~~= old(self).model());
            }
            Err(TransactionError::NoTransactionsInProgress)
        }
    }

    fn commit(&mut self) -> (r: Result<(), TransactionError>) {
        if self.stack.is_empty() {
            return Err(TransactionError::NoTransactionsInProgress);
        }
        let ghost m0 = old(self).model();
        let n = self.stack.len();
        let mut fi: usize = 0;
        while fi < n
            invariant
                n == self.stack@.len(),
                fi <= n,
                self.stack@ == old(self).stack@,
                distinct_keys(self.committed@),
                forall|i: int|
                    0 <= i < self.stack@.len() ==> distinct_keys((#[trigger] self.stack@[i])@),
                m0.stack == frames_view(self.stack@),
                assoc_view(self.committed@) == crate::model::flatten_onto(
                    m0.committed,
                    m0.stack.take(fi as int),
                ),
            decreases n - fi,
        {
            proof {
                assert(m0.stack.take(fi + 1).last() == m0.stack[fi as int]);
                assert(m0.stack.take(fi + 1).drop_last() =~= m0.stack.take(fi as int));
            }
            apply_frame_entries(&mut self.committed, &self.stack[fi]);
            fi = fi + 1;
        }
        proof {
            assert(m0.stack.take(n as int) =~= m0.stack);
        }
        self.stack.clear();
        proof {
            assert(self.model().stack =~= Seq::<Frame>::empty());
            assert(self.model() =~~= crate::model::commit_model(m0));
        }
        Ok(())
    }
}

/// The map after a frame's bindings, taken in list order, are written over
/// `c`: a `Present` entry inserts its value, a `Deleted` entry removes the
/// key.
pub open spec fn apply_entries(c: Map<Seq<char>, u32>, s: Seq<(String, Entry)>) -> Map<
    Seq<char>,
    u32,
>
    decreases s.len(),
{
    if s.len() == 0 {
        c
    } else {
        match s.last().1 {
            Entry::Present(v) => apply_entries(c, s.drop_last()).insert(s.last().0@, v),
            Entry::Deleted => apply_entries(c, s.drop_last()).remove(s.last().0@),
        }
    }
}

/// Writing a frame's bindings one by one comes to the same map as replaying
/// the frame wholesale, since within one frame each key holds one claim.
pub proof fn lemma_apply_entries_is_apply_frame(c: Map<Seq<char>, u32>, s: Seq<(String, Entry)>)
    ensures
        apply_entries(c, s) == crate::model::apply_frame(c, assoc_view(s)),
    decreases s.len(),
{
    if s.len() == 0 {
        assert(apply_entries(c, s) =~= crate::model::apply_frame(c, assoc_view(s)));
    } else {
        lemma_apply_entries_is_apply_frame(c, s.drop_last());
        assert(apply_entries(c, s) =~= crate::model::apply_frame(c, assoc_view(s)));
    }
}

/// Replay one stored frame onto the committed list.
fn apply_frame_entries(c: &mut Vec<(String, u32)>, f: &Vec<(String, Entry)>)
    requires
        distinct_keys(old(c)@),
    ensures
        distinct_keys(final(c)@),
        assoc_view(final(c)@) == crate::model::apply_frame(assoc_view(old(c)@), assoc_view(f@)),
{
    let ghost c0 = assoc_view(old(c)@);
    let mut j: usize = 0;
    while j < f.len()
        invariant
            j <= f@.len(),
            distinct_keys(c@),
            assoc_view(c@) == apply_entries(c0, f@.take(j as int)),
        decreases f@.len() - j,
    {
        proof {
            assert(f@.take(j + 1).last() == f@[j as int]);
            assert(f@.take(j + 1).drop_last() =~= f@.take(j as int));
        }
        let entry = f[j].1;
        match entry {
            Entry::Present(v) => {
                let k = f[j].0.clone();
                assoc_put(c, k, v);
            },
            Entry::Deleted => {
                assoc_remove(c, &f[j].0);
            },
        }
        j = j + 1;
    }
    proof {
        assert(f@.take(f@.len() as int) =~= f@);
        lemma_apply_entries_is_apply_frame(c0, f@);
    }
}

} // verus!
