//! The store's general guarantees, proved once over the model so that they
//! hold for every key, value and transaction depth.
use vstd::prelude::*;

verus! {

use crate::model::{
    Entry, StoreModel, apply_frame, begin_model, commit_model, empty_model, flatten_onto,
    frame_claim, resolve, rollback_model, set_model, stack_with_claim, unset_model,
};

/// Recording a claim about `k` in the newest frame leaves every other key's
/// first claim as it was.
proof fn lemma_claim_other_key(stack: Seq<crate::model::Frame>, k: Seq<char>, e: Entry, q: Seq<char>)
    requires
        stack.len() > 0,
        q != k,
    ensures
        frame_claim(stack_with_claim(stack, k, e), q) == frame_claim(stack, q),
{
    let s2 = stack_with_claim(stack, k, e);
    assert(s2.last() == stack.last().insert(k, e));
    assert(s2.drop_last() =~= stack.drop_last());
    assert(s2.last().contains_key(q) == stack.last().contains_key(q));
    if stack.last().contains_key(q) {
        assert(s2.last()[q] == stack.last()[q]);
    }
}

/// Law: after `set(k, v)`, a read of `k` returns `v`, at any depth —
/// in particular with no transaction in progress.
pub proof fn lemma_set_then_get(m: StoreModel, k: Seq<char>, v: u32)
    ensures
        resolve(set_model(m, k, v), k) == Some(v),
{
    if m.stack.len() > 0 {
        let s2 = stack_with_claim(m.stack, k, Entry::Present(v));
        assert(s2.last() == m.stack.last().insert(k, Entry::Present(v)));
        assert(frame_claim(s2, k) == Some(Entry::Present(v)));
    }
}

/// Law: after `unset(k)`, a read of `k` is absent, at any depth.
pub proof fn lemma_unset_then_get(m: StoreModel, k: Seq<char>)
    ensures
        resolve(unset_model(m, k), k) is None,
{
    if m.stack.len() > 0 {
        let s2 = stack_with_claim(m.stack, k, Entry::Deleted);
        assert(s2.last() == m.stack.last().insert(k, Entry::Deleted));
        assert(frame_claim(s2, k) == Some(Entry::Deleted));
    }
}

/// Law: on a fresh store every key is absent.
pub proof fn lemma_fresh_store_absent(k: Seq<char>)
    ensures
        resolve(empty_model(), k) is None,
{
}

/// Law: `set(k, v)` leaves every other key's resolution untouched.
pub proof fn lemma_set_other_key(m: StoreModel, k: Seq<char>, v: u32, q: Seq<char>)
    requires
        q != k,
    ensures
        resolve(set_model(m, k, v), q) == resolve(m, q),
{
    if m.stack.len() > 0 {
        lemma_claim_other_key(m.stack, k, Entry::Present(v), q);
    }
}

/// Law: `unset(k)` leaves every other key's resolution untouched.
pub proof fn lemma_unset_other_key(m: StoreModel, k: Seq<char>, q: Seq<char>)
    requires
        q != k,
    ensures
        resolve(unset_model(m, k), q) == resolve(m, q),
{
    if m.stack.len() > 0 {
        lemma_claim_other_key(m.stack, k, Entry::Deleted, q);
    }
}

/// Law: `begin_transaction` changes no key's resolution; the new frame is
/// empty and makes no claim.
pub proof fn lemma_begin_preserves_resolution(m: StoreModel, k: Seq<char>)
    ensures
        resolve(begin_model(m), k) == resolve(m, k),
{
    let s2 = m.stack.push(Map::empty());
    assert(s2.last() =~= Map::<Seq<char>, Entry>::empty());
    assert(!s2.last().contains_key(k));
    assert(s2.drop_last() =~= m.stack);
}

/// Law: `commit` flattens the whole stack without changing any key's
/// resolution — afterwards the committed state alone answers every read
/// exactly as the layered frames did.
pub proof fn lemma_commit_preserves_resolution(m: StoreModel, k: Seq<char>)
    ensures
        resolve(commit_model(m), k) == resolve(m, k),
    decreases m.stack.len(),
{
    if m.stack.len() == 0 {
        assert(flatten_onto(m.committed, m.stack) == m.committed);
    } else {
        let inner = StoreModel { committed: m.committed, stack: m.stack.drop_last() };
        lemma_commit_preserves_resolution(inner, k);
        let f = m.stack.last();
        let flat_inner = flatten_onto(m.committed, m.stack.drop_last());
        assert(flatten_onto(m.committed, m.stack) == apply_frame(flat_inner, f));
        if f.contains_key(k) {
            assert(frame_claim(m.stack, k) == Some(f[k]));
            assert(apply_frame(flat_inner, f).contains_key(k) == (f[k] is Present));
            if f[k] is Present {
                assert(apply_frame(flat_inner, f)[k] == f[k]->0);
            }
        } else {
            assert(frame_claim(m.stack, k) == frame_claim(m.stack.drop_last(), k));
            assert(apply_frame(flat_inner, f).contains_key(k) == flat_inner.contains_key(k));
            if flat_inner.contains_key(k) {
                assert(apply_frame(flat_inner, f)[k] == flat_inner[k]);
            }
        }
    }
}

/// Law: with `k` absent beforehand, nested writes unwind one level at a
/// time — the inner rollback restores the outer write, and the outer
/// rollback restores the absence the store began with.
pub proof fn lemma_nested_set_rollback(m: StoreModel, k: Seq<char>, a: u32, b: u32)
    requires
        resolve(m, k) is None,
    ensures
        resolve(set_model(begin_model(set_model(begin_model(m), k, a)), k, b), k) == Some(b),
        resolve(
            rollback_model(set_model(begin_model(set_model(begin_model(m), k, a)), k, b)),
            k,
        ) == Some(a),
        resolve(
            rollback_model(
                rollback_model(set_model(begin_model(set_model(begin_model(m), k, a)), k, b)),
            ),
            k,
        ) is None,
{
    let m1 = set_model(begin_model(m), k, a);
    let m2 = set_model(begin_model(m1), k, b);
    lemma_set_then_get(begin_model(m1), k, b);
    assert(rollback_model(m2).stack =~= m1.stack);
    assert(rollback_model(m2) =~~= m1);
    lemma_set_then_get(begin_model(m), k, a);
    assert(rollback_model(m1).stack =~= m.stack);
    assert(rollback_model(m1) =~~= m);
}

} // verus!
