//! The mathematical model of the transactional store: a committed map of
//! keys to values, layered under an ordered stack of transaction frames.
//! Each frame maps a key to an `Entry` claim; a key absent from a frame
//! makes no claim there and resolution defers to the next frame down.
use vstd::prelude::*;

verus! {

/// What one transaction frame claims about a key: the frame either sets it
/// to a value or explicitly unsets it. A key absent from the frame's map is
/// a third, distinct case: the frame says nothing about it.
#[derive(Clone, Copy, Debug, PartialEq, Eq, Structural)]
pub enum Entry {
    Present(u32),
    Deleted,
}

/// One transaction frame, as a mathematical map from key to claim.
pub type Frame = Map<Seq<char>, Entry>;

/// The whole store: durable committed state plus the stack of pending
/// frames, ordered by creation time with the newest frame last.
#[verifier::ext_equal]
pub ghost struct StoreModel {
    pub committed: Map<Seq<char>, u32>,
    pub stack: Seq<Frame>,
}

/// The model of a freshly created store: nothing committed, no frames.
pub open spec fn empty_model() -> StoreModel {
    StoreModel { committed: Map::empty(), stack: Seq::empty() }
}

/// The first claim about `k` found scanning the stack from the newest
/// frame down, or `None` when no frame claims `k`.
pub open spec fn frame_claim(stack: Seq<Frame>, k: Seq<char>) -> Option<Entry>
    decreases stack.len(),
{
    if stack.len() == 0 {
        None
    } else if stack.last().contains_key(k) {
        Some(stack.last()[k])
    } else {
        frame_claim(stack.drop_last(), k)
    }
}

/// What a read of `k` returns: the newest frame's claim decides, and only
/// when no frame claims `k` does the committed state answer.
pub open spec fn resolve(m: StoreModel, k: Seq<char>) -> Option<u32> {
    match frame_claim(m.stack, k) {
        Some(Entry::Present(v)) => Some(v),
        Some(Entry::Deleted) => None,
        None => if m.committed.contains_key(k) {
            Some(m.committed[k])
        } else {
            None
        },
    }
}

/// The stack with the claim `k -> e` recorded in its newest frame.
pub open spec fn stack_with_claim(stack: Seq<Frame>, k: Seq<char>, e: Entry) -> Seq<Frame>
    recommends
        stack.len() > 0,
{
    stack.update(stack.len() - 1, stack.last().insert(k, e))
}

/// The store after `set(k, v)`: inside a transaction only the newest frame
/// records the write; outside any transaction the committed state takes it.
pub open spec fn set_model(m: StoreModel, k: Seq<char>, v: u32) -> StoreModel {
    if m.stack.len() > 0 {
        StoreModel { committed: m.committed, stack: stack_with_claim(m.stack, k, Entry::Present(v)) }
    } else {
        StoreModel { committed: m.committed.insert(k, v), stack: m.stack }
    }
}

/// The store after `unset(k)`: inside a transaction the newest frame records
/// a tombstone; outside any transaction the key leaves the committed state.
pub open spec fn unset_model(m: StoreModel, k: Seq<char>) -> StoreModel {
    if m.stack.len() > 0 {
        StoreModel { committed: m.committed, stack: stack_with_claim(m.stack, k, Entry::Deleted) }
    } else {
        StoreModel { committed: m.committed.remove(k), stack: m.stack }
    }
}

/// The store after `begin_transaction`: a new empty frame on top.
pub open spec fn begin_model(m: StoreModel) -> StoreModel {
    StoreModel { committed: m.committed, stack: m.stack.push(Map::empty()) }
}

/// The store after a successful `rollback`: the newest frame is discarded.
pub open spec fn rollback_model(m: StoreModel) -> StoreModel
    recommends
        m.stack.len() > 0,
{
    StoreModel { committed: m.committed, stack: m.stack.drop_last() }
}

/// One frame replayed onto a committed map: a `Present` claim writes its
/// value, a `Deleted` claim removes the key, and unclaimed keys keep their
/// committed binding.
pub open spec fn apply_frame(c: Map<Seq<char>, u32>, f: Frame) -> Map<Seq<char>, u32> {
    Map::new(
        |k: Seq<char>| if f.contains_key(k) { f[k] is Present } else { c.contains_key(k) },
        |k: Seq<char>| if f.contains_key(k) { f[k]->0 } else { c[k] },
    )
}

/// A whole stack replayed onto a committed map, oldest frame first, so a
/// newer frame's claim about a key overwrites an older frame's.
pub open spec fn flatten_onto(c: Map<Seq<char>, u32>, stack: Seq<Frame>) -> Map<Seq<char>, u32>
    decreases stack.len(),
{
    if stack.len() == 0 {
        c
    } else {
        apply_frame(flatten_onto(c, stack.drop_last()), stack.last())
    }
}

/// The store after a successful `commit`: the entire stack is flattened
/// into the committed state and cleared.
pub open spec fn commit_model(m: StoreModel) -> StoreModel {
    StoreModel { committed: flatten_onto(m.committed, m.stack), stack: Seq::empty() }
}

} // verus!
