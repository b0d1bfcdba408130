//! Association lists with string keys, the executable form of the model's
//! maps. A list is kept with pairwise-distinct keys, and every operation is
//! specified against [`assoc_view`], the `Map` a list denotes.
use vstd::prelude::*;

verus! {

/// The map an association list denotes; a later pair wins over an earlier
/// one with the same key.
pub open spec fn assoc_view<T>(s: Seq<(String, T)>) -> Map<Seq<char>, T>
    decreases s.len(),
{
    if s.len() == 0 {
        Map::empty()
    } else {
        assoc_view(s.drop_last()).insert(s.last().0@, s.last().1)
    }
}

/// No two pairs of the list share a key.
pub open spec fn distinct_keys<T>(s: Seq<(String, T)>) -> bool {
    forall|i: int, j: int|
        #![trigger s[i], s[j]]
        0 <= i < j < s.len() ==> s[i].0@ != s[j].0@
}

/// The pair at index `i` of a list with distinct keys is the binding its
/// view holds for that key.
pub proof fn lemma_assoc_view_at<T>(s: Seq<(String, T)>, i: int)
    requires
        distinct_keys(s),
        0 <= i < s.len(),
    ensures
        assoc_view(s).contains_key(s[i].0@),
        assoc_view(s)[s[i].0@] == s[i].1,
    decreases s.len(),
{
    if i < s.len() - 1 {
        assert(distinct_keys(s.drop_last()));
        lemma_assoc_view_at(s.drop_last(), i);
        assert(s[s.len() - 1].0@ != s[i].0@);
    }
}

/// A key no pair of the list carries is outside the view's domain.
pub proof fn lemma_assoc_view_absent<T>(s: Seq<(String, T)>, k: Seq<char>)
    requires
        forall|j: int| 0 <= j < s.len() ==> (#[trigger] s[j]).0@ != k,
    ensures
        !assoc_view(s).contains_key(k),
    decreases s.len(),
{
    if s.len() > 0 {
        lemma_assoc_view_absent(s.drop_last(), k);
    }
}

/// Removing the pair at index `i` of a list with distinct keys removes
/// exactly that key from the view.
pub proof fn lemma_assoc_view_remove_idx<T>(s: Seq<(String, T)>, i: int)
    requires
        distinct_keys(s),
        0 <= i < s.len(),
    ensures
        assoc_view(s.remove(i)) == assoc_view(s).remove(s[i].0@),
    decreases s.len(),
{
    let k = s[i].0@;
    if i == s.len() - 1 {
        assert(s.remove(i) =~= s.drop_last());
        assert(forall|j: int| 0 <= j < s.drop_last().len() ==> (#[trigger] s.drop_last()[j]).0@ != k);
        lemma_assoc_view_absent(s.drop_last(), k);
        assert(assoc_view(s.drop_last()) =~= assoc_view(s.drop_last()).insert(k, s[i].1).remove(k));
    } else {
        assert(distinct_keys(s.drop_last()));
        lemma_assoc_view_remove_idx(s.drop_last(), i);
        assert(s.remove(i).drop_last() =~= s.drop_last().remove(i));
        assert(s.remove(i).last() == s.last());
        assert(s.last().0@ != k);
        assert(assoc_view(s.drop_last()).remove(k).insert(s.last().0@, s.last().1) =~= assoc_view(
            s.drop_last(),
        ).insert(s.last().0@, s.last().1).remove(k));
    }
}

/// Find the index of the pair holding `key`, if the list has one.
pub fn assoc_find<T>(s: &Vec<(String, T)>, key: &String) -> (r: Option<usize>)
    ensures
        match r {
            Some(i) => i < s@.len() && s@[i as int].0@ == key@,
            None => forall|j: int| 0 <= j < s@.len() ==> (#[trigger] s@[j]).0@ != key@,
        },
{
    let mut i: usize = 0;
    while i < s.len()
        invariant
            i <= s@.len(),
            forall|j: int| 0 <= j < i ==> (#[trigger] s@[j]).0@ != key@,
        decreases s@.len() - i,
    {
        if s[i].0 == *key {
            return Some(i);
        }
        i = i + 1;
    }
    None
}

/// Look the key up in the list's view.
pub fn assoc_get<T: Copy>(s: &Vec<(String, T)>, key: &String) -> (r: Option<T>)
    requires
        distinct_keys(s@),
    ensures
        match r {
            Some(v) => assoc_view(s@).contains_key(key@) && v == assoc_view(s@)[key@],
            None => !assoc_view(s@).contains_key(key@),
        },
{
    match assoc_find(s, key) {
        Some(i) => {
            proof {
                lemma_assoc_view_at(s@, i as int);
            }
            Some(s[i].1)
        },
        None => {
            proof {
                lemma_assoc_view_absent(s@, key@);
            }
            None
        },
    }
}

/// Bind `key -> value` in the list, replacing any earlier binding of the key.
pub fn assoc_put<T: Copy>(s: &mut Vec<(String, T)>, key: String, value: T)
    requires
        distinct_keys(old(s)@),
    ensures
        distinct_keys(final(s)@),
        assoc_view(final(s)@) == assoc_view(old(s)@).insert(key@, value),
{
    let ghost s0 = s@;
    match assoc_find(s, &key) {
        Some(i) => {
            proof {
                lemma_assoc_view_remove_idx(s0, i as int);
                s0.remove_ensures(i as int);
            }
            let _ = s.remove(i);
            proof {
                assert forall|j: int| 0 <= j < s@.len() implies (#[trigger] s@[j]).0@ != key@ by {
                    if j < i {
                        assert(s@[j] == s0[j]);
                    } else {
                        assert(s@[j] == s0[j + 1]);
                    }
                }
            }
        },
        None => {},
    }
    let ghost s1 = s@;
    proof {
        assert(distinct_keys(s1));
        lemma_assoc_view_absent(s1, key@);
    }
    s.push((key, value));
    proof {
        assert(s@.drop_last() =~= s1);
        assert(assoc_view(s@) =~= assoc_view(s0).insert(key@, value));
    }
}

/// Drop any binding of `key` from the list; absence is a no-op.
pub fn assoc_remove<T>(s: &mut Vec<(String, T)>, key: &String)
    requires
        distinct_keys(old(s)@),
    ensures
        distinct_keys(final(s)@),
        assoc_view(final(s)@) == assoc_view(old(s)@).remove(key@),
{
    let ghost s0 = s@;
    match assoc_find(s, key) {
        Some(i) => {
            proof {
                lemma_assoc_view_remove_idx(s0, i as int);
            }
            let _ = s.remove(i);
        },
        None => {
            proof {
                lemma_assoc_view_absent(s0, key@);
                assert(assoc_view(s@) =~= assoc_view(s0).remove(key@));
            }
        },
    }
}

} // verus!
