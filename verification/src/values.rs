//! Set operations on the values that nodes broadcast to each other.

use std::collections::HashSet;
use vstd::prelude::*;
use vstd::std_specs::iter::IteratorSpec;

verus! {

broadcast use vstd::std_specs::hash::group_hash_axioms;

/// Adds every value of `other` to `target`.
pub fn extend(target: &mut HashSet<usize>, other: &HashSet<usize>)
    ensures
        final(target)@ == old(target)@.union(other@),
{
    let ghost before = target@;
    let ghost keys = other.iter().remaining().unref();
    let ghost mut done: int = 0;
    for value in walk: other.iter()
        invariant
            walk.seq().unref() == keys,
            done == walk.index(),
            keys.to_set() == other@,
            forall|v: usize| #[trigger]
                target@.contains(v) <==> (before.contains(v) || exists|j: int|
                    0 <= j < done && #[trigger] keys[j] == v),
    {
        target.insert(*value);
        proof {
            done = done + 1;
        }
    }
}

/// The values of `held` that are not in `known`.
pub fn difference(held: &HashSet<usize>, known: &HashSet<usize>) -> (delta: HashSet<usize>)
    ensures
        delta@ == held@.difference(known@),
{
    let mut delta: HashSet<usize> = HashSet::new();
    let ghost keys = held.iter().remaining().unref();
    let ghost mut done: int = 0;
    for value in walk: held.iter()
        invariant
            walk.seq().unref() == keys,
            done == walk.index(),
            keys.to_set() == held@,
            forall|v: usize| #[trigger]
                delta@.contains(v) <==> (!known@.contains(v) && exists|j: int|
                    0 <= j < done && #[trigger] keys[j] == v),
    {
        if !known.contains(value) {
            delta.insert(*value);
        }
        proof {
            done = done + 1;
        }
    }
    delta
}

/// A set with the same values as `held`.
pub fn snapshot(held: &HashSet<usize>) -> (copy: HashSet<usize>)
    ensures
        copy@ == held@,
{
    let mut copy: HashSet<usize> = HashSet::new();
    extend(&mut copy, held);
    copy
}

} // verus!
