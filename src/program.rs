//! The memory model: one stack per column index.
//!
//! Columns `0..n`, where `n` is the number of lines of the program, are defined
//! by the program and always have a stack. Any other index gets a stack when it
//! is first selected as the remote stack, and loses it again in a garbage
//! collection once that stack is empty and no longer selected.

use vstd::prelude::*;
use crate::stack::VecStack;
use std::collections::HashMap;

mod advanced;
mod simple;

pub use advanced::AdvancedProgramState;
pub use simple::SimpleProgramState;

verus! {

/// `n` empty stacks, at the indices `0..n`.
pub open spec fn fresh_memory(n: u32) -> Map<u32, Seq<u32>> {
    Map::new(|i: u32| i < n, |i: u32| Seq::<u32>::empty())
}

/// Whether the stack at `index` survives a garbage collection.
pub open spec fn survives(m: Map<u32, Seq<u32>>, program_defined: u32, remote_index: u32, index: u32) -> bool {
    index < program_defined || index == remote_index || m[index].len() > 0
}

/// `m` after a garbage collection: every stack at an index of at least
/// `program_defined` that is empty and is not `remote_index` is gone.
pub open spec fn collected(m: Map<u32, Seq<u32>>, program_defined: u32, remote_index: u32) -> Map<
    u32,
    Seq<u32>,
> {
    Map::new(
        |i: u32| m.contains_key(i) && survives(m, program_defined, remote_index, i),
        |i: u32| m[i],
    )
}

/// `m` with an empty stack at `index` if it had none there.
pub open spec fn ensured(m: Map<u32, Seq<u32>>, index: u32) -> Map<u32, Seq<u32>> {
    if m.contains_key(index) {
        m
    } else {
        m.insert(index, Seq::<u32>::empty())
    }
}

/// The contents of each stack of a map of stacks.
pub open spec fn contents_of(m: Map<u32, VecStack>) -> Map<u32, Seq<u32>> {
    m.map_values(|s: VecStack| s@)
}

/// A map of stacks and its contents have the same indices.
pub proof fn lemma_contents_of(m: Map<u32, VecStack>)
    ensures
        forall|k: u32| #[trigger] contents_of(m).contains_key(k) <==> m.contains_key(k),
        forall|k: u32| m.contains_key(k) ==> #[trigger] contents_of(m)[k] == m[k]@,
{
}

/// Whether `r` lists each stack of `m` exactly once, with its index.
pub open spec fn is_snapshot(r: Seq<(u32, Vec<u32>)>, m: Map<u32, Seq<u32>>) -> bool {
    &&& forall|i: int| 0 <= i < r.len() ==> #[trigger] m.contains_key(r[i].0) && r[i].1@ == m[r[i].0]
    &&& forall|i: int, j: int| 0 <= i < j < r.len() ==> r[i].0 != r[j].0
    &&& forall|k: u32| #[trigger] m.contains_key(k) ==> exists|i: int| 0 <= i < r.len() && r[i].0 == k
}

/// The stacks of a running program, by column index.
pub trait ProgramState: Sized {
    /// The contents of each stack that exists, by index.
    spec fn memory(&self) -> Map<u32, Seq<u32>>;

    /// The number of program-defined columns.
    spec fn defined(&self) -> u32;

    /// The implementation's own invariant.
    spec fn wf(&self) -> bool;

    /// `initial_count` empty program-defined stacks.
    fn new(initial_count: u32) -> (r: Self)
        ensures
            r.wf(),
            r.defined() == initial_count,
            r.memory() == fresh_memory(initial_count),
    ;

    /// The stack at `index`, if there is one. Never creates a stack: see `insert_stack`.
    fn nth(&self, index: u32) -> (r: Option<&VecStack>)
        requires
            self.wf(),
        ensures
            match r {
                Some(s) => self.memory().contains_key(index) && s@ == self.memory()[index],
                None => !self.memory().contains_key(index),
            },
    ;

    /// Puts `stack` in place of the stack at `index` and hands back the one it replaced.
    fn replace_stack(&mut self, index: u32, stack: VecStack) -> (r: VecStack)
        requires
            old(self).wf(),
            old(self).memory().contains_key(index),
        ensures
            final(self).wf(),
            final(self).defined() == old(self).defined(),
            r@ == old(self).memory()[index],
            final(self).memory() == old(self).memory().insert(index, stack@),
    ;

    /// Removes every empty stack beyond the program-defined ones, except the
    /// one at `remote_index`.
    fn collect_garbage(&mut self, program_defined: u32, remote_index: u32)
        requires
            old(self).wf(),
            program_defined == old(self).defined(),
        ensures
            final(self).wf(),
            final(self).defined() == old(self).defined(),
            final(self).memory() == collected(old(self).memory(), program_defined, remote_index),
    ;

    /// Creates an empty stack at `index` unless one is there already.
    fn insert_stack(&mut self, index: u32)
        requires
            old(self).wf(),
        ensures
            final(self).wf(),
            final(self).defined() == old(self).defined(),
            final(self).memory() == ensured(old(self).memory(), index),
    ;

    /// A copy of every stack with its index, in no particular order.
    fn stacks(&self) -> (r: Vec<(u32, Vec<u32>)>)
        requires
            self.wf(),
        ensures
            is_snapshot(r@, self.memory()),
    ;
}

/// The indices of every stack in `stacks`, in no particular order.
fn indices_of(stacks: &HashMap<u32, VecStack>) -> (r: Vec<u32>)
    ensures
        forall|k: u32| stacks@.contains_key(k) ==> #[trigger] r@.contains(k),
{
    broadcast use vstd::std_specs::hash::group_hash_axioms;

    let ghost all = vstd::std_specs::iter::IteratorSpec::remaining(&vstd::std_specs::hash::spec_keys_iter(stacks)).unref();
    let mut r: Vec<u32> = Vec::new();
    for k in it: stacks.keys()
        invariant
            it.seq().unref() == all,
            all.to_set() == stacks@.dom(),
            r.len() == it.index(),
            forall|j: int| 0 <= j < it.index() ==> r@[j] == all[j],
    {
        r.push(*k);
    }
    assert(r@ =~= all);
    proof {
        assert forall|k: u32| stacks@.contains_key(k) implies #[trigger] r@.contains(k) by {
            assert(all.to_set().contains(k));
        }
    }
    r
}

/// A copy of every stack of `stacks` with its index.
fn snapshot_of(stacks: &HashMap<u32, VecStack>) -> (r: Vec<(u32, Vec<u32>)>)
    ensures
        is_snapshot(r@, contents_of(stacks@)),
{
    broadcast use vstd::std_specs::hash::group_hash_axioms;

    let ghost all = vstd::std_specs::iter::IteratorSpec::remaining(&vstd::std_specs::hash::spec_hash_map_iter(stacks));
    let mut r: Vec<(u32, Vec<u32>)> = Vec::new();
    for entry in it: stacks.iter()
        invariant
            it.seq() == all,
            all.no_duplicates(),
            all.len() == stacks@.dom().len(),
            forall|i: int| 0 <= i < all.len() ==> #[trigger] stacks@.contains_key(*all[i].0) && stacks@[*all[i].0] == *all[i].1,
            forall|k: u32| #[trigger] stacks@.contains_key(k) ==> all.contains((&k, &stacks@[k])),
            r.len() == it.index(),
            forall|j: int| 0 <= j < it.index() ==> r@[j].0 == *all[j].0 && r@[j].1@ == (*all[j].1)@,
    {
        let (k, s) = entry;
        r.push((*k, s.snapshot()));
    }
    proof {
        lemma_contents_of(stacks@);
        let m = contents_of(stacks@);
        assert forall|i: int| 0 <= i < r.len() implies #[trigger] m.contains_key(r@[i].0) && r@[i].1@ == m[r@[i].0] by {
            assert(stacks@.contains_key(*all[i].0));
        }
        assert forall|i: int, j: int| 0 <= i < j < r.len() implies r@[i].0 != r@[j].0 by {
            if r@[i].0 == r@[j].0 {
                assert(stacks@.contains_key(*all[i].0));
                assert(stacks@.contains_key(*all[j].0));
                assert(all[i] == all[j]);
            }
        }
        assert forall|k: u32| #[trigger] m.contains_key(k) implies exists|i: int| 0 <= i < r.len() && r@[i].0 == k by {
            assert(all.contains((&k, &stacks@[k])));
            let i = choose|i: int| 0 <= i < all.len() && all[i] == (&k, &stacks@[k]);
            assert(r@[i].0 == k);
        }
    }
    r
}

/// Removes from `stacks` every empty stack at an index of at least
/// `program_defined` other than `remote_index`.
fn sweep(stacks: &mut HashMap<u32, VecStack>, program_defined: u32, remote_index: u32)
    ensures
        contents_of(final(stacks)@) == collected(contents_of(old(stacks)@), program_defined, remote_index),
{
    broadcast use vstd::std_specs::hash::group_hash_axioms;

    let ghost before = contents_of(stacks@);
    let keys = indices_of(stacks);
    let mut i: usize = 0;
    while i < keys.len()
        invariant
            i <= keys.len(),
            before == contents_of(old(stacks)@),
            forall|k: u32| old(stacks)@.contains_key(k) ==> #[trigger] keys@.contains(k),
            forall|k: u32| #[trigger] stacks@.contains_key(k) <==> (before.contains_key(k) && !(
                keys@.subrange(0, i as int).contains(k) && !survives(before, program_defined, remote_index, k))),
            forall|k: u32| #[trigger] stacks@.contains_key(k) ==> stacks@[k]@ == before[k],
        decreases keys.len() - i,
    {
        let key = keys[i];
        let ghost prefix = keys@.subrange(0, i as int);
        let ghost next = keys@.subrange(0, i + 1);
        let ghost pre = stacks@;
        assert(next =~= prefix.push(key));
        if key >= program_defined && key != remote_index {
            let empty = match stacks.get(&key) {
                Some(s) => s.is_empty(),
                None => false,
            };
            if empty {
                stacks.remove(&key);
            }
        }
        proof {
            assert forall|k: u32| #[trigger] stacks@.contains_key(k) <==> (before.contains_key(k) && !(
                next.contains(k) && !survives(before, program_defined, remote_index, k))) by {
                if prefix.contains(k) {
                    let j = choose|j: int| 0 <= j < prefix.len() && prefix[j] == k;
                    assert(next[j] == k);
                }
                if k == key {
                    assert(next[i as int] == k);
                }
                if next.contains(k) {
                    let j = choose|j: int| 0 <= j < next.len() && next[j] == k;
                    if j < i {
                        assert(prefix[j] == k);
                    }
                }
                if k == key && pre.contains_key(k) {
                    assert(pre[k]@ == before[k]);
                }
            }
        }
        i = i + 1;
    }
    assert(keys@.subrange(0, keys.len() as int) =~= keys@);
    assert(contents_of(stacks@) =~= collected(before, program_defined, remote_index));
}

} // verus!
