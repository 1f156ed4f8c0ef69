//! Memory with the program-defined stacks in a vector and the others in a map.

use vstd::prelude::*;
use crate::stack::VecStack;
use crate::program::{ProgramState, contents_of, collected, ensured, fresh_memory, lemma_contents_of, snapshot_of, sweep};
use std::collections::HashMap;

verus! {

/// The program-defined stacks by position, and the stacks beyond them in a map
/// keyed by column index.
pub struct AdvancedProgramState {
    program_stacks: Vec<VecStack>,
    extended_stacks: HashMap<u32, VecStack>,
}

impl ProgramState for AdvancedProgramState {
    closed spec fn memory(&self) -> Map<u32, Seq<u32>> {
        Map::new(
            |i: u32| i < self.program_stacks.len() || self.extended_stacks@.contains_key(i),
            |i: u32|
                if i < self.program_stacks.len() {
                    self.program_stacks@[i as int]@
                } else {
                    self.extended_stacks@[i]@
                },
        )
    }

    closed spec fn defined(&self) -> u32 {
        self.program_stacks.len() as u32
    }

    closed spec fn wf(&self) -> bool {
        &&& self.program_stacks.len() <= u32::MAX
        &&& forall|i: u32| #[trigger] self.extended_stacks@.contains_key(i) ==> i >= self.program_stacks.len()
    }

    fn new(initial_count: u32) -> (r: Self) {
        broadcast use vstd::std_specs::hash::group_hash_axioms;

        let mut program_stacks: Vec<VecStack> = Vec::new();
        let mut i: u32 = 0;
        while i < initial_count
            invariant
                i <= initial_count,
                program_stacks.len() == i,
                forall|j: int| 0 <= j < i ==> (#[trigger] program_stacks@[j])@ == Seq::<u32>::empty(),
            decreases initial_count - i,
        {
            program_stacks.push(VecStack::default());
            i = i + 1;
        }
        let r = AdvancedProgramState { program_stacks, extended_stacks: HashMap::new() };
        assert(r.memory() =~= fresh_memory(initial_count));
        r
    }

    fn nth(&self, index: u32) -> (r: Option<&VecStack>) {
        broadcast use vstd::std_specs::hash::group_hash_axioms;

        if (index as usize) < self.program_stacks.len() {
            Some(&self.program_stacks[index as usize])
        } else {
            self.extended_stacks.get(&index)
        }
    }

    fn replace_stack(&mut self, index: u32, stack: VecStack) -> (r: VecStack) {
        broadcast use vstd::std_specs::hash::group_hash_axioms;

        let ghost before = self.memory();
        let ghost new_contents = stack@;
        if (index as usize) < self.program_stacks.len() {
            self.program_stacks.push(stack);
            let replaced = self.program_stacks.swap_remove(index as usize);
            assert(self.memory() =~= before.insert(index, new_contents));
            replaced
        } else {
            let replaced = self.extended_stacks.insert(index, stack);
            assert(self.memory() =~= before.insert(index, new_contents));
            match replaced {
                Some(s) => s,
                None => VecStack::default(),
            }
        }
    }

    fn collect_garbage(&mut self, program_defined: u32, remote_index: u32) {
        let ghost before = self.memory();
        let ghost ext = self.extended_stacks@;
        sweep(&mut self.extended_stacks, program_defined, remote_index);
        proof {
            lemma_contents_of(ext);
            lemma_contents_of(self.extended_stacks@);
            assert forall|k: u32| #[trigger] self.extended_stacks@.contains_key(k) implies k >= self.program_stacks.len() by {
                assert(contents_of(self.extended_stacks@).contains_key(k));
            }
            assert(self.memory() =~= collected(before, program_defined, remote_index)) by {
                assert forall|k: u32| #[trigger] self.memory().contains_key(k) <==> collected(before, program_defined, remote_index).contains_key(k) by {
                    if k >= self.program_stacks.len() {
                        assert(before.contains_key(k) <==> ext.contains_key(k));
                        assert(contents_of(self.extended_stacks@).contains_key(k) <==> collected(contents_of(ext), program_defined, remote_index).contains_key(k));
                        if ext.contains_key(k) {
                            assert(before[k] == contents_of(ext)[k]);
                        }
                    }
                }
                assert forall|k: u32| #[trigger] self.memory().contains_key(k) implies self.memory()[k]
                    == collected(before, program_defined, remote_index)[k] by {
                    if k >= self.program_stacks.len() {
                        assert(contents_of(self.extended_stacks@)[k] == contents_of(ext)[k]);
                    }
                }
            }
        }
    }

    fn insert_stack(&mut self, index: u32) {
        broadcast use vstd::std_specs::hash::group_hash_axioms;

        let ghost before = self.memory();
        if (index as usize) < self.program_stacks.len() || self.extended_stacks.contains_key(&index) {
            return;
        }
        self.extended_stacks.insert(index, VecStack::default());
        assert(self.memory() =~= ensured(before, index));
    }

    fn stacks(&self) -> (r: Vec<(u32, Vec<u32>)>) {
        let mut r: Vec<(u32, Vec<u32>)> = Vec::new();
        let mut i: usize = 0;
        while i < self.program_stacks.len()
            invariant
                i <= self.program_stacks.len(),
                self.wf(),
                r.len() == i,
                forall|j: int| 0 <= j < i ==> #[trigger] r@[j].0 == j && r@[j].1@ == self.program_stacks@[j]@,
            decreases self.program_stacks.len() - i,
        {
            r.push((i as u32, self.program_stacks[i].snapshot()));
            i = i + 1;
        }
        let mut extended = snapshot_of(&self.extended_stacks);
        let ghost head = r@;
        let ghost tail = extended@;
        r.append(&mut extended);
        proof {
            lemma_contents_of(self.extended_stacks@);
            let n = self.program_stacks.len();
            let m = self.memory();
            assert(r@ == head + tail);
            assert forall|i: int| 0 <= i < r.len() implies #[trigger] m.contains_key(r@[i].0) && r@[i].1@ == m[r@[i].0] by {
                if i >= n {
                    assert(r@[i] == tail[i - n]);
                    assert(contents_of(self.extended_stacks@).contains_key(tail[i - n].0));
                }
            }
            assert forall|i: int, j: int| 0 <= i < j < r.len() implies r@[i].0 != r@[j].0 by {
                if j >= n {
                    assert(r@[j] == tail[j - n]);
                    assert(contents_of(self.extended_stacks@).contains_key(tail[j - n].0));
                    if i >= n {
                        assert(r@[i] == tail[i - n]);
                    }
                }
            }
            assert forall|k: u32| #[trigger] m.contains_key(k) implies exists|i: int| 0 <= i < r.len() && r@[i].0 == k by {
                if k < n {
                    assert(r@[k as int].0 == k);
                } else {
                    assert(contents_of(self.extended_stacks@).contains_key(k));
                    let t = choose|t: int| 0 <= t < tail.len() && tail[t].0 == k;
                    assert(r@[n + t] == tail[t]);
                }
            }
        }
        r
    }
}

} // verus!
