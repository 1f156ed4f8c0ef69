//! Memory kept in a single map from column index to stack.

use vstd::prelude::*;
use crate::stack::VecStack;
use crate::program::{ProgramState, contents_of, ensured, fresh_memory, lemma_contents_of, snapshot_of, sweep};
use std::collections::HashMap;

verus! {

/// Every stack, program-defined or not, in one map keyed by column index.
pub struct SimpleProgramState {
    stacks: HashMap<u32, VecStack>,
    program_defined: Ghost<u32>,
}

impl ProgramState for SimpleProgramState {
    closed spec fn memory(&self) -> Map<u32, Seq<u32>> {
        contents_of(self.stacks@)
    }

    closed spec fn defined(&self) -> u32 {
        self.program_defined@
    }

    closed spec fn wf(&self) -> bool {
        true
    }

    fn new(initial_count: u32) -> (r: Self) {
        broadcast use vstd::std_specs::hash::group_hash_axioms;

        let mut stacks: HashMap<u32, VecStack> = HashMap::new();
        let mut i: u32 = 0;
        while i < initial_count
            invariant
                i <= initial_count,
                contents_of(stacks@) == fresh_memory(i),
            decreases initial_count - i,
        {
            let ghost pre = stacks@;
            let fresh = VecStack::default();
            stacks.insert(i, fresh);
            proof {
                lemma_contents_of(pre);
                lemma_contents_of(stacks@);
            }
            assert(fresh@ == Seq::<u32>::empty());
            assert(stacks@ == pre.insert(i, fresh));
            assert(contents_of(stacks@) =~= fresh_memory((i + 1) as u32)) by {
                assert forall|k: u32| #[trigger] contents_of(stacks@).contains_key(k) <==> k < i + 1 by {
                    assert(contents_of(pre).contains_key(k) <==> pre.contains_key(k));
                    assert(contents_of(pre).contains_key(k) <==> fresh_memory(i).contains_key(k));
                }
                assert forall|k: u32| #[trigger] contents_of(stacks@).contains_key(k) implies contents_of(stacks@)[k]
                    == Seq::<u32>::empty() by {
                    if k != i {
                        assert(contents_of(pre).contains_key(k));
                        assert(contents_of(pre)[k] == fresh_memory(i)[k]);
                    }
                }
            }
            i = i + 1;
        }
        SimpleProgramState { stacks, program_defined: Ghost(initial_count) }
    }

    fn nth(&self, index: u32) -> (r: Option<&VecStack>) {
        broadcast use vstd::std_specs::hash::group_hash_axioms;

        self.stacks.get(&index)
    }

    fn replace_stack(&mut self, index: u32, stack: VecStack) -> (r: VecStack) {
        broadcast use vstd::std_specs::hash::group_hash_axioms;

        let ghost before = self.stacks@;
        let replaced = self.stacks.insert(index, stack);
        assert(contents_of(self.stacks@) =~= contents_of(before).insert(index, stack@));
        match replaced {
            Some(s) => s,
            None => VecStack::default(),
        }
    }

    fn collect_garbage(&mut self, program_defined: u32, remote_index: u32) {
        sweep(&mut self.stacks, program_defined, remote_index);
    }

    fn insert_stack(&mut self, index: u32) {
        broadcast use vstd::std_specs::hash::group_hash_axioms;

        let ghost before = self.stacks@;
        if !self.stacks.contains_key(&index) {
            let fresh = VecStack::default();
            self.stacks.insert(index, fresh);
            assert(contents_of(self.stacks@) =~= ensured(contents_of(before), index));
        }
    }

    fn stacks(&self) -> (r: Vec<(u32, Vec<u32>)>) {
        snapshot_of(&self.stacks)
    }
}

} // verus!
