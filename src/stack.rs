//! A last-in, first-out stack of unsigned 32-bit values whose reads never fail:
//! taking from an empty stack yields `0`.

use vstd::prelude::*;

verus! {

/// The value on top of `s`, or `0` when `s` is empty.
pub open spec fn top(s: Seq<u32>) -> u32 {
    if s.len() == 0 {
        0
    } else {
        s.last()
    }
}

/// `s` with its top value taken off; an empty stack stays empty.
pub open spec fn popped(s: Seq<u32>) -> Seq<u32> {
    if s.len() == 0 {
        s
    } else {
        s.drop_last()
    }
}

/// A stack of `u32` values, bottom first.
#[derive(Clone, Debug)]
pub struct VecStack {
    stack: Vec<u32>,
}

impl View for VecStack {
    type V = Seq<u32>;

    closed spec fn view(&self) -> Seq<u32> {
        self.stack@
    }
}

impl Default for VecStack {
    fn default() -> (r: Self)
        ensures
            r@ == Seq::<u32>::empty(),
    {
        VecStack { stack: Vec::new() }
    }
}

impl VecStack {
    /// The values on the stack, bottom to top.
    pub fn values(&self) -> (r: &Vec<u32>)
        ensures
            r@ == self@,
    {
        &self.stack
    }

    pub fn push(&mut self, value: u32)
        ensures
            final(self)@ == old(self)@.push(value),
    {
        self.stack.push(value);
    }

    /// Takes the top value off; an empty stack gives `0`.
    pub fn pop(&mut self) -> (r: u32)
        ensures
            r == top(old(self)@),
            final(self)@ == popped(old(self)@),
    {
        match self.stack.pop() {
            Some(v) => v,
            None => 0,
        }
    }

    /// Two pops in a row: the top value first, then the one beneath it.
    pub fn pop2(&mut self) -> (r: (u32, u32))
        ensures
            r.0 == top(old(self)@),
            r.1 == top(popped(old(self)@)),
            final(self)@ == popped(popped(old(self)@)),
    {
        let a = self.pop();
        let b = self.pop();
        (a, b)
    }

    /// The top value, left in place; `0` when empty.
    pub fn peek(&self) -> (r: u32)
        ensures
            r == top(self@),
    {
        let n = self.stack.len();
        if n == 0 {
            0
        } else {
            self.stack[n - 1]
        }
    }

    pub fn clear(&mut self)
        ensures
            final(self)@ == Seq::<u32>::empty(),
    {
        self.stack.clear();
    }

    pub fn reverse(&mut self)
        ensures
            final(self)@ == old(self)@.reverse(),
    {
        let mut reversed: Vec<u32> = Vec::new();
        let mut i: usize = self.stack.len();
        while i > 0
            invariant
                i <= self.stack.len(),
                reversed@ == self.stack@.subrange(i as int, self.stack.len() as int).reverse(),
            decreases i,
        {
            i = i - 1;
            reversed.push(self.stack[i]);
            assert(reversed@ =~= self.stack@.subrange(i as int, self.stack.len() as int).reverse());
        }
        assert(self.stack@.subrange(0, self.stack.len() as int) =~= self.stack@);
        self.stack = reversed;
    }

    /// A copy of the values on the stack, bottom to top.
    pub fn snapshot(&self) -> (r: Vec<u32>)
        ensures
            r@ == self@,
    {
        let mut r: Vec<u32> = Vec::new();
        let mut i: usize = 0;
        while i < self.stack.len()
            invariant
                i <= self.stack.len(),
                r@ == self.stack@.subrange(0, i as int),
            decreases self.stack.len() - i,
        {
            r.push(self.stack[i]);
            i = i + 1;
            assert(r@ =~= self.stack@.subrange(0, i as int));
        }
        assert(r@ =~= self.stack@);
        r
    }

    /// Replaces the whole stack with `values`, bottom first.
    pub fn set_all(&mut self, values: Vec<u32>)
        ensures
            final(self)@ == values@,
    {
        self.stack = values;
    }

    pub fn is_empty(&self) -> (r: bool)
        ensures
            r == (self@.len() == 0),
    {
        self.stack.len() == 0
    }
}

/// The operations of a column's stack, over its contents bottom to top.
pub trait Stack {
    spec fn contents(&self) -> Seq<u32>;

    fn values(&self) -> (r: &Vec<u32>)
        ensures
            r@ == self.contents(),
    ;

    fn push(&mut self, value: u32)
        ensures
            final(self).contents() == old(self).contents().push(value),
    ;

    fn pop(&mut self) -> (r: u32)
        ensures
            r == top(old(self).contents()),
            final(self).contents() == popped(old(self).contents()),
    ;

    fn pop2(&mut self) -> (r: (u32, u32))
        ensures
            r.0 == top(old(self).contents()),
            r.1 == top(popped(old(self).contents())),
            final(self).contents() == popped(popped(old(self).contents())),
    ;

    fn peek(&self) -> (r: u32)
        ensures
            r == top(self.contents()),
    ;

    fn clear(&mut self)
        ensures
            final(self).contents() == Seq::<u32>::empty(),
    ;

    fn reverse(&mut self)
        ensures
            final(self).contents() == old(self).contents().reverse(),
    ;

    fn set_all(&mut self, values: Vec<u32>)
        ensures
            final(self).contents() == values@,
    ;

    fn is_empty(&self) -> (r: bool)
        ensures
            r == (self.contents().len() == 0),
    ;
}

impl Stack for VecStack {
    open spec fn contents(&self) -> Seq<u32> {
        self@
    }

    fn values(&self) -> (r: &Vec<u32>) {
        VecStack::values(self)
    }

    fn push(&mut self, value: u32) {
        VecStack::push(self, value)
    }

    fn pop(&mut self) -> (r: u32) {
        VecStack::pop(self)
    }

    fn pop2(&mut self) -> (r: (u32, u32)) {
        VecStack::pop2(self)
    }

    fn peek(&self) -> (r: u32) {
        VecStack::peek(self)
    }

    fn clear(&mut self) {
        VecStack::clear(self)
    }

    fn reverse(&mut self) {
        VecStack::reverse(self)
    }

    fn set_all(&mut self, values: Vec<u32>) {
        VecStack::set_all(self, values)
    }

    fn is_empty(&self) -> (r: bool) {
        VecStack::is_empty(self)
    }
}

} // verus!
