//! A generic LIFO container.
//!
//! The view of a stack is the sequence of its elements, bottom first, so the
//! top of the stack is the last element of the view.

use vstd::prelude::*;

verus! {

/// Last-in-first-out container backed by a vector.
pub struct Stack<T> {
    data: Vec<T>,
}

impl<T> View for Stack<T> {
    type V = Seq<T>;

    closed spec fn view(&self) -> Seq<T> {
        self.data@
    }
}

impl<T> Stack<T> {
    /// Creates an empty stack.
    pub fn new() -> (s: Self)
        ensures
            s@ == Seq::<T>::empty(),
    {
        Stack { data: Vec::new() }
    }

    /// True exactly when the stack holds no element.
    pub fn is_empty(&self) -> (r: bool)
        ensures
            r == (self@.len() == 0),
    {
        self.data.len() == 0
    }

    /// Number of elements currently held.
    pub fn len(&self) -> (n: usize)
        ensures
            n == self@.len(),
    {
        self.data.len()
    }

    /// Removes every element.
    pub fn clear(&mut self)
        ensures
            final(self)@ == Seq::<T>::empty(),
    {
        self.data.clear();
    }

    /// Pushes `val` on top of the stack; growth is implicit, a push never fails.
    pub fn push(&mut self, val: T)
        ensures
            final(self)@ == old(self)@.push(val),
    {
        self.data.push(val);
    }

    /// Removes and returns the top element, or `None` on an empty stack.
    pub fn pop(&mut self) -> (r: Option<T>)
        ensures
            old(self)@.len() == 0 ==> r is None && final(self)@ == old(self)@,
            old(self)@.len() > 0 ==> r == Some(old(self)@.last()) && final(self)@
                == old(self)@.drop_last(),
    {
        if self.data.len() == 0 {
            return None;
        }
        let r = self.data.pop();
        proof {
            assert(old(self)@.subrange(0, old(self)@.len() - 1) =~= old(self)@.drop_last());
        }
        r
    }

    /// Borrows the top element without removing it, or `None` on an empty stack.
    pub fn peek(&self) -> (r: Option<&T>)
        ensures
            self@.len() == 0 ==> r is None,
            self@.len() > 0 ==> r.is_some() && *r.unwrap() == self@.last(),
    {
        if self.data.len() == 0 {
            return None;
        }
        Some(&self.data[self.data.len() - 1])
    }

    /// Mutably borrows the top element, or `None` on an empty stack.
    ///
    /// The new view keeps every element but the top, which becomes whatever
    /// the caller wrote through the returned reference.
    pub fn peek_mut(&mut self) -> (r: Option<&mut T>)
        ensures
            old(self)@.len() == 0 ==> r is None && final(self)@ == old(self)@,
            old(self)@.len() > 0 ==> r.is_some() && *r.unwrap() == old(self)@.last()
                && final(self)@ == old(self)@.update(old(self)@.len() - 1, *final(r.unwrap())),
    {
        if self.data.len() == 0 {
            return None;
        }
        let i = self.data.len() - 1;
        Some(&mut self.data[i])
    }

    /// Consumes the stack and returns its elements in pop order, top first.
    pub fn into_iter(self) -> (r: Vec<T>)
        ensures
            r@ == self@.reverse(),
    {
        let mut rest = self;
        let mut out: Vec<T> = Vec::new();
        let ghost orig: Seq<T> = rest@;
        while rest.data.len() > 0
            invariant
                out@.len() + rest@.len() == orig.len(),
                rest@ == orig.take(rest@.len() as int),
                forall|j: int| 0 <= j < out@.len() ==> out@[j] == orig[orig.len() - 1 - j],
            decreases rest@.len(),
        {
            proof {
                assert(rest@.last() == orig[rest@.len() - 1]);
                assert(rest@.drop_last() =~= orig.take(rest@.len() - 1));
            }
            let v = rest.pop().unwrap();
            out.push(v);
        }
        proof {
            assert(out@ =~= orig.reverse());
        }
        out
    }

    /// Returns a copy of the elements in iteration order, top first; the
    /// stack itself is unchanged.
    pub fn iter(&self) -> (r: Vec<T>) where T: Copy
        ensures
            r@ == self@.reverse(),
    {
        let mut out: Vec<T> = Vec::new();
        let n = self.data.len();
        for i in 0..n
            invariant
                n == self@.len(),
                out@.len() == i,
                forall|j: int| 0 <= j < i ==> out@[j] == self@[n - 1 - j],
        {
            out.push(self.data[n - 1 - i]);
        }
        proof {
            assert(out@ =~= self@.reverse());
        }
        out
    }
}

/// One abstract stack operation: a push of a value, or a pop.
pub enum StackOp<T> {
    Push(T),
    Pop,
}

/// The sequence an operation leaves behind: a push appends, a pop removes the
/// last element and leaves an empty sequence unchanged, exactly as
/// [`Stack::push`] and [`Stack::pop`] do on the view.
pub open spec fn stack_step<T>(s: Seq<T>, op: StackOp<T>) -> Seq<T> {
    match op {
        StackOp::Push(v) => s.push(v),
        StackOp::Pop => if s.len() == 0 {
            s
        } else {
            s.drop_last()
        },
    }
}

/// Runs a whole sequence of operations, first operation first.
pub open spec fn run_ops<T>(s: Seq<T>, ops: Seq<StackOp<T>>) -> Seq<T>
    decreases ops.len(),
{
    if ops.len() == 0 {
        s
    } else {
        run_ops(stack_step(s, ops[0]), ops.drop_first())
    }
}

/// The length left by a sequence of operations, computed from the starting
/// length alone: a push adds one, a pop subtracts one unless nothing is there.
pub open spec fn len_after_ops<T>(n: nat, ops: Seq<StackOp<T>>) -> nat
    decreases ops.len(),
{
    if ops.len() == 0 {
        n
    } else {
        len_after_ops(
            match ops[0] {
                StackOp::Push(_) => n + 1,
                StackOp::Pop => if n == 0 {
                    0
                } else {
                    (n - 1) as nat
                },
            },
            ops.drop_first(),
        )
    }
}

/// After any sequence of pushes and pops the stack length equals the net push
/// count: pushes minus the pops that found an element. In particular the
/// length never depends on which values were pushed, and a pop on an empty
/// stack leaves the length at zero rather than failing.
pub proof fn lemma_stack_len_after_ops<T>(s: Seq<T>, ops: Seq<StackOp<T>>)
    ensures
        run_ops(s, ops).len() == len_after_ops(s.len(), ops),
    decreases ops.len(),
{
    if ops.len() > 0 {
        lemma_stack_len_after_ops(stack_step(s, ops[0]), ops.drop_first());
    }
}

} // verus!
