//! A bounded FIFO container.
//!
//! The view of a queue is the sequence of its elements from front to rear:
//! the element at index 0 is the next to leave, a newly added element appears
//! at the end. Internally the elements sit in a vector in the opposite order,
//! newest first, as the iteration order of [`Queue::iter`] shows.

use vstd::prelude::*;

verus! {

/// First-in-first-out container with a fixed capacity.
pub struct Queue<T> {
    cap: usize,
    data: Vec<T>,
}

impl<T> View for Queue<T> {
    type V = Seq<T>;

    closed spec fn view(&self) -> Seq<T> {
        self.data@.reverse()
    }
}

impl<T> Queue<T> {
    /// The capacity the queue was created with.
    pub closed spec fn cap(&self) -> nat {
        self.cap as nat
    }

    /// Creates an empty queue that can hold up to `size` elements.
    pub fn new(size: usize) -> (q: Self)
        ensures
            q@ == Seq::<T>::empty(),
            q.cap() == size,
    {
        let q = Queue { cap: size, data: Vec::with_capacity(size) };
        proof {
            assert(q@ =~= Seq::<T>::empty());
        }
        q
    }

    /// Number of elements currently held.
    pub fn len(&self) -> (n: usize)
        ensures
            n == self@.len(),
    {
        self.data.len()
    }

    /// True exactly when the queue holds no element.
    pub fn is_empty(&self) -> (r: bool)
        ensures
            r == (self@.len() == 0),
    {
        self.len() == 0
    }

    /// True exactly when the queue holds as many elements as its capacity.
    pub fn is_full(&self) -> (r: bool)
        ensures
            r == (self@.len() == self.cap()),
    {
        self.len() == self.cap
    }

    /// Removes every element; the capacity is kept.
    pub fn clear(&mut self)
        ensures
            final(self)@ == Seq::<T>::empty(),
            final(self).cap() == old(self).cap(),
    {
        self.data = Vec::with_capacity(self.cap);
        proof {
            assert(self@ =~= Seq::<T>::empty());
        }
    }

    /// Adds `val` at the rear, or reports the queue full and leaves it
    /// unchanged.
    pub fn enqueue(&mut self, val: T) -> (r: Result<(), String>)
        ensures
            final(self).cap() == old(self).cap(),
            old(self)@.len() == old(self).cap() ==> r is Err && final(self)@ == old(self)@,
            old(self)@.len() != old(self).cap() ==> r is Ok && final(self)@ == old(self)@.push(
                val,
            ),
            r matches Err(m) ==> m@ == "No space available"@,
    {
        if self.data.len() == self.cap {
            return Err(String::from_str("No space available"));
        }
        self.data.insert(0, val);
        proof {
            assert(self@ =~= old(self)@.push(val));
        }
        Ok(())
    }

    /// Removes and returns the front element, or `None` on an empty queue.
    pub fn dequeue(&mut self) -> (r: Option<T>)
        ensures
            final(self).cap() == old(self).cap(),
            old(self)@.len() == 0 ==> r is None && final(self)@ == old(self)@,
            old(self)@.len() > 0 ==> r == Some(old(self)@.first()) && final(self)@ == old(
                self,
            )@.drop_first(),
    {
        if self.data.len() > 0 {
            let r = self.data.pop();
            proof {
                assert(old(self)@.first() == old(self).data@.last());
                assert(self@ =~= old(self)@.drop_first());
            }
            r
        } else {
            None
        }
    }

    /// Consumes the queue and returns its elements in iteration order,
    /// which runs from rear to front.
    pub fn into_iter(self) -> (r: Vec<T>)
        ensures
            r@ == self@.reverse(),
    {
        let Queue { cap: _, data } = self;
        proof {
            assert(data@ =~= self@.reverse());
        }
        data
    }

    /// Returns a copy of the elements in iteration order, rear to front; the
    /// queue itself is unchanged.
    pub fn iter(&self) -> (r: Vec<T>) where T: Copy
        ensures
            r@ == self@.reverse(),
    {
        let mut out: Vec<T> = Vec::new();
        let n = self.data.len();
        for i in 0..n
            invariant
                n == self.data@.len(),
                out@.len() == i,
                forall|j: int| 0 <= j < i ==> out@[j] == self.data@[j],
        {
            out.push(self.data[i]);
        }
        proof {
            assert(out@ =~= self@.reverse());
        }
        out
    }
}

} // verus!
