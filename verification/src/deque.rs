//! A bounded double-ended container.
//!
//! The view of a deque is the sequence of its elements from front to rear:
//! index 0 is the front end, the last index the rear end. Elements can be
//! added and removed at both ends, so the deque behaves both as a stack and
//! as a queue.

use vstd::prelude::*;

verus! {

/// Double-ended container with a fixed capacity.
pub struct Deque<T> {
    cap: usize,
    data: Vec<T>,
}

impl<T> View for Deque<T> {
    type V = Seq<T>;

    closed spec fn view(&self) -> Seq<T> {
        self.data@.reverse()
    }
}

impl<T> Deque<T> {
    /// The capacity the deque was created with.
    pub closed spec fn cap(&self) -> nat {
        self.cap as nat
    }

    /// Creates an empty deque that can hold up to `cap` elements.
    pub fn new(cap: usize) -> (d: Self)
        ensures
            d@ == Seq::<T>::empty(),
            d.cap() == cap,
    {
        let d = Deque { cap, data: Vec::with_capacity(cap) };
        proof {
            assert(d@ =~= Seq::<T>::empty());
        }
        d
    }

    /// Number of elements currently held.
    pub fn len(&self) -> (n: usize)
        ensures
            n == self@.len(),
    {
        self.data.len()
    }

    /// True exactly when the deque holds no element.
    pub fn is_empty(&self) -> (r: bool)
        ensures
            r == (self@.len() == 0),
    {
        self.len() == 0
    }

    /// True exactly when the deque holds as many elements as its capacity.
    pub fn is_full(&self) -> (r: bool)
        ensures
            r == (self@.len() == self.cap()),
    {
        self.len() == self.cap
    }

    /// Removes every element; the capacity is kept.
    pub fn clear(&mut self)
        ensures
            final(self)@ == Seq::<T>::empty(),
            final(self).cap() == old(self).cap(),
    {
        self.data = Vec::with_capacity(self.cap);
        proof {
            assert(self@ =~= Seq::<T>::empty());
        }
    }

    /// Adds `val` at the front, or reports the deque full and leaves it
    /// unchanged.
    pub fn add_front(&mut self, val: T) -> (r: Result<(), String>)
        ensures
            final(self).cap() == old(self).cap(),
            old(self)@.len() == old(self).cap() ==> r is Err && final(self)@ == old(self)@,
            old(self)@.len() != old(self).cap() ==> r is Ok && final(self)@ == seq![val] + old(
                self,
            )@,
            r matches Err(m) ==> m@ == "No space available"@,
    {
        if self.is_full() {
            return Err(String::from_str("No space available"));
        }
        self.data.push(val);
        proof {
            assert(self@ =~= seq![val] + old(self)@);
        }
        Ok(())
    }

    /// Adds `val` at the rear, or reports the deque full and leaves it
    /// unchanged.
    pub fn add_rear(&mut self, val: T) -> (r: Result<(), String>)
        ensures
            final(self).cap() == old(self).cap(),
            old(self)@.len() == old(self).cap() ==> r is Err && final(self)@ == old(self)@,
            old(self)@.len() != old(self).cap() ==> r is Ok && final(self)@ == old(self)@.push(
                val,
            ),
            r matches Err(m) ==> m@ == "No space available"@,
    {
        if self.is_full() {
            return Err(String::from_str("No space available"));
        }
        self.data.insert(0, val);
        proof {
            assert(self@ =~= old(self)@.push(val));
        }
        Ok(())
    }

    /// Removes and returns the front element, or `None` on an empty deque.
    pub fn remove_front(&mut self) -> (r: Option<T>)
        ensures
            final(self).cap() == old(self).cap(),
            old(self)@.len() == 0 ==> r is None && final(self)@ == old(self)@,
            old(self)@.len() > 0 ==> r == Some(old(self)@.first()) && final(self)@ == old(
                self,
            )@.drop_first(),
    {
        if self.data.len() > 0 {
            let r = self.data.pop();
            proof {
                assert(old(self)@.first() == old(self).data@.last());
                assert(self@ =~= old(self)@.drop_first());
            }
            r
        } else {
            None
        }
    }

    /// Removes and returns the rear element, or `None` on an empty deque.
    pub fn remove_rear(&mut self) -> (r: Option<T>)
        ensures
            final(self).cap() == old(self).cap(),
            old(self)@.len() == 0 ==> r is None && final(self)@ == old(self)@,
            old(self)@.len() > 0 ==> r == Some(old(self)@.last()) && final(self)@ == old(
                self,
            )@.drop_last(),
    {
        if self.data.len() > 0 {
            let v = self.data.remove(0);
            proof {
                assert(old(self)@.last() == old(self).data@.first());
                assert(self@ =~= old(self)@.drop_last());
            }
            Some(v)
        } else {
            None
        }
    }

    /// Consumes the deque and returns its elements in iteration order,
    /// which runs from rear to front.
    pub fn into_iter(self) -> (r: Vec<T>)
        ensures
            r@ == self@.reverse(),
    {
        let Deque { cap: _, data } = self;
        proof {
            assert(data@ =~= self@.reverse());
        }
        data
    }

    /// Returns a copy of the elements in iteration order, rear to front; the
    /// deque itself is unchanged.
    pub fn iter(&self) -> (r: Vec<T>) where T: Copy
        ensures
            r@ == self@.reverse(),
    {
        let mut out: Vec<T> = Vec::new();
        let n = self.data.len();
        for i in 0..n
            invariant
                n == self.data@.len(),
                out@.len() == i,
                forall|j: int| 0 <= j < i ==> out@[j] == self.data@[j],
        {
            out.push(self.data[i]);
        }
        proof {
            assert(out@ =~= self@.reverse());
        }
        out
    }
}

} // verus!
