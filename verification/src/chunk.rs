use vstd::prelude::*;

verus! {

/// A fixed-capacity contiguous block holding a bounded run of logically
/// consecutive elements, in insertion order. The capacity bound `N` is
/// checked on every insert; a chunk never grows beyond `N` elements.
pub struct Chunk<T, const N: usize> {
    elements: Vec<T>,
}

impl<T, const N: usize> View for Chunk<T, N> {
    type V = Seq<T>;

    closed spec fn view(&self) -> Seq<T> {
        self.elements@
    }
}

impl<T, const N: usize> Chunk<T, N> {
    /// The chunk's one invariant: its length never exceeds the capacity `N`.
    pub open spec fn wf(&self) -> bool {
        self@.len() <= N
    }

    pub fn new() -> (r: Self)
        ensures
            r@ == Seq::<T>::empty(),
            r.wf(),
    {
        Self { elements: Vec::with_capacity(N) }
    }

    pub fn len(&self) -> (r: usize)
        ensures
            r == self@.len(),
    {
        self.elements.len()
    }

    pub fn is_empty(&self) -> (r: bool)
        ensures
            r == (self@.len() == 0),
    {
        self.len() == 0
    }

    pub fn is_full(&self) -> (r: bool)
        ensures
            r == (self@.len() == N),
    {
        self.len() == N
    }

    /// Appends at the logical end. Returns false, leaving the chunk
    /// unchanged, when the chunk is already at capacity.
    pub fn push_back(&mut self, value: T) -> (r: bool)
        requires
            old(self).wf(),
        ensures
            final(self).wf(),
            old(self)@.len() < N ==> r && final(self)@ == old(self)@.push(value),
            old(self)@.len() == N ==> !r && final(self)@ == old(self)@,
    {
        if self.is_full() {
            return false;
        }
        self.elements.push(value);
        true
    }

    /// Inserts at the logical start, shifting the existing elements one
    /// position towards the back. Same capacity contract as `push_back`.
    pub fn push_front(&mut self, value: T) -> (r: bool)
        requires
            old(self).wf(),
        ensures
            final(self).wf(),
            old(self)@.len() < N ==> r && final(self)@ == seq![value] + old(self)@,
            old(self)@.len() == N ==> !r && final(self)@ == old(self)@,
    {
        if self.is_full() {
            return false;
        }
        self.elements.insert(0, value);
        proof {
            assert(self@ =~= seq![value] + old(self)@);
        }
        true
    }

    /// Removes and returns the last element, or `None` on an empty chunk.
    pub fn pop_back(&mut self) -> (r: Option<T>)
        requires
            old(self).wf(),
        ensures
            final(self).wf(),
            match r {
                Some(x) => {
                    &&& old(self)@.len() > 0
                    &&& x == old(self)@.last()
                    &&& final(self)@ == old(self)@.drop_last()
                },
                None => {
                    &&& old(self)@.len() == 0
                    &&& final(self)@ == old(self)@
                },
            },
    {
        self.elements.pop()
    }

    /// Removes and returns the first element, shifting the rest down by one,
    /// or `None` on an empty chunk.
    pub fn pop_front(&mut self) -> (r: Option<T>)
        requires
            old(self).wf(),
        ensures
            final(self).wf(),
            match r {
                Some(x) => {
                    &&& old(self)@.len() > 0
                    &&& x == old(self)@.first()
                    &&& final(self)@ == old(self)@.drop_first()
                },
                None => {
                    &&& old(self)@.len() == 0
                    &&& final(self)@ == old(self)@
                },
            },
    {
        if self.elements.len() == 0 {
            None
        } else {
            let x = self.elements.remove(0);
            proof {
                assert(self@ =~= old(self)@.drop_first());
            }
            Some(x)
        }
    }

    /// Returns a reference to the i-th element if `i` is within the populated
    /// range, `None` if `i` is within capacity but past the current length.
    /// An index at or beyond the static capacity `N` is outside the contract.
    pub fn get(&self, i: usize) -> (r: Option<&T>)
        requires
            i < N,
            self.wf(),
        ensures
            match r {
                Some(v) => i < self@.len() && *v == self@[i as int],
                None => i >= self@.len(),
            },
    {
        if i < self.elements.len() {
            Some(&self.elements[i])
        } else {
            None
        }
    }

    /// Removes and returns the i-th element, shifting subsequent elements
    /// down, or `None` if `i` is past the current length. As with `get`, an
    /// index at or beyond the capacity `N` is outside the contract.
    pub fn remove(&mut self, i: usize) -> (r: Option<T>)
        requires
            i < N,
            old(self).wf(),
        ensures
            final(self).wf(),
            match r {
                Some(x) => {
                    &&& i < old(self)@.len()
                    &&& x == old(self)@[i as int]
                    &&& final(self)@ == old(self)@.remove(i as int)
                },
                None => {
                    &&& i >= old(self)@.len()
                    &&& final(self)@ == old(self)@
                },
            },
    {
        if i >= self.elements.len() {
            return None;
        }
        Some(self.elements.remove(i))
    }
}

} // verus!
