use vstd::prelude::*;

verus! {

use crate::chunk::Chunk;
use crate::list::ChunkList;
use crate::flattening::lemma_flatten_append;
use crate::flattening::lemma_flatten_split;
use crate::flattening::lemma_flatten_first;
use crate::flattening::lemma_flatten_index;

/// A consuming iterator: repeatedly pops from the front of the owned
/// container, yielding the elements front to back.
pub struct IntoIter<T, const N: usize>(ChunkList<T, N>);

impl<T, const N: usize> View for IntoIter<T, N> {
    type V = Seq<T>;

    closed spec fn view(&self) -> Seq<T> {
        self.0@
    }
}

impl<T, const N: usize> IntoIter<T, N> {
    /// The iterator is valid whenever the container it drains is.
    pub closed spec fn wf(&self) -> bool {
        self.0.wf()
    }

    /// Removes and returns the next remaining element, front to back, or
    /// `None` once the container is drained.
    pub fn next(&mut self) -> (r: Option<T>)
        requires
            old(self).wf(),
        ensures
            final(self).wf(),
            match r {
                Some(x) => {
                    &&& old(self)@.len() > 0
                    &&& x == old(self)@.first()
                    &&& final(self)@ == old(self)@.drop_first()
                },
                None => {
                    &&& old(self)@.len() == 0
                    &&& final(self)@ == old(self)@
                },
            },
    {
        self.0.pop_front()
    }
}

/// A borrowing iterator: walks the container chunk by chunk and element by
/// element, yielding references front to back. A fresh iterator may be
/// created any number of times from an unmodified container.
pub struct Iter<'a, T, const N: usize> {
    chunk_list: &'a ChunkList<T, N>,
    chunk_i: usize,
    element_i: usize,
}

impl<'a, T, const N: usize> Iter<'a, T, N> {
    /// The container being walked.
    pub closed spec fn list(&self) -> ChunkList<T, N> {
        *self.chunk_list
    }

    /// The logical position of the next element to yield: the total length
    /// of the chunks already passed over, plus the offset inside the
    /// current chunk.
    pub closed spec fn pos(&self) -> int {
        self.list().chunk_views().take(self.chunk_i as int).flatten().len() + self.element_i
    }

    /// Iterator validity: the container satisfies its invariant and the
    /// (chunk, offset) pair denotes either a real element or the position
    /// just past the last one.
    pub closed spec fn wf(&self) -> bool {
        &&& self.list().wf()
        &&& if self.chunk_i as int == self.list().chunk_views().len() {
            self.element_i == 0
        } else {
            &&& (self.chunk_i as int) < self.list().chunk_views().len()
            &&& (self.element_i as int) < self.list().chunk_views()[self.chunk_i as int].len()
        }
    }

    /// A valid iterator's position lies within the container's sequence.
    pub proof fn lemma_pos_in_range(&self)
        requires
            self.wf(),
        ensures
            0 <= self.pos() <= self.list()@.len(),
    {
        let cv = self.list().chunk_views();
        let k = self.chunk_i as int;
        lemma_flatten_split(cv, k);
        if k == cv.len() {
            assert(cv.take(k) =~= cv);
        } else {
            lemma_flatten_first(cv.skip(k));
        }
    }

    /// Returns a reference to the next element, front to back, advancing
    /// past chunk boundaries, or `None` once the walk is past the last
    /// element.
    pub fn next(&mut self) -> (r: Option<&'a T>)
        requires
            old(self).wf(),
        ensures
            final(self).wf(),
            final(self).list() == old(self).list(),
            match r {
                Some(v) => {
                    &&& old(self).pos() < old(self).list()@.len()
                    &&& *v == old(self).list()@[old(self).pos()]
                    &&& final(self).pos() == old(self).pos() + 1
                },
                None => {
                    &&& old(self).pos() == old(self).list()@.len()
                    &&& final(self).pos() == old(self).pos()
                },
            },
    {
        let list = self.chunk_list;
        let ghost cv = list.chunk_views();
        let ghost k = self.chunk_i as int;
        if self.chunk_i >= list.chunks_count() {
            proof {
                assert(cv.take(k) =~= cv);
            }
            return None;
        }
        proof {
            assert(cv[k].len() <= N);
            lemma_flatten_index(cv, k, self.element_i as int);
        }
        let chunk: &'a Chunk<T, N> = list.chunk_at(self.chunk_i);
        let value = chunk.get(self.element_i);
        self.element_i = self.element_i + 1;
        if self.element_i >= chunk.len() {
            self.element_i = 0;
            self.chunk_i = self.chunk_i + 1;
            proof {
                assert(cv.take(k + 1) =~= cv.take(k) + seq![cv[k]]);
                lemma_flatten_append(cv.take(k), cv[k]);
            }
        }
        value
    }
}

impl<T, const N: usize> ChunkList<T, N> {
    /// A borrowing iterator over the container, starting at the front.
    pub fn iter(&self) -> (r: Iter<'_, T, N>)
        requires
            self.wf(),
        ensures
            r.wf(),
            r.list() == *self,
            r.pos() == 0,
    {
        let r = Iter { chunk_list: self, chunk_i: 0, element_i: 0 };
        proof {
            assert(self.chunk_views().take(0) =~= Seq::<Seq<T>>::empty());
        }
        r
    }

    /// Converts the container into a consuming front-to-back iterator.
    pub fn into_iter(self) -> (r: IntoIter<T, N>)
        ensures
            r@ == self@,
            self.wf() ==> r.wf(),
    {
        IntoIter(self)
    }
}

} // verus!
