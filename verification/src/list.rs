use vstd::prelude::*;

verus! {

use std::collections::VecDeque;
use crate::chunk::Chunk;
use crate::flattening::lemma_flatten_prepend;
use crate::flattening::lemma_flatten_append;
use crate::flattening::lemma_flatten_first;
use crate::flattening::lemma_flatten_last;
use crate::flattening::lemma_flatten_split;
use crate::flattening::lemma_flatten_index;
use vstd::seq_lib::lemma_flatten_concat;

/// The chunked double-ended sequence container: an ordered list of chunks,
/// front to back, plus a cached total element count.
///
/// Element `i` of the container is the `(i - p)`-th element of the chunk
/// that contains it, where `p` is the total length of the preceding chunks.
pub struct ChunkList<T, const N: usize> {
    chunks: VecDeque<Chunk<T, N>>,
    elements_count: usize,
}

impl<T, const N: usize> View for ChunkList<T, N> {
    type V = Seq<T>;

    open spec fn view(&self) -> Seq<T> {
        self.chunk_views().flatten()
    }
}

impl<T, const N: usize> ChunkList<T, N> {
    /// The contents of each chunk, front to back.
    pub closed spec fn chunk_views(&self) -> Seq<Seq<T>> {
        Seq::new(self.chunks@.len(), |k: int| self.chunks@[k]@)
    }

    /// The cached total element count.
    pub closed spec fn spec_count(&self) -> usize {
        self.elements_count
    }

    /// The container invariant: the capacity is positive, every chunk holds
    /// between 1 and `N` elements, and the cached count equals the number of
    /// elements across all chunks.
    pub open spec fn wf(&self) -> bool {
        &&& 0 < N
        &&& forall|k: int|
            0 <= k < self.chunk_views().len() ==> {
                &&& 1 <= (#[trigger] self.chunk_views()[k]).len()
                &&& self.chunk_views()[k].len() <= N
            }
        &&& self.spec_count() == self@.len()
    }

    /// Creates an empty container. A capacity of zero is an invalid
    /// configuration and is outside the contract.
    pub fn new() -> (r: Self)
        requires
            0 < N,
        ensures
            r.wf(),
            r@ == Seq::<T>::empty(),
            r.chunk_views() == Seq::<Seq<T>>::empty(),
            r.spec_count() == 0,
    {
        let r = ChunkList { chunks: VecDeque::new(), elements_count: 0 };
        proof {
            assert(r.chunk_views() =~= Seq::<Seq<T>>::empty());
            assert(r@ =~= Seq::<T>::empty());
        }
        r
    }

    /// Constructs the container with `count` copies of `value`, appended one
    /// by one at the back.
    pub fn new_filled(count: usize, value: &T) -> (r: Self) where T: Clone
        requires
            0 < N,
        ensures
            r.wf(),
            r@.len() == count,
            forall|k: int| 0 <= k < count ==> cloned::<T>(*value, #[trigger] r@[k]),
    {
        let mut chunk_list = Self::new();
        let mut i: usize = 0;
        while i < count
            invariant
                0 < N,
                i <= count,
                chunk_list.wf(),
                chunk_list@.len() == i,
                forall|k: int| 0 <= k < i ==> cloned::<T>(*value, #[trigger] chunk_list@[k]),
            decreases count - i,
        {
            chunk_list.push_back(value.clone());
            i = i + 1;
        }
        chunk_list
    }

    pub fn chunks_count(&self) -> (r: usize)
        ensures
            r == self.chunk_views().len(),
    {
        self.chunks.len()
    }

    pub fn elements_count(&self) -> (r: usize)
        ensures
            r == self.spec_count(),
            self.wf() ==> r == self@.len(),
    {
        self.elements_count
    }

    /// Deletes all elements: every chunk is discarded and the cached count
    /// is reset to zero, so the aggregate invariant holds afterwards.
    pub fn clear(&mut self)
        requires
            old(self).wf(),
        ensures
            final(self).wf(),
            final(self)@ == Seq::<T>::empty(),
            final(self).chunk_views() == Seq::<Seq<T>>::empty(),
            final(self).spec_count() == 0,
    {
        self.chunks.clear();
        self.elements_count = 0;
        proof {
            assert(self.chunk_views() =~= Seq::<Seq<T>>::empty());
            assert(self@ =~= Seq::<T>::empty());
        }
    }

    /// Inserts a newly created, still empty chunk at the front of the chunk
    /// sequence. The aggregate invariant does not hold again until a push
    /// fills the new chunk; the push operations use this only as an
    /// immediate precursor to such a fill.
    pub fn add_new_chunk_front(&mut self)
        ensures
            final(self).chunk_views() == seq![Seq::<T>::empty()] + old(self).chunk_views(),
            final(self)@ == old(self)@,
            final(self).spec_count() == old(self).spec_count(),
    {
        self.chunks.push_front(Chunk::new());
        proof {
            assert(self.chunk_views() =~= seq![Seq::<T>::empty()] + old(self).chunk_views());
            lemma_flatten_prepend(Seq::<T>::empty(), old(self).chunk_views());
            assert(self@ =~= old(self)@);
        }
    }

    /// Inserts a newly created, still empty chunk at the back of the chunk
    /// sequence. The same caveat as for `add_new_chunk_front` applies.
    pub fn add_new_chunk_back(&mut self)
        ensures
            final(self).chunk_views() == old(self).chunk_views() + seq![Seq::<T>::empty()],
            final(self)@ == old(self)@,
            final(self).spec_count() == old(self).spec_count(),
    {
        self.chunks.push_back(Chunk::new());
        proof {
            assert(self.chunk_views() =~= old(self).chunk_views() + seq![Seq::<T>::empty()]);
            lemma_flatten_append(old(self).chunk_views(), Seq::<T>::empty());
            assert(self@ =~= old(self)@);
        }
    }

    /// Appends `value` at the back. A new back chunk is created when there
    /// is no chunk yet or the current back chunk is full, so the push into
    /// the back chunk always succeeds.
    pub fn push_back(&mut self, value: T)
        requires
            old(self).wf(),
            old(self)@.len() < usize::MAX,
        ensures
            final(self).wf(),
            final(self)@ == old(self)@.push(value),
    {
        let ghost old_views = self.chunk_views();
        let n = self.chunks.len();
        let needs_new: bool = if n == 0 {
            true
        } else {
            self.chunks[n - 1].is_full()
        };
        if needs_new {
            self.add_new_chunk_back();
        }
        let ghost mid_views = self.chunk_views();
        let mut c = self.chunks.pop_back().unwrap();
        proof {
            assert(c@ == mid_views.last());
            if !needs_new {
                assert(old_views[old_views.len() - 1].len() <= N);
            }
            assert(c@.len() < N);
        }
        c.push_back(value);
        self.chunks.push_back(c);
        self.elements_count = self.elements_count + 1;
        proof {
            assert(self.chunk_views() =~= mid_views.drop_last() + seq![c@]);
            assert(c@ == mid_views.last().push(value));
            lemma_flatten_last(mid_views);
            lemma_flatten_append(mid_views.drop_last(), c@);
            assert(self@ =~= old(self)@.push(value));
            assert forall|k: int| 0 <= k < self.chunk_views().len() implies {
                &&& 1 <= (#[trigger] self.chunk_views()[k]).len()
                &&& self.chunk_views()[k].len() <= N
            } by {
                if k < self.chunk_views().len() - 1 {
                    assert(self.chunk_views()[k] == old_views[k]);
                }
            }
        }
    }

    /// Inserts `value` at the front. A new front chunk is created when there
    /// is no chunk yet or the current front chunk is full, so the push into
    /// the front chunk always succeeds.
    pub fn push_front(&mut self, value: T)
        requires
            old(self).wf(),
            old(self)@.len() < usize::MAX,
        ensures
            final(self).wf(),
            final(self)@ == seq![value] + old(self)@,
    {
        let ghost old_views = self.chunk_views();
        let needs_new: bool = if self.chunks.len() == 0 {
            true
        } else {
            self.chunks[0].is_full()
        };
        if needs_new {
            self.add_new_chunk_front();
        }
        let ghost mid_views = self.chunk_views();
        let mut c = self.chunks.pop_front().unwrap();
        proof {
            assert(c@ == mid_views.first());
            if !needs_new {
                assert(old_views[0].len() <= N);
            }
            assert(c@.len() < N);
        }
        c.push_front(value);
        self.chunks.push_front(c);
        self.elements_count = self.elements_count + 1;
        proof {
            assert(self.chunk_views() =~= seq![c@] + mid_views.drop_first());
            assert(c@ == seq![value] + mid_views.first());
            lemma_flatten_first(mid_views);
            lemma_flatten_prepend(c@, mid_views.drop_first());
            assert(self@ =~= seq![value] + old(self)@);
            assert forall|k: int| 0 <= k < self.chunk_views().len() implies {
                &&& 1 <= (#[trigger] self.chunk_views()[k]).len()
                &&& self.chunk_views()[k].len() <= N
            } by {
                if k >= 1 {
                    if needs_new {
                        assert(self.chunk_views()[k] == old_views[k - 1]);
                    } else {
                        assert(self.chunk_views()[k] == old_views[k]);
                    }
                }
            }
        }
    }

    /// Removes and returns the last element, or `None` when the container is
    /// empty. The back chunk is discarded once it becomes empty.
    pub fn pop_back(&mut self) -> (r: Option<T>)
        requires
            old(self).wf(),
        ensures
            final(self).wf(),
            match r {
                Some(x) => {
                    &&& old(self)@.len() > 0
                    &&& x == old(self)@.last()
                    &&& final(self)@ == old(self)@.drop_last()
                },
                None => {
                    &&& old(self)@.len() == 0
                    &&& final(self)@ == old(self)@
                    &&& final(self).chunk_views() == old(self).chunk_views()
                    &&& final(self).spec_count() == old(self).spec_count()
                },
            },
    {
        if self.chunks.len() == 0 {
            proof {
                assert(self@ =~= Seq::<T>::empty());
            }
            return None;
        }
        let ghost old_views = self.chunk_views();
        let mut c = self.chunks.pop_back().unwrap();
        proof {
            assert(c@ == old_views.last());
            assert(old_views[old_views.len() - 1].len() >= 1);
            lemma_flatten_last(old_views);
        }
        let x = c.pop_back().unwrap();
        if c.len() > 0 {
            self.chunks.push_back(c);
            proof {
                assert(self.chunk_views() =~= old_views.drop_last() + seq![c@]);
                lemma_flatten_append(old_views.drop_last(), c@);
                assert(self@ =~= old(self)@.drop_last());
                assert forall|k: int| 0 <= k < self.chunk_views().len() implies {
                    &&& 1 <= (#[trigger] self.chunk_views()[k]).len()
                    &&& self.chunk_views()[k].len() <= N
                } by {
                    if k < self.chunk_views().len() - 1 {
                        assert(self.chunk_views()[k] == old_views[k]);
                    }
                }
            }
        } else {
            proof {
                assert(self.chunk_views() =~= old_views.drop_last());
                assert(self@ =~= old(self)@.drop_last());
                assert forall|k: int| 0 <= k < self.chunk_views().len() implies {
                    &&& 1 <= (#[trigger] self.chunk_views()[k]).len()
                    &&& self.chunk_views()[k].len() <= N
                } by {
                    assert(self.chunk_views()[k] == old_views[k]);
                }
            }
        }
        self.elements_count = self.elements_count - 1;
        Some(x)
    }

    /// Finds the chunk holding logical index `i` by scanning the chunks
    /// front to back while accumulating a running total of their lengths.
    /// Returns the position of that chunk together with the accumulated
    /// length of the chunks strictly before it, so that the local offset of
    /// index `i` within the located chunk is exactly `i` minus that total.
    /// When `i` is past the last element, returns the chunk count and the
    /// total element count instead.
    fn locate(&self, i: usize) -> (r: (usize, usize))
        requires
            self.wf(),
        ensures
            ({
                let (k, prior) = r;
                &&& prior == self.chunk_views().take(k as int).flatten().len()
                &&& if i < self@.len() {
                    &&& (k as int) < self.chunk_views().len()
                    &&& prior <= i
                    &&& i - prior < self.chunk_views()[k as int].len()
                } else {
                    &&& k == self.chunk_views().len()
                    &&& prior == self@.len()
                }
            }),
    {
        let ghost cv = self.chunk_views();
        let num = self.chunks.len();
        let mut k: usize = 0;
        let mut prior: usize = 0;
        loop
            invariant
                self.wf(),
                num == self.chunk_views().len(),
                k <= num,
                prior == self.chunk_views().take(k as int).flatten().len(),
                prior <= i,
            ensures
                k <= num,
                prior == self.chunk_views().take(k as int).flatten().len(),
                prior <= i,
                k == num || i < prior + self.chunk_views()[k as int].len(),
            decreases num - k,
        {
            if k == num {
                break;
            }
            let clen = self.chunk_at(k).len();
            proof {
                let cvs = self.chunk_views();
                assert(cvs.take(k as int + 1) =~= cvs.take(k as int) + seq![cvs[k as int]]);
                lemma_flatten_append(cvs.take(k as int), cvs[k as int]);
                lemma_flatten_split(cvs, k as int + 1);
            }
            if prior + clen > i {
                break;
            }
            prior = prior + clen;
            k = k + 1;
        }
        proof {
            assert(cv.take(num as int) =~= cv);
            if k < num {
                lemma_flatten_split(cv, k as int);
                lemma_flatten_first(cv.skip(k as int));
                assert(cv.skip(k as int).first() == cv[k as int]);
            }
        }
        (k, prior)
    }

    /// Returns a reference to the i-th logical element, or `None` when `i`
    /// is out of the populated range.
    pub fn get(&self, i: usize) -> (r: Option<&T>)
        requires
            self.wf(),
        ensures
            match r {
                Some(v) => i < self@.len() && *v == self@[i as int],
                None => i >= self@.len(),
            },
    {
        let (k, prior) = self.locate(i);
        if k == self.chunks.len() {
            return None;
        }
        proof {
            assert(self.chunk_views()[k as int].len() <= N);
            lemma_flatten_index(self.chunk_views(), k as int, i - prior);
        }
        self.chunk_at(k).get(i - prior)
    }

    /// Removes and returns the i-th logical element, shifting the elements
    /// after it down by one, or returns `None` when `i` is out of the
    /// populated range. The owning chunk is discarded once it becomes empty.
    pub fn remove(&mut self, i: usize) -> (r: Option<T>)
        requires
            old(self).wf(),
        ensures
            final(self).wf(),
            match r {
                Some(x) => {
                    &&& i < old(self)@.len()
                    &&& x == old(self)@[i as int]
                    &&& final(self)@ == old(self)@.remove(i as int)
                },
                None => {
                    &&& i >= old(self)@.len()
                    &&& final(self)@ == old(self)@
                    &&& final(self).chunk_views() == old(self).chunk_views()
                    &&& final(self).spec_count() == old(self).spec_count()
                },
            },
    {
        let num = self.chunks.len();
        let (k, prior) = self.locate(i);
        if k == num {
            return None;
        }
        let ghost cv = self.chunk_views();
        let ghost a = cv.take(k as int);
        let ghost b = cv[k as int];
        let ghost d = cv.skip(k as int + 1);
        let j = i - prior;
        proof {
            assert(b.len() <= N);
            lemma_flatten_split(cv, k as int);
            lemma_flatten_first(cv.skip(k as int));
            assert(cv.skip(k as int).first() == b);
            assert(cv.skip(k as int).drop_first() =~= d);
            assert(old(self)@ == a.flatten() + (b + d.flatten()));
            lemma_flatten_index(cv, k as int, j as int);
        }
        let mut c = self.chunks.remove(k).unwrap();
        proof {
            assert(c@ == b);
        }
        let x = c.remove(j).unwrap();
        if c.len() > 0 {
            self.chunks.insert(k, c);
            proof {
                assert(self.chunk_views() =~= a + seq![b.remove(j as int)] + d);
                lemma_flatten_concat(a + seq![b.remove(j as int)], d);
                lemma_flatten_concat(a, seq![b.remove(j as int)]);
                seq![b.remove(j as int)].lemma_flatten_singleton();
                assert(self@ == a.flatten() + b.remove(j as int) + d.flatten());
                assert(self@ =~= old(self)@.remove(i as int));
                assert forall|t: int| 0 <= t < self.chunk_views().len() implies {
                    &&& 1 <= (#[trigger] self.chunk_views()[t]).len()
                    &&& self.chunk_views()[t].len() <= N
                } by {
                    if t < k {
                        assert(self.chunk_views()[t] == cv[t]);
                    } else if t > k {
                        assert(self.chunk_views()[t] == d[t - k - 1]);
                        assert(d[t - k - 1] == cv[t]);
                    }
                }
            }
        } else {
            proof {
                assert(self.chunk_views() =~= a + d);
                lemma_flatten_concat(a, d);
                assert(b.len() == 1);
                assert(self@ =~= old(self)@.remove(i as int));
                assert forall|t: int| 0 <= t < self.chunk_views().len() implies {
                    &&& 1 <= (#[trigger] self.chunk_views()[t]).len()
                    &&& self.chunk_views()[t].len() <= N
                } by {
                    if t < k {
                        assert(self.chunk_views()[t] == cv[t]);
                    } else {
                        assert(a.len() == k);
                        assert(self.chunk_views()[t] == d[t - k]);
                        assert(d[t - k] == cv[t + 1]);
                    }
                }
            }
        }
        self.elements_count = self.elements_count - 1;
        Some(x)
    }

    /// Removes and returns the first element, or `None` when the container
    /// is empty. This is index removal at logical position zero.
    pub fn pop_front(&mut self) -> (r: Option<T>)
        requires
            old(self).wf(),
        ensures
            final(self).wf(),
            match r {
                Some(x) => {
                    &&& old(self)@.len() > 0
                    &&& x == old(self)@.first()
                    &&& final(self)@ == old(self)@.drop_first()
                },
                None => {
                    &&& old(self)@.len() == 0
                    &&& final(self)@ == old(self)@
                    &&& final(self).chunk_views() == old(self).chunk_views()
                    &&& final(self).spec_count() == old(self).spec_count()
                },
            },
    {
        let r = self.remove(0);
        proof {
            if old(self)@.len() > 0 {
                assert(old(self)@.remove(0) =~= old(self)@.drop_first());
            }
        }
        r
    }

    /// Detaches and returns the chunk at position `i` of the chunk sequence,
    /// or `None` if there is no such chunk. The cached element count is left
    /// untouched, so the caller is responsible for restoring the aggregate
    /// invariant.
    pub fn remove_chunk(&mut self, i: usize) -> (r: Option<Chunk<T, N>>)
        ensures
            final(self).spec_count() == old(self).spec_count(),
            match r {
                Some(c) => {
                    &&& i < old(self).chunk_views().len()
                    &&& c@ == old(self).chunk_views()[i as int]
                    &&& final(self).chunk_views() == old(self).chunk_views().remove(i as int)
                },
                None => {
                    &&& i >= old(self).chunk_views().len()
                    &&& final(self).chunk_views() == old(self).chunk_views()
                },
            },
    {
        let r = self.chunks.remove(i);
        proof {
            if i < old(self).chunk_views().len() {
                assert(self.chunk_views() =~= old(self).chunk_views().remove(i as int));
            } else {
                assert(self.chunk_views() =~= old(self).chunk_views());
            }
        }
        r
    }

    /// Borrow of the chunk at position `k` of the chunk sequence.
    pub(crate) fn chunk_at(&self, k: usize) -> (r: &Chunk<T, N>)
        requires
            k < self.chunk_views().len(),
        ensures
            r@ == self.chunk_views()[k as int],
    {
        &self.chunks[k]
    }
}

} // verus!
