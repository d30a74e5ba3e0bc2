use vstd::prelude::*;

verus! {

use crate::list::ChunkList;
use crate::flattening::len_sum;
use crate::flattening::lemma_flatten_len_is_len_sum;

/// The view of a container after pushing each value of `vs`, in order, at
/// the front, starting from view `s`. Each `ChunkList::push_front` prepends
/// the pushed value to the view, by its contract.
pub open spec fn after_push_front_all<T>(s: Seq<T>, vs: Seq<T>) -> Seq<T>
    decreases vs.len(),
{
    if vs.len() == 0 {
        s
    } else {
        after_push_front_all(seq![vs.first()] + s, vs.drop_first())
    }
}

/// The view of a container after pushing each value of `vs`, in order, at
/// the back, starting from view `s`. Each `ChunkList::push_back` appends
/// the pushed value to the view, by its contract.
pub open spec fn after_push_back_all<T>(s: Seq<T>, vs: Seq<T>) -> Seq<T>
    decreases vs.len(),
{
    if vs.len() == 0 {
        s
    } else {
        after_push_back_all(s.push(vs.first()), vs.drop_first())
    }
}

/// Front round trip: pushing values at the front leaves them, in reverse
/// order, in front of what was there before. Since `ChunkList::pop_front`
/// removes and returns the first element of the view, popping after pushing
/// onto an empty container yields the pushed values last-in first-out.
pub proof fn lemma_push_front_all_reverses<T>(s: Seq<T>, vs: Seq<T>)
    ensures
        after_push_front_all(s, vs) == vs.reverse() + s,
    decreases vs.len(),
{
    if vs.len() == 0 {
        assert(vs.reverse() =~= Seq::<T>::empty());
        assert(vs.reverse() + s =~= s);
    } else {
        lemma_push_front_all_reverses(seq![vs.first()] + s, vs.drop_first());
        assert(vs.drop_first().reverse() + (seq![vs.first()] + s) =~= vs.reverse() + s);
    }
}

/// Back round trip: pushing values at the back appends them in order.
/// Since `ChunkList::pop_back` removes and returns the last element of the
/// view, popping after pushing onto an empty container likewise yields the
/// pushed values last-in first-out.
pub proof fn lemma_push_back_all_appends<T>(s: Seq<T>, vs: Seq<T>)
    ensures
        after_push_back_all(s, vs) == s + vs,
    decreases vs.len(),
{
    if vs.len() == 0 {
        assert(s + vs =~= s);
    } else {
        lemma_push_back_all_appends(s.push(vs.first()), vs.drop_first());
        assert(s.push(vs.first()) + vs.drop_first() =~= s + vs);
    }
}

/// One step of the front round trip: a value pushed at the front is the
/// first element of the new view, and removing it restores the old view.
pub proof fn lemma_push_front_pop_front<T>(s: Seq<T>, value: T)
    ensures
        (seq![value] + s).first() == value,
        (seq![value] + s).drop_first() == s,
{
    assert((seq![value] + s).drop_first() =~= s);
}

/// One step of the back round trip: a value pushed at the back is the last
/// element of the new view, and removing it restores the old view.
pub proof fn lemma_push_back_pop_back<T>(s: Seq<T>, value: T)
    ensures
        s.push(value).last() == value,
        s.push(value).drop_last() == s,
{
    assert(s.push(value).drop_last() =~= s);
}

/// Whenever the container invariant `wf` holds, the cached element count
/// equals the sum of the chunk lengths; `wf` itself bounds every chunk
/// length within `[1, N]`. A stronger shape, `chunks_count()` equal to the
/// element count divided by `N` and rounded up, does not hold in general:
/// growth at the front and at the back can each leave a partially filled
/// chunk.
pub proof fn lemma_count_is_chunk_len_sum<T, const N: usize>(l: &ChunkList<T, N>)
    requires
        l.wf(),
    ensures
        l.spec_count() == len_sum(l.chunk_views()),
{
    lemma_flatten_len_is_len_sum(l.chunk_views());
}

} // verus!
