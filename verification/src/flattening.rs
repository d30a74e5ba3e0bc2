use vstd::prelude::*;

verus! {

use vstd::seq_lib::lemma_flatten_concat;

/// Unfolds `flatten` at the front: a non-empty sequence of blocks flattens
/// to its first block followed by the flattening of the remaining blocks.
pub proof fn lemma_flatten_first<A>(ss: Seq<Seq<A>>)
    requires
        ss.len() > 0,
    ensures
        ss.flatten() == ss.first() + ss.drop_first().flatten(),
{
}

/// The mirror image of `lemma_flatten_first`: a non-empty sequence of blocks
/// flattens to the flattening of all but the last block, then the last block.
pub proof fn lemma_flatten_last<A>(ss: Seq<Seq<A>>)
    requires
        ss.len() > 0,
    ensures
        ss.flatten() == ss.drop_last().flatten() + ss.last(),
{
    ss.lemma_flatten_and_flatten_alt_are_equivalent();
    ss.drop_last().lemma_flatten_and_flatten_alt_are_equivalent();
}

/// Prepending one block to a sequence of blocks prepends its contents to the
/// flattened sequence.
pub proof fn lemma_flatten_prepend<A>(s: Seq<A>, ss: Seq<Seq<A>>)
    ensures
        (seq![s] + ss).flatten() == s + ss.flatten(),
{
    lemma_flatten_first(seq![s] + ss);
    assert((seq![s] + ss).first() == s);
    assert((seq![s] + ss).drop_first() =~= ss);
}

/// Appending one block to a sequence of blocks appends its contents to the
/// flattened sequence.
pub proof fn lemma_flatten_append<A>(ss: Seq<Seq<A>>, s: Seq<A>)
    ensures
        (ss + seq![s]).flatten() == ss.flatten() + s,
{
    lemma_flatten_concat(ss, seq![s]);
    seq![s].lemma_flatten_singleton();
}

/// Splitting a sequence of blocks at position `k` splits the flattened
/// sequence at the total length of the first `k` blocks.
pub proof fn lemma_flatten_split<A>(ss: Seq<Seq<A>>, k: int)
    requires
        0 <= k <= ss.len(),
    ensures
        ss.flatten() == ss.take(k).flatten() + ss.skip(k).flatten(),
{
    lemma_flatten_concat(ss.take(k), ss.skip(k));
    assert(ss.take(k) + ss.skip(k) =~= ss);
}

/// The element at offset `j` of block `k` sits at logical position
/// `ss.take(k).flatten().len() + j` of the flattened sequence.
pub proof fn lemma_flatten_index<A>(ss: Seq<Seq<A>>, k: int, j: int)
    requires
        0 <= k < ss.len(),
        0 <= j < ss[k].len(),
    ensures
        ss.take(k).flatten().len() + j < ss.flatten().len(),
        ss.flatten()[ss.take(k).flatten().len() + j] == ss[k][j],
{
    lemma_flatten_split(ss, k);
    lemma_flatten_first(ss.skip(k));
    assert(ss.skip(k).first() == ss[k]);
}

/// The total number of elements across a sequence of blocks.
pub open spec fn len_sum<A>(ss: Seq<Seq<A>>) -> int
    decreases ss.len(),
{
    if ss.len() == 0 {
        0
    } else {
        ss.first().len() + len_sum(ss.drop_first())
    }
}

/// The flattened sequence is exactly as long as the sum of the block lengths.
pub proof fn lemma_flatten_len_is_len_sum<A>(ss: Seq<Seq<A>>)
    ensures
        ss.flatten().len() == len_sum(ss),
    decreases ss.len(),
{
    if ss.len() > 0 {
        lemma_flatten_len_is_len_sum(ss.drop_first());
    }
}

} // verus!
