//! Specification helpers for results that are emitted group by group and
//! concatenated: grouped kernels produce one output block per group, in
//! group-emission order.

use vstd::prelude::*;

verus! {

/// Concatenation of the blocks `f(0), f(1), ..., f(n - 1)`.
pub open spec fn concat_blocks<T>(n: int, f: spec_fn(int) -> Seq<T>) -> Seq<T>
    decreases n,
{
    if n <= 0 {
        Seq::empty()
    } else {
        concat_blocks(n - 1, f) + f(n - 1)
    }
}

/// Position where block `g`'s output starts inside the concatenation.
pub open spec fn block_offset<T>(g: int, f: spec_fn(int) -> Seq<T>) -> int {
    concat_blocks(g, f).len() as int
}

pub proof fn lemma_concat_blocks_len<T>(n: int, f: spec_fn(int) -> Seq<T>)
    requires
        n >= 0,
    ensures
        concat_blocks(n, f).len() == block_offset(n, f),
        block_offset(n, f) >= 0,
{
}

/// Block offsets grow by exactly one block length at a time.
pub proof fn lemma_block_offset_step<T>(g: int, f: spec_fn(int) -> Seq<T>)
    requires
        g >= 0,
    ensures
        block_offset(g + 1, f) == block_offset(g, f) + f(g).len(),
{
    assert(concat_blocks(g + 1, f) == concat_blocks(g, f) + f(g));
}
/// Two block families with equal block lengths concatenate to equal
/// lengths.
pub proof fn lemma_concat_blocks_len_eq<T, U>(
    n: int,
    f: spec_fn(int) -> Seq<T>,
    h: spec_fn(int) -> Seq<U>,
)
    requires
        forall|i: int| 0 <= i < n ==> (#[trigger] f(i)).len() == h(i).len(),
    ensures
        concat_blocks(n, f).len() == concat_blocks(n, h).len(),
    decreases n,
{
    if n > 0 {
        lemma_concat_blocks_len_eq(n - 1, f, h);
    }
}

/// Element `k` of block `g` sits at `block_offset(g, f) + k` in the
/// concatenation of the first `n` blocks.
pub proof fn lemma_concat_blocks_index<T>(n: int, f: spec_fn(int) -> Seq<T>, g: int, k: int)
    requires
        0 <= g < n,
        0 <= k < f(g).len(),
    ensures
        block_offset(g, f) + k < concat_blocks(n, f).len(),
        concat_blocks(n, f)[block_offset(g, f) + k] == f(g)[k],
    decreases n,
{
    if g == n - 1 {
        lemma_concat_blocks_len(n - 1, f);
    } else {
        lemma_concat_blocks_index(n - 1, f, g, k);
        lemma_concat_blocks_len(n - 1, f);
    }
}

/// Two block families that agree on every block concatenate equally.
pub proof fn lemma_concat_blocks_congruence<T>(
    n: int,
    f: spec_fn(int) -> Seq<T>,
    h: spec_fn(int) -> Seq<T>,
)
    requires
        forall|i: int| 0 <= i < n ==> #[trigger] f(i) == h(i),
    ensures
        concat_blocks(n, f) == concat_blocks(n, h),
    decreases n,
{
    if n > 0 {
        lemma_concat_blocks_congruence(n - 1, f, h);
    }
}


} // verus!
