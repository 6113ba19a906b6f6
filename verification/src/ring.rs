//! Shared model of the kernel's bounded FIFO rings: a fixed buffer, a head
//! position and a live length, read as the sequence of live entries in
//! arrival order.

use vstd::prelude::*;

verus! {

/// The buffer position of the `i`-th live entry of a ring whose oldest entry
/// sits at `head` (both below `cap`).
pub open spec fn ring_index(head: int, i: int, cap: int) -> int {
    if head + i < cap { head + i } else { head + i - cap }
}

/// The live entries of a ring, oldest first.
pub open spec fn ring_view<T>(buf: Seq<T>, head: int, len: int, cap: int) -> Seq<T> {
    Seq::new(len as nat, |i: int| buf[ring_index(head, i, cap)])
}

/// Distinct live offsets occupy distinct buffer positions.
pub proof fn lemma_ring_index_injective(head: int, i: int, j: int, cap: int)
    requires
        0 <= head < cap,
        0 <= i < cap,
        0 <= j < cap,
        i != j,
    ensures
        ring_index(head, i, cap) != ring_index(head, j, cap),
        0 <= ring_index(head, i, cap) < cap,
{
}

/// Filtering one more element of a prefix.
pub proof fn lemma_filter_prefix_step<A>(s: Seq<A>, i: int, pred: spec_fn(A) -> bool)
    requires
        0 <= i < s.len(),
    ensures
        s.subrange(0, i + 1).filter(pred) == if pred(s[i]) {
            s.subrange(0, i).filter(pred).push(s[i])
        } else {
            s.subrange(0, i).filter(pred)
        },
{
    assert(s.subrange(0, i + 1) =~= s.subrange(0, i).push(s[i]));
    s.subrange(0, i).lemma_filter_push(s[i], pred);
}

/// Every element of a filtered sequence satisfies the predicate, and the
/// filter is no longer than its source.
pub proof fn lemma_filter_facts<A>(s: Seq<A>, pred: spec_fn(A) -> bool)
    ensures
        s.filter(pred).len() <= s.len(),
        forall|k: int| 0 <= k < s.filter(pred).len() ==> pred(#[trigger] s.filter(pred)[k]),
{
    broadcast use vstd::seq_lib::group_filter_ensures;

}

} // verus!

verus! {

/// Number of elements among the first `n` of `s` that satisfy `p`.
pub open spec fn count_where<A>(s: Seq<A>, p: spec_fn(A) -> bool, n: int) -> int
    decreases n,
{
    if n <= 0 {
        0
    } else {
        count_where(s, p, n - 1) + if p(s[n - 1]) { 1int } else { 0int }
    }
}

/// Counts agree on prefixes where the sequences agree.
pub proof fn lemma_count_prefix<A>(a: Seq<A>, b: Seq<A>, p: spec_fn(A) -> bool, k: int, i: int)
    requires
        0 <= k <= i,
        i <= a.len(),
        a.len() == b.len(),
        forall|j: int| 0 <= j < i ==> a[j] == b[j],
    ensures
        count_where(a, p, k) == count_where(b, p, k),
    decreases k,
{
    if k > 0 {
        lemma_count_prefix(a, b, p, k - 1, i);
    }
}

/// Replacing one element changes the count by the difference.
pub proof fn lemma_count_update<A>(s: Seq<A>, p: spec_fn(A) -> bool, n: int, i: int, v: A)
    requires
        0 <= i < n <= s.len(),
    ensures
        count_where(s.update(i, v), p, n) == count_where(s, p, n)
            - (if p(s[i]) { 1int } else { 0int }) + (if p(v) { 1int } else { 0int }),
    decreases n,
{
    if n - 1 > i {
        lemma_count_update(s, p, n - 1, i, v);
    } else {
        lemma_count_prefix(s, s.update(i, v), p, n - 1, i);
    }
}

/// A count is between zero and the prefix length.
pub proof fn lemma_count_bounds<A>(s: Seq<A>, p: spec_fn(A) -> bool, n: int)
    requires
        0 <= n <= s.len(),
    ensures
        0 <= count_where(s, p, n) <= n,
    decreases n,
{
    if n > 0 {
        lemma_count_bounds(s, p, n - 1);
    }
}

/// Nothing satisfies `p` in a prefix where no element does.
pub proof fn lemma_count_none<A>(s: Seq<A>, p: spec_fn(A) -> bool, n: int)
    requires
        0 <= n <= s.len(),
        forall|j: int| 0 <= j < n ==> !p(#[trigger] s[j]),
    ensures
        count_where(s, p, n) == 0,
    decreases n,
{
    if n > 0 {
        lemma_count_none(s, p, n - 1);
    }
}

} // verus!
