use vstd::prelude::*;

use crate::geometry::UVec2;

verus! {

/// `s` with `x` placed after the trailing elements that are shorter than `x`,
/// looking from the end: in a tallest-first sequence, after every element at
/// least as tall as `x`.
pub open spec fn insert_by_height(s: Seq<UVec2>, x: UVec2) -> Seq<UVec2>
    decreases s.len(),
{
    if s.len() == 0 || s.last().y >= x.y {
        s.push(x)
    } else {
        insert_by_height(s.drop_last(), x).push(s.last())
    }
}

/// `sizes` from the tallest to the shortest; sizes of equal height keep their order.
pub open spec fn tallest_first(sizes: Seq<UVec2>) -> Seq<UVec2>
    decreases sizes.len(),
{
    if sizes.len() == 0 {
        seq![]
    } else {
        insert_by_height(tallest_first(sizes.drop_last()), sizes.last())
    }
}

/// No size is taller than one before it.
pub open spec fn is_tallest_first(s: Seq<UVec2>) -> bool {
    forall|i: int, j: int| 0 <= i < j < s.len() ==> #[trigger] s[i].y >= #[trigger] s[j].y
}

pub proof fn lemma_insert_by_height(s: Seq<UVec2>, x: UVec2)
    requires
        is_tallest_first(s),
    ensures
        is_tallest_first(insert_by_height(s, x)),
        insert_by_height(s, x).to_multiset() =~= s.to_multiset().insert(x),
        forall|k: int|
            0 <= k < insert_by_height(s, x).len() ==> #[trigger] insert_by_height(s, x)[k] == x
                || s.contains(insert_by_height(s, x)[k]),
    decreases s.len(),
{
    broadcast use vstd::seq_lib::group_to_multiset_ensures;

    let r = insert_by_height(s, x);
    if s.len() == 0 || s.last().y >= x.y {
        assert forall|k: int| 0 <= k < r.len() implies #[trigger] r[k] == x || s.contains(r[k]) by {
            if k < s.len() {
                assert(r[k] == s[k]);
            }
        }
    } else {
        let d = s.drop_last();
        let l = s.last();
        assert(is_tallest_first(d));
        lemma_insert_by_height(d, x);
        let inner = insert_by_height(d, x);
        assert(s =~= d.push(l));
        assert forall|k: int| 0 <= k < inner.len() implies #[trigger] inner[k].y >= l.y by {
            if inner[k] != x {
                let j = choose|j: int| 0 <= j < d.len() && d[j] == inner[k];
                assert(s[j] == d[j]);
            }
        }
        assert forall|k: int| 0 <= k < r.len() implies #[trigger] r[k] == x || s.contains(r[k]) by {
            if k < inner.len() {
                if inner[k] != x {
                    let j = choose|j: int| 0 <= j < d.len() && d[j] == inner[k];
                    assert(s[j] == d[j]);
                }
            } else {
                assert(s[s.len() - 1] == l);
            }
        }
    }
}

/// Ordering by height from the tallest down yields a tallest-first rearrangement
/// of the same sizes.
pub proof fn lemma_tallest_first(sizes: Seq<UVec2>)
    ensures
        is_tallest_first(tallest_first(sizes)),
        tallest_first(sizes).to_multiset() =~= sizes.to_multiset(),
    decreases sizes.len(),
{
    broadcast use vstd::seq_lib::group_to_multiset_ensures;

    if sizes.len() > 0 {
        lemma_tallest_first(sizes.drop_last());
        lemma_insert_by_height(tallest_first(sizes.drop_last()), sizes.last());
        assert(sizes =~= sizes.drop_last().push(sizes.last()));
    }
}

/// The sizes from the tallest to the shortest, those of equal height in the order given.
pub fn sort_tallest_first(sizes: &Vec<UVec2>) -> (r: Vec<UVec2>)
    ensures
        r@ == tallest_first(sizes@),
{
    let mut out: Vec<UVec2> = Vec::new();
    let mut k: usize = 0;
    while k < sizes.len()
        invariant
            0 <= k <= sizes.len(),
            out@ == tallest_first(sizes@.take(k as int)),
        decreases sizes.len() - k,
    {
        let x = sizes[k];
        let mut p: usize = out.len();
        proof {
            assert(out@.take(p as int) =~= out@);
            assert(insert_by_height(out@, x) + out@.skip(p as int) =~= insert_by_height(out@, x));
        }
        while p > 0 && out[p - 1].y < x.y
            invariant
                0 <= k < sizes.len(),
                x == sizes@[k as int],
                out@ == tallest_first(sizes@.take(k as int)),
                0 <= p <= out.len(),
                insert_by_height(out@, x) == insert_by_height(out@.take(p as int), x) + out@.skip(
                    p as int,
                ),
            decreases p,
        {
            proof {
                let t = out@.take(p as int);
                assert(t.drop_last() =~= out@.take(p - 1));
                assert(t.last() == out@[p - 1]);
                assert(out@.skip(p - 1) =~= seq![out@[p - 1]] + out@.skip(p as int));
                assert(insert_by_height(t, x) == insert_by_height(t.drop_last(), x).push(t.last()));
                assert(insert_by_height(t, x) + out@.skip(p as int) =~= insert_by_height(
                    out@.take(p - 1),
                    x,
                ) + out@.skip(p - 1));
            }
            p -= 1;
        }
        proof {
            let t = out@.take(p as int);
            assert(insert_by_height(t, x) == t.push(x));
            assert(out@.insert(p as int, x) =~= t.push(x) + out@.skip(p as int));
            assert(sizes@.take(k + 1).drop_last() =~= sizes@.take(k as int));
        }
        out.insert(p, x);
        k += 1;
    }
    proof {
        assert(sizes@.take(k as int) =~= sizes@);
    }
    out
}

} // verus!
