use vstd::prelude::*;

use crate::score::Score;

verus! {

/// `order` with position `x` put after every position whose score is at least that of `x`,
/// and before the first whose score is lower.
pub open spec fn insert_ranked(order: Seq<usize>, x: usize, scores: Seq<Score>) -> Seq<usize>
    decreases order.len(),
{
    if order.len() == 0 {
        seq![x]
    } else if scores[order[0] as int].ge(scores[x as int]) {
        seq![order[0]] + insert_ranked(order.drop_first(), x, scores)
    } else {
        seq![x] + order
    }
}

/// The positions below `n` whose score is strictly above `floor`, highest score first;
/// positions with equal scores keep their own order.
pub open spec fn ranked_above(scores: Seq<Score>, floor: Score, n: nat) -> Seq<usize>
    decreases n,
{
    if n == 0 {
        Seq::empty()
    } else {
        let r = ranked_above(scores, floor, (n - 1) as nat);
        if scores[n - 1].gt(floor) {
            insert_ranked(r, (n - 1) as usize, scores)
        } else {
            r
        }
    }
}

proof fn lemma_insert_at(order: Seq<usize>, x: usize, scores: Seq<Score>, p: int)
    requires
        0 <= p <= order.len(),
        forall|q: int| 0 <= q < p ==> scores[#[trigger] order[q] as int].ge(scores[x as int]),
        p < order.len() ==> !scores[order[p] as int].ge(scores[x as int]),
    ensures
        insert_ranked(order, x, scores) == order.insert(p, x),
    decreases order.len(),
{
    if order.len() == 0 {
        assert(order.insert(p, x) =~= seq![x]);
    } else if p == 0 {
        assert(order.insert(p, x) =~= seq![x] + order);
    } else {
        let rest = order.drop_first();
        assert forall|q: int| 0 <= q < p - 1 implies scores[#[trigger] rest[q] as int].ge(
            scores[x as int],
        ) by {
            assert(rest[q] == order[q + 1]);
        }
        lemma_insert_at(rest, x, scores, p - 1);
        assert(seq![order[0]] + rest.insert(p - 1, x) =~= order.insert(p, x));
    }
}

/// The positions of `scores` that lie strictly above `floor`, highest first, ties in order.
pub fn rank_above(scores: &Vec<Score>, floor: &Score) -> (r: Vec<usize>)
    ensures
        r@ == ranked_above(scores@, *floor, scores@.len()),
        forall|k: int| 0 <= k < r@.len() ==> #[trigger] r@[k] < scores@.len(),
{
    let n = scores.len();
    let mut r: Vec<usize> = Vec::new();
    let mut i: usize = 0;
    while i < n
        invariant
            n == scores@.len(),
            i <= n,
            r@ == ranked_above(scores@, *floor, i as nat),
            forall|k: int| 0 <= k < r@.len() ==> #[trigger] r@[k] < i,
        decreases n - i,
    {
        if scores[i].above(floor) {
            let mut p: usize = 0;
            while p < r.len() && scores[r[p]].at_least(&scores[i])
                invariant
                    n == scores@.len(),
                    i < n,
                    p <= r@.len(),
                    forall|k: int| 0 <= k < r@.len() ==> #[trigger] r@[k] < i,
                    forall|q: int|
                        0 <= q < p ==> scores@[#[trigger] r@[q] as int].ge(scores@[i as int]),
                decreases r@.len() - p,
            {
                p = p + 1;
            }
            proof {
                lemma_insert_at(r@, i, scores@, p as int);
            }
            r.insert(p, i);
        }
        i = i + 1;
    }
    r
}

} // verus!
