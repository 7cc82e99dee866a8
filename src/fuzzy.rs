use vstd::prelude::*;

use crate::score::Score;

verus! {

/// What `str::to_lowercase` makes of a string.
pub uninterp spec fn lower_of(s: Seq<char>) -> Seq<char>;

/// Relies on `str::to_lowercase`: the lower-case form depends on the characters alone.
#[verifier::external_body]
pub(crate) fn lowercase(s: &str) -> (r: String)
    ensures
        r@ == lower_of(s@),
{
    s.to_lowercase()
}

pub open spec fn min_nat(a: nat, b: nat) -> nat {
    if a <= b {
        a
    } else {
        b
    }
}

pub open spec fn max_nat(a: nat, b: nat) -> nat {
    if a >= b {
        a
    } else {
        b
    }
}

/// `needle` occurs in `hay` as a contiguous run.
pub open spec fn is_substring(needle: Seq<char>, hay: Seq<char>) -> bool {
    exists|i: int|
        0 <= i && i + needle.len() <= hay.len() && #[trigger] hay.subrange(i, i + needle.len())
            == needle
}

/// Edit distance with unit-cost insertion, deletion and substitution.
pub open spec fn levenshtein(a: Seq<char>, b: Seq<char>) -> nat
    decreases a.len() + b.len(),
{
    if a.len() == 0 {
        b.len()
    } else if b.len() == 0 {
        a.len()
    } else {
        let cost: nat = if a.last() == b.last() { 0 } else { 1 };
        min_nat(
            min_nat(levenshtein(a.drop_last(), b) + 1, levenshtein(a, b.drop_last()) + 1),
            levenshtein(a.drop_last(), b.drop_last()) + cost,
        )
    }
}

/// `1 - distance / longer length`, and 1 when both are empty.
pub open spec fn edit_similarity(a: Seq<char>, b: Seq<char>) -> Score {
    let m = max_nat(a.len(), b.len());
    if m == 0 {
        Score { num: 1, den: 1 }
    } else {
        Score { num: (m - levenshtein(a, b)) as usize, den: m as usize }
    }
}

/// The tiered similarity of two already lower-cased strings: 1 when equal, 4/5 when one
/// holds the other, else the edit similarity.
pub open spec fn similarity(a: Seq<char>, b: Seq<char>) -> Score {
    if a == b {
        Score { num: 1, den: 1 }
    } else if is_substring(a, b) || is_substring(b, a) {
        Score { num: 4, den: 5 }
    } else {
        edit_similarity(a, b)
    }
}

proof fn lemma_levenshtein_le_max(a: Seq<char>, b: Seq<char>)
    ensures
        levenshtein(a, b) <= max_nat(a.len(), b.len()),
    decreases a.len() + b.len(),
{
    if a.len() > 0 && b.len() > 0 {
        lemma_levenshtein_le_max(a.drop_last(), b.drop_last());
    }
}

/// The characters of `s`, one per element.
pub(crate) fn chars_of(s: &str) -> (r: Vec<char>)
    ensures
        r@ == s@,
{
    let n = s.unicode_len();
    let mut r: Vec<char> = Vec::new();
    let mut i: usize = 0;
    while i < n
        invariant
            n == s@.len(),
            i <= n,
            r@ == s@.subrange(0, i as int),
        decreases n - i,
    {
        r.push(s.get_char(i));
        i = i + 1;
        assert(r@ =~= s@.subrange(0, i as int));
    }
    assert(r@ =~= s@);
    r
}

/// Whether `needle` occurs in `hay`.
pub(crate) fn contains_run(hay: &Vec<char>, needle: &Vec<char>) -> (r: bool)
    ensures
        r == is_substring(needle@, hay@),
{
    let n = needle.len();
    let h = hay.len();
    if n > h {
        return false;
    }
    let mut i: usize = 0;
    while i <= h - n
        invariant
            n == needle@.len(),
            h == hay@.len(),
            n <= h,
            i <= h - n + 1,
            forall|k: int| 0 <= k < i ==> #[trigger] hay@.subrange(k, k + n) != needle@,
        decreases h - n + 1 - i,
    {
        let mut j: usize = 0;
        while j < n && hay[i + j] == needle[j]
            invariant
                n == needle@.len(),
                h == hay@.len(),
                i + n <= h,
                j <= n,
                forall|q: int| 0 <= q < j ==> hay@[i + q] == needle@[q],
            decreases n - j,
        {
            j = j + 1;
        }
        if j == n {
            assert(hay@.subrange(i as int, i + n) =~= needle@);
            return true;
        }
        assert(hay@.subrange(i as int, i + n)[j as int] != needle@[j as int]);
        i = i + 1;
    }
    proof {
        if is_substring(needle@, hay@) {
            let k = choose|k: int|
                0 <= k && k + n <= h && #[trigger] hay@.subrange(k, k + n) == needle@;
            assert(hay@.subrange(k, k + n) != needle@);
        }
    }
    false
}

/// The edit distance of `a` and `b`, by the row-by-row recurrence.
pub(crate) fn edit_distance(a: &Vec<char>, b: &Vec<char>) -> (r: usize)
    ensures
        r == levenshtein(a@, b@),
{
    let n = a.len();
    let m = b.len();
    let mut prev: Vec<u128> = Vec::new();
    prev.push(0);
    let mut j: usize = 0;
    while j < m
        invariant
            m == b@.len(),
            j <= m,
            prev@.len() == j + 1,
            forall|q: int| 0 <= q <= j ==> #[trigger] prev@[q] == q,
        decreases m - j,
    {
        j = j + 1;
        prev.push(j as u128);
    }
    proof {
        assert forall|q: int| 0 <= q <= m implies #[trigger] prev@[q] == levenshtein(
            a@.subrange(0, 0),
            b@.subrange(0, q),
        ) by {
            assert(a@.subrange(0, 0).len() == 0);
            assert(b@.subrange(0, q).len() == q);
        }
    }
    let mut i: usize = 0;
    while i < n
        invariant
            n == a@.len(),
            m == b@.len(),
            i <= n,
            prev@.len() == m + 1,
            forall|q: int|
                0 <= q <= m ==> #[trigger] prev@[q] == levenshtein(
                    a@.subrange(0, i as int),
                    b@.subrange(0, q),
                ),
        decreases n - i,
    {
        let ghost ai = a@.subrange(0, i as int);
        let ghost ai1 = a@.subrange(0, i + 1);
        assert(ai1.drop_last() =~= ai);
        let mut cur: Vec<u128> = Vec::new();
        cur.push((i as u128) + 1);
        let mut k: usize = 0;
        while k < m
            invariant
                n == a@.len(),
                m == b@.len(),
                i < n,
                ai == a@.subrange(0, i as int),
                ai1 == a@.subrange(0, i + 1),
                ai1.drop_last() == ai,
                prev@.len() == m + 1,
                forall|q: int| 0 <= q <= m ==> #[trigger] prev@[q] == levenshtein(ai, b@.subrange(0, q)),
                k <= m,
                cur@.len() == k + 1,
                forall|q: int| 0 <= q <= k ==> #[trigger] cur@[q] == levenshtein(ai1, b@.subrange(0, q)),
            decreases m - k,
        {
            let ghost bk = b@.subrange(0, k as int);
            let ghost bk1 = b@.subrange(0, k + 1);
            assert(bk1.drop_last() =~= bk);
            proof {
                lemma_levenshtein_le_max(ai, bk1);
                lemma_levenshtein_le_max(ai1, bk);
                lemma_levenshtein_le_max(ai, bk);
            }
            let cost: u128 = if a[i] == b[k] { 0 } else { 1 };
            let del = prev[k + 1] + 1;
            let ins = cur[k] + 1;
            let sub = prev[k] + cost;
            let mut best = if del <= ins { del } else { ins };
            if sub < best {
                best = sub;
            }
            cur.push(best);
            k = k + 1;
        }
        proof {
            assert forall|q: int| 0 <= q <= m implies #[trigger] cur@[q] == levenshtein(
                a@.subrange(0, i + 1),
                b@.subrange(0, q),
            ) by {}
        }
        prev = cur;
        i = i + 1;
    }
    assert(a@.subrange(0, n as int) =~= a@);
    assert(b@.subrange(0, m as int) =~= b@);
    proof {
        lemma_levenshtein_le_max(a@, b@);
    }
    prev[m] as usize
}

/// The tiered similarity of two strings that are already lower-cased.
pub fn similarity_of_lowered(a: &str, b: &str) -> (r: Score)
    ensures
        r == similarity(a@, b@),
        r.in_unit(),
{
    let ca = chars_of(a);
    let cb = chars_of(b);
    let _ = ca.len();
    let _ = cb.len();
    proof {
        lemma_similarity_bounds(a@, b@);
    }
    if ca.len() == cb.len() {
        let mut i: usize = 0;
        while i < ca.len() && ca[i] == cb[i]
            invariant
                ca@.len() == cb@.len(),
                i <= ca@.len(),
                forall|q: int| 0 <= q < i ==> ca@[q] == cb@[q],
            decreases ca@.len() - i,
        {
            i = i + 1;
        }
        if i == ca.len() {
            assert(ca@ =~= cb@);
            return Score { num: 1, den: 1 };
        }
    }
    if contains_run(&cb, &ca) || contains_run(&ca, &cb) {
        return Score { num: 4, den: 5 };
    }
    edit_score(&ca, &cb)
}

/// `1 - distance / longer length` over the characters of `a` and `b`.
pub(crate) fn edit_score(a: &Vec<char>, b: &Vec<char>) -> (r: Score)
    ensures
        r == edit_similarity(a@, b@),
        r.in_unit(),
{
    let m = if a.len() >= b.len() { a.len() } else { b.len() };
    if m == 0 {
        return Score { num: 1, den: 1 };
    }
    let d = edit_distance(a, b);
    proof {
        lemma_levenshtein_le_max(a@, b@);
    }
    Score { num: m - d, den: m }
}

/// Similarity lies in the unit interval, and a string is fully similar to itself.
pub proof fn lemma_similarity_bounds(a: Seq<char>, b: Seq<char>)
    requires
        a.len() <= usize::MAX,
        b.len() <= usize::MAX,
    ensures
        similarity(a, b).in_unit(),
        similarity(a, a) == (Score { num: 1, den: 1 }),
{
    lemma_levenshtein_le_max(a, b);
}

/// Where one lower-cased string holds the other and they differ, the similarity is 4/5.
pub proof fn lemma_substring_tier(input: Seq<char>, target: Seq<char>)
    requires
        is_substring(input, target),
        input != target,
    ensures
        similarity(input, target) == (Score { num: 4, den: 5 }),
{
}

/// Two empty strings are fully similar in every tier.
pub proof fn lemma_empty_strings()
    ensures
        similarity(Seq::empty(), Seq::empty()) == (Score { num: 1, den: 1 }),
        edit_similarity(Seq::empty(), Seq::empty()) == (Score { num: 1, den: 1 }),
{
}

} // verus!
