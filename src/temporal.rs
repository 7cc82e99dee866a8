use vstd::prelude::*;

use crate::history::{
    label_count, labels_in_order, lemma_label_count_le, lemma_labels_distinct, CommandEntry,
    CommandHistory, MAX_ENTRIES,
};
use crate::score::Score;

verus! {

/// Number of successful entries with label `l` recorded at hour `h`.
pub open spec fn hour_count(s: Seq<CommandEntry>, l: Seq<char>, h: int) -> nat
    decreases s.len(),
{
    if s.len() == 0 {
        0
    } else {
        hour_count(s.drop_last(), l, h) + if s.last().counted_label(true) == Some(l)
            && s.last().timestamp.hour == h {
            1nat
        } else {
            0nat
        }
    }
}

/// Number of successful entries with label `l` recorded on weekday `d` (Monday is 0).
pub open spec fn day_count(s: Seq<CommandEntry>, l: Seq<char>, d: int) -> nat
    decreases s.len(),
{
    if s.len() == 0 {
        0
    } else {
        day_count(s.drop_last(), l, d) + if s.last().counted_label(true) == Some(l)
            && s.last().timestamp.weekday == d {
            1nat
        } else {
            0nat
        }
    }
}

/// Weighted use around hour `h`, in sixtieths: weight 1 at `h`, 1/2 one hour either side,
/// 1/3 two hours either side, wrapping round midnight.
pub open spec fn hour_weight(hc: Seq<usize>, h: int) -> int {
    60 * hc[h] + 30 * (hc[(h + 23) % 24] + hc[(h + 1) % 24]) + 20 * (hc[(h + 22) % 24] + hc[(h
        + 2) % 24])
}

/// `0.7 * hour_weight / (60 * total) + 0.3 * dc[d] / total`, over the common denominator
/// `600 * total`; zero when nothing was recorded.
pub open spec fn relevance(hc: Seq<usize>, dc: Seq<usize>, total: nat, h: int, d: int) -> Score {
    if total == 0 {
        Score { num: 0, den: 1 }
    } else {
        Score { num: (7 * hour_weight(hc, h) + 180 * dc[d]) as usize, den: (600 * total) as usize }
    }
}

pub open spec fn hour_counts_of(s: Seq<CommandEntry>, l: Seq<char>) -> Seq<usize> {
    Seq::new(24, |h: int| hour_count(s, l, h) as usize)
}

pub open spec fn day_counts_of(s: Seq<CommandEntry>, l: Seq<char>) -> Seq<usize> {
    Seq::new(7, |d: int| day_count(s, l, d) as usize)
}

/// How expected label `l` is at hour `h` of weekday `d`, judged by the successful entries of `s`.
pub open spec fn label_relevance(s: Seq<CommandEntry>, l: Seq<char>, h: int, d: int) -> Score {
    relevance(hour_counts_of(s, l), day_counts_of(s, l), label_count(s, l, true), h, d)
}

/// Hour-of-day and day-of-week occurrence counts of one command label.
#[derive(Debug)]
pub struct TimePattern {
    hour_counts: Vec<usize>,
    day_counts: Vec<usize>,
    total_count: usize,
}

impl TimePattern {
    pub closed spec fn hours(&self) -> Seq<usize> {
        self.hour_counts@
    }

    pub closed spec fn days(&self) -> Seq<usize> {
        self.day_counts@
    }

    pub closed spec fn total(&self) -> nat {
        self.total_count as nat
    }

    pub open spec fn wf(&self) -> bool {
        &&& self.hours().len() == 24
        &&& self.days().len() == 7
        &&& self.total() <= MAX_ENTRIES
        &&& forall|h: int| 0 <= h < 24 ==> #[trigger] self.hours()[h] <= self.total()
        &&& forall|d: int| 0 <= d < 7 ==> #[trigger] self.days()[d] <= self.total()
    }

    /// A pattern with no occurrences.
    pub fn new() -> (r: Self)
        ensures
            r.wf(),
            r.total() == 0,
            forall|h: int| 0 <= h < 24 ==> #[trigger] r.hours()[h] == 0,
            forall|d: int| 0 <= d < 7 ==> #[trigger] r.days()[d] == 0,
    {
        TimePattern { hour_counts: vec![0usize; 24], day_counts: vec![0usize; 7], total_count: 0 }
    }

    /// Records one occurrence at `hour` on weekday `day`.
    pub fn add_occurrence(&mut self, hour: u32, day: u32)
        requires
            old(self).wf(),
            old(self).total() < MAX_ENTRIES,
            hour < 24,
            day < 7,
        ensures
            final(self).wf(),
            final(self).total() == old(self).total() + 1,
            final(self).hours() == old(self).hours().update(
                hour as int,
                (old(self).hours()[hour as int] + 1) as usize,
            ),
            final(self).days() == old(self).days().update(
                day as int,
                (old(self).days()[day as int] + 1) as usize,
            ),
    {
        let h = hour as usize;
        let d = day as usize;
        let hc = self.hour_counts[h] + 1;
        self.hour_counts.set(h, hc);
        let dc = self.day_counts[d] + 1;
        self.day_counts.set(d, dc);
        self.total_count = self.total_count + 1;
    }

    /// Relevance of this pattern at hour `current_hour` of weekday `current_day`.
    pub fn calculate_relevance(&self, current_hour: u32, current_day: u32) -> (r: Score)
        requires
            self.wf(),
            current_hour < 24,
            current_day < 7,
        ensures
            r == relevance(
                self.hours(),
                self.days(),
                self.total(),
                current_hour as int,
                current_day as int,
            ),
            r.wf(),
    {
        if self.total_count == 0 {
            return Score { num: 0, den: 1 };
        }
        let hw = self.calculate_hour_relevance(current_hour);
        let day_part = self.day_counts[current_day as usize];
        Score { num: 7 * hw.num + 180 * day_part, den: 600 * self.total_count }
    }

    /// The hour part of the relevance, `hour_weight / (60 * total)`.
    pub fn calculate_hour_relevance(&self, current_hour: u32) -> (r: Score)
        requires
            self.wf(),
            self.total() > 0,
            current_hour < 24,
        ensures
            r.num == hour_weight(self.hours(), current_hour as int),
            r.den == 60 * self.total(),
            r.num <= 160 * self.total(),
    {
        let h = current_hour as usize;
        let at = self.hour_counts[h];
        let near = self.hour_counts[(h + 23) % 24] + self.hour_counts[(h + 1) % 24];
        let far = self.hour_counts[(h + 22) % 24] + self.hour_counts[(h + 2) % 24];
        let sum = 60 * at + 30 * near + 20 * far;
        Score { num: sum, den: 60 * self.total_count }
    }
}

/// `p` holds the counts of label `l` over the successful entries of `s`.
pub open spec fn pattern_of(p: TimePattern, s: Seq<CommandEntry>, l: Seq<char>) -> bool {
    &&& p.wf()
    &&& p.total() == label_count(s, l, true)
    &&& p.hours() == hour_counts_of(s, l)
    &&& p.days() == day_counts_of(s, l)
}

proof fn lemma_counts_step(s: Seq<CommandEntry>, l: Seq<char>)
    requires
        s.len() > 0,
    ensures
        forall|h: int|
            #[trigger] hour_count(s, l, h) == hour_count(s.drop_last(), l, h) + if s.last().counted_label(
                true,
            ) == Some(l) && s.last().timestamp.hour == h {
                1nat
            } else {
                0nat
            },
        forall|d: int|
            #[trigger] day_count(s, l, d) == day_count(s.drop_last(), l, d) + if s.last().counted_label(
                true,
            ) == Some(l) && s.last().timestamp.weekday == d {
                1nat
            } else {
                0nat
            },
{
}

/// One time pattern per label of a successful entry of `history`, in order of first use.
pub fn build_patterns(history: &CommandHistory) -> (r: Vec<(String, TimePattern)>)
    requires
        history.wf(),
    ensures
        r@.len() == labels_in_order(history@, true).len(),
        forall|k: int|
            0 <= k < r@.len() ==> (#[trigger] r@[k]).0@ == labels_in_order(history@, true)[k]
                && pattern_of(r@[k].1, history@, r@[k].0@),
{
    let ghost s = history@;
    let entries = history.get_all_entries();
    let n = entries.len();
    let mut patterns: Vec<(String, TimePattern)> = Vec::new();
    let mut i: usize = 0;
    while i < n
        invariant
            s == history@,
            entries@ == s,
            n == s.len(),
            n <= MAX_ENTRIES,
            history.wf(),
            i <= n,
            patterns@.len() == labels_in_order(s.subrange(0, i as int), true).len(),
            forall|k: int|
                0 <= k < patterns@.len() ==> (#[trigger] patterns@[k]).0@ == labels_in_order(
                    s.subrange(0, i as int),
                    true,
                )[k] && pattern_of(patterns@[k].1, s.subrange(0, i as int), patterns@[k].0@),
        decreases n - i,
    {
        let ghost pre = s.subrange(0, i as int);
        let ghost cur = s.subrange(0, i + 1);
        let ghost labels = labels_in_order(pre, true);
        proof {
            assert(cur.drop_last() =~= pre);
            assert(cur.last() == s[i as int]);
            assert(s[i as int].wf());
            lemma_labels_distinct(pre, true);
        }
        let e = &entries[i];
        if e.success {
            match &e.command_matched {
                Some(cmd) => {
                    let mut k: usize = 0;
                    while k < patterns.len() && !(patterns[k].0 == *cmd)
                        invariant
                            k <= patterns@.len(),
                            forall|j: int| 0 <= j < k ==> (#[trigger] patterns@[j]).0@ != cmd@,
                        decreases patterns@.len() - k,
                    {
                        k = k + 1;
                    }
                    proof {
                        lemma_label_count_le(pre, cmd@, true);
                    }
                    if k < patterns.len() {
                        proof {
                            assert(labels[k as int] == cmd@);
                        }
                        let ghost old_hours = patterns@[k as int].1.hours();
                        let ghost old_days = patterns@[k as int].1.days();
                        let (label, mut p) = patterns.remove(k);
                        p.add_occurrence(e.timestamp.hour, e.timestamp.weekday);
                        patterns.insert(k, (label, p));
                        proof {
                            assert(labels.contains(cmd@));
                            assert(labels_in_order(cur, true) == labels);
                            lemma_counts_step(cur, cmd@);
                            assert(old_hours == hour_counts_of(pre, cmd@));
                            assert forall|h: int| 0 <= h < 24 implies patterns@[k as int].1.hours()[h]
                                == hour_counts_of(cur, cmd@)[h] by {
                                lemma_count_bounds(pre, cmd@, h);
                                lemma_count_bounds(cur, cmd@, h);
                            }
                            assert forall|d: int| 0 <= d < 7 implies patterns@[k as int].1.days()[d]
                                == day_counts_of(cur, cmd@)[d] by {
                                lemma_count_bounds(pre, cmd@, d);
                                lemma_count_bounds(cur, cmd@, d);
                            }
                            assert(patterns@[k as int].1.hours() =~= hour_counts_of(cur, cmd@));
                            assert(patterns@[k as int].1.days() =~= day_counts_of(cur, cmd@));
                            assert forall|j: int|
                                0 <= j < patterns@.len() implies (#[trigger] patterns@[j]).0@
                                == labels_in_order(cur, true)[j] && pattern_of(
                                patterns@[j].1,
                                cur,
                                patterns@[j].0@,
                            ) by {
                                if j != k {
                                    let l = labels[j];
                                    assert(l != labels[k as int]);
                                    lemma_counts_step(cur, l);
                                    assert(patterns@[j].1.hours() =~= hour_counts_of(cur, l));
                                    assert(patterns@[j].1.days() =~= day_counts_of(cur, l));
                                }
                            }
                        }
                    } else {
                        proof {
                            assert forall|j: int| 0 <= j < labels.len() implies labels[j] != cmd@ by {
                                assert(patterns@[j].0@ == labels[j]);
                            }
                            if labels.contains(cmd@) {
                                let j = choose|j: int| 0 <= j < labels.len() && labels[j] == cmd@;
                                assert(labels[j] != cmd@);
                            }
                            assert(label_count(pre, cmd@, true) == 0);
                            lemma_zero_counts(pre, cmd@);
                        }
                        let mut p = TimePattern::new();
                        p.add_occurrence(e.timestamp.hour, e.timestamp.weekday);
                        patterns.push((cmd.clone(), p));
                        proof {
                            assert(labels_in_order(cur, true) == labels.push(cmd@));
                            lemma_counts_step(cur, cmd@);
                            let last = patterns@.len() - 1;
                            assert(patterns@[last].1.hours() =~= hour_counts_of(cur, cmd@));
                            assert(patterns@[last].1.days() =~= day_counts_of(cur, cmd@));
                            assert forall|j: int|
                                0 <= j < patterns@.len() implies (#[trigger] patterns@[j]).0@
                                == labels_in_order(cur, true)[j] && pattern_of(
                                patterns@[j].1,
                                cur,
                                patterns@[j].0@,
                            ) by {
                                if j != last {
                                    let l = labels[j];
                                    lemma_counts_step(cur, l);
                                    assert(patterns@[j].1.hours() =~= hour_counts_of(cur, l));
                                    assert(patterns@[j].1.days() =~= day_counts_of(cur, l));
                                }
                            }
                        }
                    }
                },
                None => {
                    proof {
                        assert forall|j: int|
                            0 <= j < patterns@.len() implies pattern_of(
                            patterns@[j].1,
                            cur,
                            patterns@[j].0@,
                        ) by {
                            let l = patterns@[j].0@;
                            lemma_counts_step(cur, l);
                            assert(patterns@[j].1.hours() =~= hour_counts_of(cur, l));
                            assert(patterns@[j].1.days() =~= day_counts_of(cur, l));
                        }
                    }
                },
            }
        } else {
            proof {
                assert forall|j: int|
                    0 <= j < patterns@.len() implies pattern_of(
                    patterns@[j].1,
                    cur,
                    patterns@[j].0@,
                ) by {
                    let l = patterns@[j].0@;
                    lemma_counts_step(cur, l);
                    assert(patterns@[j].1.hours() =~= hour_counts_of(cur, l));
                    assert(patterns@[j].1.days() =~= day_counts_of(cur, l));
                }
            }
        }
        i = i + 1;
    }
    assert(s.subrange(0, n as int) =~= s);
    patterns
}

proof fn lemma_zero_counts(s: Seq<CommandEntry>, l: Seq<char>)
    requires
        label_count(s, l, true) == 0,
    ensures
        forall|h: int| #[trigger] hour_count(s, l, h) == 0,
        forall|d: int| #[trigger] day_count(s, l, d) == 0,
    decreases s.len(),
{
    if s.len() > 0 {
        lemma_zero_counts(s.drop_last(), l);
        assert(s.last().counted_label(true) != Some(l));
        assert forall|h: int| #[trigger] hour_count(s, l, h) == 0 by {
            assert(hour_count(s.drop_last(), l, h) == 0);
        }
        assert forall|d: int| #[trigger] day_count(s, l, d) == 0 by {
            assert(day_count(s.drop_last(), l, d) == 0);
        }
    }
}

proof fn lemma_count_bounds(s: Seq<CommandEntry>, l: Seq<char>, h: int)
    ensures
        hour_count(s, l, h) <= label_count(s, l, true),
        day_count(s, l, h) <= label_count(s, l, true),
        label_count(s, l, true) <= s.len(),
    decreases s.len(),
{
    if s.len() > 0 {
        lemma_count_bounds(s.drop_last(), l, h);
    }
}

proof fn lemma_habit_counts(s: Seq<CommandEntry>, l: Seq<char>)
    requires
        forall|i: int|
            0 <= i < s.len() && (#[trigger] s[i]).counted_label(true) == Some(l) ==> s[i].timestamp.weekday
                == 0 && 13 <= s[i].timestamp.hour <= 15,
    ensures
        forall|h: int| !(13 <= h <= 15) ==> #[trigger] hour_count(s, l, h) == 0,
        forall|d: int| d != 0 ==> #[trigger] day_count(s, l, d) == 0,
        day_count(s, l, 0) == label_count(s, l, true),
    decreases s.len(),
{
    if s.len() > 0 {
        let p = s.drop_last();
        assert forall|i: int|
            0 <= i < p.len() && (#[trigger] p[i]).counted_label(true) == Some(l) implies p[i].timestamp.weekday
            == 0 && 13 <= p[i].timestamp.hour <= 15 by {
            assert(p[i] == s[i]);
        }
        lemma_habit_counts(p, l);
        assert(s.last() == s[s.len() - 1]);
        assert forall|h: int| !(13 <= h <= 15) implies #[trigger] hour_count(s, l, h) == 0 by {
            assert(hour_count(p, l, h) == 0);
        }
        assert forall|d: int| d != 0 implies #[trigger] day_count(s, l, d) == 0 by {
            assert(day_count(p, l, d) == 0);
        }
    }
}

/// A label used only on Mondays between 13:00 and 15:59 is more relevant at 14:00 on a
/// Monday than at 03:00 on a Thursday.
pub proof fn lemma_habit_relevance(s: Seq<CommandEntry>, l: Seq<char>)
    requires
        s.len() <= MAX_ENTRIES,
        label_count(s, l, true) > 0,
        forall|i: int|
            0 <= i < s.len() && (#[trigger] s[i]).counted_label(true) == Some(l) ==> s[i].timestamp.weekday
                == 0 && 13 <= s[i].timestamp.hour <= 15,
    ensures
        label_relevance(s, l, 14, 0).gt(label_relevance(s, l, 3, 3)),
{
    lemma_habit_counts(s, l);
    lemma_count_bounds(s, l, 0);
    let total = label_count(s, l, true);
    let hc = hour_counts_of(s, l);
    let dc = day_counts_of(s, l);
    assert forall|h: int| 0 <= h < 24 implies #[trigger] hc[h] <= total by {
        lemma_count_bounds(s, l, h);
    }
    assert(hc[1] == 0 && hc[2] == 0 && hc[3] == 0 && hc[4] == 0 && hc[5] == 0);
    assert(dc[3] == 0);
    assert(dc[0] == total);
    let low = label_relevance(s, l, 3, 3);
    let high = label_relevance(s, l, 14, 0);
    assert(hour_weight(hc, 3) == 0);
    assert(low.num == 0);
    assert(hour_weight(hc, 14) >= 0);
    assert(hour_weight(hc, 14) <= 160 * total);
    assert(high.num > 0);
    assert(low.den > 0);
    assert(high.num * low.den > 0) by (nonlinear_arith)
        requires
            high.num > 0,
            low.den > 0,
    ;
}

} // verus!
