use chrono::{Datelike, Timelike};
use vstd::prelude::*;

use crate::fuzzy::{lower_of, lowercase, similarity, similarity_of_lowered};
use crate::history::{label_count, labels_in_order, CommandHistory};
use crate::ranking::{rank_above, ranked_above};
use crate::score::Score;
use crate::temporal::{build_patterns, label_relevance};

verus! {

/// Relies on `chrono::Local::now`, with `Timelike::hour` and
/// `Datelike::weekday().num_days_from_monday()`: the local hour and weekday of this moment.
#[verifier::external_body]
fn local_hour_and_weekday() -> (r: (u32, u32))
    ensures
        r.0 < 24,
        r.1 < 7,
{
    let now = chrono::Local::now();
    (now.hour(), now.weekday().num_days_from_monday())
}

/// Least similarity at which a candidate phrase counts as a match: 7/10.
pub open spec fn min_confidence_spec() -> Score {
    Score { num: 7, den: 10 }
}

/// Least relevance a time-based suggestion must exceed: 3/10.
pub open spec fn relevance_floor() -> Score {
    Score { num: 3, den: 10 }
}

/// `i` is the first position whose score reaches `threshold` and is the highest of all.
pub open spec fn is_first_best(scores: Seq<Score>, i: int, threshold: Score) -> bool {
    &&& 0 <= i < scores.len()
    &&& scores[i].ge(threshold)
    &&& forall|j: int| 0 <= j < scores.len() && scores[j].ge(threshold) ==> scores[i].ge(scores[j])
    &&& forall|j: int| 0 <= j < i && scores[j].ge(threshold) ==> scores[i].gt(scores[j])
}

/// The phrase and rounded-down percentage of the first best candidate, if one reaches the
/// least confidence.
pub open spec fn best_match_spec(input: Seq<char>, commands: Seq<(String, String)>) -> Option<(Seq<char>, nat)> {
    let cs = candidate_scores(input, commands);
    if exists|i: int| #[trigger] is_first_best(cs, i, min_confidence_spec()) {
        let i = choose|i: int| #[trigger] is_first_best(cs, i, min_confidence_spec());
        Some((commands[i].0@, cs[i].percent_spec()))
    } else {
        None
    }
}

proof fn lemma_first_best_unique(scores: Seq<Score>, i: int, j: int, t: Score)
    requires
        is_first_best(scores, i, t),
        is_first_best(scores, j, t),
    ensures
        i == j,
{
    if i < j {
        assert(scores[j].gt(scores[i]));
        assert(scores[i].ge(scores[j]));
    } else if j < i {
        assert(scores[i].gt(scores[j]));
        assert(scores[j].ge(scores[i]));
    }
}

/// Similarity of `input` to each candidate phrase, both lower-cased.
pub open spec fn candidate_scores(input: Seq<char>, commands: Seq<(String, String)>) -> Seq<Score> {
    Seq::new(commands.len(), |i: int| similarity(lower_of(input), lower_of(commands[i].0@)))
}

/// Relevance of each label of a successful entry of `s` at hour `h` of weekday `d`.
pub open spec fn relevances(s: Seq<crate::history::CommandEntry>, h: int, d: int) -> Seq<Score> {
    let labels = labels_in_order(s, true);
    Seq::new(labels.len(), |i: int| label_relevance(s, labels[i], h, d))
}

/// Number of uses of each matched label of `s`, as scores over one.
pub open spec fn usage_scores(s: Seq<crate::history::CommandEntry>) -> Seq<Score> {
    let labels = labels_in_order(s, false);
    Seq::new(labels.len(), |i: int| Score { num: label_count(s, labels[i], false) as usize, den: 1 })
}

/// `r` lists, for the first `limit` positions of `order`, the label at that position.
pub open spec fn labels_at(r: Seq<String>, order: Seq<usize>, labels: Seq<Seq<char>>, limit: nat) -> bool {
    &&& r.len() == if limit < order.len() { limit } else { order.len() }
    &&& forall|k: int| 0 <= k < r.len() ==> (#[trigger] r[k])@ == labels[order[k] as int]
}

/// Decimal digits of `n`, most significant first.
pub open spec fn decimal(n: nat) -> Seq<char>
    decreases n,
{
    if n < 10 {
        seq![digit_char(n)]
    } else {
        decimal(n / 10) + seq![digit_char(n % 10)]
    }
}

pub open spec fn digit_char(d: nat) -> char {
    if d == 0 {
        '0'
    } else if d == 1 {
        '1'
    } else if d == 2 {
        '2'
    } else if d == 3 {
        '3'
    } else if d == 4 {
        '4'
    } else if d == 5 {
        '5'
    } else if d == 6 {
        '6'
    } else if d == 7 {
        '7'
    } else if d == 8 {
        '8'
    } else {
        '9'
    }
}

/// The line that proposes `label`, matched at `percent` per cent.
pub open spec fn did_you_mean_text(label: Seq<char>, percent: nat) -> Seq<char> {
    "Did you mean: "@ + label + " ("@ + decimal(percent) + "% match)?"@
}

/// `parts` joined by `sep`.
pub open spec fn joined(parts: Seq<Seq<char>>, sep: Seq<char>) -> Seq<char>
    decreases parts.len(),
{
    if parts.len() == 0 {
        Seq::empty()
    } else if parts.len() == 1 {
        parts[0]
    } else {
        joined(parts.drop_last(), sep) + sep + parts.last()
    }
}

/// The line that proposes the time-based suggestions `labels`.
pub open spec fn usage_text(labels: Seq<Seq<char>>) -> Seq<char> {
    "Based on your usage patterns, try: "@ + joined(labels, " or "@)
}

/// The guidance lines for a best match (label and per cent) and for time-based suggestions.
pub open spec fn guidance(best: Option<(Seq<char>, nat)>, times: Seq<Seq<char>>) -> Seq<Seq<char>> {
    let first: Seq<Seq<char>> = match best {
        Some((label, percent)) => seq![did_you_mean_text(label, percent)],
        None => Seq::empty(),
    };
    if times.len() == 0 {
        first
    } else {
        first.push(usage_text(times))
    }
}

fn digit_str(d: usize) -> (r: &'static str)
    requires
        d < 10,
    ensures
        r@ == seq![digit_char(d as nat)],
{
    proof {
        reveal_strlit("0");
        reveal_strlit("1");
        reveal_strlit("2");
        reveal_strlit("3");
        reveal_strlit("4");
        reveal_strlit("5");
        reveal_strlit("6");
        reveal_strlit("7");
        reveal_strlit("8");
        reveal_strlit("9");
    }
    if d == 0 {
        "0"
    } else if d == 1 {
        "1"
    } else if d == 2 {
        "2"
    } else if d == 3 {
        "3"
    } else if d == 4 {
        "4"
    } else if d == 5 {
        "5"
    } else if d == 6 {
        "6"
    } else if d == 7 {
        "7"
    } else if d == 8 {
        "8"
    } else {
        assert(seq!['9'] =~= "9"@);
        "9"
    }
}

fn push_decimal(out: &mut String, n: usize)
    ensures
        final(out)@ == old(out)@ + decimal(n as nat),
    decreases n,
{
    if n >= 10 {
        push_decimal(out, n / 10);
    }
    out.append(digit_str(n % 10));
    proof {
        if n >= 10 {
            assert(old(out)@ + decimal(n as nat) =~= old(out)@ + decimal((n / 10) as nat) + seq![
                digit_char((n % 10) as nat),
            ]);
        } else {
            assert(old(out)@ + decimal(n as nat) =~= old(out)@ + seq![digit_char((n % 10) as nat)]);
        }
    }
}

/// The guidance lines: "did you mean" for `best` (label and per cent), then one line that
/// joins the time-based suggestions `times`, where there are any.
pub fn failed_command_messages(best: Option<(&str, usize)>, times: &Vec<String>) -> (r: Vec<String>)
    ensures
        r@.len() == guidance(
            match best {
                Some((l, p)) => Some((l@, p as nat)),
                None => None,
            },
            times@.map_values(|t: String| t@),
        ).len(),
        forall|k: int|
            0 <= k < r@.len() ==> (#[trigger] r@[k])@ == guidance(
                match best {
                    Some((l, p)) => Some((l@, p as nat)),
                    None => None,
                },
                times@.map_values(|t: String| t@),
            )[k],
{
    let ghost tv = times@.map_values(|t: String| t@);
    let mut r: Vec<String> = Vec::new();
    match best {
        Some((label, percent)) => {
            let mut line = String::from_str("Did you mean: ");
            line.append(label);
            line.append(" (");
            push_decimal(&mut line, percent);
            line.append("% match)?");
            assert(line@ =~= did_you_mean_text(label@, percent as nat));
            r.push(line);
        },
        None => {},
    }
    if times.len() > 0 {
        let mut list = String::new();
        let mut i: usize = 0;
        while i < times.len()
            invariant
                tv == times@.map_values(|t: String| t@),
                i <= times@.len(),
                list@ == joined(tv.subrange(0, i as int), " or "@),
            decreases times@.len() - i,
        {
            if i > 0 {
                list.append(" or ");
            }
            list.append(times[i].as_str());
            proof {
                let next = tv.subrange(0, i + 1);
                assert(next.drop_last() =~= tv.subrange(0, i as int));
                if i == 0 {
                    assert(list@ =~= next[0]);
                }
            }
            i = i + 1;
        }
        assert(tv.subrange(0, times@.len() as int) =~= tv);
        let mut line = String::from_str("Based on your usage patterns, try: ");
        line.append(list.as_str());
        r.push(line);
    }
    r
}

/// The suggestion engine: fuzzy matching against candidate phrases, and proposals from
/// the history by frequency and by time of use.
#[derive(Debug)]
pub struct SmartSuggestions {
    min_confidence: Score,
}

impl SmartSuggestions {
    pub closed spec fn confidence(&self) -> Score {
        self.min_confidence
    }

    pub open spec fn wf(&self) -> bool {
        self.confidence() == min_confidence_spec()
    }

    pub fn new() -> (r: Self)
        ensures
            r.wf(),
    {
        SmartSuggestions { min_confidence: Score { num: 7, den: 10 } }
    }

    /// Similarity of `input` to `target`, ignoring case.
    pub fn fuzzy_match(&self, input: &str, target: &str) -> (r: Score)
        ensures
            r == similarity(lower_of(input@), lower_of(target@)),
            r.in_unit(),
    {
        let a = lowercase(input);
        let b = lowercase(target);
        similarity_of_lowered(a.as_str(), b.as_str())
    }

    /// `1 - distance / longer length` over the characters of `s1` and `s2`, as given.
    pub fn levenshtein_similarity(&self, s1: &str, s2: &str) -> (r: Score)
        ensures
            r == crate::fuzzy::edit_similarity(s1@, s2@),
            r.in_unit(),
    {
        let a = crate::fuzzy::chars_of(s1);
        let b = crate::fuzzy::chars_of(s2);
        crate::fuzzy::edit_score(&a, &b)
    }

    /// The first position with the highest score at or above `threshold`, if any reaches it.
    pub fn pick_best(scores: &Vec<Score>, threshold: &Score) -> (r: Option<usize>)
        requires
            threshold.wf(),
            forall|j: int| 0 <= j < scores@.len() ==> (#[trigger] scores@[j]).wf(),
        ensures
            r is None <==> forall|j: int| 0 <= j < scores@.len() ==> !(#[trigger] scores@[j]).ge(*threshold),
            r matches Some(i) ==> is_first_best(scores@, i as int, *threshold),
    {
        let mut best: Option<usize> = None;
        let mut k: usize = 0;
        while k < scores.len()
            invariant
                threshold.wf(),
                forall|j: int| 0 <= j < scores@.len() ==> (#[trigger] scores@[j]).wf(),
                k <= scores@.len(),
                best is None <==> forall|j: int| 0 <= j < k ==> !(#[trigger] scores@[j]).ge(*threshold),
                best matches Some(b) ==> b < k && is_first_best(scores@.subrange(0, k as int), b as int, *threshold),
            decreases scores@.len() - k,
        {
            let ghost sk = scores@.subrange(0, k as int);
            let ghost sk1 = scores@.subrange(0, k + 1);
            let s = &scores[k];
            if s.at_least(threshold) {
                match best {
                    None => {
                        best = Some(k);
                        proof {
                            assert forall|j: int| 0 <= j < k + 1 && sk1[j].ge(*threshold) implies sk1[k as int].ge(sk1[j]) by {
                                if j < k {
                                    assert(sk1[j] == scores@[j]);
                                }
                            }
                        }
                    },
                    Some(b) => {
                        if s.above(&scores[b]) {
                            best = Some(k);
                            proof {
                                assert forall|j: int| 0 <= j < k + 1 && sk1[j].ge(*threshold) implies sk1[k as int].gt(sk1[j]) || j == k by {
                                    if j < k {
                                        assert(sk1[j] == sk[j]);
                                        assert(sk[b as int].ge(sk[j]));
                                        lemma_gt_ge_trans(scores@[k as int], scores@[b as int], scores@[j]);
                                    }
                                }
                            }
                        } else {
                            proof {
                                assert(sk1[b as int] == sk[b as int]);
                                assert forall|j: int| 0 <= j < k + 1 && sk1[j].ge(*threshold) implies sk1[b as int].ge(sk1[j]) by {
                                    if j < k {
                                        assert(sk1[j] == sk[j]);
                                    }
                                }
                                assert forall|j: int| 0 <= j < b && sk1[j].ge(*threshold) implies sk1[b as int].gt(sk1[j]) by {
                                    assert(sk1[j] == sk[j]);
                                }
                            }
                        }
                    },
                }
            } else {
                proof {
                    if best is Some {
                        let b = best->0;
                        assert forall|j: int| 0 <= j < k + 1 && sk1[j].ge(*threshold) implies sk1[b as int].ge(sk1[j]) by {
                            if j < k {
                                assert(sk1[j] == sk[j]);
                            }
                        }
                        assert forall|j: int| 0 <= j < b && sk1[j].ge(*threshold) implies sk1[b as int].gt(sk1[j]) by {
                            assert(sk1[j] == sk[j]);
                        }
                        assert(sk1[b as int] == sk[b as int]);
                    }
                }
            }
            k = k + 1;
        }
        assert(scores@.subrange(0, scores@.len() as int) =~= scores@);
        best
    }

    /// The candidate phrase most similar to `input`, with its score, taking the first of equal
    /// best scores; `None` when no phrase reaches the least confidence.
    pub fn find_best_match<'a>(&self, input: &str, commands: &'a Vec<(String, String)>) -> (r: Option<(&'a str, Score)>)
        requires
            self.wf(),
        ensures
            r is None <==> forall|j: int| 0 <= j < commands@.len() ==> !(#[trigger] candidate_scores(input@, commands@)[j]).ge(min_confidence_spec()),
            r matches Some((p, s)) ==> exists|i: int| #[trigger] is_first_best(candidate_scores(input@, commands@), i, min_confidence_spec())
                && p@ == commands@[i].0@ && s == candidate_scores(input@, commands@)[i],
            r matches Some((p, s)) ==> s.ge(min_confidence_spec()) && s.in_unit(),
    {
        let ghost cs = candidate_scores(input@, commands@);
        let mut scores: Vec<Score> = Vec::new();
        let mut i: usize = 0;
        while i < commands.len()
            invariant
                i <= commands@.len(),
                scores@ == cs.subrange(0, i as int),
                cs == candidate_scores(input@, commands@),
                forall|j: int| 0 <= j < i ==> (#[trigger] scores@[j]).in_unit(),
            decreases commands@.len() - i,
        {
            let s = self.fuzzy_match(input, commands[i].0.as_str());
            scores.push(s);
            i = i + 1;
            assert(scores@ =~= cs.subrange(0, i as int));
        }
        assert(scores@ =~= cs);
        match Self::pick_best(&scores, &self.min_confidence) {
            Some(b) => {
                assert(is_first_best(cs, b as int, min_confidence_spec()));
                Some((commands[b].0.as_str(), scores[b]))
            },
            None => None,
        }
    }

    /// Labels most expected at hour `hour` of weekday `day`: those of successful entries whose
    /// relevance exceeds 3/10, most relevant first (ties in order of first use), at most `limit`.
    pub fn time_based_suggestions_at(&self, history: &CommandHistory, hour: u32, day: u32, limit: usize) -> (r: Vec<String>)
        requires
            history.wf(),
            hour < 24,
            day < 7,
        ensures
            labels_at(
                r@,
                ranked_above(relevances(history@, hour as int, day as int), relevance_floor(), labels_in_order(history@, true).len()),
                labels_in_order(history@, true),
                limit as nat,
            ),
    {
        let patterns = build_patterns(history);
        let ghost labels = labels_in_order(history@, true);
        let ghost rel = relevances(history@, hour as int, day as int);
        let mut scores: Vec<Score> = Vec::new();
        let mut i: usize = 0;
        while i < patterns.len()
            invariant
                i <= patterns@.len(),
                patterns@.len() == labels.len(),
                labels == labels_in_order(history@, true),
                rel == relevances(history@, hour as int, day as int),
                hour < 24,
                day < 7,
                forall|k: int| 0 <= k < patterns@.len() ==> (#[trigger] patterns@[k]).0@ == labels[k]
                    && crate::temporal::pattern_of(patterns@[k].1, history@, patterns@[k].0@),
                scores@ == rel.subrange(0, i as int),
            decreases patterns@.len() - i,
        {
            let s = patterns[i].1.calculate_relevance(hour, day);
            scores.push(s);
            i = i + 1;
            assert(scores@ =~= rel.subrange(0, i as int));
        }
        assert(scores@ =~= rel);
        let floor = Score { num: 3, den: 10 };
        let order = rank_above(&scores, &floor);
        let mut r: Vec<String> = Vec::new();
        let mut k: usize = 0;
        while k < limit && k < order.len()
            invariant
                k <= order@.len(),
                k <= limit,
                r@.len() == k,
                patterns@.len() == labels.len(),
                forall|q: int| 0 <= q < order@.len() ==> #[trigger] order@[q] < scores@.len(),
                scores@.len() == labels.len(),
                forall|q: int| 0 <= q < patterns@.len() ==> (#[trigger] patterns@[q]).0@ == labels[q],
                forall|q: int| 0 <= q < k ==> (#[trigger] r@[q])@ == labels[order@[q] as int],
            decreases order@.len() - k,
        {
            r.push(patterns[order[k]].0.clone());
            k = k + 1;
        }
        r
    }

    /// Labels most expected now, by the local clock; see `time_based_suggestions_at`.
    pub fn get_time_based_suggestions(&self, history: &CommandHistory, limit: usize) -> (r: Vec<String>)
        requires
            history.wf(),
        ensures
            exists|h: int, d: int| 0 <= h < 24 && 0 <= d < 7 && #[trigger] labels_at(
                r@,
                ranked_above(relevances(history@, h, d), relevance_floor(), labels_in_order(history@, true).len()),
                labels_in_order(history@, true),
                limit as nat,
            ),
    {
        let (hour, day) = local_hour_and_weekday();
        self.time_based_suggestions_at(history, hour, day, limit)
    }

    /// The `limit` most used matched labels, most used first (ties in order of first use).
    pub fn get_frequency_suggestions(&self, history: &CommandHistory, limit: usize) -> (r: Vec<String>)
        requires
            history.wf(),
        ensures
            labels_at(
                r@,
                ranked_above(usage_scores(history@), Score { num: 0, den: 1 }, labels_in_order(history@, false).len()),
                labels_in_order(history@, false),
                limit as nat,
            ),
    {
        let stats = history.get_statistics();
        let ghost labels = labels_in_order(history@, false);
        let ghost us = usage_scores(history@);
        let usage = &stats.command_usage;
        let mut scores: Vec<Score> = Vec::new();
        let mut i: usize = 0;
        while i < usage.len()
            invariant
                i <= usage@.len(),
                usage@.len() == labels.len(),
                labels == labels_in_order(history@, false),
                us == usage_scores(history@),
                forall|k: int| 0 <= k < labels.len() ==> (#[trigger] usage@[k]).0@ == labels[k]
                    && usage@[k].1 == label_count(history@, labels[k], false),
                scores@ == us.subrange(0, i as int),
            decreases usage@.len() - i,
        {
            scores.push(Score { num: usage[i].1, den: 1 });
            i = i + 1;
            assert(scores@ =~= us.subrange(0, i as int));
        }
        assert(scores@ =~= us);
        let floor = Score { num: 0, den: 1 };
        let order = rank_above(&scores, &floor);
        let mut r: Vec<String> = Vec::new();
        let mut k: usize = 0;
        while k < limit && k < order.len()
            invariant
                k <= order@.len(),
                k <= limit,
                r@.len() == k,
                usage@.len() == labels.len(),
                forall|q: int| 0 <= q < order@.len() ==> #[trigger] order@[q] < scores@.len(),
                scores@.len() == labels.len(),
                forall|q: int| 0 <= q < usage@.len() ==> (#[trigger] usage@[q]).0@ == labels[q],
                forall|q: int| 0 <= q < k ==> (#[trigger] r@[q])@ == labels[order@[q] as int],
            decreases order@.len() - k,
        {
            r.push(usage[order[k]].0.clone());
            k = k + 1;
        }
        r
    }

    /// Guidance for an input that matched no shortcut: the best fuzzy match, if one reaches
    /// the least confidence, then up to two labels suggested by the time of use.
    pub fn get_suggestions_for_failed_command(&self, input: &str, history: &CommandHistory, commands: &Vec<(String, String)>) -> (r: Vec<String>)
        requires
            self.wf(),
            history.wf(),
        ensures
            exists|h: int, d: int, times: Seq<String>|
                0 <= h < 24 && 0 <= d < 7 && #[trigger] labels_at(
                    times,
                    ranked_above(relevances(history@, h, d), relevance_floor(), labels_in_order(history@, true).len()),
                    labels_in_order(history@, true),
                    2,
                ) && r@.map_values(|x: String| x@) == guidance(
                    best_match_spec(input@, commands@),
                    times.map_values(|x: String| x@),
                ),
    {
        let best = self.find_best_match(input, commands);
        let ghost cs = candidate_scores(input@, commands@);
        let shown = match best {
            Some((label, score)) => Some((label, score.percent())),
            None => None,
        };
        proof {
            let spec_best = best_match_spec(input@, commands@);
            match best {
                Some((p, sc)) => {
                    let i = choose|i: int| #[trigger] is_first_best(cs, i, min_confidence_spec())
                        && p@ == commands@[i].0@ && sc == cs[i];
                    let c = choose|c: int| #[trigger] is_first_best(cs, c, min_confidence_spec());
                    lemma_first_best_unique(cs, i, c, min_confidence_spec());
                },
                None => {
                    if exists|i: int| #[trigger] is_first_best(cs, i, min_confidence_spec()) {
                        let c = choose|c: int| #[trigger] is_first_best(cs, c, min_confidence_spec());
                        assert(cs[c].ge(min_confidence_spec()));
                    }
                },
            }
            assert(spec_best == match shown {
                Some((l, q)) => Some((l@, q as nat)),
                None => None,
            });
        }
        let times = self.get_time_based_suggestions(history, 2);
        let r = failed_command_messages(shown, &times);
        assert(r@.map_values(|x: String| x@) =~= guidance(
            best_match_spec(input@, commands@),
            times@.map_values(|x: String| x@),
        ));
        r
    }
}

proof fn lemma_gt_ge_trans(a: Score, b: Score, c: Score)
    requires
        a.wf(),
        b.wf(),
        c.wf(),
        a.gt(b),
        b.ge(c),
    ensures
        a.gt(c),
{
    assert(a.num * c.den * b.den > c.num * a.den * b.den) by (nonlinear_arith)
        requires
            a.num * b.den > b.num * a.den,
            b.num * c.den >= c.num * b.den,
            a.den > 0,
            b.den > 0,
            c.den > 0,
    ;
    assert(a.num * c.den > c.num * a.den) by (nonlinear_arith)
        requires
            a.num * c.den * b.den > c.num * a.den * b.den,
            b.den > 0,
    ;
}

} // verus!
