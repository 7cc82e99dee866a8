use vstd::prelude::*;

use crate::ranking::{rank_above, ranked_above};
use crate::score::Score;

verus! {

/// Most entries a history keeps; older ones are evicted first.
pub const MAX_ENTRIES: usize = 1000;

/// A moment of local wall-clock time, held as plain calendar values.
#[derive(Clone, Copy, Debug, PartialEq, Eq)]
pub struct Timestamp {
    pub year: i32,
    /// 1 ..= 12
    pub month: u32,
    /// 1 ..= 31
    pub day: u32,
    /// 0 ..= 23
    pub hour: u32,
    pub minute: u32,
    pub second: u32,
    /// Values of a billion and above mark a leap second.
    pub nanosecond: u32,
    /// Days since Monday: Monday is 0, Sunday is 6.
    pub weekday: u32,
    /// Offset of the local time zone east of UTC.
    pub utc_offset_seconds: i32,
}

impl Timestamp {
    pub open spec fn wf(&self) -> bool {
        &&& 1 <= self.month <= 12
        &&& 1 <= self.day <= 31
        &&& self.hour < 24
        &&& self.minute < 60
        &&& self.second < 60
        &&& self.nanosecond < 2_000_000_000
        &&& self.weekday < 7
        &&& -86_400 < self.utc_offset_seconds < 86_400
    }
}

/// One attempted voice command.
#[derive(Clone, Debug, PartialEq, Eq)]
pub struct CommandEntry {
    pub timestamp: Timestamp,
    pub transcription: String,
    pub command_matched: Option<String>,
    pub command_executed: Option<String>,
    pub success: bool,
    pub duration_ms: u64,
}

impl CommandEntry {
    pub open spec fn wf(&self) -> bool {
        self.timestamp.wf()
    }

    /// The matched label of this entry, as characters.
    pub open spec fn label(&self) -> Option<Seq<char>> {
        match self.command_matched {
            Some(m) => Some(m@),
            None => None,
        }
    }

    /// The matched label, where the entry counts: any entry with a label, or with
    /// `successful_only` only one that also succeeded.
    pub open spec fn counted_label(&self, successful_only: bool) -> Option<Seq<char>> {
        if successful_only && !self.success {
            None
        } else {
            self.label()
        }
    }
}

/// The last `n` items of `s`, or all of `s` when it is shorter.
pub open spec fn keep_last<T>(s: Seq<T>, n: nat) -> Seq<T> {
    if s.len() <= n {
        s
    } else {
        s.subrange(s.len() - n, s.len() as int)
    }
}

/// The entries of `h` after appending each of `adds` in turn, evicting as `add_entry` does.
pub open spec fn after_adds(h: Seq<CommandEntry>, adds: Seq<CommandEntry>) -> Seq<CommandEntry>
    decreases adds.len(),
{
    if adds.len() == 0 {
        h
    } else {
        keep_last(after_adds(h, adds.drop_last()).push(adds.last()), MAX_ENTRIES as nat)
    }
}

/// Number of entries that succeeded.
pub open spec fn count_successful(s: Seq<CommandEntry>) -> nat
    decreases s.len(),
{
    if s.len() == 0 {
        0
    } else {
        count_successful(s.drop_last()) + if s.last().success { 1nat } else { 0nat }
    }
}

/// Sum of the durations of all entries.
pub open spec fn sum_durations(s: Seq<CommandEntry>) -> nat
    decreases s.len(),
{
    if s.len() == 0 {
        0
    } else {
        sum_durations(s.drop_last()) + s.last().duration_ms as nat
    }
}

/// Number of counted entries (see `counted_label`) whose label is `label`.
pub open spec fn label_count(s: Seq<CommandEntry>, label: Seq<char>, successful_only: bool) -> nat
    decreases s.len(),
{
    if s.len() == 0 {
        0
    } else {
        label_count(s.drop_last(), label, successful_only) + if s.last().counted_label(
            successful_only,
        ) == Some(label) {
            1nat
        } else {
            0nat
        }
    }
}

/// The distinct labels of the counted entries of `s`, in the order of their first appearance.
pub open spec fn labels_in_order(s: Seq<CommandEntry>, successful_only: bool) -> Seq<Seq<char>>
    decreases s.len(),
{
    if s.len() == 0 {
        Seq::empty()
    } else {
        let prev = labels_in_order(s.drop_last(), successful_only);
        match s.last().counted_label(successful_only) {
            Some(l) => if prev.contains(l) { prev } else { prev.push(l) },
            None => prev,
        }
    }
}

/// The statistics that `get_statistics` owes for the entries `s`.
pub open spec fn statistics_of(s: Seq<CommandEntry>, r: CommandStatistics) -> bool {
    let labels = labels_in_order(s, false);
    &&& r.total_commands == s.len()
    &&& r.successful_commands == count_successful(s)
    &&& r.failed_commands == s.len() - count_successful(s)
    &&& r.avg_duration_ms == if s.len() == 0 { 0 } else { sum_durations(s) / s.len() }
    &&& r.command_usage@.len() == labels.len()
    &&& forall|i: int|
        0 <= i < labels.len() ==> (#[trigger] r.command_usage@[i]).0@ == labels[i]
            && r.command_usage@[i].1 == label_count(s, labels[i], false)
}

/// A snapshot of aggregate figures over a history.
#[derive(Debug)]
pub struct CommandStatistics {
    pub total_commands: usize,
    pub successful_commands: usize,
    pub failed_commands: usize,
    /// Each matched label once, in the order of its first use, with its number of uses.
    pub command_usage: Vec<(String, usize)>,
    pub avg_duration_ms: u64,
}

/// The usage counts of `usage` as scores over one.
pub open spec fn count_scores(usage: Seq<(String, usize)>) -> Seq<Score> {
    Seq::new(usage.len(), |i: int| Score { num: usage[i].1, den: 1 })
}

impl CommandStatistics {
    /// The `limit` most used labels with their counts, most used first; equal counts keep
    /// the order of `command_usage`.
    pub fn top_commands(&self, limit: usize) -> (r: Vec<(String, usize)>)
        ensures
            ({
                let order = ranked_above(
                    count_scores(self.command_usage@),
                    Score { num: 0, den: 1 },
                    self.command_usage@.len(),
                );
                &&& r@.len() == if limit < order.len() { limit as nat } else { order.len() }
                &&& forall|k: int|
                    0 <= k < r@.len() ==> (#[trigger] r@[k]).0@ == self.command_usage@[order[k] as int].0@
                        && r@[k].1 == self.command_usage@[order[k] as int].1
            }),
    {
        let usage = &self.command_usage;
        let ghost cs = count_scores(usage@);
        let mut scores: Vec<Score> = Vec::new();
        let mut i: usize = 0;
        while i < usage.len()
            invariant
                i <= usage@.len(),
                cs == count_scores(usage@),
                scores@ == cs.subrange(0, i as int),
            decreases usage@.len() - i,
        {
            scores.push(Score { num: usage[i].1, den: 1 });
            i = i + 1;
            assert(scores@ =~= cs.subrange(0, i as int));
        }
        assert(scores@ =~= cs);
        let order = rank_above(&scores, &Score { num: 0, den: 1 });
        let mut r: Vec<(String, usize)> = Vec::new();
        let mut k: usize = 0;
        while k < limit && k < order.len()
            invariant
                k <= order@.len(),
                k <= limit,
                r@.len() == k,
                scores@.len() == usage@.len(),
                forall|q: int| 0 <= q < order@.len() ==> #[trigger] order@[q] < scores@.len(),
                forall|q: int|
                    0 <= q < k ==> (#[trigger] r@[q]).0@ == usage@[order@[q] as int].0@ && r@[q].1
                        == usage@[order@[q] as int].1,
            decreases order@.len() - k,
        {
            let j = order[k];
            r.push((usage[j].0.clone(), usage[j].1));
            k = k + 1;
        }
        r
    }
}

/// The bounded log of command attempts, oldest first.
#[derive(Debug)]
pub struct CommandHistory {
    entries: Vec<CommandEntry>,
}

impl View for CommandHistory {
    type V = Seq<CommandEntry>;

    closed spec fn view(&self) -> Seq<CommandEntry> {
        self.entries@
    }
}

proof fn lemma_count_successful_le(s: Seq<CommandEntry>)
    ensures
        count_successful(s) <= s.len(),
    decreases s.len(),
{
    if s.len() > 0 {
        lemma_count_successful_le(s.drop_last());
    }
}

pub(crate) proof fn lemma_label_count_le(s: Seq<CommandEntry>, l: Seq<char>, f: bool)
    ensures
        label_count(s, l, f) <= s.len(),
    decreases s.len(),
{
    if s.len() > 0 {
        lemma_label_count_le(s.drop_last(), l, f);
    }
}

proof fn lemma_sum_durations_le(s: Seq<CommandEntry>)
    ensures
        sum_durations(s) <= s.len() * (u64::MAX as nat),
    decreases s.len(),
{
    if s.len() > 0 {
        lemma_sum_durations_le(s.drop_last());
        assert(sum_durations(s) <= s.len() * (u64::MAX as nat)) by (nonlinear_arith)
            requires
                sum_durations(s) == sum_durations(s.drop_last()) + s.last().duration_ms as nat,
                sum_durations(s.drop_last()) <= (s.len() - 1) * (u64::MAX as nat),
                s.last().duration_ms <= u64::MAX,
                s.len() >= 1,
        ;
    }
}

pub(crate) proof fn lemma_labels_distinct(s: Seq<CommandEntry>, f: bool)
    ensures
        labels_in_order(s, f).no_duplicates(),
        forall|l: Seq<char>| labels_in_order(s, f).contains(l) ==> label_count(s, l, f) > 0,
        forall|l: Seq<char>| label_count(s, l, f) > 0 ==> labels_in_order(s, f).contains(l),
    decreases s.len(),
{
    if s.len() > 0 {
        let p = s.drop_last();
        lemma_labels_distinct(p, f);
        let lp = labels_in_order(p, f);
        let ls = labels_in_order(s, f);
        match s.last().counted_label(f) {
            Some(x) => {
                if !lp.contains(x) {
                    assert(ls == lp.push(x));
                    assert forall|l: Seq<char>| ls.contains(l) <==> (lp.contains(l) || l == x) by {
                        if l == x {
                            assert(ls[lp.len() as int] == x);
                        } else if ls.contains(l) {
                            let j = choose|j: int| 0 <= j < ls.len() && ls[j] == l;
                            assert(lp[j] == l);
                        } else if lp.contains(l) {
                            let j = choose|j: int| 0 <= j < lp.len() && lp[j] == l;
                            assert(ls[j] == l);
                        }
                    }
                    assert forall|i: int, j: int|
                        0 <= i < ls.len() && 0 <= j < ls.len() && i != j implies ls[i] != ls[j] by {
                        if i == lp.len() {
                            assert(ls[j] == lp[j]);
                        } else if j == lp.len() {
                            assert(ls[i] == lp[i]);
                        } else {
                            assert(ls[i] == lp[i] && ls[j] == lp[j]);
                        }
                    }
                }
            },
            None => {},
        }
    }
}

impl CommandHistory {
    pub open spec fn wf(&self) -> bool {
        &&& self@.len() <= MAX_ENTRIES
        &&& forall|i: int| 0 <= i < self@.len() ==> (#[trigger] self@[i]).wf()
    }

    pub fn new() -> (r: Self)
        ensures
            r.wf(),
            r@ == Seq::<CommandEntry>::empty(),
    {
        CommandHistory { entries: Vec::new() }
    }

    /// A history holding the last `MAX_ENTRIES` of `entries`, in order, or `None` when one
    /// of them holds an impossible timestamp.
    pub fn from_entries(entries: Vec<CommandEntry>) -> (r: Option<Self>)
        ensures
            r is Some <==> forall|i: int| 0 <= i < entries@.len() ==> (#[trigger] entries@[i]).wf(),
            r matches Some(h) ==> h.wf() && h@ == keep_last(entries@, MAX_ENTRIES as nat),
    {
        let mut i: usize = 0;
        while i < entries.len()
            invariant
                i <= entries@.len(),
                forall|j: int| 0 <= j < i ==> (#[trigger] entries@[j]).wf(),
            decreases entries@.len() - i,
        {
            let t = &entries[i].timestamp;
            let ok = 1 <= t.month && t.month <= 12 && 1 <= t.day && t.day <= 31 && t.hour < 24
                && t.minute < 60 && t.second < 60 && t.nanosecond < 2_000_000_000 && t.weekday < 7
                && -86_400 < t.utc_offset_seconds && t.utc_offset_seconds < 86_400;
            if !ok {
                return None;
            }
            i = i + 1;
        }
        let ghost all = entries@;
        let mut entries = entries;
        if entries.len() > MAX_ENTRIES {
            let at = entries.len() - MAX_ENTRIES;
            let kept = entries.split_off(at);
            proof {
                assert forall|j: int| 0 <= j < kept@.len() implies (#[trigger] kept@[j]).wf() by {
                    assert(kept@[j] == all[j + at]);
                }
            }
            return Some(CommandHistory { entries: kept });
        }
        Some(CommandHistory { entries })
    }

    /// Appends `entry`, then drops the oldest entries until at most `MAX_ENTRIES` remain.
    pub fn add_entry(&mut self, entry: CommandEntry)
        requires
            old(self).wf(),
            entry.wf(),
        ensures
            final(self).wf(),
            final(self)@ == keep_last(old(self)@.push(entry), MAX_ENTRIES as nat),
    {
        self.entries.push(entry);
        if self.entries.len() > MAX_ENTRIES {
            self.entries.remove(0);
        }
        proof {
            assert(self@ =~= keep_last(old(self)@.push(entry), MAX_ENTRIES as nat));
        }
    }

    /// The last `count` entries (fewer when the history is shorter), most recent first.
    pub fn get_recent_entries(&self, count: usize) -> (r: Vec<&CommandEntry>)
        ensures
            r@.len() == if count < self@.len() { count as nat } else { self@.len() },
            forall|i: int| 0 <= i < r@.len() ==> *(#[trigger] r@[i]) == self@[self@.len() - 1 - i],
    {
        let n = self.entries.len();
        let mut r: Vec<&CommandEntry> = Vec::new();
        let mut i: usize = 0;
        while i < count && i < n
            invariant
                n == self@.len(),
                i <= n,
                i <= count,
                r@.len() == i,
                forall|j: int| 0 <= j < i ==> *(#[trigger] r@[j]) == self@[n - 1 - j],
            decreases n - i,
        {
            r.push(&self.entries[n - 1 - i]);
            i = i + 1;
        }
        r
    }

    /// All entries, oldest first.
    pub fn get_all_entries(&self) -> (r: &Vec<CommandEntry>)
        ensures
            r@ == self@,
    {
        &self.entries
    }

    /// Counts, per-label usage and average duration over the whole history.
    pub fn get_statistics(&self) -> (r: CommandStatistics)
        requires
            self.wf(),
        ensures
            statistics_of(self@, r),
            r.successful_commands + r.failed_commands == r.total_commands,
            r.total_commands == 0 ==> r.avg_duration_ms == 0 && r.command_usage@.len() == 0,
    {
        let ghost s = self@;
        let n = self.entries.len();
        let mut successful: usize = 0;
        let mut sum: u128 = 0;
        let mut usage: Vec<(String, usize)> = Vec::new();
        let mut i: usize = 0;
        while i < n
            invariant
                n == s.len(),
                s == self@,
                n <= MAX_ENTRIES,
                i <= n,
                successful == count_successful(s.subrange(0, i as int)),
                sum == sum_durations(s.subrange(0, i as int)),
                usage@.len() == labels_in_order(s.subrange(0, i as int), false).len(),
                forall|k: int|
                    0 <= k < usage@.len() ==> (#[trigger] usage@[k]).0@ == labels_in_order(
                        s.subrange(0, i as int),
                        false,
                    )[k] && usage@[k].1 == label_count(
                        s.subrange(0, i as int),
                        labels_in_order(s.subrange(0, i as int), false)[k],
                        false,
                    ),
            decreases n - i,
        {
            let ghost pre = s.subrange(0, i as int);
            let ghost cur = s.subrange(0, i + 1);
            proof {
                assert(cur.drop_last() =~= pre);
                lemma_count_successful_le(pre);
                lemma_sum_durations_le(pre);
                lemma_labels_distinct(pre, false);
                assert(sum_durations(pre) <= 1000 * (u64::MAX as nat)) by (nonlinear_arith)
                    requires
                        sum_durations(pre) <= pre.len() * (u64::MAX as nat),
                        pre.len() <= 1000,
                ;
            }
            let e = &self.entries[i];
            if e.success {
                successful = successful + 1;
            }
            sum = sum + e.duration_ms as u128;
            match &e.command_matched {
                Some(cmd) => {
                    let mut k: usize = 0;
                    while k < usage.len() && !(usage[k].0 == *cmd)
                        invariant
                            k <= usage@.len(),
                            forall|j: int| 0 <= j < k ==> (#[trigger] usage@[j]).0@ != cmd@,
                        decreases usage@.len() - k,
                    {
                        k = k + 1;
                    }
                    let found = k < usage.len();
                    let ghost labels = labels_in_order(pre, false);
                    if found {
                        proof {
                            lemma_label_count_le(pre, cmd@, false);
                            assert(labels[k as int] == cmd@);
                            assert(labels.contains(cmd@));
                        }
                        let c = usage[k].1;
                        let (label, _) = usage.remove(k);
                        usage.insert(k, (label, c + 1));
                        proof {
                            assert forall|j: int| 0 <= j < usage@.len() && j != k implies labels[j]
                                != cmd@ by {
                                assert(labels[j] != labels[k as int]);
                            }
                        }
                    } else {
                        proof {
                            assert forall|j: int| 0 <= j < labels.len() implies labels[j] != cmd@ by {
                                assert(usage@[j].0@ == labels[j]);
                            }
                            if labels.contains(cmd@) {
                                let j = choose|j: int| 0 <= j < labels.len() && labels[j] == cmd@;
                                assert(labels[j] != cmd@);
                            }
                            assert(label_count(pre, cmd@, false) == 0) by {
                                lemma_labels_distinct(pre, false);
                            }
                        }
                        usage.push((cmd.clone(), 1));
                    }
                },
                None => {},
            }
            i = i + 1;
        }
        proof {
            assert(s.subrange(0, n as int) =~= s);
            lemma_count_successful_le(s);
            lemma_sum_durations_le(s);
        }
        let avg: u64 = if n > 0 {
            proof {
                assert(sum_durations(s) / (n as nat) <= u64::MAX as nat) by (nonlinear_arith)
                    requires
                        sum_durations(s) <= (n as nat) * (u64::MAX as nat),
                        n > 0,
                ;
            }
            (sum / (n as u128)) as u64
        } else {
            0
        };
        CommandStatistics {
            total_commands: n,
            successful_commands: successful,
            failed_commands: n - successful,
            command_usage: usage,
            avg_duration_ms: avg,
        }
    }
}

/// Appending entries one at a time keeps exactly the last `MAX_ENTRIES` of everything
/// added, oldest first, so a history never grows past `MAX_ENTRIES`.
pub proof fn lemma_history_capacity(h: Seq<CommandEntry>, adds: Seq<CommandEntry>)
    requires
        h.len() <= MAX_ENTRIES,
    ensures
        after_adds(h, adds) == keep_last(h + adds, MAX_ENTRIES as nat),
        after_adds(h, adds).len() <= MAX_ENTRIES,
    decreases adds.len(),
{
    let n = MAX_ENTRIES as nat;
    if adds.len() == 0 {
        assert(h + adds =~= h);
    } else {
        let init = adds.drop_last();
        lemma_history_capacity(h, init);
        let prev = h + init;
        assert(h + adds =~= prev.push(adds.last()));
        let x = adds.last();
        if prev.len() <= n {
            assert(keep_last(prev, n) == prev);
        } else {
            assert(keep_last(keep_last(prev, n).push(x), n) =~= keep_last(prev.push(x), n));
        }
    }
}

} // verus!
