//! Exploration history log — structured record of agent decisions.
use vstd::prelude::*;
use crate::strmap::StrMap;

verus! {

/// A single entry in the exploration log.
#[derive(Debug)]
pub struct LogEntry {
    pub iteration: u64,
    pub strategy: String,
    pub branches_found: u64,
    pub action_taken: String,
}

/// Sum of `branches_found` over `es`.
pub open spec fn total_found(es: Seq<LogEntry>) -> nat
    decreases es.len(),
{
    if es.len() == 0 {
        0
    } else {
        total_found(es.drop_last()) + es.last().branches_found as nat
    }
}

/// Number of entries of `es` made under strategy `name`.
pub open spec fn strategy_count(es: Seq<LogEntry>, name: Seq<char>) -> nat
    decreases es.len(),
{
    if es.len() == 0 {
        0
    } else {
        strategy_count(es.drop_last(), name) + if es.last().strategy@ == name {
            1nat
        } else {
            0nat
        }
    }
}

/// Some entry of `es` was made under strategy `name`.
pub open spec fn strategy_used(es: Seq<LogEntry>, name: Seq<char>) -> bool {
    exists|i: int| 0 <= i < es.len() && es[i].strategy@ == name
}

/// Append-only log of exploration decisions for post-hoc analysis.
#[derive(Debug)]
pub struct ExplorationLog {
    entries: Vec<LogEntry>,
}

impl ExplorationLog {
    /// The recorded entries, oldest first.
    pub closed spec fn log(&self) -> Seq<LogEntry> {
        self.entries@
    }

    /// An empty log.
    pub fn new() -> (l: Self)
        ensures
            l.log() == Seq::<LogEntry>::empty(),
    {
        ExplorationLog { entries: Vec::new() }
    }

    /// Appends an entry.
    pub fn record(&mut self, entry: LogEntry)
        ensures
            final(self).log() == old(self).log().push(entry),
    {
        self.entries.push(entry);
    }

    /// Number of entries recorded.
    pub fn len(&self) -> (n: usize)
        ensures
            n == self.log().len(),
    {
        self.entries.len()
    }

    /// Whether nothing was recorded.
    pub fn is_empty(&self) -> (b: bool)
        ensures
            b == (self.log().len() == 0),
    {
        self.entries.len() == 0
    }

    /// All entries in chronological order.
    pub fn entries(&self) -> (es: &[LogEntry])
        ensures
            es@ == self.log(),
    {
        self.entries.as_slice()
    }

    /// Total branches found across all entries.
    pub fn total_branches_found(&self) -> (t: u64)
        requires
            total_found(self.log()) <= u64::MAX,
        ensures
            t == total_found(self.log()),
    {
        let mut t: u64 = 0;
        let mut i: usize = 0;
        while i < self.entries.len()
            invariant
                i <= self.entries@.len(),
                total_found(self.entries@) <= u64::MAX,
                t == total_found(self.entries@.take(i as int)),
            decreases self.entries@.len() - i,
        {
            proof {
                assert(self.entries@.take(i + 1).drop_last() =~= self.entries@.take(i as int));
                lemma_total_prefix(self.entries@, i + 1);
            }
            t = t + self.entries[i].branches_found;
            i = i + 1;
        }
        assert(self.entries@.take(self.entries@.len() as int) =~= self.entries@);
        t
    }

    /// Number of iterations per strategy; strategies in order of first use.
    pub fn strategy_summary(&self) -> (m: StrMap<u64>)
        ensures
            forall|k: Seq<char>| #[trigger] m@.contains_key(k) <==> strategy_used(self.log(), k),
            forall|k: Seq<char>|
                #[trigger] m@.contains_key(k) ==> m@[k] == strategy_count(self.log(), k),
    {
        let mut m: StrMap<u64> = StrMap::new();
        let mut i: usize = 0;
        while i < self.entries.len()
            invariant
                i <= self.entries@.len(),
                forall|k: Seq<char>|
                    #[trigger] m@.contains_key(k) <==> strategy_used(self.entries@.take(i as int), k),
                forall|k: Seq<char>|
                    #[trigger] m@.contains_key(k) ==> m@[k] == strategy_count(
                        self.entries@.take(i as int),
                        k,
                    ),
                forall|k: Seq<char>|
                    #[trigger] m@.contains_key(k) ==> m@[k] <= i,
            decreases self.entries@.len() - i,
        {
            let ghost pre = self.entries@.take(i as int);
            let ghost post = self.entries@.take(i + 1);
            let name = &self.entries[i].strategy;
            let cur: u64 = match m.get(name.as_str()) {
                Some(c) => *c,
                None => 0,
            };
            m.insert(name.clone(), cur + 1);
            proof {
                assert(post.drop_last() =~= pre);
                assert(post.last() == self.entries@[i as int]);
                assert forall|k: Seq<char>| #[trigger] m@.contains_key(k) <==> strategy_used(
                    post,
                    k,
                ) by {
                    if strategy_used(pre, k) {
                        let j = choose|j: int| 0 <= j < pre.len() && pre[j].strategy@ == k;
                        assert(post[j] == pre[j]);
                    }
                    if strategy_used(post, k) && k != name@ {
                        let j = choose|j: int| 0 <= j < post.len() && post[j].strategy@ == k;
                        assert(j < pre.len());
                        assert(pre[j] == post[j]);
                    }
                    if k == name@ {
                        assert(post[i as int].strategy@ == k);
                    }
                }
                assert forall|k: Seq<char>| #[trigger] m@.contains_key(k) implies m@[k]
                    == strategy_count(post, k) by {
                    if k != name@ {
                        assert(strategy_count(post, k) == strategy_count(pre, k));
                    } else if !strategy_used(pre, k) {
                        lemma_count_zero(pre, k);
                    }
                }
            }
            i = i + 1;
        }
        assert(self.entries@.take(self.entries@.len() as int) =~= self.entries@);
        m
    }

    /// Same as [`ExplorationLog::new`].
    pub fn default() -> (l: Self)
        ensures
            l.log() == Seq::<LogEntry>::empty(),
    {
        Self::new()
    }
}

/// The total of a prefix is at most the total of the whole log.
pub proof fn lemma_total_prefix(es: Seq<LogEntry>, k: int)
    requires
        0 <= k <= es.len(),
    ensures
        total_found(es.take(k)) <= total_found(es),
    decreases es.len() - k,
{
    if k < es.len() {
        lemma_total_prefix(es, k + 1);
        assert(es.take(k + 1).drop_last() =~= es.take(k));
    } else {
        assert(es.take(k) =~= es);
    }
}

/// A strategy that never appears has count zero.
pub proof fn lemma_count_zero(es: Seq<LogEntry>, k: Seq<char>)
    requires
        !strategy_used(es, k),
    ensures
        strategy_count(es, k) == 0,
    decreases es.len(),
{
    if es.len() > 0 {
        let t = es.drop_last();
        assert(!strategy_used(t, k)) by {
            if strategy_used(t, k) {
                let j = choose|j: int| 0 <= j < t.len() && t[j].strategy@ == k;
                assert(es[j] == t[j]);
            }
        }
        lemma_count_zero(t, k);
        assert(es[es.len() - 1].strategy@ != k);
    }
}

} // verus!
