use vstd::prelude::*;
use vstd::rwlock::{RwLock, RwLockPredicate};
use std::sync::Arc;
use vstd::string::*;

use crate::text::{decimal, decimal_text};

pub mod atomic_metrics;
pub mod concurrent_metrics;

verus! {

/// Why a counter could not be changed.
#[derive(Debug, Clone, Copy, PartialEq, Eq, Structural)]
pub enum MetricsError {
    /// The counter would leave the range of `i64`.
    CounterOverflow,
    /// No counter of that name was set up.
    KeyNotFound,
}

/// What `inc` makes of the counts: the counter for `key` goes up by one, starting from
/// zero when it is new.
pub open spec fn inc_result(m: Map<Seq<char>, i64>, key: Seq<char>) -> Result<Map<Seq<char>, i64>, MetricsError> {
    let current: int = if m.contains_key(key) { m[key] as int } else { 0 };
    if current + 1 > i64::MAX {
        Err(MetricsError::CounterOverflow)
    } else {
        Ok(m.insert(key, (current + 1) as i64))
    }
}

/// What `dec` makes of the counts: the counter for `key` goes down by one; a new counter
/// starts from one, and so ends at zero.
pub open spec fn dec_result(m: Map<Seq<char>, i64>, key: Seq<char>) -> Result<Map<Seq<char>, i64>, MetricsError> {
    let current: int = if m.contains_key(key) { m[key] as int } else { 1 };
    if current - 1 < i64::MIN {
        Err(MetricsError::CounterOverflow)
    } else {
        Ok(m.insert(key, (current - 1) as i64))
    }
}

/// Names and counts as text values.
pub open spec fn entries_view(entries: Seq<(String, i64)>) -> Seq<(Seq<char>, i64)> {
    entries.map_values(|e: (String, i64)| (e.0@, e.1))
}

/// One counter as a line of text: `name: count`.
pub open spec fn counter_line(name: Seq<char>, value: i64) -> Seq<char> {
    name + seq![':', ' '] + decimal(value as int) + seq!['\n']
}

/// One line per entry, in the order given.
pub open spec fn counter_lines(entries: Seq<(Seq<char>, i64)>) -> Seq<char>
    decreases entries.len(),
{
    if entries.len() == 0 {
        Seq::empty()
    } else {
        counter_lines(entries.drop_last()) + counter_line(entries.last().0, entries.last().1)
    }
}

/// Appends the line of one counter.
pub(crate) fn push_counter_line(s: &mut String, name: &String, value: i64)
    ensures
        final(s)@ == old(s)@ + counter_line(name@, value),
{
    s.append(name.as_str());
    s.append(": ");
    proof {
        reveal_strlit(": ");
        reveal_strlit("\n");
    }
    s.append(decimal_text(value as i128).as_str());
    s.append("\n");
    assert(final(s)@ =~= old(s)@ + counter_line(name@, value));
}

/// The lines of `entries`, in their order.
pub(crate) fn lines_text(entries: &Vec<(String, i64)>) -> (s: String)
    ensures
        s@ == counter_lines(entries_view(entries@)),
{
    let mut s = String::new();
    let mut k: usize = 0;
    while k < entries.len()
        invariant
            k <= entries@.len(),
            s@ == counter_lines(entries_view(entries@).take(k as int)),
        decreases entries@.len() - k,
    {
        let ghost es = entries_view(entries@);
        push_counter_line(&mut s, &entries[k].0, entries[k].1);
        assert(es.take(k + 1).drop_last() =~= es.take(k as int));
        k = k + 1;
    }
    assert(entries_view(entries@).take(entries@.len() as int) =~= entries_view(entries@));
    s
}

/// `entries` lists every counter of `m` exactly once, with its count.
pub open spec fn lists_counts(entries: Seq<(Seq<char>, i64)>, m: Map<Seq<char>, i64>) -> bool {
    &&& entries.len() == m.len()
    &&& forall|p: int|
        0 <= p < entries.len() ==> m.contains_key(#[trigger] entries[p].0) && m[entries[p].0]
            == entries[p].1
    &&& forall|p: int, q: int|
        0 <= p < entries.len() && 0 <= q < entries.len() && p != q ==> #[trigger] entries[p].0
            != #[trigger] entries[q].0
}

/// Named counters, kept in the order in which their names first came.
pub struct CounterTable {
    keys: Vec<String>,
    counts: Vec<i64>,
    model: Ghost<Map<Seq<char>, i64>>,
}

impl View for CounterTable {
    type V = Map<Seq<char>, i64>;

    closed spec fn view(&self) -> Map<Seq<char>, i64> {
        self.model@
    }
}

impl CounterTable {
    /// Names are distinct, and each count is the model's count for its name.
    pub closed spec fn wf(&self) -> bool {
        &&& self.keys@.len() == self.counts@.len()
        &&& forall|k: int|
            0 <= k < self.keys@.len() ==> self.model@.contains_key(#[trigger] self.keys@[k]@)
                && self.model@[self.keys@[k]@] == self.counts@[k]
        &&& forall|s: Seq<char>|
            #[trigger] self.model@.contains_key(s) ==> exists|k: int|
                0 <= k < self.keys@.len() && #[trigger] self.keys@[k]@ == s
        &&& forall|k: int, l: int|
            0 <= k < self.keys@.len() && 0 <= l < self.keys@.len() && k != l ==> #[trigger] self.keys@[k]@
                != #[trigger] self.keys@[l]@
    }

    pub fn new() -> (t: CounterTable)
        ensures
            t.wf(),
            t@ == Map::<Seq<char>, i64>::empty(),
    {
        CounterTable { keys: Vec::new(), counts: Vec::new(), model: Ghost(Map::empty()) }
    }

    /// The position of `key` among the names, if it is there.
    fn position(&self, key: &String) -> (r: Option<usize>)
        requires
            self.wf(),
        ensures
            match r {
                Some(k) => k < self.keys@.len() && self.keys@[k as int]@ == key@,
                None => !self@.contains_key(key@),
            },
    {
        let mut k: usize = 0;
        while k < self.keys.len()
            invariant
                self.wf(),
                k <= self.keys@.len(),
                forall|t: int| 0 <= t < k ==> #[trigger] self.keys@[t]@ != key@,
            decreases self.keys@.len() - k,
        {
            if self.keys[k] == *key {
                return Some(k);
            }
            k = k + 1;
        }
        None
    }

    /// Sets the counter for `key`, which must be in the table already.
    fn set_at(&mut self, k: usize, value: i64)
        requires
            old(self).wf(),
            k < old(self).keys@.len(),
        ensures
            final(self).wf(),
            final(self)@ == old(self)@.insert(old(self).keys@[k as int]@, value),
            final(self).keys@ == old(self).keys@,
    {
        let ghost key = self.keys@[k as int]@;
        self.counts.set(k, value);
        self.model = Ghost(self.model@.insert(key, value));
        assert forall|s: Seq<char>| #[trigger] self.model@.contains_key(s) implies exists|j: int|
            0 <= j < self.keys@.len() && #[trigger] self.keys@[j]@ == s by {
            if s != key {
                assert(old(self).model@.contains_key(s));
                let j = choose|j: int| 0 <= j < old(self).keys@.len() && #[trigger] old(self).keys@[j]@ == s;
                assert(self.keys@[j]@ == s);
            } else {
                assert(self.keys@[k as int]@ == s);
            }
        }
    }

    /// Adds a new counter for `key`, which must not be in the table yet.
    fn add(&mut self, key: String, value: i64)
        requires
            old(self).wf(),
            !old(self)@.contains_key(key@),
        ensures
            final(self).wf(),
            final(self)@ == old(self)@.insert(key@, value),
    {
        let ghost s0 = key@;
        self.keys.push(key);
        self.counts.push(value);
        self.model = Ghost(self.model@.insert(s0, value));
        let ghost last = self.keys@.len() - 1;
        assert(self.keys@[last]@ == s0);
        assert forall|s: Seq<char>| #[trigger] self.model@.contains_key(s) implies exists|j: int|
            0 <= j < self.keys@.len() && #[trigger] self.keys@[j]@ == s by {
            if s != s0 {
                assert(old(self).model@.contains_key(s));
                let j = choose|j: int| 0 <= j < old(self).keys@.len() && #[trigger] old(self).keys@[j]@ == s;
                assert(self.keys@[j]@ == s);
            } else {
                assert(self.keys@[last]@ == s);
            }
        }
        assert forall|k: int, l: int|
            0 <= k < self.keys@.len() && 0 <= l < self.keys@.len() && k != l implies #[trigger] self.keys@[k]@
            != #[trigger] self.keys@[l]@ by {
            if k == last {
                assert(!old(self).model@.contains_key(self.keys@[k]@));
                assert(old(self).model@.contains_key(old(self).keys@[l]@));
            } else if l == last {
                assert(!old(self).model@.contains_key(self.keys@[l]@));
                assert(old(self).model@.contains_key(old(self).keys@[k]@));
            }
        }
    }

    /// Raises the counter for `key` by one, creating it at zero first when it is new.
    pub fn inc(&mut self, key: String) -> (r: Result<(), MetricsError>)
        requires
            old(self).wf(),
        ensures
            final(self).wf(),
            match inc_result(old(self)@, key@) {
                Ok(m) => r == Ok::<(), MetricsError>(()) && final(self)@ == m,
                Err(e) => r == Err::<(), MetricsError>(e) && final(self)@ == old(self)@,
            },
    {
        match self.position(&key) {
            Some(k) => {
                let c = self.counts[k];
                if c == i64::MAX {
                    return Err(MetricsError::CounterOverflow);
                }
                self.set_at(k, c + 1);
                Ok(())
            },
            None => {
                self.add(key, 1);
                Ok(())
            },
        }
    }

    /// Lowers the counter for `key` by one; a new counter starts at one and so ends at zero.
    pub fn dec(&mut self, key: String) -> (r: Result<(), MetricsError>)
        requires
            old(self).wf(),
        ensures
            final(self).wf(),
            match dec_result(old(self)@, key@) {
                Ok(m) => r == Ok::<(), MetricsError>(()) && final(self)@ == m,
                Err(e) => r == Err::<(), MetricsError>(e) && final(self)@ == old(self)@,
            },
    {
        match self.position(&key) {
            Some(k) => {
                let c = self.counts[k];
                if c == i64::MIN {
                    return Err(MetricsError::CounterOverflow);
                }
                self.set_at(k, c - 1);
                Ok(())
            },
            None => {
                self.add(key, 0);
                Ok(())
            },
        }
    }

    /// The count for `key`, if there is such a counter.
    pub fn get(&self, key: &String) -> (r: Option<i64>)
        requires
            self.wf(),
        ensures
            r == (if self@.contains_key(key@) { Some(self@[key@]) } else { None::<i64> }),
    {
        match self.position(key) {
            Some(k) => Some(self.counts[k]),
            None => None,
        }
    }

    /// A copy of every counter with its count, in the order the names first came.
    pub fn snapshot(&self) -> (r: Vec<(String, i64)>)
        requires
            self.wf(),
        ensures
            lists_counts(entries_view(r@), self@),
    {
        let mut out: Vec<(String, i64)> = Vec::new();
        let mut k: usize = 0;
        while k < self.keys.len()
            invariant
                self.wf(),
                k <= self.keys@.len(),
                out@.len() == k,
                forall|p: int| 0 <= p < k ==> #[trigger] out@[p].0@ == self.keys@[p]@ && out@[p].1 == self.counts@[p],
            decreases self.keys@.len() - k,
        {
            out.push((self.keys[k].clone(), self.counts[k]));
            k = k + 1;
        }
        proof {
            let ks = Set::new(|s: Seq<char>| exists|p: int| 0 <= p < self.keys@.len() && #[trigger] self.keys@[p]@ == s);
            assert(self@.dom() =~= ks);
            lemma_distinct_names_count(self.keys@, self@.dom());
        }
        out
    }

    /// Every counter as a line `name: count`, each name once.
    pub fn to_display_string(&self) -> (s: String)
        requires
            self.wf(),
        ensures
            exists|es: Seq<(Seq<char>, i64)>| lists_counts(es, self@) && s@ == counter_lines(es),
    {
        let entries = self.snapshot();
        lines_text(&entries)
    }
}

/// Distinct names, which are exactly the members of `dom`, are as many as `dom` has.
proof fn lemma_distinct_names_count(keys: Seq<String>, dom: Set<Seq<char>>)
    requires
        forall|k: int, l: int|
            0 <= k < keys.len() && 0 <= l < keys.len() && k != l ==> #[trigger] keys[k]@ != #[trigger] keys[l]@,
        forall|s: Seq<char>| dom.contains(s) <==> exists|p: int| 0 <= p < keys.len() && #[trigger] keys[p]@ == s,
    ensures
        dom.finite(),
        dom.len() == keys.len(),
    decreases keys.len(),
{
    if keys.len() == 0 {
        assert(dom =~= Set::empty());
    } else {
        let pre = keys.drop_last();
        let last = keys.last()@;
        let rest = dom.remove(last);
        assert forall|s: Seq<char>| rest.contains(s) <==> exists|p: int| 0 <= p < pre.len() && #[trigger] pre[p]@ == s by {
            if rest.contains(s) {
                let p = choose|p: int| 0 <= p < keys.len() && #[trigger] keys[p]@ == s;
                assert(p != keys.len() - 1);
                assert(pre[p]@ == s);
            }
            if exists|p: int| 0 <= p < pre.len() && #[trigger] pre[p]@ == s {
                let p = choose|p: int| 0 <= p < pre.len() && #[trigger] pre[p]@ == s;
                assert(keys[p]@ == s);
                assert(keys[p]@ != keys[keys.len() - 1]@);
            }
        }
        assert forall|k: int, l: int|
            0 <= k < pre.len() && 0 <= l < pre.len() && k != l implies #[trigger] pre[k]@ != #[trigger] pre[l]@ by {
            assert(keys[k]@ != keys[l]@);
        }
        lemma_distinct_names_count(pre, rest);
        assert(dom.contains(last)) by {
            assert(keys[keys.len() - 1]@ == last);
        }
        assert(dom =~= rest.insert(last));
    }
}

/// What the lock guarding a shared table keeps true: the table is well formed.
pub struct WellFormedTable;

impl RwLockPredicate<CounterTable> for WellFormedTable {
    open spec fn inv(self, v: CounterTable) -> bool {
        v.wf()
    }
}

/// Named counters shared between threads behind a reader-writer lock; a clone shares the
/// same counters.
pub struct Metrics {
    data: Arc<RwLock<CounterTable, WellFormedTable>>,
}

impl Metrics {
    pub fn new() -> (m: Metrics) {
        Metrics { data: Arc::new(RwLock::new(CounterTable::new(), Ghost(WellFormedTable))) }
    }

    /// Raises the shared counter for `key` by one under the write lock, as
    /// `CounterTable::inc` does; only an overflow is refused.
    pub fn inc(&self, key: String) -> (r: Result<(), MetricsError>)
        ensures
            r is Err ==> r == Err::<(), MetricsError>(MetricsError::CounterOverflow),
    {
        let (mut table, handle) = self.data.acquire_write();
        let r = table.inc(key);
        handle.release_write(table);
        r
    }

    /// Lowers the shared counter for `key` by one under the write lock, as
    /// `CounterTable::dec` does; only an overflow is refused.
    pub fn dec(&self, key: String) -> (r: Result<(), MetricsError>)
        ensures
            r is Err ==> r == Err::<(), MetricsError>(MetricsError::CounterOverflow),
    {
        let (mut table, handle) = self.data.acquire_write();
        let r = table.dec(key);
        handle.release_write(table);
        r
    }

    /// A copy of the counters as they stood at one moment: each name once, with its count.
    pub fn snapshot(&self) -> (r: Vec<(String, i64)>)
        ensures
            exists|m: Map<Seq<char>, i64>| lists_counts(entries_view(r@), m),
    {
        let handle = self.data.acquire_read();
        let r = handle.borrow().snapshot();
        handle.release_read();
        r
    }

    /// The counters as they stood at one moment, as lines `name: count`, each name once.
    pub fn to_display_string(&self) -> (s: String)
        ensures
            exists|es: Seq<(Seq<char>, i64)>, m: Map<Seq<char>, i64>| lists_counts(es, m) && s@ == counter_lines(es),
    {
        let handle = self.data.acquire_read();
        let s = handle.borrow().to_display_string();
        handle.release_read();
        s
    }
}

impl Clone for Metrics {
    /// Shares the same counters.
    fn clone(&self) -> (c: Self) {
        Metrics { data: Arc::clone(&self.data) }
    }
}

} // verus!
