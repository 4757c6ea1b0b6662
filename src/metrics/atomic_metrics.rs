use vstd::prelude::*;
use vstd::string::*;
use std::sync::atomic::{AtomicI64, Ordering};
use std::sync::Arc;

use crate::metrics::{counter_lines, push_counter_line, MetricsError};

verus! {

/// The names as text.
pub open spec fn text_views(names: Seq<String>) -> Seq<Seq<char>> {
    Seq::new(names.len(), |k: int| names[k]@)
}

/// Whether `key` is among `names`.
fn has_name(names: &Vec<String>, key: &String) -> (r: bool)
    ensures
        r == text_views(names@).contains(key@),
{
    let mut k: usize = 0;
    while k < names.len()
        invariant
            k <= names@.len(),
            forall|t: int| 0 <= t < k ==> #[trigger] names@[t]@ != key@,
        decreases names@.len() - k,
    {
        if names[k] == *key {
            assert(text_views(names@)[k as int] == key@);
            return true;
        }
        k = k + 1;
    }
    assert(!text_views(names@).contains(key@)) by {
        if text_views(names@).contains(key@) {
            let t = choose|t: int| 0 <= t < names@.len() && text_views(names@)[t] == key@;
            assert(names@[t]@ == key@);
        }
    }
    false
}

/// Each name with the count at the same position.
pub open spec fn paired(names: Seq<Seq<char>>, vals: Seq<i64>) -> Seq<(Seq<char>, i64)> {
    Seq::new(names.len(), |k: int| (names[k], vals[k]))
}

/// A fixed set of named counters, each one an atomic integer, shared between threads;
/// a clone shares the same counters.
pub struct AtomicMetrics {
    names: Arc<Vec<String>>,
    counters: Arc<Vec<AtomicI64>>,
}

impl View for AtomicMetrics {
    type V = Seq<Seq<char>>;

    /// The counters' names, in the order they were given.
    closed spec fn view(&self) -> Seq<Seq<char>> {
        Seq::new(self.names@.len(), |k: int| self.names@[k]@)
    }
}

impl AtomicMetrics {
    #[verifier::type_invariant]
    spec fn inv(self) -> bool {
        self.names@.len() == self.counters@.len()
    }

    /// Sets up one counter at zero for each distinct name, in the order the names first
    /// come; a repeated name shares the counter of its first occurrence. The names are
    /// fixed from then on.
    pub fn new(metric_names: &[&str]) -> (m: AtomicMetrics)
        ensures
            m@.no_duplicates(),
            m@.to_set() == Seq::new(metric_names@.len(), |k: int| metric_names@[k]@).to_set(),
    {
        let ghost given = Seq::new(metric_names@.len(), |k: int| metric_names@[k]@);
        let mut names: Vec<String> = Vec::new();
        let mut counters: Vec<AtomicI64> = Vec::new();
        let mut k: usize = 0;
        while k < metric_names.len()
            invariant
                k <= metric_names@.len(),
                given == Seq::new(metric_names@.len(), |j: int| metric_names@[j]@),
                names@.len() == counters@.len(),
                text_views(names@).no_duplicates(),
                forall|j: int| 0 <= j < k ==> text_views(names@).contains(#[trigger] given[j]),
                forall|t: int|
                    0 <= t < names@.len() ==> given.take(k as int).contains(#[trigger] text_views(names@)[t]),
            decreases metric_names@.len() - k,
        {
            let name = String::from_str(metric_names[k]);
            let ghost before = names@;
            if !has_name(&names, &name) {
                names.push(name);
                counters.push(AtomicI64::new(0));
                proof {
                    assert(text_views(names@) =~= text_views(before).push(given[k as int]));
                    assert(given.take(k + 1)[k as int] == given[k as int]);
                    assert forall|t: int| 0 <= t < names@.len() implies given.take(k + 1).contains(
                        #[trigger] text_views(names@)[t],
                    ) by {
                        if t < before.len() {
                            let j = choose|j: int|
                                0 <= j < k && given.take(k as int)[j] == text_views(before)[t];
                            assert(given.take(k + 1)[j] == given.take(k as int)[j]);
                        } else {
                            assert(given.take(k + 1)[k as int] == text_views(names@)[t]);
                        }
                    }
                    assert forall|j: int| 0 <= j < k + 1 implies text_views(names@).contains(#[trigger] given[j]) by {
                        if j < k {
                            let t = choose|t: int| 0 <= t < before.len() && text_views(before)[t] == given[j];
                            assert(text_views(names@)[t] == given[j]);
                        } else {
                            assert(text_views(names@)[before.len() as int] == given[j]);
                        }
                    }
                }
            } else {
                proof {
                    assert forall|t: int| 0 <= t < names@.len() implies given.take(k + 1).contains(
                        #[trigger] text_views(names@)[t],
                    ) by {
                        let j = choose|j: int| 0 <= j < k && given.take(k as int)[j] == text_views(names@)[t];
                        assert(given.take(k + 1)[j] == given.take(k as int)[j]);
                    }
                }
            }
            k = k + 1;
        }
        let m = AtomicMetrics { names: Arc::new(names), counters: Arc::new(counters) };
        proof {
            assert(m@ == text_views(names@));
            assert(given.take(metric_names@.len() as int) =~= given);
            assert(m@.to_set() =~= given.to_set());
        }
        m
    }

    /// Raises the counter named `key` by one; a name that was not set up is refused.
    pub fn inc(&self, key: &str) -> (r: Result<(), MetricsError>)
        ensures
            r is Ok <==> self@.contains(key@),
            r is Err ==> r == Err::<(), MetricsError>(MetricsError::KeyNotFound),
    {
        proof {
            use_type_invariant(self);
        }
        let wanted = String::from_str(key);
        let mut k: usize = 0;
        while k < self.names.len()
            invariant
                self.names@.len() == self.counters@.len(),
                k <= self.names@.len(),
                wanted@ == key@,
                forall|t: int| 0 <= t < k ==> #[trigger] self.names@[t]@ != key@,
            decreases self.names@.len() - k,
        {
            if self.names[k] == wanted {
                self.counters[k].fetch_add(1, Ordering::Relaxed);
                assert(self@[k as int] == key@);
                return Ok(());
            }
            k = k + 1;
        }
        assert(!self@.contains(key@)) by {
            if self@.contains(key@) {
                let t = choose|t: int| 0 <= t < self@.len() && self@[t] == key@;
                assert(self.names@[t]@ == key@);
            }
        }
        Err(MetricsError::KeyNotFound)
    }
}

impl AtomicMetrics {
    /// Every counter as a line `name: count`, in the order the names were given, each
    /// count as read at the moment its line was written.
    pub fn to_display_string(&self) -> (s: String)
        ensures
            exists|vals: Seq<i64>|
                vals.len() == self@.len() && s@ == counter_lines(#[trigger] paired(self@, vals)),
    {
        proof {
            use_type_invariant(self);
        }
        let mut s = String::new();
        let ghost mut vals: Seq<i64> = Seq::empty();
        let mut k: usize = 0;
        while k < self.names.len()
            invariant
                self.names@.len() == self.counters@.len(),
                k <= self.names@.len(),
                vals.len() == k,
                s@ == counter_lines(paired(self@.take(k as int), vals)),
            decreases self.names@.len() - k,
        {
            let v = self.counters[k].load(Ordering::Relaxed);
            let ghost before = vals;
            push_counter_line(&mut s, &self.names[k], v);
            proof {
                vals = vals.push(v);
                let next = paired(self@.take(k + 1), vals);
                assert(next.drop_last() =~= paired(self@.take(k as int), before));
            }
            k = k + 1;
        }
        assert(self@.take(self@.len() as int) =~= self@);
        assert(s@ == counter_lines(paired(self@, vals)));
        s
    }
}

impl Clone for AtomicMetrics {
    /// Shares the same counters.
    fn clone(&self) -> (c: Self)
        ensures
            c@ == self@,
    {
        proof {
            use_type_invariant(self);
        }
        AtomicMetrics { names: Arc::clone(&self.names), counters: Arc::clone(&self.counters) }
    }
}

} // verus!
