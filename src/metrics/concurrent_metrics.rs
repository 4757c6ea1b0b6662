use vstd::prelude::*;
use dashmap::mapref::one::RefMut;
use dashmap::DashMap;
use std::collections::hash_map::RandomState;
use std::sync::Arc;

use crate::metrics::{counter_lines, entries_view, lines_text, MetricsError};

verus! {

#[verifier::external_type_specification]
#[verifier::external_body]
#[verifier::reject_recursive_types(K)]
#[verifier::reject_recursive_types(V)]
#[verifier::reject_recursive_types(S)]
pub struct ExDashMap<K, V, S>(DashMap<K, V, S>);

#[verifier::external_type_specification]
#[verifier::external_body]
#[verifier::reject_recursive_types(K)]
#[verifier::reject_recursive_types(V)]
pub struct ExRefMut<'a, K, V>(RefMut<'a, K, V>);

/// Relies on `DashMap::new`: an empty concurrent map.
#[verifier::external_body]
fn new_counter_map() -> (m: DashMap<String, i64, RandomState>) {
    DashMap::new()
}

/// Relies on `DashMap::entry` and `Entry::or_insert`: a write guard on the slot of `key`,
/// which holds `init` if the key was absent; the key's shard stays locked until the
/// guard is dropped.
#[verifier::external_body]
fn slot_or_insert<'a>(map: &'a DashMap<String, i64, RandomState>, key: String, init: i64) -> (r: RefMut<'a, String, i64>) {
    map.entry(key).or_insert(init)
}

/// Relies on `RefMut::value`: the value in the guarded slot.
#[verifier::external_body]
fn slot_value(slot: &RefMut<'_, String, i64>) -> (v: i64) {
    *slot.value()
}

/// Relies on `RefMut::value_mut`: writes `v` into the guarded slot.
#[verifier::external_body]
fn slot_store(slot: &mut RefMut<'_, String, i64>, v: i64) {
    *slot.value_mut() = v;
}

/// Relies on `DashMap::iter`: a copy of each entry met while walking the shards; their
/// order, and the effect of writes made meanwhile by other threads, are left open.
#[verifier::external_body]
fn current_entries(map: &DashMap<String, i64, RandomState>) -> (r: Vec<(String, i64)>) {
    map.iter().map(|e| (e.key().clone(), *e.value())).collect()
}

/// The count that follows `c` when a counter is raised by one; a counter at `i64::MAX`
/// cannot be raised.
pub fn raised_count(c: i64) -> (r: Result<i64, MetricsError>)
    ensures
        r == (if c < i64::MAX {
            Ok::<i64, MetricsError>((c + 1) as i64)
        } else {
            Err::<i64, MetricsError>(MetricsError::CounterOverflow)
        }),
{
    if c < i64::MAX {
        Ok(c + 1)
    } else {
        Err(MetricsError::CounterOverflow)
    }
}

/// The count that follows `c` when a counter is lowered by one; a counter at `i64::MIN`
/// cannot be lowered.
pub fn lowered_count(c: i64) -> (r: Result<i64, MetricsError>)
    ensures
        r == (if c > i64::MIN {
            Ok::<i64, MetricsError>((c - 1) as i64)
        } else {
            Err::<i64, MetricsError>(MetricsError::CounterOverflow)
        }),
{
    if c > i64::MIN {
        Ok(c - 1)
    } else {
        Err(MetricsError::CounterOverflow)
    }
}

/// Named counters in a sharded concurrent map; a clone shares the same counters.
pub struct ConcurrentMetrics {
    data: Arc<DashMap<String, i64, RandomState>>,
}

impl ConcurrentMetrics {
    pub fn new() -> (m: ConcurrentMetrics) {
        ConcurrentMetrics { data: Arc::new(new_counter_map()) }
    }

    /// Raises the counter for `key` by one, starting from zero when it is new: the count
    /// read is replaced by `raised_count` of it. The key's shard stays locked from the read
    /// to the write. Only an overflow is refused.
    pub fn inc(&self, key: String) -> (r: Result<(), MetricsError>)
        ensures
            r is Err ==> r == Err::<(), MetricsError>(MetricsError::CounterOverflow),
    {
        let mut slot = slot_or_insert(&self.data, key, 0);
        match raised_count(slot_value(&slot)) {
            Ok(next) => {
                slot_store(&mut slot, next);
                Ok(())
            },
            Err(e) => Err(e),
        }
    }

    /// Lowers the counter for `key` by one, starting from zero when it is new, so that a
    /// new key ends at -1: the count read is replaced by `lowered_count` of it. The key's
    /// shard stays locked from the read to the write. Only an overflow is refused.
    pub fn dec(&self, key: String) -> (r: Result<(), MetricsError>)
        ensures
            r is Err ==> r == Err::<(), MetricsError>(MetricsError::CounterOverflow),
    {
        let mut slot = slot_or_insert(&self.data, key, 0);
        match lowered_count(slot_value(&slot)) {
            Ok(next) => {
                slot_store(&mut slot, next);
                Ok(())
            },
            Err(e) => Err(e),
        }
    }
}

impl ConcurrentMetrics {
    /// The counters met while walking the map, as lines `name: count`.
    pub fn to_display_string(&self) -> (s: String)
        ensures
            exists|es: Seq<(Seq<char>, i64)>| s@ == counter_lines(es),
    {
        let entries = current_entries(&self.data);
        let s = lines_text(&entries);
        assert(s@ == counter_lines(entries_view(entries@)));
        s
    }
}

impl Clone for ConcurrentMetrics {
    /// Shares the same counters.
    fn clone(&self) -> (c: Self) {
        ConcurrentMetrics { data: Arc::clone(&self.data) }
    }
}

} // verus!
