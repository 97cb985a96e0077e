//! Concurrent hash tables (`dashmap::DashMap`) that hold per-address
//! counters and flow records. Each table's contents have a name, and each
//! method the library calls has a wrapper whose contract says what it does
//! to the contents, as `dashmap`'s source shows. Every wrapper that changes
//! a table takes it by `&mut`, so that the contents before and after the
//! call can be told apart.

use vstd::prelude::*;
use std::collections::hash_map::RandomState;
use crate::flow_tracker::{idle_timeout, idle_timeout_micros};
use crate::flow::{FlowKey, FlowRecord};
use crate::net::IpAddress;

verus! {

#[verifier::external_type_specification]
#[verifier::external_body]
#[verifier::reject_recursive_types(K)]
#[verifier::reject_recursive_types(V)]
#[verifier::reject_recursive_types(S)]
pub struct ExDashMap<K, V, S>(dashmap::DashMap<K, V, S>);

/// A table of counters keyed by address.
pub type CounterTable = dashmap::DashMap<IpAddress, u64, RandomState>;

/// The counters a table holds.
pub uninterp spec fn counts(t: CounterTable) -> Map<IpAddress, u64>;

pub open spec fn no_counts() -> Map<IpAddress, u64> {
    Map::empty()
}

/// An empty counter table (`DashMap::default`).
#[verifier::external_body]
pub(crate) fn counter_table_new() -> (r: CounterTable)
    ensures
        counts(r) == no_counts(),
{
    dashmap::DashMap::default()
}

/// The counter of `k`, if there is one (`DashMap::get`).
#[verifier::external_body]
pub(crate) fn counter_get(t: &CounterTable, k: &IpAddress) -> (r: Option<u64>)
    ensures
        r == counts(*t).get(*k),
{
    t.get(k).map(|e| *e.value())
}

/// Sets the counter of `k` to `v` (`DashMap::insert`).
#[verifier::external_body]
pub(crate) fn counter_set(t: &mut CounterTable, k: IpAddress, v: u64)
    ensures
        counts(*final(t)) == counts(*old(t)).insert(k, v),
{
    t.insert(k, v);
}

/// Removes every counter (`DashMap::clear`).
#[verifier::external_body]
pub(crate) fn counter_clear(t: &mut CounterTable)
    ensures
        counts(*final(t)) == no_counts(),
{
    t.clear();
}

/// A table of flow records keyed by flow.
pub type FlowTable = dashmap::DashMap<FlowKey, FlowRecord, RandomState>;

/// The records a flow table holds.
pub uninterp spec fn flows(t: FlowTable) -> Map<FlowKey, FlowRecord>;

pub open spec fn no_flows() -> Map<FlowKey, FlowRecord> {
    Map::empty()
}

/// An empty flow table with room for `capacity` flows
/// (`DashMap::with_capacity`).
#[verifier::external_body]
pub(crate) fn flow_table_with_capacity(capacity: usize) -> (r: FlowTable)
    ensures
        flows(r) == no_flows(),
{
    dashmap::DashMap::with_capacity(capacity)
}

/// The record of `k`, if there is one (`DashMap::get`).
#[verifier::external_body]
pub(crate) fn flow_get(t: &FlowTable, k: &FlowKey) -> (r: Option<FlowRecord>)
    ensures
        r == flows(*t).get(*k),
{
    t.get(k).map(|e| *e.value())
}

/// Stores `v` as the record of `k` (`DashMap::insert`).
#[verifier::external_body]
pub(crate) fn flow_set(t: &mut FlowTable, k: FlowKey, v: FlowRecord)
    ensures
        flows(*final(t)) == flows(*old(t)).insert(k, v),
{
    t.insert(k, v);
}

/// The number of records (`DashMap::len`).
#[verifier::external_body]
pub(crate) fn flow_count(t: &FlowTable) -> (r: usize)
    ensures
        flows(*t).dom().finite() ==> r == flows(*t).len(),
{
    t.len()
}

/// A record is kept by an eviction at time `now`: it was last seen less
/// than its idle timeout before `now`.
pub open spec fn is_fresh(r: FlowRecord, now: i64) -> bool {
    r.last_seen + idle_timeout_micros(r) > now
}

pub fn fresh(r: &FlowRecord, now: i64) -> (b: bool)
    ensures
        b == is_fresh(*r, now),
{
    let t = idle_timeout(r);
    (r.last_seen as i128) + (t as i128) > (now as i128)
}

/// The keys whose records an eviction at time `now` keeps.
pub open spec fn fresh_keys(m: Map<FlowKey, FlowRecord>, now: i64) -> Set<FlowKey> {
    Set::new(|k: FlowKey| m.contains_key(k) && is_fresh(m[k], now))
}

/// Keeps only the records that are fresh at time `now` (`DashMap::retain`,
/// with a closure that calls `fresh`).
#[verifier::external_body]
pub(crate) fn flow_retain_fresh(t: &mut FlowTable, now: i64)
    ensures
        flows(*final(t)) == flows(*old(t)).restrict(fresh_keys(flows(*old(t)), now)),
{
    t.retain(|_, v| fresh(v, now));
}

/// `rs` lists each record of `m` once, in some order.
pub open spec fn lists_each_once(rs: Seq<FlowRecord>, m: Map<FlowKey, FlowRecord>) -> bool {
    exists|ks: Seq<FlowKey>|
        {
            &&& ks.len() == rs.len()
            &&& ks.no_duplicates()
            &&& forall|i: int| 0 <= i < ks.len() ==> #[trigger] m.contains_key(ks[i]) && m[ks[i]] == rs[i]
            &&& forall|k: FlowKey| m.contains_key(k) ==> #[trigger] ks.contains(k)
        }
}

/// Copies of all records, in the table's iteration order (`DashMap::iter`).
#[verifier::external_body]
pub(crate) fn flow_records(t: &FlowTable) -> (r: Vec<FlowRecord>)
    ensures
        lists_each_once(r@, flows(*t)),
{
    t.iter().map(|e| *e.value()).collect()
}

} // verus!
