//! A concurrent table of message timestamps by group and partition.

use crate::metrics::registry::{age, elapsed};
use dashmap::DashMap;
use vstd::prelude::*;

verus! {

/// A group, a topic and a partition.
pub type StampKey = (String, String, i32);

/// A group, a topic and a partition, in contracts.
pub type StampKeyView = (Seq<char>, Seq<char>, i32);

/// A message's timestamp, its offset, and when it was read.
pub type Stamp = (i64, i64, u64);

/// What a table holds. It changes only where the table is borrowed mutably.
pub uninterp spec fn stamps(table: DashMap<StampKey, Stamp>) -> Map<StampKeyView, Stamp>;

/// Whether a stamp was read recently enough.
pub open spec fn still_fresh(stamp: Stamp, ttl: u64, now: u64) -> bool {
    age(now, stamp.2) < ttl
}

/// The stamps that were read recently enough.
pub open spec fn fresh_stamps(
    all: Map<StampKeyView, Stamp>,
    ttl: u64,
    now: u64,
) -> Map<StampKeyView, Stamp> {
    Map::new(
        |k: StampKeyView| all.contains_key(k) && still_fresh(all[k], ttl, now),
        |k: StampKeyView| all[k],
    )
}

/// Whether a stamp was read recently enough.
pub fn is_fresh(stamp: &Stamp, ttl: u64, now: u64) -> (yes: bool)
    ensures
        yes == still_fresh(*stamp, ttl, now),
{
    elapsed(now, stamp.2) < ttl
}

/// `DashMap::new` makes an empty table.
#[verifier::external_body]
pub(crate) fn stamps_new() -> (table: DashMap<StampKey, Stamp>)
    ensures
        stamps(table).dom() == Set::<StampKeyView>::empty(),
{
    DashMap::new()
}

/// `DashMap::insert` gives a key a stamp, in place of the one it had.
#[verifier::external_body]
pub(crate) fn stamps_insert(table: &mut DashMap<StampKey, Stamp>, key: StampKey, stamp: Stamp)
    ensures
        stamps(*final(table)) == stamps(*old(table)).insert(key@, stamp),
{
    table.insert(key, stamp);
}

/// `DashMap::get` finds a key's stamp.
#[verifier::external_body]
pub(crate) fn stamps_get(table: &DashMap<StampKey, Stamp>, key: &StampKey) -> (stamp: Option<Stamp>)
    ensures
        match stamp {
            Some(s) => stamps(*table).contains_key(key@) && stamps(*table)[key@] == s,
            None => !stamps(*table).contains_key(key@),
        },
{
    table.get(key).map(|entry| *entry.value())
}

/// `DashMap::retain` keeps the entries for which `is_fresh` holds, and drops the others.
#[verifier::external_body]
pub(crate) fn stamps_retain_fresh(table: &mut DashMap<StampKey, Stamp>, ttl: u64, now: u64)
    ensures
        stamps(*final(table)) == fresh_stamps(stamps(*old(table)), ttl, now),
{
    table.retain(|_, stamp| is_fresh(stamp, ttl, now));
}

/// `DashMap::len` counts the keys.
#[verifier::external_body]
pub(crate) fn stamps_len(table: &DashMap<StampKey, Stamp>) -> (n: usize)
    ensures
        n == stamps(*table).dom().len(),
{
    table.len()
}

} // verus!
