//! The concurrent collections that hold the daemon's memory, with what their methods do to
//! what they hold.
//!
//! Every collection here is reached through an exclusive reference where it changes, so what
//! it holds changes by these functions alone. Entries are found by the family and the bits
//! of an address.
use dashmap::DashMap;
use moka::sync::Cache;
use vstd::prelude::*;

use crate::state::{is_cooling, CooldownEntry, IpStats};

verus! {

/// The map of the `dashmap` crate.
#[verifier::external_type_specification]
#[verifier::external_body]
#[verifier::reject_recursive_types(K)]
#[verifier::reject_recursive_types(V)]
#[verifier::reject_recursive_types(S)]
pub struct ExDashMap<K, V, S>(DashMap<K, V, S>);

/// The synchronous cache of the `moka` crate.
#[verifier::external_type_specification]
#[verifier::external_body]
#[verifier::reject_recursive_types(K)]
#[verifier::reject_recursive_types(V)]
#[verifier::reject_recursive_types(S)]
pub struct ExCache<K, V, S>(Cache<K, V, S>);

/// The records of hits that a map holds, by address.
pub uninterp spec fn hit_records(map: DashMap<(bool, u128), IpStats>) -> Map<
    (bool, u128),
    IpStats,
>;

/// The cooldowns that a map holds, by address: service and end.
pub uninterp spec fn cooldown_records(map: DashMap<(bool, u128), CooldownEntry>) -> Map<
    (bool, u128),
    (Seq<char>, i64),
>;

/// What was last put into a cache under each address.
pub uninterp spec fn last_written(cache: Cache<(bool, u128), (u8, String, i64)>) -> Map<
    (bool, u128),
    (u8, Seq<char>, i64),
>;

/// The limits that a cache was made with: how many seconds an entry lives, and how many
/// entries there may be.
pub uninterp spec fn cache_limits(cache: Cache<(bool, u128), (u8, String, i64)>) -> (u64, u64);

/// The cooldowns of `records` that last beyond `now`.
pub open spec fn cooling_at(
    records: Map<(bool, u128), (Seq<char>, i64)>,
    now: i64,
) -> Map<(bool, u128), (Seq<char>, i64)> {
    records.filter_keys(|key: (bool, u128)| records[key].1 > now)
}

/// `listed` names each address of `records` once, with the service of its cooldown.
pub open spec fn lists_services(
    records: Map<(bool, u128), (Seq<char>, i64)>,
    listed: Seq<((bool, u128), String)>,
) -> bool {
    &&& forall|i: int|
        0 <= i < listed.len() ==> records.contains_key((#[trigger] listed[i]).0)
            && records[listed[i].0].0 == listed[i].1@
    &&& forall|i: int, j: int|
        #![trigger listed[i], listed[j]]
        0 <= i < j < listed.len() ==> listed[i].0 != listed[j].0
    &&& forall|key: (bool, u128)| #[trigger]
        records.contains_key(key) ==> exists|i: int|
            0 <= i < listed.len() && (#[trigger] listed[i]).0 == key
}

/// `records` are finite in number, and `n` is that number.
pub open spec fn counts_entries<V>(records: Map<(bool, u128), V>, n: usize) -> bool {
    records.dom().finite() && n == records.len()
}

/// `DashMap::new`: a map that holds nothing.
#[verifier::external_body]
pub(crate) fn new_hit_map() -> (r: DashMap<(bool, u128), IpStats>)
    ensures
        (hit_records(r) == Map::<(bool, u128), IpStats>::empty()),
{
    DashMap::new()
}

/// `DashMap::new`: a map that holds nothing.
#[verifier::external_body]
pub(crate) fn new_cooldown_map() -> (r: DashMap<(bool, u128), CooldownEntry>)
    ensures
        (cooldown_records(r) == Map::<(bool, u128), (Seq<char>, i64)>::empty()),
{
    DashMap::new()
}

/// `DashMap::entry` and `or_insert_with`: what stands under the key, or a fresh record, which
/// is put there where nothing does.
#[verifier::external_body]
pub(crate) fn hit_entry(
    map: &mut DashMap<(bool, u128), IpStats>,
    key: (bool, u128),
    now: i64,
) -> (r: IpStats)
    ensures
        hit_records(*final(map)) == if hit_records(*old(map)).contains_key(key) {
            hit_records(*old(map))
        } else {
            hit_records(*old(map)).insert(key, IpStats::fresh(now))
        },
        r == hit_records(*final(map))[key],
{
    *map.entry(key).or_insert_with(|| IpStats::new(now))
}

/// `DashMap::insert`: the value stands under the key, in place of what stood there.
#[verifier::external_body]
pub(crate) fn put_hits(
    map: &mut DashMap<(bool, u128), IpStats>,
    key: (bool, u128),
    stats: IpStats,
)
    ensures
        hit_records(*final(map)) == hit_records(*old(map)).insert(key, stats),
{
    map.insert(key, stats);
}

/// `DashMap::len`: the number of entries.
#[verifier::external_body]
pub(crate) fn hit_map_len(map: &DashMap<(bool, u128), IpStats>) -> (r: usize)
    ensures
        counts_entries(hit_records(*map), r),
{
    map.len()
}

/// `DashMap::insert`: the value stands under the key, in place of what stood there.
#[verifier::external_body]
pub(crate) fn put_cooldown(
    map: &mut DashMap<(bool, u128), CooldownEntry>,
    key: (bool, u128),
    entry: CooldownEntry,
)
    ensures
        cooldown_records(*final(map)) == cooldown_records(*old(map)).insert(
            key,
            (entry.service@, entry.until),
        ),
{
    map.insert(key, entry);
}

/// `DashMap::remove`: nothing stands under the key.
#[verifier::external_body]
pub(crate) fn remove_cooldown(
    map: &mut DashMap<(bool, u128), CooldownEntry>,
    key: (bool, u128),
)
    ensures
        cooldown_records(*final(map)) == cooldown_records(*old(map)).remove(key),
{
    map.remove(&key);
}

/// `DashMap::retain`: the entries stay that the test holds of, here [`is_cooling`].
#[verifier::external_body]
pub(crate) fn retain_cooling(map: &mut DashMap<(bool, u128), CooldownEntry>, now: i64)
    ensures
        cooldown_records(*final(map)) == cooling_at(cooldown_records(*old(map)), now),
{
    map.retain(|_, entry| is_cooling(entry, now));
}

/// `DashMap::len`: the number of entries.
#[verifier::external_body]
pub(crate) fn cooldown_map_len(map: &DashMap<(bool, u128), CooldownEntry>) -> (r: usize)
    ensures
        counts_entries(cooldown_records(*map), r),
{
    map.len()
}

/// `DashMap::iter`: every entry once, in an order that is left open, here as its key and
/// its service.
#[verifier::external_body]
pub(crate) fn cooldown_services(
    map: &DashMap<(bool, u128), CooldownEntry>,
) -> (r: Vec<((bool, u128), String)>)
    ensures
        lists_services(cooldown_records(*map), r@),
{
    map.iter().map(|entry| (*entry.key(), entry.value().service.clone())).collect()
}

/// `moka::sync::Cache::builder` with a time to live and a greatest number of entries: a
/// cache that nothing was put into. A time to live of over 1000 years is refused by a panic.
#[verifier::external_body]
pub(crate) fn new_verdict_cache(
    ttl_secs: u64,
    max_entries: u64,
) -> (r: Cache<(bool, u128), (u8, String, i64)>)
    requires
        ttl_secs <= 31_536_000_000,
    ensures
        (last_written(r) == Map::<(bool, u128), (u8, Seq<char>, i64)>::empty()),
        cache_limits(r) == (ttl_secs, max_entries),
{
    Cache::builder()
        .time_to_live(std::time::Duration::from_secs(ttl_secs))
        .max_capacity(max_entries)
        .build()
}

/// `moka::sync::Cache::insert`: the value is the last one put under the key. Whether and
/// how long it stays is the cache's affair.
#[verifier::external_body]
pub(crate) fn put_verdict(
    cache: &mut Cache<(bool, u128), (u8, String, i64)>,
    key: (bool, u128),
    value: (u8, String, i64),
)
    ensures
        last_written(*final(cache)) == last_written(*old(cache)).insert(
            key,
            (value.0, value.1@, value.2),
        ),
        cache_limits(*final(cache)) == cache_limits(*old(cache)),
{
    cache.insert(key, value);
}

/// `moka::sync::Cache::get`: a clone of the value last put under the key, or nothing, since
/// entries leave when their time is over or room is needed.
#[verifier::external_body]
pub(crate) fn cached_verdict(
    cache: &Cache<(bool, u128), (u8, String, i64)>,
    key: (bool, u128),
) -> (r: Option<(u8, String, i64)>)
    ensures
        r matches Some(value) ==> last_written(*cache).contains_key(key) && last_written(
            *cache,
        )[key] == (value.0, value.1@, value.2),
{
    cache.get(&key)
}

} // verus!
