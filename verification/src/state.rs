//! What the daemon remembers: hits per address, verdicts, cooldowns and counters.
use dashmap::DashMap;
use moka::sync::Cache;
use std::time::Instant;
use vstd::prelude::*;
use vstd::relations::injective_on;
use vstd::set_lib::{lemma_len_subset, lemma_map_size};

use crate::config::Config;
use crate::net::IpAddr;
use crate::number::{as_signed, to_signed};
use crate::store::{
    cache_limits, cached_verdict, cooldown_map_len, cooldown_records, cooldown_services,
    cooling_at, hit_entry, hit_map_len, hit_records, last_written, lists_services,
    new_cooldown_map, new_hit_map, new_verdict_cache, put_cooldown, put_hits, put_verdict,
    remove_cooldown, retain_cooling,
};
use crate::table::{
    distinct_names, law_lookup_after_insert, lemma_position_of, lookup, position_of, NameTable,
};

verus! {

/// No reading of the clock lies further than this many seconds from the start of 1970.
pub const CLOCK_LIMIT: i64 = 32_000_000_000_000;

/// `t` is a time that the clock can show.
pub open spec fn clock_time(t: i64) -> bool {
    -CLOCK_LIMIT <= t <= CLOCK_LIMIT
}

/// The seconds since the start of 1970: `time::OffsetDateTime::now_utc` and its
/// `unix_timestamp`. The dates of that crate end at the years -999999 and 999999, which
/// bounds the result; nothing else is claimed of it.
#[verifier::external_body]
pub fn now_secs() -> (r: i64)
    ensures
        clock_time(r),
{
    time::OffsetDateTime::now_utc().unix_timestamp()
}

/// `t` is a reading of the clock: what a call of [`now_secs`] gave.
pub open spec fn clock_shows(t: i64) -> bool {
    clock_time(t) && call_ensures(now_secs, (), t)
}

/// What is done with a request.
#[derive(Clone, Debug, PartialEq)]
pub enum Verdict {
    /// It passes.
    Allow,
    /// It is turned away. `until` is in seconds since the start of 1970.
    Cooldown { service: String, until: i64 },
    /// The client has to show that it runs scripts.
    Challenge,
}

/// The hits of one address.
#[derive(Clone, Copy, Debug, PartialEq, Eq, Structural)]
pub struct IpStats {
    /// The requests in the current window.
    pub count: u64,
    /// When the current window began.
    pub window_start: i64,
    /// When the last request came.
    pub last_seen: i64,
}

/// A cooldown: the service it was imposed for and when it ends.
pub struct CooldownEntry {
    pub service: String,
    pub until: i64,
}

/// Whether the cooldown `entry` lasts beyond `now`.
pub fn is_cooling(entry: &CooldownEntry, now: i64) -> (r: bool)
    ensures
        r == (entry.until > now),
{
    entry.until > now
}

/// The standard library's monotonic clock reading.
#[verifier::external_type_specification]
#[verifier::external_body]
pub struct ExInstant(Instant);

/// `Instant::now`. Nothing is claimed of it.
#[verifier::external_body]
fn instant_now() -> (r: Instant) {
    Instant::now()
}

/// `Instant::elapsed` in whole seconds. Nothing is claimed of it.
#[verifier::external_body]
fn secs_since(start: &Instant) -> (r: u64) {
    start.elapsed().as_secs()
}

/// A verdict, its text as characters.
#[verifier::ext_equal]
pub enum VerdictView {
    Allow,
    Cooldown { service: Seq<char>, until: i64 },
    Challenge,
}

impl View for Verdict {
    type V = VerdictView;

    open spec fn view(&self) -> VerdictView {
        match *self {
            Verdict::Allow => VerdictView::Allow,
            Verdict::Cooldown { service, until } => {
                VerdictView::Cooldown { service: service@, until }
            },
            Verdict::Challenge => VerdictView::Challenge,
        }
    }
}

/// A verdict as the plain values that the cache holds.
pub open spec fn coded(verdict: VerdictView) -> (u8, Seq<char>, i64) {
    match verdict {
        VerdictView::Allow => (0, Seq::empty(), 0),
        VerdictView::Cooldown { service, until } => (1, service, until),
        VerdictView::Challenge => (2, Seq::empty(), 0),
    }
}

/// The verdict that plain values stand for.
pub open spec fn decoded(code: (u8, Seq<char>, i64)) -> VerdictView {
    if code.0 == 0 {
        VerdictView::Allow
    } else if code.0 == 1 {
        VerdictView::Cooldown { service: code.1, until: code.2 }
    } else {
        VerdictView::Challenge
    }
}

/// `verdict` as plain values.
fn encode_verdict(verdict: &Verdict) -> (r: (u8, String, i64))
    ensures
        (r.0, r.1@, r.2) == coded(verdict@),
{
    match verdict {
        Verdict::Allow => (0, String::new(), 0),
        Verdict::Cooldown { service, until } => (1, service.clone(), *until),
        Verdict::Challenge => (2, String::new(), 0),
    }
}

/// The verdict that the cache's answer stands for: that of the values it found, and none
/// where it found none.
pub fn decode_verdict(answer: Option<(u8, String, i64)>) -> (r: Option<Verdict>)
    ensures
        match answer {
            Some(code) => r matches Some(verdict) && verdict@ == decoded((code.0, code.1@, code.2)),
            None => r is None,
        },
{
    match answer {
        Some(code) => Some(
            if code.0 == 0 {
                Verdict::Allow
            } else if code.0 == 1 {
                Verdict::Cooldown { service: code.1, until: code.2 }
            } else {
                Verdict::Challenge
            },
        ),
        None => None,
    }
}

/// `n` and one more, starting over after the greatest `u64`.
pub open spec fn bumped(n: u64) -> u64 {
    if n == u64::MAX {
        0
    } else {
        (n + 1) as u64
    }
}

/// One more in a summand is one more in the sum.
proof fn lemma_bumped_sum(n: u64, rest: int, total: u64)
    requires
        total == (n + rest) % 0x1_0000_0000_0000_0000,
    ensures
        bumped(total) == (bumped(n) + rest) % 0x1_0000_0000_0000_0000,
{
    let m: int = 0x1_0000_0000_0000_0000;
    let x = n + rest;
    assert((x + 1) % m == (if x % m == m - 1 { 0 } else { x % m + 1 }));
    assert((x + 1 - m) % m == (x + 1) % m);
}

/// `n` and one more, starting over after the greatest `u64`.
fn bump(n: u64) -> (r: u64)
    ensures
        r == bumped(n),
{
    if n == u64::MAX {
        0
    } else {
        n + 1
    }
}

impl IpStats {
    /// No hits, in a window that begins at `now`.
    pub open spec fn fresh(now: i64) -> IpStats {
        IpStats { count: 0, window_start: now, last_seen: now }
    }

    /// The window of `window_secs` seconds that the record is in is over at `now`.
    pub open spec fn window_over(self, now: i64, window_secs: u64) -> bool {
        now - self.window_start >= as_signed(window_secs)
    }

    /// The record after one more hit at `now`: in the same window one more, or the first of
    /// a new window where the old one is over.
    pub open spec fn hit(self, now: i64, window_secs: u64) -> IpStats {
        if self.window_over(now, window_secs) {
            IpStats { count: 1, window_start: now, last_seen: now }
        } else {
            IpStats { count: bumped(self.count), window_start: self.window_start, last_seen: now }
        }
    }

    /// No hits, in a window that begins at `now`.
    pub fn new(now: i64) -> (r: IpStats)
        ensures
            r == IpStats::fresh(now),
    {
        IpStats { count: 0, window_start: now, last_seen: now }
    }
}

/// How many verdicts of each kind there were.
#[derive(Clone, Copy, Debug, PartialEq, Eq, Structural)]
pub struct VerdictCounts {
    pub allowed: u64,
    pub cooldown: u64,
    pub challenge: u64,
}

/// Figures over all addresses, none of them about a single one.
pub struct Stats {
    pub uptime_secs: u64,
    pub tracked_ips: usize,
    pub total_requests: u64,
    pub verdicts: VerdictCounts,
    pub active_cooldowns: usize,
    pub cooldowns_by_service: NameTable<usize>,
    pub rdns_cache_entries: u64,
}

/// The addresses whose cooldowns in `records` are for `service`.
pub open spec fn cooling_for(
    records: Map<(bool, u128), (Seq<char>, i64)>,
    service: Seq<char>,
) -> Set<(bool, u128)> {
    records.dom().filter(|key: (bool, u128)| records[key].0 == service)
}

/// How many cooldowns of `records` are for `service`.
pub open spec fn cooldowns_for(
    records: Map<(bool, u128), (Seq<char>, i64)>,
    service: Seq<char>,
) -> nat {
    cooling_for(records, service).len()
}

/// The sum of the counts in `entries`.
pub open spec fn sum_of_counts(entries: Seq<(Seq<char>, usize)>) -> int
    decreases entries.len(),
{
    if entries.len() == 0 {
        0
    } else {
        sum_of_counts(entries.drop_last()) + entries.last().1
    }
}

/// `entries` hold a count for every service that `records` name, and it is the number of
/// cooldowns for that service; they hold nothing else, and the counts add up to the number
/// of cooldowns.
pub open spec fn tallies(
    entries: Seq<(Seq<char>, usize)>,
    records: Map<(bool, u128), (Seq<char>, i64)>,
) -> bool {
    &&& distinct_names(entries)
    &&& forall|service: Seq<char>| #[trigger]
        lookup(entries, service) == if cooldowns_for(records, service) == 0 {
            None
        } else {
            Some(cooldowns_for(records, service) as usize)
        }
    &&& sum_of_counts(entries) == records.len()
}

/// How often `service` stands in `listed`.
pub open spec fn occurrences(listed: Seq<((bool, u128), String)>, service: Seq<char>) -> nat
    decreases listed.len(),
{
    if listed.len() == 0 {
        0
    } else {
        occurrences(listed.drop_last(), service) + if listed.last().1@ == service {
            1nat
        } else {
            0
        }
    }
}

/// The addresses that `listed` names for `service`.
spec fn addresses_for(listed: Seq<((bool, u128), String)>, service: Seq<char>) -> Set<
    (bool, u128),
>
    decreases listed.len(),
{
    if listed.len() == 0 {
        Set::empty()
    } else if listed.last().1@ == service {
        addresses_for(listed.drop_last(), service).insert(listed.last().0)
    } else {
        addresses_for(listed.drop_last(), service)
    }
}

/// An address is among those for a service exactly where an item says so, and there are as
/// many of them as items.
proof fn lemma_addresses_for(listed: Seq<((bool, u128), String)>, service: Seq<char>)
    requires
        forall|i: int, j: int|
            #![trigger listed[i], listed[j]]
            0 <= i < j < listed.len() ==> listed[i].0 != listed[j].0,
    ensures
        addresses_for(listed, service).finite(),
        addresses_for(listed, service).len() == occurrences(listed, service),
        forall|key: (bool, u128)| #[trigger]
            addresses_for(listed, service).contains(key) <==> exists|i: int|
                0 <= i < listed.len() && (#[trigger] listed[i]).0 == key && listed[i].1@ == service,
    decreases listed.len(),
{
    if listed.len() > 0 {
        let rest = listed.drop_last();
        let n = listed.len() - 1;
        assert forall|i: int, j: int|
            #![trigger rest[i], rest[j]]
            0 <= i < j < rest.len() implies rest[i].0 != rest[j].0 by {
            assert(rest[i] == listed[i] && rest[j] == listed[j]);
        }
        lemma_addresses_for(rest, service);
        if addresses_for(rest, service).contains(listed.last().0) {
            let i = choose|i: int|
                0 <= i < rest.len() && (#[trigger] rest[i]).0 == listed.last().0 && rest[i].1@
                    == service;
            assert(listed[i].0 != listed[n].0);
        }
        assert forall|key: (bool, u128)| #[trigger]
            addresses_for(listed, service).contains(key) <==> exists|i: int|
                0 <= i < listed.len() && (#[trigger] listed[i]).0 == key && listed[i].1@
                    == service by {
            if addresses_for(listed, service).contains(key) {
                if addresses_for(rest, service).contains(key) {
                    let i = choose|i: int|
                        0 <= i < rest.len() && (#[trigger] rest[i]).0 == key && rest[i].1@
                            == service;
                    assert(listed[i].0 == key && listed[i].1@ == service);
                } else {
                    assert(listed[n].0 == key && listed[n].1@ == service);
                }
            }
            if exists|i: int|
                0 <= i < listed.len() && (#[trigger] listed[i]).0 == key && listed[i].1@
                    == service {
                let i = choose|i: int|
                    0 <= i < listed.len() && (#[trigger] listed[i]).0 == key && listed[i].1@
                        == service;
                if i < n {
                    assert(rest[i].0 == key && rest[i].1@ == service);
                }
            }
        }
    }
}

/// In a full list of cooldowns a service occurs as often as there are cooldowns for it, and
/// the list is as long as there are cooldowns.
proof fn lemma_listed_services(
    records: Map<(bool, u128), (Seq<char>, i64)>,
    listed: Seq<((bool, u128), String)>,
)
    requires
        lists_services(records, listed),
    ensures
        forall|service: Seq<char>| #[trigger]
            occurrences(listed, service) == cooldowns_for(records, service),
        records.len() == listed.len(),
{
    assert forall|service: Seq<char>| #[trigger]
        occurrences(listed, service) == cooldowns_for(records, service) by {
        lemma_addresses_for(listed, service);
        let wanted = cooling_for(records, service);
        assert forall|key: (bool, u128)| #[trigger]
            addresses_for(listed, service).contains(key) <==> wanted.contains(key) by {
            if wanted.contains(key) {
                assert(records.contains_key(key));
                let i = choose|i: int| 0 <= i < listed.len() && (#[trigger] listed[i]).0 == key;
                assert(listed[i].1@ == service);
            }
        }
        assert(addresses_for(listed, service) =~= wanted);
    }
    let keys = listed.map_values(|item: ((bool, u128), String)| item.0);
    assert(keys.no_duplicates()) by {
        assert forall|i: int, j: int|
            0 <= i < keys.len() && 0 <= j < keys.len() && i != j implies keys[i] != keys[j] by {
            if i < j {
                assert(listed[i].0 != listed[j].0);
            } else {
                assert(listed[j].0 != listed[i].0);
            }
        }
    }
    keys.unique_seq_to_set();
    assert forall|key: (bool, u128)| #[trigger]
        keys.to_set().contains(key) <==> records.dom().contains(key) by {
        if keys.to_set().contains(key) {
            let i = choose|i: int| 0 <= i < keys.len() && keys[i] == key;
            assert(listed[i].0 == key);
        }
        if records.dom().contains(key) {
            assert(records.contains_key(key));
            let i = choose|i: int| 0 <= i < listed.len() && (#[trigger] listed[i]).0 == key;
            assert(keys[i] == key);
        }
    }
    assert(keys.to_set() =~= records.dom());
}

/// Changing one count changes the sum by as much.
proof fn lemma_sum_of_update(entries: Seq<(Seq<char>, usize)>, i: int, entry: (Seq<char>, usize))
    requires
        0 <= i < entries.len(),
    ensures
        sum_of_counts(entries.update(i, entry)) == sum_of_counts(entries) - entries[i].1 + entry.1,
    decreases entries.len(),
{
    let after = entries.update(i, entry);
    if i == entries.len() - 1 {
        assert(after.drop_last() =~= entries.drop_last());
    } else {
        assert(after.drop_last() =~= entries.drop_last().update(i, entry));
        lemma_sum_of_update(entries.drop_last(), i, entry);
    }
}

/// No service occurs more often than there are items.
proof fn lemma_occurrences_bounded(listed: Seq<((bool, u128), String)>, service: Seq<char>)
    ensures
        occurrences(listed, service) <= listed.len(),
    decreases listed.len(),
{
    if listed.len() > 0 {
        lemma_occurrences_bounded(listed.drop_last(), service);
    }
}

/// How often each service stands in `listed`.
pub fn tally(listed: &Vec<((bool, u128), String)>) -> (r: NameTable<usize>)
    ensures
        distinct_names(r@),
        forall|service: Seq<char>| #[trigger]
            lookup(r@, service) == if occurrences(listed@, service) == 0 {
                None
            } else {
                Some(occurrences(listed@, service) as usize)
            },
        sum_of_counts(r@) == listed@.len(),
{
    let mut counts: NameTable<usize> = NameTable::new();
    let mut i: usize = 0;
    assert(listed@.take(0) =~= Seq::empty());
    while i < listed.len()
        invariant
            i <= listed@.len(),
            distinct_names(counts@),
            forall|service: Seq<char>| #[trigger]
                lookup(counts@, service) == if occurrences(listed@.take(i as int), service) == 0 {
                    None
                } else {
                    Some(occurrences(listed@.take(i as int), service) as usize)
                },
            sum_of_counts(counts@) == i,
        decreases listed@.len() - i,
    {
        let service: &String = &listed[i].1;
        let ghost before = counts@;
        let ghost seen = listed@.take(i as int);
        let ghost next = listed@.take(i + 1);
        assert(next.drop_last() =~= seen);
        proof {
            lemma_occurrences_bounded(seen, service@);
            lemma_position_of(before, service@);
        }
        let n: usize = match counts.get(service.as_str()) {
            Some(n) => *n,
            None => 0,
        };
        assert(n == occurrences(seen, service@));
        counts.insert(service.clone(), n + 1);
        proof {
            let at = position_of(before, service@);
            if at < before.len() {
                lemma_sum_of_update(before, at, (service@, (n + 1) as usize));
            } else {
                assert(counts@.drop_last() =~= before);
            }
            assert forall|other: Seq<char>| #[trigger]
                lookup(counts@, other) == if occurrences(next, other) == 0 {
                    None
                } else {
                    Some(occurrences(next, other) as usize)
                } by {
                law_lookup_after_insert(before, service@, (n + 1) as usize, other);
                assert(lookup(before, other) == if occurrences(seen, other) == 0 {
                    None
                } else {
                    Some(occurrences(seen, other) as usize)
                });
            }
        }
        i = i + 1;
    }
    assert(listed@.take(i as int) =~= listed@);
    counts
}

/// The settings and everything that is remembered between requests.
pub struct AppState {
    config: Config,
    ip_stats: DashMap<(bool, u128), IpStats>,
    verdicts: Cache<(bool, u128), (u8, String, i64)>,
    cooldowns: DashMap<(bool, u128), CooldownEntry>,
    total_requests: u64,
    counts: VerdictCounts,
    started_at: Instant,
}

/// How many seconds a verdict is kept for the page that follows it.
pub const VERDICT_TTL_SECS: u64 = 30;

/// How many seconds the outcome of a reverse lookup is kept.
pub const RDNS_TTL_SECS: u64 = 21_600;

/// How many entries a cache may have.
pub const CACHE_CAPACITY: u64 = 100_000;

impl AppState {
    /// The settings.
    pub closed spec fn settings(self) -> Config {
        self.config
    }

    /// The record of hits of each address, by [`IpAddr::key`].
    pub closed spec fn hits(self) -> Map<(bool, u128), IpStats> {
        hit_records(self.ip_stats)
    }

    /// The cooldown of each address: its service and its end.
    pub closed spec fn cooling(self) -> Map<(bool, u128), (Seq<char>, i64)> {
        cooldown_records(self.cooldowns)
    }

    /// The last verdict that was put away for each address.
    pub closed spec fn put_away(self) -> Map<(bool, u128), VerdictView> {
        last_written(self.verdicts).map_values(|code: (u8, Seq<char>, i64)| decoded(code))
    }

    /// How long a verdict is kept, in seconds, and how many there may be.
    pub closed spec fn verdict_limits(self) -> (u64, u64) {
        cache_limits(self.verdicts)
    }

    /// The monotonic clock reading that the state was made at.
    pub closed spec fn started(self) -> Instant {
        self.started_at
    }

    /// `start` is a reading of the monotonic clock.
    pub closed spec fn start_read(start: Instant) -> bool {
        call_ensures(instant_now, (), start)
    }

    /// `secs` is what the monotonic clock has counted since the state was made.
    pub closed spec fn uptime_shows(self, secs: u64) -> bool {
        call_ensures(secs_since, (&self.started_at,), secs)
    }

    /// `answer` is what the cache answers when it is asked for the verdict on `ip`.
    pub closed spec fn cache_answers(self, ip: IpAddr, answer: Option<(u8, String, i64)>) -> bool {
        call_ensures(cached_verdict, (&self.verdicts, ip.key()), answer)
    }

    /// `cached` is what the answer of the cache on `ip` stands for.
    pub open spec fn takes_up(self, ip: IpAddr, cached: Option<VerdictView>) -> bool {
        exists|answer: Option<(u8, String, i64)>| #[trigger]
            self.cache_answers(ip, answer) && cached == match answer {
                Some(code) => Some(decoded((code.0, code.1@, code.2))),
                None => None,
            }
    }

    /// How many verdicts were recorded.
    pub closed spec fn recorded(self) -> u64 {
        self.total_requests
    }

    /// How many verdicts of each kind were recorded.
    pub closed spec fn recorded_by_kind(self) -> VerdictCounts {
        self.counts
    }

    /// Every window began at a time that the clock can show, and the counts of the three
    /// kinds of verdict add up to the count of all (both start over after the greatest
    /// `u64`).
    pub open spec fn wf(self) -> bool {
        &&& forall|key: (bool, u128)| #[trigger]
            self.hits().contains_key(key) ==> clock_time(self.hits()[key].window_start)
        &&& self.recorded() == (self.recorded_by_kind().allowed + self.recorded_by_kind().cooldown
            + self.recorded_by_kind().challenge) % 0x1_0000_0000_0000_0000
    }

    /// The record of `ip`, or a fresh one.
    pub open spec fn record_of(self, ip: IpAddr, now: i64) -> IpStats {
        if self.hits().contains_key(ip.key()) {
            self.hits()[ip.key()]
        } else {
            IpStats::fresh(now)
        }
    }

    /// The record of `ip` after a hit at `now`.
    pub open spec fn record_after_hit(self, ip: IpAddr, now: i64) -> IpStats {
        self.record_of(ip, now).hit(now, self.settings().thresholds.window_secs)
    }

    /// `after` has the settings, the limits and the start of this state.
    pub open spec fn same_settings(self, after: AppState) -> bool {
        &&& after.settings() == self.settings()
        &&& after.verdict_limits() == self.verdict_limits()
        &&& after.started() == self.started()
    }

    /// `after` counts the verdicts of this state, and has its cooldowns.
    pub open spec fn same_verdicts(self, after: AppState) -> bool {
        &&& after.recorded() == self.recorded()
        &&& after.recorded_by_kind() == self.recorded_by_kind()
        &&& after.cooling() == self.cooling()
    }

    /// `after` has the records of this state and one more hit of `ip` at `now`.
    pub open spec fn adds_hit(self, after: AppState, ip: IpAddr, now: i64) -> bool {
        after.hits() == self.hits().insert(ip.key(), self.record_after_hit(ip, now))
    }

    /// `after` counts one more verdict than this state, on `ip`: a pass ends the cooldown of
    /// the address, a cooldown takes the place of the one before, and a challenge leaves it
    /// as it is.
    pub open spec fn adds_verdict(
        self,
        after: AppState,
        ip: IpAddr,
        verdict: VerdictView,
    ) -> bool {
        let counts = self.recorded_by_kind();
        &&& after.recorded() == bumped(self.recorded())
        &&& after.recorded_by_kind() == match verdict {
            VerdictView::Allow => VerdictCounts { allowed: bumped(counts.allowed), ..counts },
            VerdictView::Cooldown { .. } => VerdictCounts {
                cooldown: bumped(counts.cooldown),
                ..counts
            },
            VerdictView::Challenge => VerdictCounts {
                challenge: bumped(counts.challenge),
                ..counts
            },
        }
        &&& after.cooling() == match verdict {
            VerdictView::Allow => self.cooling().remove(ip.key()),
            VerdictView::Cooldown { service, until } => self.cooling().insert(
                ip.key(),
                (service, until),
            ),
            VerdictView::Challenge => self.cooling(),
        }
    }

    /// `after` has the verdicts that were put away in this state, and that on `ip`.
    pub open spec fn adds_put_away(
        self,
        after: AppState,
        ip: IpAddr,
        verdict: VerdictView,
    ) -> bool {
        after.put_away() == self.put_away().insert(ip.key(), verdict)
    }

    /// `after` is this state with one more hit of `ip` at `now`.
    pub open spec fn hit_at(self, after: AppState, ip: IpAddr, now: i64) -> bool {
        &&& self.same_settings(after)
        &&& self.same_verdicts(after)
        &&& after.put_away() == self.put_away()
        &&& self.adds_hit(after, ip, now)
    }

    /// The settings.
    pub fn config(&self) -> (r: &Config)
        ensures
            *r == self.settings(),
    {
        &self.config
    }

    /// A state with these settings that remembers nothing.
    pub fn new(config: Config) -> (r: AppState)
        ensures
            r.settings() == config,
            r.wf(),
            r.hits() == Map::<(bool, u128), IpStats>::empty(),
            r.cooling() == Map::<(bool, u128), (Seq<char>, i64)>::empty(),
            r.put_away() == Map::<(bool, u128), VerdictView>::empty(),
            r.verdict_limits() == (VERDICT_TTL_SECS, CACHE_CAPACITY),
            AppState::start_read(r.started()),
            r.recorded() == 0,
            r.recorded_by_kind() == (VerdictCounts { allowed: 0, cooldown: 0, challenge: 0 }),
    {
        let r: AppState = AppState {
            config,
            ip_stats: new_hit_map(),
            verdicts: new_verdict_cache(VERDICT_TTL_SECS, CACHE_CAPACITY),
            cooldowns: new_cooldown_map(),
            total_requests: 0,
            counts: VerdictCounts { allowed: 0, cooldown: 0, challenge: 0 },
            started_at: instant_now(),
        };
        assert(r.put_away() =~= Map::<(bool, u128), VerdictView>::empty());
        r
    }

    /// Records a hit of `ip` at `now` and returns the requests of the current window,
    /// this one among them.
    pub fn record_hit_at(&mut self, ip: IpAddr, now: i64) -> (r: u64)
        requires
            old(self).wf(),
            clock_time(now),
        ensures
            final(self).wf(),
            old(self).hit_at(*final(self), ip, now),
            r == old(self).record_after_hit(ip, now).count,
    {
        let key: (bool, u128) = ip.to_key();
        let mut stats: IpStats = hit_entry(&mut self.ip_stats, key, now);
        stats.last_seen = now;
        let window_secs: i64 = to_signed(self.config.thresholds.window_secs);
        if now - stats.window_start >= window_secs {
            stats.window_start = now;
            stats.count = 1;
        } else {
            stats.count = bump(stats.count);
        }
        put_hits(&mut self.ip_stats, key, stats);
        assert(self.hits() =~= old(self).hits().insert(
            ip.key(),
            old(self).record_after_hit(ip, now),
        ));
        stats.count
    }

    /// Records a hit of `ip` now and returns the requests of the current window, this one
    /// among them.
    pub fn record_hit(&mut self, ip: IpAddr) -> (r: u64)
        requires
            old(self).wf(),
        ensures
            final(self).wf(),
            exists|now: i64|
                clock_shows(now) && #[trigger] old(self).hit_at(*final(self), ip, now) && r == old(
                    self,
                ).record_after_hit(ip, now).count,
    {
        let now: i64 = now_secs();
        self.record_hit_at(ip, now)
    }

    /// Counts a verdict on `ip`. A pass ends the cooldown of the address, a cooldown takes
    /// the place of the one before, and a challenge leaves it as it is.
    pub fn record_verdict(&mut self, ip: IpAddr, verdict: &Verdict)
        requires
            old(self).wf(),
        ensures
            final(self).wf(),
            old(self).same_settings(*final(self)),
            final(self).hits() == old(self).hits(),
            final(self).put_away() == old(self).put_away(),
            old(self).adds_verdict(*final(self), ip, verdict@),
    {
        let key: (bool, u128) = ip.to_key();
        proof {
            let n = self.counts;
            lemma_bumped_sum(n.allowed, n.cooldown + n.challenge, self.total_requests);
            lemma_bumped_sum(n.cooldown, n.allowed + n.challenge, self.total_requests);
            lemma_bumped_sum(n.challenge, n.allowed + n.cooldown, self.total_requests);
        }
        self.total_requests = bump(self.total_requests);
        match verdict {
            Verdict::Allow => {
                self.counts.allowed = bump(self.counts.allowed);
                remove_cooldown(&mut self.cooldowns, key);
            },
            Verdict::Cooldown { service, until } => {
                self.counts.cooldown = bump(self.counts.cooldown);
                let entry: CooldownEntry = CooldownEntry { service: service.clone(), until: *until };
                put_cooldown(&mut self.cooldowns, key, entry);
            },
            Verdict::Challenge => {
                self.counts.challenge = bump(self.counts.challenge);
            },
        }
        assert(self.hits() == old(self).hits());
    }

    /// Puts the verdict on `ip` away for the page that follows it.
    pub fn put_verdict_away(&mut self, ip: IpAddr, verdict: &Verdict)
        ensures
            old(self).same_settings(*final(self)),
            final(self).hits() == old(self).hits(),
            old(self).same_verdicts(*final(self)),
            old(self).adds_put_away(*final(self), ip, verdict@),
    {
        let code: (u8, String, i64) = encode_verdict(verdict);
        put_verdict(&mut self.verdicts, ip.to_key(), code);
        assert(self.put_away() =~= old(self).put_away().insert(ip.key(), verdict@));
    }

    /// The verdict that was last put away for `ip`, if it is still there. Verdicts leave when
    /// their time is over or room is needed, so whether it is rests on the clock and on the
    /// cache; the result is what the cache answers, by [`decode_verdict`].
    pub fn take_up_verdict(&self, ip: IpAddr) -> (r: Option<Verdict>)
        ensures
            r matches Some(verdict) ==> self.put_away().contains_key(ip.key())
                && self.put_away()[ip.key()] == verdict@,
            self.takes_up(
                ip,
                match r {
                    Some(verdict) => Some(verdict@),
                    None => None,
                },
            ),
    {
        let answer: Option<(u8, String, i64)> = cached_verdict(&self.verdicts, ip.to_key());
        assert(self.cache_answers(ip, answer));
        decode_verdict(answer)
    }

    /// The figures at `now`, `uptime_secs` after the start, where the cache of reverse
    /// lookups has `rdns_cache_entries` entries. Cooldowns that are over are forgotten.
    pub fn stats_at(&mut self, now: i64, uptime_secs: u64, rdns_cache_entries: u64) -> (r: Stats)
        ensures
            final(self).cooling() == cooling_at(old(self).cooling(), now),
            old(self).same_settings(*final(self)),
            final(self).hits() == old(self).hits(),
            final(self).put_away() == old(self).put_away(),
            final(self).recorded() == old(self).recorded(),
            final(self).recorded_by_kind() == old(self).recorded_by_kind(),
            r.uptime_secs == uptime_secs,
            r.tracked_ips == old(self).hits().len(),
            r.total_requests == old(self).recorded(),
            r.verdicts == old(self).recorded_by_kind(),
            r.active_cooldowns == final(self).cooling().len(),
            tallies(r.cooldowns_by_service@, final(self).cooling()),
            r.rdns_cache_entries == rdns_cache_entries,
    {
        retain_cooling(&mut self.cooldowns, now);
        let listed: Vec<((bool, u128), String)> = cooldown_services(&self.cooldowns);
        let counts: NameTable<usize> = tally(&listed);
        proof {
            lemma_listed_services(self.cooling(), listed@);
            assert forall|service: Seq<char>| #[trigger]
                lookup(counts@, service) == if cooldowns_for(self.cooling(), service) == 0 {
                    None
                } else {
                    Some(cooldowns_for(self.cooling(), service) as usize)
                } by {
                assert(occurrences(listed@, service) == cooldowns_for(self.cooling(), service));
            }
        }
        Stats {
            uptime_secs,
            tracked_ips: hit_map_len(&self.ip_stats),
            total_requests: self.total_requests,
            verdicts: self.counts,
            active_cooldowns: cooldown_map_len(&self.cooldowns),
            cooldowns_by_service: counts,
            rdns_cache_entries,
        }
    }

    /// The figures now, where the cache of reverse lookups has `rdns_cache_entries` entries.
    /// Cooldowns that are over are forgotten. The uptime is what the monotonic clock has counted
    /// since the start.
    pub fn stats(&mut self, rdns_cache_entries: u64) -> (r: Stats)
        ensures
            exists|now: i64|
                clock_shows(now) && final(self).cooling() == #[trigger] cooling_at(
                    old(self).cooling(),
                    now,
                ),
            old(self).uptime_shows(r.uptime_secs),
            old(self).same_settings(*final(self)),
            final(self).hits() == old(self).hits(),
            final(self).put_away() == old(self).put_away(),
            final(self).recorded() == old(self).recorded(),
            final(self).recorded_by_kind() == old(self).recorded_by_kind(),
            r.tracked_ips == old(self).hits().len(),
            r.total_requests == old(self).recorded(),
            r.verdicts == old(self).recorded_by_kind(),
            r.active_cooldowns == final(self).cooling().len(),
            tallies(r.cooldowns_by_service@, final(self).cooling()),
            r.rdns_cache_entries == rdns_cache_entries,
    {
        let now: i64 = now_secs();
        let uptime_secs: u64 = secs_since(&self.started_at);
        self.stats_at(now, uptime_secs, rdns_cache_entries)
    }
}

/// The record of an address that was unknown before hits at `times`, one after the other.
pub open spec fn record_of_hits(times: Seq<i64>, window_secs: u64) -> IpStats
    recommends
        times.len() > 0,
    decreases times.len(),
{
    if times.len() <= 1 {
        IpStats::fresh(times[0]).hit(times[0], window_secs)
    } else {
        record_of_hits(times.drop_last(), window_secs).hit(times.last(), window_secs)
    }
}

/// The hits of an address within one window are counted one by one, from 1 on.
pub proof fn law_hits_in_one_window_count_up(times: Seq<i64>, window_secs: u64)
    requires
        0 < times.len() <= u64::MAX,
        forall|i: int| 0 <= i < times.len() ==> #[trigger] times[i] - times[0] < as_signed(window_secs),
    ensures
        record_of_hits(times, window_secs).count == times.len(),
        record_of_hits(times, window_secs).window_start == times[0],
        record_of_hits(times, window_secs).last_seen == times.last(),
    decreases times.len(),
{
    assert(times[0] - times[0] < as_signed(window_secs));
    if times.len() > 1 {
        let rest = times.drop_last();
        assert forall|i: int| 0 <= i < rest.len() implies #[trigger] rest[i] - rest[0] < as_signed(
            window_secs,
        ) by {
            assert(times[i] - times[0] < as_signed(window_secs));
        }
        law_hits_in_one_window_count_up(rest, window_secs);
        assert(times[times.len() - 1] - times[0] < as_signed(window_secs));
    }
}

/// When the address `ip` was hit, among `hits` of any addresses one after the other.
pub open spec fn times_of(hits: Seq<(IpAddr, i64)>, ip: IpAddr) -> Seq<i64>
    decreases hits.len(),
{
    if hits.len() == 0 {
        Seq::empty()
    } else if hits.last().0 == ip {
        times_of(hits.drop_last(), ip).push(hits.last().1)
    } else {
        times_of(hits.drop_last(), ip)
    }
}

/// The record of an address is that of its own hits since the start, whatever hits of other
/// addresses came between them, and an address that was not hit has none.
pub proof fn law_records_follow_the_hits(
    states: Seq<AppState>,
    hits: Seq<(IpAddr, i64)>,
    ip: IpAddr,
)
    requires
        states.len() == hits.len() + 1,
        states[0].hits() == Map::<(bool, u128), IpStats>::empty(),
        forall|i: int|
            #![trigger hits[i]]
            0 <= i < hits.len() ==> states[i].hit_at(states[i + 1], hits[i].0, hits[i].1),
    ensures
        states.last().settings() == states[0].settings(),
        states.last().hits().contains_key(ip.key()) <==> times_of(hits, ip).len() > 0,
        times_of(hits, ip).len() > 0 ==> states.last().hits()[ip.key()] == record_of_hits(
            times_of(hits, ip),
            states[0].settings().thresholds.window_secs,
        ),
    decreases hits.len(),
{
    if hits.len() > 0 {
        let n = hits.len() - 1;
        let earlier = hits.drop_last();
        assert forall|i: int|
            #![trigger earlier[i]]
            0 <= i < earlier.len() implies states.drop_last()[i].hit_at(
            states.drop_last()[i + 1],
            earlier[i].0,
            earlier[i].1,
        ) by {
            assert(earlier[i] == hits[i]);
        }
        law_records_follow_the_hits(states.drop_last(), earlier, ip);
        assert(states.drop_last().last() == states[n]);
        assert(hits[n] == hits.last());
        assert(states[n].hit_at(states[n + 1], hits[n].0, hits[n].1));
        if hits.last().0 == ip {
            let times = times_of(hits, ip);
            assert(times.drop_last() =~= times_of(earlier, ip));
        }
    }
}

/// A hit after the window is over is the first of a new window.
pub proof fn law_a_hit_after_the_window_starts_over(stats: IpStats, now: i64, window_secs: u64)
    requires
        now - stats.window_start >= as_signed(window_secs),
    ensures
        stats.hit(now, window_secs) == (IpStats { count: 1, window_start: now, last_seen: now }),
{
}

/// With a window of no length every hit is the first of a new window, as long as the clock
/// does not run backwards.
pub proof fn law_without_a_window_every_hit_is_the_first(stats: IpStats, now: i64)
    requires
        now >= stats.window_start,
    ensures
        stats.hit(now, 0).count == 1,
{
}

/// Cooldowns that are over are not among those that stay, and no other cooldown leaves.
pub proof fn law_only_cooldowns_that_are_over_leave(
    records: Map<(bool, u128), (Seq<char>, i64)>,
    key: (bool, u128),
    now: i64,
)
    ensures
        cooling_at(records, now).contains_key(key) <==> records.contains_key(key) && records[key].1
            > now,
        cooling_at(records, now).contains_key(key) ==> cooling_at(records, now)[key]
            == records[key],
{
}

/// A verdict reads back from the values that the cache holds for it.
pub proof fn law_a_verdict_reads_back(verdict: VerdictView)
    ensures
        decoded(coded(verdict)) == verdict,
{
}

/// A hit of one address leaves the record of every other as it was.
pub proof fn law_a_hit_touches_no_other_address(
    before: AppState,
    after: AppState,
    ip: IpAddr,
    now: i64,
    other: IpAddr,
)
    requires
        before.adds_hit(after, ip, now),
        other != ip,
    ensures
        after.hits().contains_key(other.key()) == before.hits().contains_key(other.key()),
        before.hits().contains_key(other.key()) ==> after.hits()[other.key()]
            == before.hits()[other.key()],
{
}

/// A verdict on one address leaves the cooldown of every other as it was.
pub proof fn law_a_verdict_touches_no_other_address(
    before: AppState,
    after: AppState,
    ip: IpAddr,
    verdict: VerdictView,
    other: IpAddr,
)
    requires
        before.adds_verdict(after, ip, verdict),
        other != ip,
    ensures
        after.cooling().contains_key(other.key()) == before.cooling().contains_key(other.key()),
        before.cooling().contains_key(other.key()) ==> after.cooling()[other.key()]
            == before.cooling()[other.key()],
{
}

/// An address that passes is not cooling down any more.
pub proof fn law_a_pass_ends_the_cooldown(before: AppState, after: AppState, ip: IpAddr)
    requires
        before.adds_verdict(after, ip, VerdictView::Allow),
    ensures
        !after.cooling().contains_key(ip.key()),
{
}

/// The cooldown of `ip` after `verdicts` on any addresses one after the other: that of the
/// last verdict on it that was no challenge.
pub open spec fn cooldown_after(verdicts: Seq<(IpAddr, VerdictView)>, ip: IpAddr) -> Option<
    (Seq<char>, i64),
>
    decreases verdicts.len(),
{
    if verdicts.len() == 0 {
        None
    } else if verdicts.last().0 != ip {
        cooldown_after(verdicts.drop_last(), ip)
    } else {
        match verdicts.last().1 {
            VerdictView::Allow => None,
            VerdictView::Cooldown { service, until } => Some((service, until)),
            VerdictView::Challenge => cooldown_after(verdicts.drop_last(), ip),
        }
    }
}

/// Which cooldown an address has follows from the verdicts on that address alone.
pub proof fn law_cooldowns_follow_the_verdicts(
    states: Seq<AppState>,
    verdicts: Seq<(IpAddr, VerdictView)>,
    ip: IpAddr,
)
    requires
        states.len() == verdicts.len() + 1,
        states[0].cooling() == Map::<(bool, u128), (Seq<char>, i64)>::empty(),
        forall|i: int|
            #![trigger verdicts[i]]
            0 <= i < verdicts.len() ==> states[i].adds_verdict(
                states[i + 1],
                verdicts[i].0,
                verdicts[i].1,
            ),
    ensures
        match cooldown_after(verdicts, ip) {
            Some(cooldown) => states.last().cooling().contains_key(ip.key())
                && states.last().cooling()[ip.key()] == cooldown,
            None => !states.last().cooling().contains_key(ip.key()),
        },
    decreases verdicts.len(),
{
    if verdicts.len() > 0 {
        let n = verdicts.len() - 1;
        let earlier = verdicts.drop_last();
        assert forall|i: int|
            #![trigger earlier[i]]
            0 <= i < earlier.len() implies states.drop_last()[i].adds_verdict(
            states.drop_last()[i + 1],
            earlier[i].0,
            earlier[i].1,
        ) by {
            assert(earlier[i] == verdicts[i]);
        }
        law_cooldowns_follow_the_verdicts(states.drop_last(), earlier, ip);
        assert(states.drop_last().last() == states[n]);
        assert(states[n].adds_verdict(states[n + 1], verdicts[n].0, verdicts[n].1));
        assert(verdicts[n].0 != ip ==> verdicts[n].0.key() != ip.key());
    }
}

/// `other` are `records` with their addresses changed by `rename`, no two into one.
pub open spec fn renamed(
    records: Map<(bool, u128), (Seq<char>, i64)>,
    other: Map<(bool, u128), (Seq<char>, i64)>,
    rename: spec_fn((bool, u128)) -> (bool, u128),
) -> bool {
    &&& injective_on(rename, records.dom())
    &&& other.dom() == records.dom().map(rename)
    &&& forall|key: (bool, u128)| #[trigger]
        records.contains_key(key) ==> other[rename(key)] == records[key]
}

/// The figures tell nothing of which addresses are cooling down: with other addresses in
/// their place the number of cooldowns and the counts by service are the same.
pub proof fn law_figures_tell_no_addresses(
    records: Map<(bool, u128), (Seq<char>, i64)>,
    other: Map<(bool, u128), (Seq<char>, i64)>,
    rename: spec_fn((bool, u128)) -> (bool, u128),
    entries: Seq<(Seq<char>, usize)>,
)
    requires
        records.dom().finite(),
        renamed(records, other, rename),
    ensures
        other.len() == records.len(),
        tallies(entries, other) == tallies(entries, records),
{
    lemma_map_size(records.dom(), other.dom(), rename);
    assert forall|service: Seq<char>| #[trigger]
        cooldowns_for(other, service) == cooldowns_for(records, service) by {
        let ours = cooling_for(records, service);
        let theirs = cooling_for(other, service);
        assert(theirs =~= ours.map(rename)) by {
            assert forall|key: (bool, u128)| #[trigger]
                theirs.contains(key) <==> ours.map(rename).contains(key) by {
                if theirs.contains(key) {
                    assert(records.dom().map(rename).contains(key));
                    let from = choose|from: (bool, u128)|
                        records.dom().contains(from) && rename(from) == key;
                    assert(records.contains_key(from));
                    assert(ours.contains(from));
                }
                if ours.map(rename).contains(key) {
                    let from = choose|from: (bool, u128)|
                        ours.contains(from) && rename(from) == key;
                    assert(records.contains_key(from));
                    assert(records.dom().map(rename).contains(key));
                }
            }
        }
        lemma_map_size(ours, theirs, rename);
    }
    if tallies(entries, other) {
        assert forall|service: Seq<char>| #[trigger]
            lookup(entries, service) == if cooldowns_for(records, service) == 0 {
                None
            } else {
                Some(cooldowns_for(records, service) as usize)
            } by {
            assert(cooldowns_for(other, service) == cooldowns_for(records, service));
        }
    }
}

/// A reading of the clock is what a call of [`now_secs`] gave, and nothing else is one.
pub proof fn law_readings_come_from_the_clock(t: i64)
    ensures
        clock_shows(t) <==> call_ensures(now_secs, (), t),
        clock_shows(t) ==> -CLOCK_LIMIT <= t <= CLOCK_LIMIT,
{
}

/// A hit before the window has run its length counts one more in that window; a hit after it
/// is the first of a window that begins with it. Either way it is the last that was seen.
pub proof fn law_windows_last_as_long_as_configured(stats: IpStats, now: i64, window_secs: u64)
    requires
        window_secs <= i64::MAX,
    ensures
        stats.hit(now, window_secs).last_seen == now,
        now < stats.window_start + window_secs ==> stats.hit(now, window_secs).window_start
            == stats.window_start,
        now < stats.window_start + window_secs && stats.count < u64::MAX ==> stats.hit(
            now,
            window_secs,
        ).count == stats.count + 1,
        now >= stats.window_start + window_secs ==> stats.hit(now, window_secs).window_start == now
            && stats.hit(now, window_secs).count == 1,
{
}

/// The first hit of an address is the first of a window that begins with it, and every other
/// hit goes on from the record that the address had.
pub proof fn law_a_hit_goes_on_from_the_record(
    before: AppState,
    after: AppState,
    ip: IpAddr,
    now: i64,
)
    requires
        before.hit_at(after, ip, now),
    ensures
        after.hits().contains_key(ip.key()),
        !before.hits().contains_key(ip.key()) ==> after.hits()[ip.key()] == (IpStats {
            count: 1,
            window_start: now,
            last_seen: now,
        }),
        before.hits().contains_key(ip.key()) ==> after.hits()[ip.key()]
            == before.hits()[ip.key()].hit(now, before.settings().thresholds.window_secs),
        before.record_after_hit(ip, now) == after.hits()[ip.key()],
{
}

/// A hit changes nothing but the record of its address.
pub proof fn law_a_hit_changes_one_record(
    before: AppState,
    after: AppState,
    ip: IpAddr,
    now: i64,
    key: (bool, u128),
)
    requires
        before.hit_at(after, ip, now),
    ensures
        after.settings() == before.settings(),
        after.verdict_limits() == before.verdict_limits(),
        after.started() == before.started(),
        after.recorded() == before.recorded(),
        after.recorded_by_kind() == before.recorded_by_kind(),
        after.cooling() == before.cooling(),
        after.put_away() == before.put_away(),
        key != ip.key() ==> (after.hits().contains_key(key) <==> before.hits().contains_key(key)),
        key != ip.key() && before.hits().contains_key(key) ==> after.hits()[key]
            == before.hits()[key],
{
}

/// Counters go up by one, and start over after the greatest `u64`.
pub proof fn law_counters_go_up_by_one(n: u64)
    ensures
        bumped(n) == (n + 1) % 0x1_0000_0000_0000_0000,
{
}

/// As long as no counter starts over, the counters hold how many verdicts there were and how
/// many of each kind.
pub proof fn law_counters_follow_the_verdicts(
    states: Seq<AppState>,
    verdicts: Seq<(IpAddr, VerdictView)>,
)
    requires
        states.len() == verdicts.len() + 1,
        verdicts.len() <= u64::MAX,
        states[0].recorded() == 0,
        states[0].recorded_by_kind() == (VerdictCounts { allowed: 0, cooldown: 0, challenge: 0 }),
        forall|i: int|
            #![trigger verdicts[i]]
            0 <= i < verdicts.len() ==> states[i].adds_verdict(
                states[i + 1],
                verdicts[i].0,
                verdicts[i].1,
            ),
    ensures
        states.last().recorded() == verdicts.len(),
        states.last().recorded_by_kind().allowed == verdicts.filter(
            |v: (IpAddr, VerdictView)| v.1 is Allow,
        ).len(),
        states.last().recorded_by_kind().cooldown == verdicts.filter(
            |v: (IpAddr, VerdictView)| v.1 is Cooldown,
        ).len(),
        states.last().recorded_by_kind().challenge == verdicts.filter(
            |v: (IpAddr, VerdictView)| v.1 is Challenge,
        ).len(),
    decreases verdicts.len(),
{
    let allow = |v: (IpAddr, VerdictView)| v.1 is Allow;
    let cooldown = |v: (IpAddr, VerdictView)| v.1 is Cooldown;
    let challenge = |v: (IpAddr, VerdictView)| v.1 is Challenge;
    reveal(Seq::filter);
    if verdicts.len() > 0 {
        let n = verdicts.len() - 1;
        let earlier = verdicts.drop_last();
        assert forall|i: int|
            #![trigger earlier[i]]
            0 <= i < earlier.len() implies states.drop_last()[i].adds_verdict(
            states.drop_last()[i + 1],
            earlier[i].0,
            earlier[i].1,
        ) by {
            assert(earlier[i] == verdicts[i]);
        }
        law_counters_follow_the_verdicts(states.drop_last(), earlier);
        assert(states.drop_last().last() == states[n]);
        assert(states[n].adds_verdict(states[n + 1], verdicts[n].0, verdicts[n].1));
        earlier.lemma_filter_len(allow);
        earlier.lemma_filter_len(cooldown);
        earlier.lemma_filter_len(challenge);
    }
}

/// A verdict that is put away is the one that is found for its address, and every other
/// address keeps its own.
pub proof fn law_a_verdict_that_is_put_away_is_found(
    before: AppState,
    after: AppState,
    ip: IpAddr,
    verdict: VerdictView,
    key: (bool, u128),
)
    requires
        before.adds_put_away(after, ip, verdict),
    ensures
        after.put_away().contains_key(ip.key()) && after.put_away()[ip.key()] == verdict,
        key != ip.key() ==> (after.put_away().contains_key(key) <==> before.put_away().contains_key(
            key,
        )),
        key != ip.key() && before.put_away().contains_key(key) ==> after.put_away()[key]
            == before.put_away()[key],
{
}

/// What is taken up of an address is the verdict that was last put away for it, or nothing.
pub proof fn law_what_is_taken_up_was_put_away(state: AppState, ip: IpAddr, verdict: VerdictView)
    requires
        state.takes_up(ip, Some(verdict)),
    ensures
        state.put_away().contains_key(ip.key()) && state.put_away()[ip.key()] == verdict,
{
}

/// What is taken up of an address is what the cache answers: a verdict where it answers with
/// one, and nothing only where it answers with nothing.
pub proof fn law_the_cache_decides_what_is_taken_up(state: AppState, ip: IpAddr, r: Option<Verdict>)
    requires
        call_ensures(AppState::take_up_verdict, (&state, ip), r),
    ensures
        r is None ==> state.cache_answers(ip, None),
        r matches Some(verdict) ==> exists|code: (u8, String, i64)| #[trigger]
            state.cache_answers(ip, Some(code)) && match verdict@ {
                VerdictView::Allow => code.0 == 0,
                VerdictView::Cooldown { service, until } => code.0 == 1 && code.1@ == service
                    && code.2 == until,
                VerdictView::Challenge => code.0 > 1,
            },
{
    let cached = match r {
        Some(verdict) => Some(verdict@),
        None => None,
    };
    let answer = choose|answer: Option<(u8, String, i64)>| #[trigger]
        state.cache_answers(ip, answer) && cached == match answer {
            Some(code) => Some(decoded((code.0, code.1@, code.2))),
            None => None,
        };
    assert(state.cache_answers(ip, answer));
}

/// One more cooldown counts one more for its service, and for no other service.
pub proof fn law_a_cooldown_counts_for_its_service(
    records: Map<(bool, u128), (Seq<char>, i64)>,
    who: (bool, u128),
    cooldown: (Seq<char>, i64),
    service: Seq<char>,
)
    requires
        records.dom().finite(),
        !records.contains_key(who),
    ensures
        cooldowns_for(Map::empty(), service) == 0,
        cooldowns_for(records.insert(who, cooldown), service) == cooldowns_for(records, service)
            + if cooldown.0 == service {
            1nat
        } else {
            0
        },
        records.insert(who, cooldown).remove(who) == records,
{
    let none = Map::<(bool, u128), (Seq<char>, i64)>::empty();
    assert(cooling_for(none, service) =~= Set::empty());
    let after = records.insert(who, cooldown);
    let ours = cooling_for(records, service);
    let theirs = cooling_for(after, service);
    lemma_len_subset(ours, records.dom());
    if cooldown.0 == service {
        assert(theirs =~= ours.insert(who));
    } else {
        assert(theirs =~= ours);
    }
    assert(after.remove(who) =~= records);
}

/// The figures give for each service how many cooldowns there are for it, name no service
/// without a cooldown, and add up to the number of cooldowns.
pub proof fn law_figures_count_cooldowns_by_service(
    entries: Seq<(Seq<char>, usize)>,
    records: Map<(bool, u128), (Seq<char>, i64)>,
    service: Seq<char>,
)
    requires
        tallies(entries, records),
        records.dom().finite(),
        records.len() <= usize::MAX,
    ensures
        lookup(entries, service) is None <==> forall|key: (bool, u128)| #[trigger]
            records.contains_key(key) ==> records[key].0 != service,
        lookup(entries, service) matches Some(n) ==> n == cooldowns_for(records, service),
        sum_of_counts(entries) == records.len(),
        distinct_names(entries),
{
    let ours = cooling_for(records, service);
    lemma_len_subset(ours, records.dom());
    if forall|key: (bool, u128)| #[trigger]
        records.contains_key(key) ==> records[key].0 != service {
        assert(ours =~= Set::empty()) by {
            assert forall|key: (bool, u128)| !ours.contains(key) by {
                if ours.contains(key) {
                    assert(records.contains_key(key));
                }
            }
        }
    } else {
        let key = choose|key: (bool, u128)|
            records.contains_key(key) && records[key].0 == service;
        assert(ours.contains(key));
        if ours.len() == 0 {
            assert(ours =~= Set::empty());
        }
    }
}

/// Adding a count adds it to the sum, and one more item counts one more for its service only.
pub proof fn law_sums_and_occurrences_grow_item_by_item(
    entries: Seq<(Seq<char>, usize)>,
    entry: (Seq<char>, usize),
    listed: Seq<((bool, u128), String)>,
    item: ((bool, u128), String),
    service: Seq<char>,
)
    ensures
        sum_of_counts(Seq::empty()) == 0,
        sum_of_counts(entries.push(entry)) == sum_of_counts(entries) + entry.1,
        occurrences(Seq::empty(), service) == 0,
        occurrences(listed.push(item), service) == occurrences(listed, service) + if item.1@
            == service {
            1nat
        } else {
            0
        },
{
    assert(entries.push(entry).drop_last() =~= entries);
    assert(listed.push(item).drop_last() =~= listed);
}

/// A new state remembers nothing, and keeps a verdict for half a minute and no more than a
/// hundred thousand of them; the outcomes of reverse lookups are to be kept for six hours.
pub proof fn law_a_new_state_remembers_nothing(config: Config, r: AppState, ip: IpAddr)
    requires
        call_ensures(AppState::new, (config,), r),
    ensures
        r.settings() == config,
        r.verdict_limits() == (30u64, 100_000u64),
        RDNS_TTL_SECS == 6 * 60 * 60,
        CACHE_CAPACITY == 100_000,
        !r.hits().contains_key(ip.key()),
        !r.cooling().contains_key(ip.key()),
        !r.put_away().contains_key(ip.key()),
        r.recorded() == 0,
        r.recorded_by_kind().allowed == 0,
        r.recorded_by_kind().cooldown == 0,
        r.recorded_by_kind().challenge == 0,
        AppState::start_read(r.started()),
{
}

/// The start of a state is a reading of the monotonic clock, and its uptime is what that
/// clock has counted since.
proof fn law_uptimes_come_from_the_clock(state: AppState, start: Instant, secs: u64)
    ensures
        AppState::start_read(start) <==> call_ensures(instant_now, (), start),
        state.uptime_shows(secs) <==> call_ensures(secs_since, (&state.started(),), secs),
{
}

/// A cooldown lasts up to its end and not beyond.
pub proof fn law_a_cooldown_lasts_up_to_its_end(entry: CooldownEntry, now: i64, r: bool)
    requires
        call_ensures(is_cooling, (&entry, now), r),
    ensures
        now < entry.until ==> r,
        now >= entry.until ==> !r,
{
}

} // verus!
