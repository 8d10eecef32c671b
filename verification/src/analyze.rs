//! What is done with a request: the decision up to the reverse lookup of its address, and
//! the decision after it.
use vstd::prelude::*;

use crate::challenge::{cookie_admits, verify_at};
use crate::config::{addable, Config};
use crate::dns::{RdnsResult, RdnsStep};
use crate::ip_pools::{
    holding, in_known_domain, in_known_pool, naming, pool_for_ip, pool_for_rdns_suffix,
    within_domain,
};
use crate::net::{in_network, IpAddr};
use crate::number::{as_signed, to_signed};
use crate::state::{
    clock_shows, clock_time, law_hits_in_one_window_count_up, now_secs, record_of_hits, AppState, Verdict,
    VerdictView, CLOCK_LIMIT,
};

verus! {

/// How far a request has come.
pub enum Analysis {
    /// The verdict is there.
    Decided(Verdict),
    /// The host name of the address decides: [`crate::dns::verify_rdns`] goes on from the
    /// step, and [`judge`] follows its outcome.
    Resolve(RdnsStep),
}

/// A request from `ip` passes at `now` without a look at its host name: the address is
/// whitelisted, it belongs to a known bot, its `count` requests in the current window are no
/// more than allowed, or its cookie admits it.
pub open spec fn passes(
    config: Config,
    ip: IpAddr,
    count: u64,
    cookie: Option<Seq<char>>,
    now: i64,
) -> bool {
    ||| config.whitelists(ip)
    ||| in_known_pool(config, ip)
    ||| count <= config.thresholds.max_requests_per_window
    ||| (cookie matches Some(c) && cookie_admits(config.challenge.hmac_secret@, ip, c, now))
}

/// The service that a host outside the networks of the bot it is named after, or one of no
/// known bot, is cooled down as.
pub open spec fn service_of(config: Config, host: Seq<char>) -> Seq<char> {
    if in_known_domain(config, host) {
        "impersonator"@
    } else {
        "unknown"@
    }
}

/// The verdict that follows the outcome of the reverse lookup at `now`: a challenge without
/// a confirmed host name, and a cooldown with one.
pub open spec fn judgement(config: Config, host: Option<Seq<char>>, now: i64) -> VerdictView {
    match host {
        Some(h) => VerdictView::Cooldown {
            service: service_of(config, h),
            until: (now + as_signed(config.cooldown_secs(service_of(config, h)) as u64)) as i64,
        },
        None => VerdictView::Challenge,
    }
}

/// The host name of an outcome.
pub open spec fn host_of(rdns: Option<RdnsResult>) -> Option<Seq<char>> {
    match rdns {
        Some(result) => Some(result.hostname@),
        None => None,
    }
}

/// The characters of a cookie, if there is one.
pub open spec fn cookie_text(cookie: Option<&str>) -> Option<Seq<char>> {
    match cookie {
        Some(c) => Some(c@),
        None => None,
    }
}

/// A cooldown for `service` can be computed at `now`: its text can be read, and its end is
/// an `i64`.
pub open spec fn cooldown_computable(config: Config, service: Seq<char>, now: i64) -> bool {
    &&& config.readable_cooldown(service)
    &&& i64::MIN <= now + as_signed(config.cooldown_secs(service) as u64) <= i64::MAX
}

/// A cooldown for `service` can be computed at every time that the clock shows.
pub open spec fn cooldown_usable(config: Config, service: Seq<char>) -> bool {
    &&& config.readable_cooldown(service)
    &&& addable(config.cooldown_secs(service) as u64, CLOCK_LIMIT as int)
}

/// The verdict that follows the outcome of a reverse lookup, with the host name `host`, can
/// be computed at every time that the clock shows.
pub open spec fn judgeable(config: Config, host: Option<Seq<char>>) -> bool {
    host matches Some(h) ==> cooldown_usable(config, service_of(config, h))
}

/// Whether a cooldown for `service` can be computed at every time that the clock shows.
fn is_cooldown_usable(config: &Config, service: &str) -> (r: bool)
    ensures
        r == cooldown_usable(*config, service@),
{
    if !config.is_readable_cooldown(service) {
        return false;
    }
    let secs: i64 = to_signed(config.cooldown_for(service).as_secs());
    i64::MIN + CLOCK_LIMIT <= secs && secs <= i64::MAX - CLOCK_LIMIT
}

/// The service that a host named `hostname` is cooled down as.
fn service_for(config: &Config, hostname: &str) -> (r: &'static str)
    ensures
        r@ == service_of(*config, hostname@),
{
    match pool_for_rdns_suffix(config, hostname) {
        Some(_) => "impersonator",
        None => "unknown",
    }
}

/// Whether the verdict that follows `rdns` can be computed at every time that the clock
/// shows.
pub fn is_judgeable(config: &Config, rdns: &Option<RdnsResult>) -> (r: bool)
    ensures
        r == judgeable(*config, host_of(*rdns)),
{
    match rdns {
        None => true,
        Some(result) => is_cooldown_usable(config, service_for(config, result.hostname.as_str())),
    }
}

/// The cooldown for `service` that begins at `now`.
fn cooldown(config: &Config, service: &str, now: i64) -> (r: Verdict)
    requires
        cooldown_computable(*config, service@, now),
    ensures
        r@ == (VerdictView::Cooldown {
            service: service@,
            until: (now + as_signed(config.cooldown_secs(service@) as u64)) as i64,
        }),
{
    let until: i64 = now + to_signed(config.cooldown_for(service).as_secs());
    Verdict::Cooldown { service: service.to_owned(), until }
}

/// Begins to decide what happens to a request from `ip` at `now`. The hit is always
/// recorded. The request passes where the address is whitelisted, belongs to the networks
/// of a known bot, is within its rate or shows a good cookie; otherwise its host name has
/// to be looked up.
pub fn analyze_at(
    state: &mut AppState,
    ip: IpAddr,
    challenge_cookie: Option<&str>,
    now: i64,
) -> (r: Analysis)
    requires
        old(state).wf(),
        clock_time(now),
    ensures
        final(state).wf(),
        old(state).hit_at(*final(state), ip, now),
        ({
            let count = old(state).record_after_hit(ip, now).count;
            match r {
                Analysis::Decided(verdict) => verdict@ == VerdictView::Allow && passes(
                    old(state).settings(),
                    ip,
                    count,
                    cookie_text(challenge_cookie),
                    now,
                ),
                Analysis::Resolve(step) => step == RdnsStep::ReadCache && !passes(
                    old(state).settings(),
                    ip,
                    count,
                    cookie_text(challenge_cookie),
                    now,
                ),
            }
        }),
{
    let count: u64 = state.record_hit_at(ip, now);
    let config: &Config = state.config();
    if config.is_whitelisted(ip) {
        return Analysis::Decided(Verdict::Allow);
    }
    if pool_for_ip(config, ip).is_some() {
        return Analysis::Decided(Verdict::Allow);
    }
    if count <= config.thresholds.max_requests_per_window {
        return Analysis::Decided(Verdict::Allow);
    }
    if let Some(cookie) = challenge_cookie {
        if verify_at(config, ip, cookie, now) {
            return Analysis::Decided(Verdict::Allow);
        }
    }
    Analysis::Resolve(RdnsStep::ReadCache)
}

/// Begins to decide what happens to a request from `ip` now.
pub fn analyze(state: &mut AppState, ip: IpAddr, challenge_cookie: Option<&str>) -> (r: Analysis)
    requires
        old(state).wf(),
    ensures
        final(state).wf(),
        exists|now: i64| #[trigger]
            old(state).hit_at(*final(state), ip, now) && clock_shows(now) && ({
                let count = old(state).record_after_hit(ip, now).count;
                match r {
                    Analysis::Decided(verdict) => verdict@ == VerdictView::Allow && passes(
                        old(state).settings(),
                        ip,
                        count,
                        cookie_text(challenge_cookie),
                        now,
                    ),
                    Analysis::Resolve(step) => step == RdnsStep::ReadCache && !passes(
                        old(state).settings(),
                        ip,
                        count,
                        cookie_text(challenge_cookie),
                        now,
                    ),
                }
            }),
{
    let now: i64 = now_secs();
    analyze_at(state, ip, challenge_cookie, now)
}

/// Decides at `now` what happens to a request once the reverse lookup of its address has
/// given `rdns`. A host named in the domain of a known bot is an impersonator, since the
/// address is not in that bot's networks; another confirmed host is an unknown one; and a
/// client without a confirmed host name is challenged.
pub fn judge(config: &Config, rdns: &Option<RdnsResult>, now: i64) -> (r: Verdict)
    requires
        host_of(*rdns) matches Some(host) ==> cooldown_computable(
            *config,
            service_of(*config, host),
            now,
        ),
    ensures
        r@ == judgement(*config, host_of(*rdns), now),
{
    match rdns {
        None => Verdict::Challenge,
        Some(result) => cooldown(config, service_for(config, result.hostname.as_str()), now),
    }
}

/// A whitelisted address passes, whatever else holds of the request.
pub proof fn law_whitelisted_addresses_pass(
    config: Config,
    ip: IpAddr,
    count: u64,
    cookie: Option<Seq<char>>,
    now: i64,
)
    requires
        config.whitelists(ip),
    ensures
        passes(config, ip, count, cookie, now),
{
}

/// An address in the networks of a known bot passes, whatever else holds of the request.
pub proof fn law_known_bots_pass(
    config: Config,
    ip: IpAddr,
    count: u64,
    cookie: Option<Seq<char>>,
    now: i64,
)
    requires
        in_known_pool(config, ip),
    ensures
        passes(config, ip, count, cookie, now),
{
}

/// The requests of an address in one window pass up to the threshold, and the next one does
/// not pass by its rate.
pub proof fn law_requests_pass_up_to_the_threshold(
    config: Config,
    ip: IpAddr,
    times: Seq<i64>,
    cookie: Option<Seq<char>>,
)
    requires
        0 < times.len() <= u64::MAX,
        forall|i: int|
            0 <= i < times.len() ==> #[trigger] times[i] - times[0] < as_signed(
                config.thresholds.window_secs,
            ),
    ensures
        ({
            let count = record_of_hits(times, config.thresholds.window_secs).count;
            &&& times.len() <= config.thresholds.max_requests_per_window ==> passes(
                config,
                ip,
                count,
                cookie,
                times.last(),
            )
            &&& times.len() > config.thresholds.max_requests_per_window && passes(
                config,
                ip,
                count,
                None,
                times.last(),
            ) ==> config.whitelists(ip) || in_known_pool(config, ip)
        }),
{
    law_hits_in_one_window_count_up(times, config.thresholds.window_secs);
}

/// A cookie that admits the address makes its requests pass.
pub proof fn law_a_good_cookie_passes(
    config: Config,
    ip: IpAddr,
    count: u64,
    cookie: Seq<char>,
    now: i64,
)
    requires
        cookie_admits(config.challenge.hmac_secret@, ip, cookie, now),
    ensures
        passes(config, ip, count, Some(cookie), now),
{
}

/// After the reverse lookup no request passes. A client without a confirmed host name is
/// challenged; one that is named in the domain of a known bot is cooled down as an
/// impersonator, and any other as an unknown host.
pub proof fn law_judged_requests_do_not_pass(config: Config, host: Option<Seq<char>>, now: i64)
    ensures
        judgement(config, host, now) != VerdictView::Allow,
        judgement(config, host, now) == VerdictView::Challenge <==> host is None,
        host matches Some(h) ==> (judgement(config, host, now) matches VerdictView::Cooldown {
            service,
            ..
        } && service == if in_known_domain(config, h) {
            "impersonator"@
        } else {
            "unknown"@
        }),
{
}

/// Over the threshold, an address in no whitelisted network and in no network of a known bot
/// passes only with a cookie, and only with one that admits it at that time.
pub proof fn law_over_the_threshold_only_a_good_cookie_passes(
    config: Config,
    ip: IpAddr,
    count: u64,
    cookie: Option<Seq<char>>,
    now: i64,
)
    requires
        forall|k: int|
            0 <= k < config.whitelist.cidrs@.len() ==> !in_network(
                (#[trigger] config.whitelist.cidrs@[k]).address(),
                config.whitelist.cidrs@[k].prefix(),
                ip,
            ),
        forall|i: int, k: int|
            0 <= i < config.bot_pools@.len() && 0 <= k < config.bot_pools@[i].1.cidrs@.len()
                ==> !in_network(
                (#[trigger] config.bot_pools@[i].1.cidrs@[k]).address(),
                config.bot_pools@[i].1.cidrs@[k].prefix(),
                ip,
            ),
        count > config.thresholds.max_requests_per_window,
    ensures
        passes(config, ip, count, cookie, now) <==> cookie is Some && cookie_admits(
            config.challenge.hmac_secret@,
            ip,
            cookie->Some_0,
            now,
        ),
{
    if in_known_pool(config, ip) {
        let matching = holding(ip);
        let i = choose|i: int|
            0 <= i < config.bot_pools@.len() && matching((#[trigger] config.bot_pools@[i]).1);
        let k = choose|k: int|
            0 <= k < config.bot_pools@[i].1.cidrs@.len()
                && (#[trigger] config.bot_pools@[i].1.cidrs@[k]).holds(ip);
        assert(config.bot_pools@[i].1.cidrs@[k].holds(ip));
    }
}

/// An address passes wherever one of the whitelisted networks or one of the networks of a
/// known bot holds it, or its requests in the window are no more than allowed.
pub proof fn law_networks_and_rate_let_pass(
    config: Config,
    ip: IpAddr,
    count: u64,
    cookie: Option<Seq<char>>,
    now: i64,
    i: int,
    k: int,
)
    requires
        ({
            ||| 0 <= k < config.whitelist.cidrs@.len() && in_network(
                config.whitelist.cidrs@[k].address(),
                config.whitelist.cidrs@[k].prefix(),
                ip,
            )
            ||| 0 <= i < config.bot_pools@.len() && 0 <= k < config.bot_pools@[i].1.cidrs@.len()
                && in_network(
                config.bot_pools@[i].1.cidrs@[k].address(),
                config.bot_pools@[i].1.cidrs@[k].prefix(),
                ip,
            )
            ||| count <= config.thresholds.max_requests_per_window
        }),
    ensures
        passes(config, ip, count, cookie, now),
{
    if 0 <= k < config.whitelist.cidrs@.len() && in_network(
        config.whitelist.cidrs@[k].address(),
        config.whitelist.cidrs@[k].prefix(),
        ip,
    ) {
        assert(config.whitelist.cidrs@[k].holds(ip));
    } else if count > config.thresholds.max_requests_per_window {
        let matching = holding(ip);
        assert(config.bot_pools@[i].1.cidrs@[k].holds(ip));
        assert(matching(config.bot_pools@[i].1));
    }
}

/// A client without a confirmed host name is challenged. One with a host name is cooled down
/// from then on for as long as the settings say for its service: that of an impersonator
/// where a known bot has a domain that the name lies in, and that of an unknown host
/// otherwise.
pub proof fn law_the_host_name_decides(
    config: Config,
    rdns: Option<RdnsResult>,
    now: i64,
    verdict: Verdict,
)
    requires
        call_ensures(judge, (&config, &rdns, now), verdict),
        forall|service: Seq<char>|
            #![trigger config.cooldown_secs(service)]
            0 <= config.cooldown_secs(service) <= i64::MAX && now + config.cooldown_secs(service)
                <= i64::MAX,
    ensures
        rdns is None ==> verdict is Challenge,
        rdns matches Some(result) ==> (verdict matches Verdict::Cooldown { service, until } && {
            &&& service@ == if exists|i: int|
                0 <= i < config.bot_pools@.len() && within_domain(
                    result.hostname@,
                    (#[trigger] config.bot_pools@[i]).1.rdns_suffix@,
                ) {
                "impersonator"@
            } else {
                "unknown"@
            }
            &&& until == now + config.cooldown_secs(service@)
        }),
{
    if let Some(result) = rdns {
        let host = result.hostname@;
        let matching = naming(host);
        if exists|i: int|
            0 <= i < config.bot_pools@.len() && within_domain(
                host,
                (#[trigger] config.bot_pools@[i]).1.rdns_suffix@,
            ) {
            let i = choose|i: int|
                0 <= i < config.bot_pools@.len() && within_domain(
                    host,
                    (#[trigger] config.bot_pools@[i]).1.rdns_suffix@,
                );
            assert(matching(config.bot_pools@[i].1));
        } else if in_known_domain(config, host) {
            let i = choose|i: int|
                0 <= i < config.bot_pools@.len() && matching((#[trigger] config.bot_pools@[i]).1);
            assert(within_domain(host, config.bot_pools@[i].1.rdns_suffix@));
        }
        let service = service_of(config, host);
        assert(0 <= config.cooldown_secs(service) <= i64::MAX);
    }
}

/// A verdict can always be computed without a host name, and with one exactly where the
/// cooldown of its service can be read and its end is an `i64` at every time that the clock
/// can show.
pub proof fn law_usable_cooldowns(config: Config, rdns: Option<RdnsResult>, now: i64, r: bool)
    requires
        call_ensures(is_judgeable, (&config, &rdns), r),
    ensures
        r == judgeable(config, host_of(rdns)),
        rdns is None ==> r,
        rdns matches Some(result) ==> {
            let service = service_of(config, result.hostname@);
            let secs = config.cooldown_secs(service);
            &&& config.readable_cooldown(service) && 0 <= secs <= i64::MAX - CLOCK_LIMIT ==> r
            &&& r && -CLOCK_LIMIT <= now <= CLOCK_LIMIT && 0 <= secs <= u64::MAX
                ==> cooldown_computable(config, service, now)
            &&& !config.readable_cooldown(service) ==> !r
            &&& i64::MAX - CLOCK_LIMIT < secs <= i64::MAX ==> !r
        },
{
}

} // verus!
