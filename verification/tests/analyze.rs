use std::collections::HashMap;

use counterparser::analyze::{analyze, analyze_at, is_judgeable, judge, Analysis};
use counterparser::challenge::{issue, issue_at};
use counterparser::config::{
    BotPoolConfig, ChallengeConfig, Config, ServerConfig, ThresholdsConfig, WhitelistConfig,
};
use counterparser::dns::{verify_rdns, RdnsAnswer, RdnsResult, RdnsStep};
use counterparser::net::{IpAddr, IpNet};
use counterparser::state::{now_secs, AppState, Verdict};
use counterparser::table::NameTable;

/// A resolver whose answers are hardcoded per test, with no network access.
#[derive(Default)]
struct FakeResolver {
    ptr: HashMap<IpAddr, String>,
    forward: HashMap<String, Vec<IpAddr>>,
}

fn look_up(resolver: &FakeResolver, ip: IpAddr) -> Option<RdnsResult> {
    let mut step = RdnsStep::ReadCache;
    loop {
        let answer = match &step {
            RdnsStep::ReadCache => RdnsAnswer::Cached(None),
            RdnsStep::ReverseLookup => RdnsAnswer::Pointer(resolver.ptr.get(&ip).cloned()),
            RdnsStep::ForwardConfirm { hostname } => RdnsAnswer::Confirmed(
                resolver
                    .forward
                    .get(hostname)
                    .is_some_and(|ips| ips.contains(&ip)),
            ),
            RdnsStep::Store { .. } => RdnsAnswer::Stored,
            RdnsStep::Done { result } => return result.clone(),
        };
        step = verify_rdns(step, answer);
    }
}

fn verdict_on(
    resolver: &FakeResolver,
    state: &mut AppState,
    ip: IpAddr,
    cookie: Option<&str>,
) -> Verdict {
    match analyze(state, ip, cookie) {
        Analysis::Decided(verdict) => verdict,
        Analysis::Resolve(step) => {
            assert_eq!(step, RdnsStep::ReadCache);
            judge(state.config(), &look_up(resolver, ip), now_secs())
        }
    }
}

fn ip(s: &str) -> IpAddr {
    IpAddr::parse(s).unwrap()
}

fn net(s: &str) -> IpNet {
    let (addr, prefix) = s.split_once('/').unwrap();
    IpNet::new(ip(addr), prefix.parse().unwrap()).unwrap()
}

fn test_config() -> Config {
    let mut bot_pools = NameTable::new();
    bot_pools.insert(
        "google".to_string(),
        BotPoolConfig {
            cidrs: vec![net("66.249.64.0/19")],
            rdns_suffix: "googlebot.com".to_string(),
        },
    );
    let mut cooldowns = NameTable::new();
    cooldowns.insert("default".to_string(), "10m".to_string());
    cooldowns.insert("impersonator".to_string(), "24h".to_string());
    cooldowns.insert("unknown".to_string(), "5m".to_string());

    Config {
        server: ServerConfig {
            socket_path: "/tmp/x.sock".to_string(),
        },
        thresholds: ThresholdsConfig {
            window_secs: 60,
            max_requests_per_window: 2,
        },
        whitelist: WhitelistConfig {
            cidrs: vec![net("10.0.0.0/8")],
        },
        bot_pools,
        cooldowns,
        challenge: ChallengeConfig {
            cookie_name: "cp_ok".to_string(),
            cookie_ttl_secs: 3600,
            hmac_secret: "test-secret".to_string(),
        },
    }
}

#[test]
fn whitelisted_ip_always_allowed() {
    let mut state = AppState::new(test_config());
    let resolver = FakeResolver::default();
    let ip = ip("10.1.2.3");
    for _ in 0..5 {
        assert_eq!(verdict_on(&resolver, &mut state, ip, None), Verdict::Allow);
    }
}

#[test]
fn known_pool_ip_always_allowed() {
    let mut state = AppState::new(test_config());
    let resolver = FakeResolver::default();
    let ip = ip("66.249.64.10");
    for _ in 0..5 {
        assert_eq!(verdict_on(&resolver, &mut state, ip, None), Verdict::Allow);
    }
}

#[test]
fn under_threshold_allowed() {
    let mut state = AppState::new(test_config());
    let resolver = FakeResolver::default();
    let ip = ip("1.2.3.4");
    assert_eq!(verdict_on(&resolver, &mut state, ip, None), Verdict::Allow);
    assert_eq!(verdict_on(&resolver, &mut state, ip, None), Verdict::Allow);
}

#[test]
fn spoofed_googlebot_gets_impersonator_cooldown() {
    let mut state = AppState::new(test_config());
    let mut resolver = FakeResolver::default();
    // Outside Google's official CIDR pool, but the PTR forward-confirms into googlebot.com.
    let ip = ip("1.2.3.4");
    resolver.ptr.insert(ip, "fake.googlebot.com".to_string());
    resolver
        .forward
        .insert("fake.googlebot.com".to_string(), vec![ip]);

    verdict_on(&resolver, &mut state, ip, None);
    verdict_on(&resolver, &mut state, ip, None);
    let verdict = verdict_on(&resolver, &mut state, ip, None);
    match verdict {
        Verdict::Cooldown { service, .. } => assert_eq!(service, "impersonator"),
        other => panic!("expected Cooldown, got {other:?}"),
    }
}

#[test]
fn unresolvable_ip_over_threshold_gets_challenged() {
    let mut state = AppState::new(test_config());
    let resolver = FakeResolver::default();
    let ip = ip("5.6.7.8");

    verdict_on(&resolver, &mut state, ip, None);
    verdict_on(&resolver, &mut state, ip, None);
    let verdict = verdict_on(&resolver, &mut state, ip, None);
    assert_eq!(verdict, Verdict::Challenge);
}

#[test]
fn valid_challenge_cookie_allows_through() {
    let mut state = AppState::new(test_config());
    let resolver = FakeResolver::default();
    let ip = ip("5.6.7.8");
    let token = issue(state.config(), ip);

    verdict_on(&resolver, &mut state, ip, None);
    verdict_on(&resolver, &mut state, ip, None);
    let verdict = verdict_on(&resolver, &mut state, ip, Some(&token));
    assert_eq!(verdict, Verdict::Allow);
}

#[test]
fn known_host_without_bot_match_gets_unknown_cooldown() {
    let mut state = AppState::new(test_config());
    let mut resolver = FakeResolver::default();
    let ip = ip("5.6.7.8");
    resolver.ptr.insert(ip, "host.example.com".to_string());
    resolver
        .forward
        .insert("host.example.com".to_string(), vec![ip]);

    verdict_on(&resolver, &mut state, ip, None);
    verdict_on(&resolver, &mut state, ip, None);
    let verdict = verdict_on(&resolver, &mut state, ip, None);
    match verdict {
        Verdict::Cooldown { service, .. } => assert_eq!(service, "unknown"),
        other => panic!("expected Cooldown, got {other:?}"),
    }
}

#[test]
fn cooldowns_end_after_their_time() {
    let config = test_config();
    let named = |hostname: &str| {
        Some(RdnsResult {
            hostname: hostname.to_string(),
        })
    };
    assert_eq!(
        judge(&config, &named("x.GoogleBot.com."), 1_000),
        Verdict::Cooldown {
            service: "impersonator".to_string(),
            until: 87_400,
        }
    );
    assert_eq!(
        judge(&config, &named("x.example.com"), 1_000),
        Verdict::Cooldown {
            service: "unknown".to_string(),
            until: 1_300,
        }
    );
    assert_eq!(judge(&config, &None, 1_000), Verdict::Challenge);
}

#[test]
fn a_cookie_counts_only_for_its_address_and_time() {
    let mut state = AppState::new(test_config());
    let ip = ip("5.6.7.8");
    let token = issue_at(state.config(), ip, 1_000);
    for _ in 0..2 {
        assert!(matches!(
            analyze_at(&mut state, ip, None, 10_000),
            Analysis::Decided(Verdict::Allow)
        ));
    }
    assert!(matches!(
        analyze_at(&mut state, ip, Some(&token), 10_000),
        Analysis::Resolve(RdnsStep::ReadCache)
    ));
    let fresh = issue_at(state.config(), ip, 10_000);
    assert!(matches!(
        analyze_at(&mut state, ip, Some(&fresh), 10_001),
        Analysis::Decided(Verdict::Allow)
    ));
    // The next window begins anew.
    assert!(matches!(
        analyze_at(&mut state, ip, None, 10_060),
        Analysis::Decided(Verdict::Allow)
    ));
}

#[test]
fn unusable_cooldowns_are_told_apart() {
    let mut config = test_config();
    let unknown = Some(RdnsResult {
        hostname: "a.example".to_string(),
    });
    let bot = Some(RdnsResult {
        hostname: "a.googlebot.com".to_string(),
    });
    assert!(is_judgeable(&config, &unknown));
    config.cooldowns.insert("unknown".to_string(), "nonsense".to_string());
    assert!(is_judgeable(&config, &unknown));
    for text in ["9223372036854775807s", "307445734561825861m"] {
        config.cooldowns.insert("unknown".to_string(), text.to_string());
        assert!(!is_judgeable(&config, &unknown));
        assert!(is_judgeable(&config, &bot));
        assert!(is_judgeable(&config, &None));
    }
}
