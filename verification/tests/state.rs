use counterparser::config::{
    ChallengeConfig, Config, ServerConfig, ThresholdsConfig, WhitelistConfig,
};
use counterparser::net::IpAddr;
use counterparser::state::{decode_verdict, now_secs, tally, AppState, IpStats, Verdict};
use counterparser::table::NameTable;

fn ip(s: &str) -> IpAddr {
    IpAddr::parse(s).unwrap()
}

fn test_config(window_secs: u64) -> Config {
    Config {
        server: ServerConfig {
            socket_path: "/tmp/x.sock".to_string(),
        },
        thresholds: ThresholdsConfig {
            window_secs,
            max_requests_per_window: 3,
        },
        whitelist: WhitelistConfig { cidrs: vec![] },
        bot_pools: NameTable::new(),
        cooldowns: NameTable::new(),
        challenge: ChallengeConfig {
            cookie_name: "cp_ok".to_string(),
            cookie_ttl_secs: 3600,
            hmac_secret: "test-secret".to_string(),
        },
    }
}

#[test]
fn record_hit_counts_within_window() {
    let mut state = AppState::new(test_config(60));
    let ip = ip("1.2.3.4");
    assert_eq!(state.record_hit(ip), 1);
    assert_eq!(state.record_hit(ip), 2);
    assert_eq!(state.record_hit(ip), 3);
}

#[test]
fn record_hit_resets_after_window_elapses() {
    let mut state = AppState::new(test_config(0));
    let ip = ip("1.2.3.4");
    assert_eq!(state.record_hit(ip), 1);
    // window_secs = 0 means every call is treated as a new window.
    assert_eq!(state.record_hit(ip), 1);
}

#[test]
fn stats_reflects_recorded_verdicts() {
    let mut state = AppState::new(test_config(60));
    let allowed_ip = ip("1.2.3.4");
    let cooling_ip = ip("5.6.7.8");
    let challenged_ip = ip("9.9.9.9");

    state.record_hit(allowed_ip);
    state.record_verdict(allowed_ip, &Verdict::Allow);

    state.record_hit(cooling_ip);
    state.record_verdict(
        cooling_ip,
        &Verdict::Cooldown {
            service: "unknown".to_string(),
            until: now_secs() + 600,
        },
    );

    state.record_hit(challenged_ip);
    state.record_verdict(challenged_ip, &Verdict::Challenge);

    let stats = state.stats(0);
    assert_eq!(stats.tracked_ips, 3);
    assert_eq!(stats.total_requests, 3);
    assert_eq!(stats.verdicts.allowed, 1);
    assert_eq!(stats.verdicts.cooldown, 1);
    assert_eq!(stats.verdicts.challenge, 1);
    assert_eq!(stats.active_cooldowns, 1);
    assert_eq!(stats.cooldowns_by_service.get("unknown"), Some(&1));
}

#[test]
fn stats_purges_expired_cooldowns() {
    let mut state = AppState::new(test_config(60));
    let ip = ip("1.2.3.4");
    state.record_verdict(
        ip,
        &Verdict::Cooldown {
            service: "unknown".to_string(),
            until: now_secs() - 1, // already expired
        },
    );

    let stats = state.stats(0);
    assert_eq!(stats.active_cooldowns, 0);
    // The lifetime counter still reflects it was issued.
    assert_eq!(stats.verdicts.cooldown, 1);
}

#[test]
fn allow_clears_an_existing_cooldown() {
    let mut state = AppState::new(test_config(60));
    let ip = ip("1.2.3.4");
    state.record_verdict(
        ip,
        &Verdict::Cooldown {
            service: "unknown".to_string(),
            until: now_secs() + 600,
        },
    );
    assert_eq!(state.stats(0).active_cooldowns, 1);

    state.record_verdict(ip, &Verdict::Allow);
    assert_eq!(state.stats(0).active_cooldowns, 0);
}

#[test]
fn a_challenge_leaves_the_cooldown() {
    let mut state = AppState::new(test_config(60));
    let ip = ip("1.2.3.4");
    state.record_verdict(
        ip,
        &Verdict::Cooldown {
            service: "unknown".to_string(),
            until: 100,
        },
    );
    state.record_verdict(ip, &Verdict::Challenge);
    assert_eq!(state.stats_at(99, 7, 5).active_cooldowns, 1);
    let stats = state.stats_at(100, 7, 5);
    assert_eq!(stats.active_cooldowns, 0);
    assert_eq!(stats.uptime_secs, 7);
    assert_eq!(stats.rdns_cache_entries, 5);
    assert_eq!(stats.total_requests, 2);
}

#[test]
fn windows_follow_the_clock() {
    let mut state = AppState::new(test_config(60));
    let one = ip("1.2.3.4");
    let two = ip("::1");
    assert_eq!(state.record_hit_at(one, 1_000), 1);
    assert_eq!(state.record_hit_at(one, 1_059), 2);
    assert_eq!(state.record_hit_at(two, 1_059), 1);
    assert_eq!(state.record_hit_at(one, 1_060), 1);
    assert_eq!(state.record_hit_at(one, 1_119), 2);
    assert_eq!(state.record_hit_at(two, 1_118), 2);
    // A clock that was set back does not end a window.
    assert_eq!(state.record_hit_at(one, 900), 3);
    assert_eq!(state.stats(0).tracked_ips, 2);
}

#[test]
fn a_window_beyond_the_signed_range_is_always_over() {
    let mut state = AppState::new(test_config(u64::MAX));
    let ip = ip("1.2.3.4");
    assert_eq!(state.record_hit_at(ip, 1_000), 1);
    assert_eq!(state.record_hit_at(ip, 1_000), 1);
}

#[test]
fn cooldowns_are_counted_by_service() {
    let mut state = AppState::new(test_config(60));
    for (who, service) in [
        ("1.1.1.1", "unknown"),
        ("1.1.1.2", "impersonator"),
        ("1.1.1.3", "unknown"),
        ("::1", "unknown"),
    ] {
        state.record_verdict(
            ip(who),
            &Verdict::Cooldown {
                service: service.to_string(),
                until: 500,
            },
        );
    }
    // A later cooldown takes the place of the one before.
    state.record_verdict(
        ip("1.1.1.3"),
        &Verdict::Cooldown {
            service: "impersonator".to_string(),
            until: 100,
        },
    );
    let stats = state.stats_at(99, 0, 0);
    assert_eq!(stats.active_cooldowns, 4);
    assert_eq!(stats.cooldowns_by_service.get("unknown"), Some(&2));
    assert_eq!(stats.cooldowns_by_service.get("impersonator"), Some(&2));
    assert_eq!(stats.cooldowns_by_service.get("default"), None);
    let later = state.stats_at(100, 0, 0);
    assert_eq!(later.active_cooldowns, 3);
    assert_eq!(later.cooldowns_by_service.get("impersonator"), Some(&1));
    assert_eq!(later.verdicts.cooldown, 5);
}

#[test]
fn figures_tell_no_addresses() {
    let figures = |addresses: [&str; 3]| {
        let mut state = AppState::new(test_config(60));
        for (who, service) in addresses.iter().zip(["unknown", "impersonator", "unknown"]) {
            state.record_verdict(
                ip(who),
                &Verdict::Cooldown {
                    service: service.to_string(),
                    until: 500,
                },
            );
            state.record_verdict(ip(who), &Verdict::Challenge);
        }
        let stats = state.stats_at(100, 0, 0);
        (
            stats.active_cooldowns,
            stats.cooldowns_by_service.get("unknown").copied(),
            stats.cooldowns_by_service.get("impersonator").copied(),
            stats.total_requests,
        )
    };
    assert_eq!(figures(["1.1.1.1", "1.1.1.2", "1.1.1.3"]), (3, Some(2), Some(1), 6));
    assert_eq!(
        figures(["1.1.1.1", "1.1.1.2", "1.1.1.3"]),
        figures(["::1", "9.9.9.9", "2001:db8::1"])
    );
}

#[test]
fn services_are_tallied() {
    let listed = vec![
        ((false, 1), "a".to_string()),
        ((false, 2), "b".to_string()),
        ((true, 1), "a".to_string()),
    ];
    let counts = tally(&listed);
    assert_eq!(counts.len(), 2);
    assert_eq!(counts.get("a"), Some(&2));
    assert_eq!(counts.get("b"), Some(&1));
    assert_eq!(tally(&vec![]).len(), 0);
}

#[test]
fn verdicts_are_put_away() {
    let mut state = AppState::new(test_config(60));
    let one = ip("1.2.3.4");
    let two = ip("5.6.7.8");
    assert_eq!(state.take_up_verdict(one), None);
    state.put_verdict_away(one, &Verdict::Challenge);
    assert_eq!(state.take_up_verdict(one), Some(Verdict::Challenge));
    assert_eq!(state.take_up_verdict(two), None);
    let cooldown = Verdict::Cooldown {
        service: "unknown".to_string(),
        until: 12,
    };
    state.put_verdict_away(one, &cooldown);
    state.put_verdict_away(two, &Verdict::Allow);
    assert_eq!(state.take_up_verdict(one), Some(cooldown));
    assert_eq!(state.take_up_verdict(two), Some(Verdict::Allow));
}

#[test]
fn answers_of_the_cache_are_decoded() {
    assert_eq!(decode_verdict(None), None);
    assert_eq!(decode_verdict(Some((0, String::new(), 0))), Some(Verdict::Allow));
    assert_eq!(
        decode_verdict(Some((1, "unknown".to_string(), 12))),
        Some(Verdict::Cooldown {
            service: "unknown".to_string(),
            until: 12,
        })
    );
    assert_eq!(decode_verdict(Some((2, String::new(), 0))), Some(Verdict::Challenge));
}

#[test]
fn fresh_records_have_no_hits() {
    let stats = IpStats::new(17);
    assert_eq!((stats.count, stats.window_start, stats.last_seen), (0, 17, 17));
}

#[test]
fn the_clock_shows_this_century() {
    assert!(now_secs() > 1_700_000_000);
}
