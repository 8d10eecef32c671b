use counterparser::config::{
    BotPoolConfig, ChallengeConfig, Config, ServerConfig, ThresholdsConfig, WhitelistConfig,
};
use counterparser::dns::{RdnsResult, RdnsStep};
use counterparser::net::{IpAddr, IpNet};
use counterparser::routes::{
    check, check_at, check_resolved, check_resolved_at, extract_cookie, extract_ip, respond,
    respond_at, respond_resolved, status_of, CheckStep, RespondStep,
};
use counterparser::state::{AppState, Verdict};
use counterparser::table::NameTable;

fn ip(s: &str) -> IpAddr {
    IpAddr::parse(s).unwrap()
}

fn test_config() -> Config {
    let mut bot_pools = NameTable::new();
    bot_pools.insert(
        "google".to_string(),
        BotPoolConfig {
            cidrs: vec![IpNet::new(ip("66.249.64.0"), 19).unwrap()],
            rdns_suffix: "googlebot.com".to_string(),
        },
    );
    let mut cooldowns = NameTable::new();
    cooldowns.insert("default".to_string(), "10m".to_string());
    Config {
        server: ServerConfig {
            socket_path: "/tmp/x.sock".to_string(),
        },
        thresholds: ThresholdsConfig {
            window_secs: 60,
            max_requests_per_window: 1,
        },
        whitelist: WhitelistConfig { cidrs: vec![] },
        bot_pools,
        cooldowns,
        challenge: ChallengeConfig {
            cookie_name: "cp_ok".to_string(),
            cookie_ttl_secs: 3600,
            hmac_secret: "test-secret".to_string(),
        },
    }
}

fn token_in(body: &str) -> String {
    let (_, rest) = body.split_once("document.cookie = \"cp_ok=").unwrap();
    rest.split_once(';').unwrap().0.to_string()
}

#[test]
fn addresses_come_from_their_header() {
    assert_eq!(extract_ip(Some(" 1.2.3.4\t")), Some(ip("1.2.3.4")));
    assert_eq!(extract_ip(Some("2001:db8::1")), Some(ip("2001:db8::1")));
    assert_eq!(extract_ip(Some("1.2.3.4, 5.6.7.8")), None);
    assert_eq!(extract_ip(Some("")), None);
    assert_eq!(extract_ip(None), None);
}

#[test]
fn cookies_are_found_by_name() {
    let found = |raw: &str, name: &str| extract_cookie(Some(raw), name);
    assert_eq!(found("cp_ok=abc.def", "cp_ok"), Some("abc.def".to_string()));
    assert_eq!(
        found("a=1; cp_ok=x=y ;cp_ok=z", "cp_ok"),
        Some("x=y".to_string())
    );
    assert_eq!(found("a; ;=; cp_ok=", "cp_ok"), Some(String::new()));
    assert_eq!(found("a; ;=; cp_ok=", ""), Some(String::new()));
    assert_eq!(found("cp_ok", "cp_ok"), None);
    assert_eq!(found("CP_OK=1; xcp_ok=2", "cp_ok"), None);
    assert_eq!(found("cp_ok =1", "cp_ok"), None);
    assert_eq!(found("", "cp_ok"), None);
    assert_eq!(extract_cookie(None, "cp_ok"), None);
}

#[test]
fn statuses_follow_the_verdict() {
    assert_eq!(status_of(&Verdict::Allow), 204);
    assert_eq!(status_of(&Verdict::Challenge), 403);
    assert_eq!(
        status_of(&Verdict::Cooldown {
            service: "unknown".to_string(),
            until: 0
        }),
        403
    );
}

#[test]
fn a_check_without_an_address_is_refused() {
    let mut state = AppState::new(test_config());
    assert!(matches!(check(&mut state, None, None), CheckStep::Reply(403)));
    assert!(matches!(
        check(&mut state, Some("nonsense"), None),
        CheckStep::Reply(403)
    ));
    let stats = state.stats(0);
    assert_eq!(stats.total_requests, 0);
    assert_eq!(stats.tracked_ips, 0);
}

#[test]
fn checks_are_counted_and_put_away() {
    let mut state = AppState::new(test_config());
    let who = ip("5.6.7.8");
    assert!(matches!(
        check_at(&mut state, Some("5.6.7.8"), None, 1_000),
        CheckStep::Reply(204)
    ));
    assert_eq!(state.take_up_verdict(who), Some(Verdict::Allow));
    assert!(matches!(
        check_at(&mut state, Some("5.6.7.8"), None, 1_001),
        CheckStep::Resolve { ip, step: RdnsStep::ReadCache } if ip == who
    ));
    assert_eq!(
        check_resolved_at(
            &mut state,
            who,
            &Some(RdnsResult {
                hostname: "a.googlebot.com".to_string()
            }),
            1_002
        ),
        403
    );
    assert_eq!(
        state.take_up_verdict(who),
        Some(Verdict::Cooldown {
            service: "impersonator".to_string(),
            until: 1_602,
        })
    );
    let stats = state.stats_at(1_601, 0, 0);
    assert_eq!(stats.total_requests, 2);
    assert_eq!(stats.verdicts.allowed, 1);
    assert_eq!(stats.verdicts.cooldown, 1);
    assert_eq!(stats.cooldowns_by_service.get("impersonator"), Some(&1));
}

#[test]
fn a_challenged_browser_gets_through() {
    let mut state = AppState::new(test_config());
    let header = Some("2001:db8::7");
    let who = ip("2001:db8::7");
    assert!(matches!(check(&mut state, header, None), CheckStep::Reply(204)));
    assert!(matches!(
        check(&mut state, header, None),
        CheckStep::Resolve { .. }
    ));
    assert_eq!(check_resolved(&mut state, who, &None), 403);
    let body = match respond(&mut state, header, None) {
        RespondStep::Page(body) => body,
        RespondStep::Resolve { .. } => panic!("the verdict was not found"),
    };
    let cookies = format!("theme=dark; cp_ok={}; lang=en", token_in(&body));
    for _ in 0..3 {
        assert!(matches!(
            check(&mut state, header, Some(&cookies)),
            CheckStep::Reply(204)
        ));
    }
    // The cookie helps no other address.
    assert!(matches!(
        check(&mut state, Some("2001:db8::8"), Some(&cookies)),
        CheckStep::Reply(204)
    ));
    assert!(matches!(
        check(&mut state, Some("2001:db8::8"), Some(&cookies)),
        CheckStep::Resolve { .. }
    ));
    assert_eq!(state.stats(0).verdicts.challenge, 1);
}

#[test]
fn pages_follow_the_verdict() {
    let mut state = AppState::new(test_config());
    let who = ip("5.6.7.8");
    let page = |step: RespondStep| match step {
        RespondStep::Page(body) => body,
        RespondStep::Resolve { .. } => panic!("no page"),
    };
    assert!(page(respond(&mut state, None, None)).starts_with("<!doctype html><html><body><p>"));
    let cooling = Verdict::Cooldown {
        service: "unknown".to_string(),
        until: 5,
    };
    for verdict in [Verdict::Allow, cooling] {
        let body = page(respond_at(&mut state, who, Some(verdict), None, 1_000));
        assert!(!body.contains("document.cookie"));
    }
    let body = page(respond_at(&mut state, who, Some(Verdict::Challenge), None, 1_000));
    assert!(body.contains("document.cookie"));
    assert_eq!(state.stats(0).tracked_ips, 0);
    // Without a verdict the request is analyzed, though not counted among the checks.
    assert!(!page(respond_at(&mut state, who, None, None, 1_000)).contains("document.cookie"));
    assert!(matches!(
        respond_at(&mut state, who, None, None, 1_000),
        RespondStep::Resolve { ip, step: RdnsStep::ReadCache } if ip == who
    ));
    assert!(respond_resolved(&state, who, &None).contains("document.cookie"));
    let named = Some(RdnsResult {
        hostname: "a.example".to_string(),
    });
    assert!(!respond_resolved(&state, who, &named).contains("document.cookie"));
    let stats = state.stats(0);
    assert_eq!((stats.tracked_ips, stats.total_requests), (1, 0));
}
