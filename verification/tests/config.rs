use counterparser::config::{
    is_readable_duration, parse_duration, BotPoolConfig, ChallengeConfig, Config, ConfigError,
    Duration, ServerConfig, ThresholdsConfig, WhitelistConfig,
};
use counterparser::table::NameTable;

fn test_config(secret: &str) -> Config {
    let mut cooldowns = NameTable::new();
    cooldowns.insert("default".to_string(), "10m".to_string());
    cooldowns.insert("impersonator".to_string(), "24h".to_string());
    cooldowns.insert("broken".to_string(), "soon".to_string());
    Config {
        server: ServerConfig {
            socket_path: "/tmp/x.sock".to_string(),
        },
        thresholds: ThresholdsConfig {
            window_secs: 60,
            max_requests_per_window: 100,
        },
        whitelist: WhitelistConfig { cidrs: vec![] },
        bot_pools: NameTable::new(),
        cooldowns,
        challenge: ChallengeConfig {
            cookie_name: "cp_ok".to_string(),
            cookie_ttl_secs: 3600,
            hmac_secret: secret.to_string(),
        },
    }
}

#[test]
fn parses_durations() {
    assert_eq!(parse_duration("30s"), Some(Duration::from_secs(30)));
    assert_eq!(parse_duration("10m"), Some(Duration::from_secs(600)));
    assert_eq!(parse_duration("24h"), Some(Duration::from_secs(86400)));
    assert_eq!(parse_duration("1d"), Some(Duration::from_secs(86400)));
    assert_eq!(parse_duration("bogus"), None);
}

#[test]
fn durations_at_the_edges() {
    assert_eq!(parse_duration(""), None);
    assert_eq!(parse_duration("  \t"), None);
    assert_eq!(parse_duration(" 7m\n"), Some(Duration::from_secs(420)));
    assert_eq!(parse_duration("\u{3000}7m\u{a0}"), Some(Duration::from_secs(420)));
    assert_eq!(parse_duration("+2h"), Some(Duration::from_secs(7200)));
    assert_eq!(parse_duration("-2h"), None);
    assert_eq!(parse_duration("2 h"), None);
    assert_eq!(parse_duration("m"), None);
    assert_eq!(parse_duration("10"), None);
    assert_eq!(parse_duration("10w"), None);
    assert_eq!(
        parse_duration("18446744073709551615s"),
        Some(Duration::from_secs(u64::MAX))
    );
    assert_eq!(parse_duration("18446744073709551616s"), None);
}

#[test]
fn unreadable_durations_are_told_apart() {
    assert!(is_readable_duration("10m"));
    assert!(is_readable_duration("bogus"));
    assert!(is_readable_duration(""));
    assert!(is_readable_duration("18446744073709551616m"));
    assert!(is_readable_duration("307445734561825860m"));
    assert!(!is_readable_duration("307445734561825861m"));
    assert!(is_readable_duration("213503982334601d"));
    assert!(!is_readable_duration("213503982334602d"));
    assert!(!is_readable_duration("10\u{b5}"));
}

#[test]
fn cooldowns_fall_back() {
    let cfg = test_config("s");
    assert_eq!(cfg.cooldown_for("impersonator"), Duration::from_secs(86400));
    assert_eq!(cfg.cooldown_for("unknown"), Duration::from_secs(600));
    // A text that is no duration does not give way to the default entry.
    assert_eq!(cfg.cooldown_for("broken"), Duration::from_secs(600));
    let mut other = test_config("s");
    other.cooldowns = NameTable::new();
    assert_eq!(other.cooldown_for("unknown"), Duration::from_secs(600));
    other.cooldowns.insert("default".to_string(), "5s".to_string());
    assert_eq!(other.cooldown_for("unknown").as_secs(), 5);
    other.cooldowns.insert("unknown".to_string(), "7s".to_string());
    other.cooldowns.insert("unknown".to_string(), "9s".to_string());
    assert_eq!(other.cooldown_for("unknown").as_secs(), 9);
    assert_eq!(other.cooldowns.len(), 2);
    assert_eq!(cfg.window(), Duration::from_secs(60));
}

#[test]
fn a_secret_is_needed() {
    let kept = Config::load(test_config("file"), None).ok().unwrap();
    assert_eq!(kept.challenge.hmac_secret, "file");
    let replaced = Config::load(test_config("file"), Some("env".to_string())).ok().unwrap();
    assert_eq!(replaced.challenge.hmac_secret, "env");
    assert_eq!(replaced.challenge.cookie_name, "cp_ok");
    let given = Config::load(test_config(""), Some("env".to_string())).ok().unwrap();
    assert_eq!(given.challenge.hmac_secret, "env");
    assert_eq!(
        Config::load(test_config(""), None).err(),
        Some(ConfigError::EmptySecret)
    );
    assert_eq!(
        Config::load(test_config("file"), Some(String::new())).err(),
        Some(ConfigError::EmptySecret)
    );
    assert!(ConfigError::EmptySecret
        .message()
        .starts_with("challenge.hmac_secret is empty"));
}

#[test]
fn tables_keep_one_value_by_name() {
    let mut pools: NameTable<BotPoolConfig> = NameTable::new();
    assert!(pools.get("google").is_none());
    pools.insert(
        "google".to_string(),
        BotPoolConfig {
            cidrs: vec![],
            rdns_suffix: "googlebot.com".to_string(),
        },
    );
    pools.insert(
        "bing".to_string(),
        BotPoolConfig {
            cidrs: vec![],
            rdns_suffix: "search.msn.com".to_string(),
        },
    );
    assert_eq!(pools.len(), 2);
    assert_eq!(pools.name_at(1), "bing");
    assert_eq!(pools.value_at(0).rdns_suffix, "googlebot.com");
    assert_eq!(pools.get("bing").unwrap().rdns_suffix, "search.msn.com");
}
