use counterparser::config::{
    BotPoolConfig, ChallengeConfig, Config, ServerConfig, ThresholdsConfig, WhitelistConfig,
};
use counterparser::ip_pools::{pool_for_ip, pool_for_rdns_suffix};
use counterparser::net::{IpAddr, IpNet};
use counterparser::table::NameTable;

fn ip(s: &str) -> IpAddr {
    IpAddr::parse(s).unwrap()
}

fn net(s: &str) -> IpNet {
    let (addr, prefix) = s.split_once('/').unwrap();
    IpNet::new(ip(addr), prefix.parse().unwrap()).unwrap()
}

fn test_config() -> Config {
    let mut bot_pools = NameTable::new();
    bot_pools.insert(
        "google".to_string(),
        BotPoolConfig {
            cidrs: vec![net("66.249.64.0/19")],
            rdns_suffix: "googlebot.com".to_string(),
        },
    );

    Config {
        server: ServerConfig {
            socket_path: "/tmp/x.sock".to_string(),
        },
        thresholds: ThresholdsConfig {
            window_secs: 60,
            max_requests_per_window: 100,
        },
        whitelist: WhitelistConfig {
            cidrs: vec![net("10.0.0.0/8")],
        },
        bot_pools,
        cooldowns: NameTable::new(),
        challenge: ChallengeConfig {
            cookie_name: "cp_ok".to_string(),
            cookie_ttl_secs: 3600,
            hmac_secret: "test-secret".to_string(),
        },
    }
}

#[test]
fn whitelist_matches_cidr() {
    let cfg = test_config();
    assert!(cfg.is_whitelisted(ip("10.1.2.3")));
    assert!(!cfg.is_whitelisted(ip("8.8.8.8")));
}

#[test]
fn pool_matches_cidr() {
    let cfg = test_config();
    assert_eq!(pool_for_ip(&cfg, ip("66.249.64.10")), Some("google"));
    assert_eq!(pool_for_ip(&cfg, ip("1.2.3.4")), None);
}

#[test]
fn pool_matches_rdns_suffix() {
    let cfg = test_config();
    assert_eq!(
        pool_for_rdns_suffix(&cfg, "crawl-66-249-64-10.googlebot.com"),
        Some("google")
    );
    assert_eq!(pool_for_rdns_suffix(&cfg, "googlebot.com"), Some("google"));
    assert_eq!(pool_for_rdns_suffix(&cfg, "evilgooglebot.com"), None);
    assert_eq!(pool_for_rdns_suffix(&cfg, "example.com"), None);
}

#[test]
fn host_names_match_in_any_case_and_with_a_final_dot() {
    let mut cfg = test_config();
    assert_eq!(pool_for_rdns_suffix(&cfg, "CRAWL.GoogleBot.COM."), Some("google"));
    assert_eq!(pool_for_rdns_suffix(&cfg, "a.googlebot.com..."), Some("google"));
    assert_eq!(pool_for_rdns_suffix(&cfg, ".googlebot.com"), Some("google"));
    assert_eq!(pool_for_rdns_suffix(&cfg, "googlebot.com.evil.org"), None);
    assert_eq!(pool_for_rdns_suffix(&cfg, "com"), None);
    assert_eq!(pool_for_rdns_suffix(&cfg, ""), None);
    cfg.bot_pools.insert(
        "bing".to_string(),
        BotPoolConfig {
            cidrs: vec![net("2001:db8::/32")],
            rdns_suffix: "Search.MSN.com.".to_string(),
        },
    );
    assert_eq!(pool_for_rdns_suffix(&cfg, "x.search.msn.com"), Some("bing"));
    assert_eq!(pool_for_ip(&cfg, ip("2001:db8:1::9")), Some("bing"));
    assert_eq!(pool_for_ip(&cfg, ip("2001:db9::9")), None);
}

#[test]
fn the_first_pool_in_order_is_taken() {
    let mut cfg = test_config();
    cfg.bot_pools.insert(
        "wide".to_string(),
        BotPoolConfig {
            cidrs: vec![net("0.0.0.0/0")],
            rdns_suffix: "com".to_string(),
        },
    );
    assert_eq!(pool_for_ip(&cfg, ip("66.249.64.10")), Some("google"));
    assert_eq!(pool_for_ip(&cfg, ip("1.2.3.4")), Some("wide"));
    assert_eq!(pool_for_rdns_suffix(&cfg, "a.googlebot.com"), Some("google"));
    assert_eq!(pool_for_rdns_suffix(&cfg, "evilgooglebot.com"), Some("wide"));
}

#[test]
fn networks_hold_the_addresses_with_their_prefix() {
    assert!(net("66.249.64.0/19").contains(ip("66.249.64.0")));
    assert!(net("66.249.64.0/19").contains(ip("66.249.95.255")));
    assert!(!net("66.249.64.0/19").contains(ip("66.249.96.0")));
    assert!(!net("66.249.64.0/19").contains(ip("66.249.63.255")));
    // The host bits of the network do not count.
    assert!(net("66.249.70.1/19").contains(ip("66.249.64.0")));
    assert!(net("0.0.0.0/0").contains(ip("255.255.255.255")));
    assert!(net("1.2.3.4/32").contains(ip("1.2.3.4")));
    assert!(!net("1.2.3.4/32").contains(ip("1.2.3.5")));
    assert!(net("::/0").contains(ip("ffff::1")));
    assert!(net("2001:db8::1/128").contains(ip("2001:db8::1")));
    assert!(!net("2001:db8::1/128").contains(ip("2001:db8::2")));
    assert!(!net("0.0.0.0/0").contains(ip("::1")));
    assert!(!net("::/0").contains(ip("1.2.3.4")));
    assert!(IpNet::new(ip("1.2.3.4"), 33).is_none());
    assert!(IpNet::new(ip("::1"), 128).is_some());
    assert!(IpNet::new(ip("::1"), 129).is_none());
}

#[test]
fn addresses_are_read_and_written() {
    assert_eq!(IpAddr::parse("1.2.3.4"), Some(IpAddr::V4(0x01020304)));
    assert_eq!(IpAddr::parse("::1"), Some(IpAddr::V6(1)));
    assert_eq!(IpAddr::parse("1.2.3"), None);
    assert_eq!(IpAddr::parse("01.2.3.4"), None);
    assert_eq!(IpAddr::parse("256.2.3.4"), None);
    assert_eq!(IpAddr::parse(" 1.2.3.4"), None);
    assert_eq!(IpAddr::parse(""), None);
    assert_eq!(IpAddr::V4(0xffff_ffff).to_text(), "255.255.255.255");
    assert_eq!(IpAddr::V4(0x0a00_00c8).to_text(), "10.0.0.200");
    assert_eq!(ip("2001:0DB8:0:0:0:0:0:1").to_text(), "2001:db8::1");
    assert_eq!(ip("::ffff:1.2.3.4").to_text(), "::ffff:1.2.3.4");
    for text in ["0.0.0.0", "::", "ffff:ffff:ffff:ffff:ffff:ffff:ffff:ffff", "::102:304"] {
        assert_eq!(ip(text).to_text(), text);
    }
}
