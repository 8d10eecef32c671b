use counterparser::challenge::{
    check_payload, is_lifetime_usable, issue, issue_at, join_token, payload_for, verify, verify_at,
};
use counterparser::config::{
    ChallengeConfig, Config, ServerConfig, ThresholdsConfig, WhitelistConfig,
};
use counterparser::net::IpAddr;
use counterparser::state::now_secs;
use counterparser::table::NameTable;

fn test_config(secret: &str) -> Config {
    Config {
        server: ServerConfig {
            socket_path: "/tmp/x.sock".to_string(),
        },
        thresholds: ThresholdsConfig {
            window_secs: 60,
            max_requests_per_window: 100,
        },
        whitelist: WhitelistConfig { cidrs: vec![] },
        bot_pools: NameTable::new(),
        cooldowns: NameTable::new(),
        challenge: ChallengeConfig {
            cookie_name: "cp_ok".to_string(),
            cookie_ttl_secs: 3600,
            hmac_secret: secret.to_string(),
        },
    }
}

fn ip(s: &str) -> IpAddr {
    IpAddr::parse(s).unwrap()
}

#[test]
fn valid_token_verifies() {
    let cfg = test_config("secret1");
    let ip = ip("1.2.3.4");
    let token = issue(&cfg, ip);
    assert!(verify(&cfg, ip, &token));
}

#[test]
fn wrong_ip_fails() {
    let cfg = test_config("secret1");
    let other = ip("9.9.9.9");
    let ip = ip("1.2.3.4");
    let token = issue(&cfg, ip);
    assert!(!verify(&cfg, other, &token));
}

#[test]
fn tampered_token_fails() {
    let cfg = test_config("secret1");
    let ip = ip("1.2.3.4");
    let mut token = issue(&cfg, ip);
    token.push('x');
    assert!(!verify(&cfg, ip, &token));
}

#[test]
fn expired_token_fails() {
    let mut cfg = test_config("secret1");
    cfg.challenge.cookie_ttl_secs = 0;
    let ip = ip("1.2.3.4");
    let token = issue(&cfg, ip);
    let issued_by = now_secs();
    while now_secs() <= issued_by {}
    assert!(!verify(&cfg, ip, &token));
}

#[test]
fn wrong_secret_fails() {
    let cfg1 = test_config("secret1");
    let cfg2 = test_config("secret2");
    let ip = ip("1.2.3.4");
    let token = issue(&cfg1, ip);
    assert!(!verify(&cfg2, ip, &token));
}

#[test]
fn garbage_input_fails() {
    let cfg = test_config("secret1");
    let ip = ip("1.2.3.4");
    assert!(!verify(&cfg, ip, "not-a-valid-token"));
    assert!(!verify(&cfg, ip, ""));
}

#[test]
fn a_token_is_payload_and_signature_in_base64() {
    let cfg = test_config("secret1");
    let token = issue_at(&cfg, ip("1.2.3.4"), 1_700_000_000);
    let (payload, signature) = token.split_once('.').unwrap();
    // "1.2.3.4|1700003600"
    assert_eq!(payload, "MS4yLjMuNHwxNzAwMDAzNjAw");
    assert_eq!(signature, "CklleZqgy-vMgu-el6Qwn-nJrsII7qDlCxH1qOSnQc8");
}

#[test]
fn a_token_has_one_dot_and_needs_no_quoting() {
    let cfg = test_config("secret1");
    for who in ["1.2.3.4", "2001:db8::1", "::ffff:1.2.3.4"] {
        for now in [0, 1_000, 1_700_000_000] {
            let token = issue_at(&cfg, ip(who), now);
            assert_eq!(token.matches('.').count(), 1);
            assert!(token
                .chars()
                .all(|c| c.is_ascii_alphanumeric() || c == '-' || c == '_' || c == '.'));
        }
    }
}

#[test]
fn a_token_is_good_up_to_its_expiry() {
    let cfg = test_config("secret1");
    for who in ["1.2.3.4", "2001:db8::1", "::ffff:1.2.3.4"] {
        let ip = ip(who);
        let token = issue_at(&cfg, ip, 1_000);
        assert!(verify_at(&cfg, ip, &token, 1_000));
        assert!(verify_at(&cfg, ip, &token, 4_600));
        assert!(!verify_at(&cfg, ip, &token, 4_601));
    }
}

#[test]
fn a_token_is_bound_to_the_address_family() {
    let cfg = test_config("secret1");
    let token = issue_at(&cfg, ip("1.2.3.4"), 1_000);
    assert!(!verify_at(&cfg, ip("::ffff:1.2.3.4"), &token, 1_000));
}

#[test]
fn a_greater_lifetime_than_a_signed_number_holds_is_taken_as_negative() {
    let mut cfg = test_config("secret1");
    cfg.challenge.cookie_ttl_secs = u64::MAX;
    let ip = ip("1.2.3.4");
    let token = issue_at(&cfg, ip, 1_000);
    assert!(verify_at(&cfg, ip, &token, 999));
    assert!(!verify_at(&cfg, ip, &token, 1_000));
}

#[test]
fn unusable_lifetimes_are_told_apart() {
    let mut cfg = test_config("secret1");
    assert!(is_lifetime_usable(&cfg));
    cfg.challenge.cookie_ttl_secs = u64::MAX;
    assert!(is_lifetime_usable(&cfg));
    cfg.challenge.cookie_ttl_secs = i64::MAX as u64;
    assert!(!is_lifetime_usable(&cfg));
}

#[test]
fn altered_tokens_fail() {
    let cfg = test_config("secret1");
    let ip = ip("1.2.3.4");
    let token = issue_at(&cfg, ip, 1_000);
    let (payload, signature) = token.split_once('.').unwrap();
    for more in ["x", "A", "-", "=", ".", " ", "xxxx"] {
        assert!(!verify_at(&cfg, ip, &format!("{token}{more}"), 1_000));
    }
    assert!(!verify_at(&cfg, ip, &token[..token.len() - 1], 1_000));
    assert!(!verify_at(&cfg, ip, payload, 1_000));
    assert!(!verify_at(&cfg, ip, &format!("{payload}."), 1_000));
    assert!(!verify_at(&cfg, ip, &format!(".{signature}"), 1_000));
    assert!(!verify_at(&cfg, ip, &format!("{payload}=.{signature}"), 1_000));
    assert!(!verify_at(&cfg, ip, &format!("{payload}.{signature}="), 1_000));
    assert!(!verify_at(&cfg, ip, &format!("{signature}.{payload}"), 1_000));
    // Bytes that are not UTF-8.
    assert!(!verify_at(&cfg, ip, &format!("_w.{signature}"), 1_000));
}

#[test]
fn payloads_are_read_as_they_are_written() {
    assert_eq!(payload_for("1.2.3.4", -5), "1.2.3.4|-5");
    assert_eq!(payload_for("::1", 0), "::1|0");
    assert_eq!(join_token("ab", "cd"), "ab.cd");
    let good = vec![1u8, 2, 3];
    let bad = vec![1u8, 2, 4];
    assert!(check_payload("1.2.3.4|50", &good, &good, "1.2.3.4", 50));
    assert!(check_payload("1.2.3.4|+50", &good, &good, "1.2.3.4", 50));
    assert!(!check_payload("1.2.3.4|50", &good, &bad, "1.2.3.4", 50));
    assert!(!check_payload("1.2.3.4|50", &good, &vec![1, 2], "1.2.3.4", 50));
    assert!(!check_payload("1.2.3.4|50", &good, &good, "1.2.3.4", 51));
    assert!(!check_payload("1.2.3.4|50", &good, &good, "1.2.3.5", 50));
    assert!(!check_payload("1.2.3.4", &good, &good, "1.2.3.4", 50));
    assert!(!check_payload("1.2.3.4|soon", &good, &good, "1.2.3.4", 50));
    assert!(!check_payload("1.2.3.4|50|60", &good, &good, "1.2.3.4", 50));
    assert!(!check_payload("1.2.3.4|9223372036854775808", &good, &good, "1.2.3.4", 50));
}
