use counterparser::config::{
    ChallengeConfig, Config, ServerConfig, ThresholdsConfig, WhitelistConfig,
};
use counterparser::responses::{
    challenge_body, challenge_body_of, cooldown_body, cooldown_body_of, padding_of,
    render_challenge, render_cooldown,
};
use counterparser::table::NameTable;

fn test_config() -> Config {
    Config {
        server: ServerConfig {
            socket_path: "/tmp/x.sock".to_string(),
        },
        thresholds: ThresholdsConfig {
            window_secs: 60,
            max_requests_per_window: 100,
        },
        whitelist: WhitelistConfig { cidrs: vec![] },
        bot_pools: NameTable::new(),
        cooldowns: NameTable::new(),
        challenge: ChallengeConfig {
            cookie_name: "cp_ok".to_string(),
            cookie_ttl_secs: 3600,
            hmac_secret: "test-secret".to_string(),
        },
    }
}

#[test]
fn cooldown_body_length_varies() {
    let lengths: std::collections::HashSet<usize> =
        (0..20).map(|_| cooldown_body().len()).collect();
    assert!(lengths.len() > 1, "expected varying response lengths");
}

#[test]
fn challenge_body_embeds_cookie_and_token() {
    let cfg = test_config();
    let body = challenge_body(&cfg, "abc.def");
    assert!(body.contains("cp_ok=abc.def"));
    assert!(body.contains("max-age=3600"));
}

#[test]
fn pages_are_rendered_whole() {
    assert_eq!(
        render_cooldown("Hold.", "xyz"),
        "<!doctype html><html><body><p>Hold.</p><!-- xyz --></body></html>"
    );
    assert_eq!(
        render_challenge("n", "t", 18446744073709551615, "xyz"),
        "<!doctype html><html><body>\n<p>One moment, please.</p>\n\
         <script>document.cookie = \"n=t; path=/; max-age=18446744073709551615; SameSite=Lax\"; \
         location.reload();</script>\n<!-- xyz -->\n</body></html>"
    );
}

#[test]
fn padding_is_alphanumeric_and_within_its_limits() {
    for _ in 0..50 {
        let body = cooldown_body();
        let (_, rest) = body.split_once("<!-- ").unwrap();
        let (padding, _) = rest.split_once(" -->").unwrap();
        assert!(50 <= padding.len() && padding.len() < 500);
        assert!(padding.chars().all(|c| c.is_ascii_alphanumeric()));
    }
}

#[test]
fn padding_has_the_length_that_was_drawn() {
    for len in [0, 1, 50, 257, 499] {
        let padding = padding_of(len);
        assert_eq!(padding.len(), len);
        assert!(padding.chars().all(|c| c.is_ascii_alphanumeric()));
    }
    assert_ne!(padding_of(100), padding_of(100));
    let page = |len: usize| cooldown_body_of("Hold.", len).len();
    assert_eq!(page(50), render_cooldown("Hold.", "").len() + 50);
    assert_eq!(page(499) - page(50), 449);
    let cfg = test_config();
    let page = |len: usize| challenge_body_of(&cfg, "abc.def", len).len();
    assert_eq!(page(50), render_challenge("cp_ok", "abc.def", 3600, "").len() + 50);
    assert_eq!(page(499) - page(50), 449);
}

#[test]
fn every_line_comes_up() {
    let lines: std::collections::HashSet<String> = (0..400)
        .map(|_| {
            let body = cooldown_body();
            let (_, rest) = body.split_once("<p>").unwrap();
            rest.split_once("</p>").unwrap().0.to_string()
        })
        .collect();
    assert_eq!(lines.len(), 7);
    assert!(lines.contains("This response is intentionally unhelpful."));
}
