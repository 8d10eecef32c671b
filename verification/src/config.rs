//! The settings of the filter and what they decide by themselves.
use vstd::prelude::*;

use crate::net::{any_contains, in_network, IpAddr, IpNet};
use crate::number::{
    as_signed, decimal, digit, law_decimal_reads_back, law_only_digits_behind_a_sign_are_numbers,
    lemma_decimal, parse_u64, parsed_u64,
};
use crate::table::{lookup, NameTable};
use crate::text::{
    blank, chars_of, law_trimming_leaves_what_stands_between, lemma_trimmed_twice, trim, trim_end,
    trim_start, trimmed, whitespace,
};

verus! {

/// A span of whole seconds.
#[derive(Clone, Copy, Debug, PartialEq, Eq, Structural)]
pub struct Duration {
    pub secs: u64,
}

impl Duration {
    /// A span of `secs` seconds.
    pub fn from_secs(secs: u64) -> (r: Duration)
        ensures
            r.secs == secs,
    {
        Duration { secs }
    }

    /// The number of seconds in the span.
    pub fn as_secs(&self) -> (r: u64)
        ensures
            r == self.secs,
    {
        self.secs
    }
}

/// All the settings.
pub struct Config {
    pub server: ServerConfig,
    pub thresholds: ThresholdsConfig,
    pub whitelist: WhitelistConfig,
    pub bot_pools: NameTable<BotPoolConfig>,
    /// How long a service is cooled down, as a text such as `10m`, by service. The entry
    /// `default` stands for every service that has none of its own.
    pub cooldowns: NameTable<String>,
    pub challenge: ChallengeConfig,
}

/// Where the daemon listens.
pub struct ServerConfig {
    pub socket_path: String,
}

/// How many requests an address may make in one window.
pub struct ThresholdsConfig {
    pub window_secs: u64,
    pub max_requests_per_window: u64,
}

/// The networks that always pass.
pub struct WhitelistConfig {
    pub cidrs: Vec<IpNet>,
}

/// A known bot: the networks it comes from and the domain its hosts are named in.
pub struct BotPoolConfig {
    pub cidrs: Vec<IpNet>,
    pub rdns_suffix: String,
}

/// The challenge cookie: its name, how long it is good for and the secret that signs it.
pub struct ChallengeConfig {
    pub cookie_name: String,
    pub cookie_ttl_secs: u64,
    pub hmac_secret: String,
}

/// Why settings are refused.
#[derive(Clone, Copy, Debug, PartialEq, Eq, Structural)]
pub enum ConfigError {
    /// Neither the settings nor the environment give a secret.
    EmptySecret,
}

impl ConfigError {
    /// The error in words.
    pub fn message(&self) -> (r: String)
        ensures
            r@
                == "challenge.hmac_secret is empty: set it in the config file or via COUNTERPARSER_HMAC_SECRET"@,
    {
        "challenge.hmac_secret is empty: set it in the config file or via COUNTERPARSER_HMAC_SECRET".to_owned()
    }
}

/// The number of seconds in `n` of the unit that `c` stands for.
pub open spec fn secs_of(n: int, c: char) -> Option<int> {
    if c == 's' {
        Some(n)
    } else if c == 'm' {
        Some(n * 60)
    } else if c == 'h' {
        Some(n * 3600)
    } else if c == 'd' {
        Some(n * 86400)
    } else {
        None
    }
}

/// The number of seconds that `s` writes, with whitespace round it: a number and one of the
/// units `s`, `m`, `h` and `d`.
pub open spec fn written_secs(s: Seq<char>) -> Option<int> {
    let t = trimmed(s);
    if t.len() == 0 {
        None
    } else {
        match parsed_u64(t.drop_last()) {
            Some(n) => secs_of(n as int, t.last()),
            None => None,
        }
    }
}

/// `s` can be read as a duration or refused: it does not end in a character of more than
/// one byte, and the seconds that it writes, if it does, can be counted in a `u64`.
pub open spec fn readable_duration(s: Seq<char>) -> bool {
    let t = trimmed(s);
    &&& t.len() > 0 ==> (t.last() as u32) < 0x80
    &&& written_secs(s) matches Some(n) ==> n <= u64::MAX
}

/// Adding `secs`, taken as a signed number, to any time in `-limit..=limit` gives an `i64`.
pub open spec fn addable(secs: u64, limit: int) -> bool {
    i64::MIN + limit <= as_signed(secs) <= i64::MAX - limit
}

impl Config {
    /// The cooldown text that goes for `service`.
    pub open spec fn cooldown_text(self, service: Seq<char>) -> Option<Seq<char>> {
        match lookup(self.cooldowns@, service) {
            Some(s) => Some(s@),
            None => match lookup(self.cooldowns@, "default"@) {
                Some(s) => Some(s@),
                None => None,
            },
        }
    }

    /// How many seconds `service` is cooled down: what its text writes, or ten minutes where
    /// there is no text or it writes no duration.
    pub open spec fn cooldown_secs(self, service: Seq<char>) -> int {
        match self.cooldown_text(service) {
            Some(s) => match written_secs(s) {
                Some(n) => n,
                None => 600,
            },
            None => 600,
        }
    }

    /// The cooldown text of `service`, where there is one, can be read or refused.
    pub open spec fn readable_cooldown(self, service: Seq<char>) -> bool {
        self.cooldown_text(service) matches Some(s) ==> readable_duration(s)
    }

    /// `ip` lies in a whitelisted network.
    pub open spec fn whitelists(self, ip: IpAddr) -> bool {
        exists|i: int|
            0 <= i < self.whitelist.cidrs@.len() && (#[trigger] self.whitelist.cidrs@[i]).holds(ip)
    }

    /// Settings as they were read, with the secret of the environment in place of their own
    /// where there is one. Settings without a secret are refused.
    pub fn load(parsed: Config, env_secret: Option<String>) -> (r: Result<Config, ConfigError>)
        ensures
            ({
                let secret = match env_secret {
                    Some(s) => s,
                    None => parsed.challenge.hmac_secret,
                };
                match r {
                    Ok(config) => secret@.len() > 0 && config == (Config {
                        challenge: (ChallengeConfig { hmac_secret: secret, ..parsed.challenge }),
                        ..parsed
                    }),
                    Err(e) => secret@.len() == 0 && e == ConfigError::EmptySecret,
                }
            }),
    {
        let mut config: Config = parsed;
        if let Some(secret) = env_secret {
            config.challenge.hmac_secret = secret;
        }
        if config.challenge.hmac_secret.as_str().is_empty() {
            return Err(ConfigError::EmptySecret);
        }
        Ok(config)
    }

    /// The length of the counting window.
    pub fn window(&self) -> (r: Duration)
        ensures
            r.secs == self.thresholds.window_secs,
    {
        Duration::from_secs(self.thresholds.window_secs)
    }

    /// How long `service` is cooled down.
    pub fn cooldown_for(&self, service: &str) -> (r: Duration)
        requires
            self.readable_cooldown(service@),
        ensures
            r.secs == self.cooldown_secs(service@),
    {
        let text: Option<&String> = match self.cooldowns.get(service) {
            Some(s) => Some(s),
            None => self.cooldowns.get("default"),
        };
        match text {
            Some(s) => match parse_duration(s.as_str()) {
                Some(d) => d,
                None => Duration::from_secs(600),
            },
            None => Duration::from_secs(600),
        }
    }

    /// Whether the cooldown text of `service`, where there is one, can be read or refused.
    pub fn is_readable_cooldown(&self, service: &str) -> (r: bool)
        ensures
            r == self.readable_cooldown(service@),
    {
        match self.cooldowns.get(service) {
            Some(s) => is_readable_duration(s.as_str()),
            None => match self.cooldowns.get("default") {
                Some(s) => is_readable_duration(s.as_str()),
                None => true,
            },
        }
    }

    /// Whether `ip` lies in a whitelisted network.
    pub fn is_whitelisted(&self, ip: IpAddr) -> (r: bool)
        ensures
            r == self.whitelists(ip),
    {
        any_contains(&self.whitelist.cidrs, ip)
    }
}

/// The number and the unit of a duration in text, each as far as it is there: the number in
/// front of the last character that is not whitespace, and that character.
fn number_and_unit(s: &str) -> (r: Option<(Option<u64>, char)>)
    ensures
        match r {
            Some((n, unit)) => trimmed(s@).len() > 0 && n == parsed_u64(trimmed(s@).drop_last())
                && unit == trimmed(s@).last(),
            None => trimmed(s@).len() == 0,
        },
{
    let mut chars: Vec<char> = chars_of(trim(s));
    match chars.pop() {
        None => None,
        Some(unit) => {
            assert(chars@ =~= trimmed(s@).drop_last());
            Some((parse_u64(&chars), unit))
        },
    }
}

/// Whether `s` can be read as a duration or refused.
pub fn is_readable_duration(s: &str) -> (r: bool)
    ensures
        r == readable_duration(s@),
{
    match number_and_unit(s) {
        None => true,
        Some((number, unit)) => {
            if unit as u32 >= 0x80 {
                return false;
            }
            match number {
                None => true,
                Some(n) => {
                    let most: u64 = if unit == 'm' {
                        u64::MAX / 60
                    } else if unit == 'h' {
                        u64::MAX / 3600
                    } else if unit == 'd' {
                        u64::MAX / 86400
                    } else {
                        u64::MAX
                    };
                    n <= most
                },
            }
        },
    }
}

/// Reads a duration such as `10m`, `24h`, `30s` or `1d`.
pub fn parse_duration(s: &str) -> (r: Option<Duration>)
    requires
        readable_duration(s@),
    ensures
        match r {
            Some(d) => written_secs(s@) == Some(d.secs as int),
            None => written_secs(s@) is None,
        },
{
    match number_and_unit(s) {
        Some((Some(n), unit)) => {
            if unit == 's' {
                Some(Duration::from_secs(n))
            } else if unit == 'm' {
                Some(Duration::from_secs(n * 60))
            } else if unit == 'h' {
                Some(Duration::from_secs(n * 3600))
            } else if unit == 'd' {
                Some(Duration::from_secs(n * 86400))
            } else {
                None
            }
        },
        _ => None,
    }
}

/// A number in base ten with a unit behind it is read as that many of the unit.
pub proof fn law_a_number_and_a_unit_read_back(n: u64, unit: char)
    requires
        unit == 's' || unit == 'm' || unit == 'h' || unit == 'd',
    ensures
        written_secs(decimal(n as nat).push(unit)) == secs_of(n as int, unit),
{
    let s = decimal(n as nat).push(unit);
    lemma_decimal(n as nat);
    law_decimal_reads_back(n);
    assert(digit(decimal(n as nat)[0]));
    assert(s.first() == decimal(n as nat)[0]);
    assert(trim_start(s) == s);
    assert(trim_end(s) == s);
    assert(s.drop_last() =~= decimal(n as nat));
}

/// Whitespace round a duration changes nothing.
pub proof fn law_surrounding_whitespace_is_ignored(s: Seq<char>)
    ensures
        written_secs(trimmed(s)) == written_secs(s),
{
    lemma_trimmed_twice(s);
}

/// A number in base ten counts seconds, minutes, hours or days by the unit behind it, with
/// whitespace round both.
pub proof fn law_units_count_seconds(n: u64, front: Seq<char>, back: Seq<char>)
    requires
        blank(front),
        blank(back),
    ensures
        written_secs(front + decimal(n as nat).push('s') + back) == Some(n as int),
        written_secs(front + decimal(n as nat).push('m') + back) == Some(n * 60),
        written_secs(front + decimal(n as nat).push('h') + back) == Some(n * 60 * 60),
        written_secs(front + decimal(n as nat).push('d') + back) == Some(n * 24 * 60 * 60),
{
    lemma_decimal(n as nat);
    law_decimal_reads_back(n);
    assert(digit(decimal(n as nat)[0]));
    lemma_written_with_unit(n, 's', front, back);
    lemma_written_with_unit(n, 'm', front, back);
    lemma_written_with_unit(n, 'h', front, back);
    lemma_written_with_unit(n, 'd', front, back);
}

/// What a numeral with a unit behind it and whitespace round both is taken apart into.
proof fn lemma_written_with_unit(n: u64, unit: char, front: Seq<char>, back: Seq<char>)
    requires
        blank(front),
        blank(back),
        !whitespace(unit),
    ensures
        written_secs(front + decimal(n as nat).push(unit) + back) == secs_of(n as int, unit),
{
    let s = decimal(n as nat).push(unit);
    lemma_decimal(n as nat);
    law_decimal_reads_back(n);
    assert(digit(decimal(n as nat)[0]));
    assert(s.first() == decimal(n as nat)[0]);
    law_trimming_leaves_what_stands_between(front, s, back);
    assert(s.drop_last() =~= decimal(n as nat));
}

/// What is read as a duration is a number with one of the four units behind it, and nothing
/// is read where there is no number or no unit.
pub proof fn law_only_numbers_with_units_are_durations(s: Seq<char>)
    ensures
        written_secs(s) is Some ==> trimmed(s).len() > 1 && parsed_u64(
            trimmed(s).drop_last(),
        ) is Some && "smhd"@.contains(trimmed(s).last()),
        trimmed(s).len() == 0 ==> written_secs(s) is None,
        trimmed(s).len() > 0 && !"smhd"@.contains(trimmed(s).last()) ==> written_secs(s) is None,
        trimmed(s).len() > 0 && parsed_u64(trimmed(s).drop_last()) is None ==> written_secs(
            s,
        ) is None,
{
    reveal_strlit("smhd");
    let units = "smhd"@;
    assert(units[0] == 's' && units[1] == 'm' && units[2] == 'h' && units[3] == 'd');
    if trimmed(s).len() > 0 {
        law_only_digits_behind_a_sign_are_numbers(trimmed(s).drop_last());
    }
}

/// A text can be read or refused where it is empty or ends in an ASCII character, unless it
/// writes more seconds than a `u64` counts.
pub proof fn law_ascii_texts_are_read_or_refused(s: Seq<char>)
    ensures
        trimmed(s).len() == 0 ==> readable_duration(s),
        trimmed(s).len() > 0 && (trimmed(s).last() as u32) < 128 && written_secs(s) is None
            ==> readable_duration(s),
        trimmed(s).len() > 0 && (trimmed(s).last() as u32) < 128 && (written_secs(s) matches Some(
            n,
        ) && n <= u64::MAX) ==> readable_duration(s),
{
}

/// A service is cooled down for the time of its own entry; without one for that of the entry
/// `default`; and for ten minutes where neither is there or the text is no duration.
pub proof fn law_cooldowns_come_from_the_settings(
    config: Config,
    service: Seq<char>,
    text: String,
    secs: int,
)
    ensures
        lookup(config.cooldowns@, service) == Some(text) && written_secs(text@) == Some(secs)
            ==> config.cooldown_secs(service) == secs,
        lookup(config.cooldowns@, service) is None && lookup(config.cooldowns@, "default"@) == Some(
            text,
        ) && written_secs(text@) == Some(secs) ==> config.cooldown_secs(service) == secs,
        lookup(config.cooldowns@, service) == Some(text) && written_secs(text@) is None
            ==> config.cooldown_secs(service) == 10 * 60,
        lookup(config.cooldowns@, service) is None && lookup(config.cooldowns@, "default"@) == Some(
            text,
        ) && written_secs(text@) is None ==> config.cooldown_secs(service) == 10 * 60,
        lookup(config.cooldowns@, service) is None && lookup(
            config.cooldowns@,
            "default"@,
        ) is None ==> config.cooldown_secs(service) == 10 * 60,
{
}

/// An address is whitelisted exactly where one of the whitelisted networks, whichever it is,
/// holds it.
pub proof fn law_every_whitelisted_network_counts(config: Config, ip: IpAddr, r: bool)
    requires
        call_ensures(Config::is_whitelisted, (&config, ip), r),
    ensures
        forall|k: int|
            0 <= k < config.whitelist.cidrs@.len() && in_network(
                (#[trigger] config.whitelist.cidrs@[k]).address(),
                config.whitelist.cidrs@[k].prefix(),
                ip,
            ) ==> r && config.whitelists(ip),
        r || config.whitelists(ip) ==> exists|k: int|
            0 <= k < config.whitelist.cidrs@.len() && in_network(
                (#[trigger] config.whitelist.cidrs@[k]).address(),
                config.whitelist.cidrs@[k].prefix(),
                ip,
            ),
{
}

/// Settings are taken exactly where they have a secret, that of the environment before their
/// own, and everything else in them stays as it was read.
pub proof fn law_settings_keep_all_but_the_secret(
    parsed: Config,
    env_secret: Option<String>,
    r: Result<Config, ConfigError>,
)
    requires
        call_ensures(Config::load, (parsed, env_secret), r),
    ensures
        env_secret matches Some(secret) ==> (r is Ok <==> secret@.len() > 0),
        env_secret is None ==> (r is Ok <==> parsed.challenge.hmac_secret@.len() > 0),
        r matches Ok(config) ==> {
            &&& config.challenge.hmac_secret == match env_secret {
                Some(secret) => secret,
                None => parsed.challenge.hmac_secret,
            }
            &&& config.challenge.cookie_name == parsed.challenge.cookie_name
            &&& config.challenge.cookie_ttl_secs == parsed.challenge.cookie_ttl_secs
            &&& config.server == parsed.server
            &&& config.thresholds == parsed.thresholds
            &&& config.whitelist == parsed.whitelist
            &&& config.bot_pools == parsed.bot_pools
            &&& config.cooldowns == parsed.cooldowns
        },
{
}

} // verus!
