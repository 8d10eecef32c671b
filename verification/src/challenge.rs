//! Signed challenge cookies: an address and an expiry time under a keyed signature.
use base64::Engine;
use hmac::Mac;
use subtle::ConstantTimeEq;
use vstd::arithmetic::power::pow;
use vstd::prelude::*;
use vstd::utf8::{
    decode_utf8, decode_utf8_encode_utf8, encode_utf8, encode_utf8_decode_utf8,
    encode_utf8_valid_utf8, is_ascii_chars_encode_utf8, valid_utf8,
};

use crate::config::{addable, Config};
use crate::net::{address_characters, IpAddr};
use crate::number::{
    as_signed, decimal, i64_text, law_signed_decimal_reads_back, lemma_decimal, parse_i64,
    parsed_i64, signed_decimal, to_signed,
};
use crate::state::{clock_shows, now_secs, CLOCK_LIMIT};
use crate::text::{
    law_texts_are_split_at_their_first_separator, lemma_join_of_split, lemma_split_of_join,
    same_text, split_at_first, split_once,
};

verus! {

/// `c` is one of the letters, digits, hyphen and underscore of the URL-safe alphabet.
pub open spec fn url_safe_char(c: char) -> bool {
    'A' <= c <= 'Z' || 'a' <= c <= 'z' || '0' <= c <= '9' || c == '-' || c == '_'
}

/// Every character of `s` is in the URL-safe alphabet.
pub open spec fn url_safe(s: Seq<char>) -> bool {
    forall|i: int| 0 <= i < s.len() ==> url_safe_char(#[trigger] s[i])
}

/// The text of bytes in base64 with the URL-safe alphabet and no padding.
pub uninterp spec fn base64_text(bytes: Seq<u8>) -> Seq<char>;

/// The bytes that a text writes in base64 with the URL-safe alphabet and no padding.
pub uninterp spec fn base64_bytes(s: Seq<char>) -> Option<Seq<u8>>;

/// The HMAC-SHA256 of a message under a key.
pub uninterp spec fn hmac_sha256(key: Seq<u8>, message: Seq<u8>) -> Seq<u8>;

/// `base64::engine::general_purpose::URL_SAFE_NO_PAD.encode`. What it writes reads back as
/// the bytes and holds letters, digits, hyphens and underscores only. It panics where the
/// text would not fit in memory, far beyond the length that is required here.
#[verifier::external_body]
fn encode_base64(bytes: &[u8]) -> (r: String)
    requires
        bytes@.len() <= usize::MAX / 4,
    ensures
        r@ == base64_text(bytes@),
        base64_bytes(r@) == Some(bytes@),
        url_safe(r@),
{
    base64::engine::general_purpose::URL_SAFE_NO_PAD.encode(bytes)
}

/// `base64::engine::general_purpose::URL_SAFE_NO_PAD.decode`. Padding and stray trailing
/// bits are refused, so a text that it reads is the one that encoding gives.
#[verifier::external_body]
fn decode_base64(s: &str) -> (r: Option<Vec<u8>>)
    ensures
        match r {
            Some(bytes) => base64_bytes(s@) == Some(bytes@) && base64_text(bytes@) == s@,
            None => base64_bytes(s@) is None,
        },
{
    base64::engine::general_purpose::URL_SAFE_NO_PAD.decode(s).ok()
}

/// `hmac::Hmac` over `sha2::Sha256`: keyed by `new_from_slice`, which takes keys of any
/// length, fed with the message, and finished. The code has 32 bytes.
#[verifier::external_body]
fn hmac_sha256_of(key: &[u8], message: &[u8]) -> (r: Vec<u8>)
    ensures
        r@ == hmac_sha256(key@, message@),
        r@.len() == 32,
{
    let mut mac = hmac::Hmac::<sha2::Sha256>::new_from_slice(key).unwrap();
    mac.update(message);
    mac.finalize().into_bytes().to_vec()
}

/// `subtle::ConstantTimeEq::ct_eq` on byte slices: true exactly where length and bytes agree.
#[verifier::external_body]
fn equal_in_constant_time(a: &[u8], b: &[u8]) -> (r: bool)
    ensures
        r == (a@ == b@),
{
    a.ct_eq(b).into()
}

/// `String::from_utf8`: the text of the bytes, if they are UTF-8.
#[verifier::external_body]
fn text_of_bytes(bytes: Vec<u8>) -> (r: Option<String>)
    ensures
        match r {
            Some(s) => valid_utf8(bytes@) && s@ == decode_utf8(bytes@),
            None => !valid_utf8(bytes@),
        },
{
    String::from_utf8(bytes).ok()
}

/// The signature of `payload` under `secret`.
pub open spec fn signature(secret: Seq<char>, payload: Seq<char>) -> Seq<u8> {
    hmac_sha256(encode_utf8(secret), encode_utf8(payload))
}

/// The cookie that carries `payload` signed with `secret`.
pub open spec fn signed_token(secret: Seq<char>, payload: Seq<char>) -> Seq<char> {
    base64_text(encode_utf8(payload)) + seq!['.'] + base64_text(signature(secret, payload))
}

/// The payload that grants passage to the address written `ip_text` up to `expiry`.
pub open spec fn payload_text(ip_text: Seq<char>, expiry: int) -> Seq<char> {
    ip_text + seq!['|'] + signed_decimal(expiry)
}

/// `payload` grants passage to the address written `ip_text` at the time `now`.
pub open spec fn payload_admits(payload: Seq<char>, ip_text: Seq<char>, now: i64) -> bool {
    match split_at_first(payload, '|') {
        Some((who, expiry)) => match parsed_i64(expiry) {
            Some(e) => now <= e && who == ip_text,
            None => false,
        },
        None => false,
    }
}

/// `cookie` lets the address `ip` pass at the time `now`: it is a payload and a signature in
/// base64 with a dot between them, the signature is that of the payload under `secret`, and
/// the payload admits the address.
pub open spec fn cookie_admits(
    secret: Seq<char>,
    ip: IpAddr,
    cookie: Seq<char>,
    now: i64,
) -> bool {
    match split_at_first(cookie, '.') {
        Some((payload_part, signature_part)) => match (
            base64_bytes(payload_part),
            base64_bytes(signature_part),
        ) {
            (Some(payload), Some(given)) => {
                &&& valid_utf8(payload)
                &&& given == signature(secret, decode_utf8(payload))
                &&& payload_admits(decode_utf8(payload), ip.text(), now)
            },
            _ => false,
        },
        None => false,
    }
}

/// The payload that `cookie` carries: the text in base64 in front of its first dot.
pub open spec fn carried_payload(cookie: Seq<char>) -> Option<Seq<char>> {
    match split_at_first(cookie, '.') {
        Some((payload_part, _)) => match base64_bytes(payload_part) {
            Some(payload) => if valid_utf8(payload) {
                Some(decode_utf8(payload))
            } else {
                None
            },
            None => None,
        },
        None => None,
    }
}

/// `cookie` is, letter for letter, the payload that it carries under its signature.
pub open spec fn genuine(secret: Seq<char>, cookie: Seq<char>) -> bool {
    carried_payload(cookie) matches Some(payload) && cookie == signed_token(secret, payload)
}

/// When a cookie that is issued at `now` runs out.
pub open spec fn expiry_of(config: Config, now: i64) -> int {
    now + as_signed(config.challenge.cookie_ttl_secs)
}

/// The expiry of a cookie can be computed at every time that the clock shows.
pub open spec fn lifetime_usable(config: Config) -> bool {
    addable(config.challenge.cookie_ttl_secs, CLOCK_LIMIT as int)
}

/// `token` is two texts of the URL-safe alphabet with a dot between them.
pub open spec fn token_form(token: Seq<char>) -> bool {
    exists|a: Seq<char>, b: Seq<char>| #[trigger]
        url_safe(a) && #[trigger] url_safe(b) && token == a + seq!['.'] + b
}

/// `token` is the cookie that is issued to `ip` at `now`: it carries that address and that
/// expiry, it has one dot and is made of the URL-safe alphabet otherwise, and it admits that
/// address up to the expiry and nothing else.
pub open spec fn issued(config: Config, ip: IpAddr, now: i64, token: Seq<char>) -> bool {
    let secret = config.challenge.hmac_secret@;
    &&& token == signed_token(secret, payload_text(ip.text(), expiry_of(config, now)))
    &&& carried_payload(token) == Some(payload_text(ip.text(), expiry_of(config, now)))
    &&& token_form(token)
    &&& forall|who: IpAddr, t: i64| #[trigger]
        cookie_admits(secret, who, token, t) <==> who == ip && t <= expiry_of(config, now)
}

/// The payload that grants passage to the address written `ip_text` up to `expiry`.
pub fn payload_for(ip_text: &str, expiry: i64) -> (r: String)
    ensures
        r@ == payload_text(ip_text@, expiry as int),
{
    let mut payload: String = ip_text.to_owned();
    payload.push('|');
    payload.append(i64_text(expiry).as_str());
    assert(payload@ =~= payload_text(ip_text@, expiry as int));
    payload
}

/// A payload and its signature, both in base64, as one cookie.
pub fn join_token(payload_part: &str, signature_part: &str) -> (r: String)
    ensures
        r@ == payload_part@ + seq!['.'] + signature_part@,
{
    let mut token: String = payload_part.to_owned();
    token.push('.');
    token.append(signature_part);
    assert(token@ =~= payload_part@ + seq!['.'] + signature_part@);
    token
}

/// Whether `payload` grants passage to the address written `ip_text` at the time `now`,
/// where `given` came as its signature and `expected` is its signature.
pub fn check_payload(
    payload: &str,
    expected: &Vec<u8>,
    given: &Vec<u8>,
    ip_text: &str,
    now: i64,
) -> (r: bool)
    ensures
        r == (given@ == expected@ && payload_admits(payload@, ip_text@, now)),
{
    if !equal_in_constant_time(expected.as_slice(), given.as_slice()) {
        return false;
    }
    match split_once(payload, '|') {
        None => false,
        Some((who, expiry)) => match parse_i64(expiry) {
            None => false,
            Some(e) => now <= e && same_text(who, ip_text),
        },
    }
}

/// The signature of `payload` under the secret of `config`.
fn sign(config: &Config, payload: &str) -> (r: Vec<u8>)
    ensures
        r@ == signature(config.challenge.hmac_secret@, payload@),
        r@.len() == 32,
{
    hmac_sha256_of(config.challenge.hmac_secret.as_str().as_bytes(), payload.as_bytes())
}

/// A decimal numeral below ten to the power of `k` has at most `k` digits.
proof fn lemma_decimal_length(n: nat, k: nat)
    requires
        k > 0,
        n < pow(10, k),
    ensures
        decimal(n).len() <= k,
    decreases k,
{
    reveal(pow);
    if n >= 10 {
        if k == 1 {
            assert(pow(10, 0) == 1);
        } else {
            assert(pow(10, k) == 10 * pow(10, (k - 1) as nat));
            lemma_decimal_length(n / 10, (k - 1) as nat);
        }
    }
}

/// A payload is ASCII, and short.
proof fn lemma_payload_bytes(ip_text: Seq<char>, expiry: i64)
    requires
        address_characters(ip_text),
    ensures
        encode_utf8(payload_text(ip_text, expiry as int)).len() <= 66,
        !ip_text.contains('|'),
{
    let payload = payload_text(ip_text, expiry as int);
    let n = (if expiry < 0 { -expiry } else { expiry as int }) as nat;
    lemma_decimal(n);
    assert(pow(10, 19) == 10000000000000000000) by {
        reveal(pow);
        reveal_with_fuel(pow, 20);
    }
    lemma_decimal_length(n, 19);
    assert forall|i: int| 0 <= i < payload.len() implies (payload[i] as nat) < 128 by {
        if i < ip_text.len() {
            assert(payload[i] == ip_text[i]);
        } else if i > ip_text.len() {
            let tail = signed_decimal(expiry as int);
            assert(payload[i] == tail[i - ip_text.len() - 1]);
            let d = decimal(n);
            if expiry < 0 && i > ip_text.len() + 1 {
                assert(tail[i - ip_text.len() - 1] == d[i - ip_text.len() - 2]);
            }
        }
    }
    is_ascii_chars_encode_utf8(payload);
}

/// A cookie made of a payload and its signature admits whom the payload admits.
proof fn lemma_signed_token_admits(
    secret: Seq<char>,
    payload: Seq<char>,
    who: IpAddr,
    t: i64,
)
    requires
        url_safe(base64_text(encode_utf8(payload))),
        base64_bytes(base64_text(encode_utf8(payload))) == Some(encode_utf8(payload)),
        base64_bytes(base64_text(signature(secret, payload))) == Some(signature(secret, payload)),
    ensures
        cookie_admits(secret, who, signed_token(secret, payload), t) == payload_admits(
            payload,
            who.text(),
            t,
        ),
{
    lemma_split_of_join(
        base64_text(encode_utf8(payload)),
        '.',
        base64_text(signature(secret, payload)),
    );
    encode_utf8_valid_utf8(payload);
    encode_utf8_decode_utf8(payload);
}

/// Issues the cookie for `ip` at the time `now`: the address and the expiry, signed.
pub fn issue_at(config: &Config, ip: IpAddr, now: i64) -> (r: String)
    requires
        i64::MIN <= expiry_of(*config, now) <= i64::MAX,
    ensures
        issued(*config, ip, now, r@),
{
    let expiry: i64 = now + to_signed(config.challenge.cookie_ttl_secs);
    let ip_text: String = ip.to_text();
    let payload: String = payload_for(ip_text.as_str(), expiry);
    let sig: Vec<u8> = sign(config, payload.as_str());
    proof {
        lemma_payload_bytes(ip_text@, expiry);
    }
    let payload_part: String = encode_base64(payload.as_str().as_bytes());
    let signature_part: String = encode_base64(sig.as_slice());
    let token: String = join_token(payload_part.as_str(), signature_part.as_str());
    proof {
        assert(url_safe(payload_part@) && url_safe(signature_part@));
        lemma_split_of_join(payload_part@, '.', signature_part@);
        encode_utf8_valid_utf8(payload@);
        encode_utf8_decode_utf8(payload@);
        let secret = config.challenge.hmac_secret@;
        assert forall|who: IpAddr, t: i64| #[trigger]
            cookie_admits(secret, who, token@, t) <==> who == ip && t <= expiry by {
            lemma_signed_token_admits(secret, payload@, who, t);
            lemma_split_of_join(ip_text@, '|', signed_decimal(expiry as int));
            law_signed_decimal_reads_back(expiry);
            if who != ip {
                assert(ip_text@ != who.text());
            }
        }
    }
    token
}

/// Whether the expiry of a cookie can be computed at every time that the clock shows.
pub fn is_lifetime_usable(config: &Config) -> (r: bool)
    ensures
        r == lifetime_usable(*config),
{
    let secs: i64 = to_signed(config.challenge.cookie_ttl_secs);
    i64::MIN + CLOCK_LIMIT <= secs && secs <= i64::MAX - CLOCK_LIMIT
}

/// Issues the cookie that a client at `ip` has to present. Storing and sending it shows that
/// the client ran the script; the signature, the expiry and the address in it keep it from
/// being made up or used elsewhere.
pub fn issue(config: &Config, ip: IpAddr) -> (r: String)
    requires
        lifetime_usable(*config),
    ensures
        exists|now: i64| clock_shows(now) && #[trigger] issued(*config, ip, now, r@),
{
    let now: i64 = now_secs();
    issue_at(config, ip, now)
}

/// Whether `cookie_value` lets `ip` pass at the time `now`. Every cookie that does is, letter
/// for letter, the payload that it carries under its signature.
pub fn verify_at(config: &Config, ip: IpAddr, cookie_value: &str, now: i64) -> (r: bool)
    ensures
        r == cookie_admits(config.challenge.hmac_secret@, ip, cookie_value@, now),
        r ==> genuine(config.challenge.hmac_secret@, cookie_value@),
{
    let (payload_part, signature_part) = match split_once(cookie_value, '.') {
        Some(parts) => parts,
        None => return false,
    };
    let payload_bytes: Vec<u8> = match decode_base64(payload_part) {
        Some(bytes) => bytes,
        None => return false,
    };
    let ghost raw = payload_bytes@;
    let payload: String = match text_of_bytes(payload_bytes) {
        Some(text) => text,
        None => return false,
    };
    let given: Vec<u8> = match decode_base64(signature_part) {
        Some(bytes) => bytes,
        None => return false,
    };
    let expected: Vec<u8> = sign(config, payload.as_str());
    let ip_text: String = ip.to_text();
    let r: bool = check_payload(payload.as_str(), &expected, &given, ip_text.as_str(), now);
    proof {
        if r {
            decode_utf8_encode_utf8(raw);
            lemma_join_of_split(cookie_value@, '.');
            assert(cookie_value@ == signed_token(config.challenge.hmac_secret@, payload@));
        }
    }
    r
}

/// Whether `cookie_value` lets `ip` pass now. Every cookie that does is, letter for letter,
/// the payload that it carries under its signature.
pub fn verify(config: &Config, ip: IpAddr, cookie_value: &str) -> (r: bool)
    ensures
        exists|now: i64|
            clock_shows(now) && r == #[trigger] cookie_admits(
                config.challenge.hmac_secret@,
                ip,
                cookie_value@,
                now,
            ),
        r ==> genuine(config.challenge.hmac_secret@, cookie_value@),
{
    let now: i64 = now_secs();
    verify_at(config, ip, cookie_value, now)
}

/// A cookie has exactly one dot, and every other character of it is a letter, a digit, a
/// hyphen or an underscore.
pub proof fn law_a_cookie_has_one_dot(config: Config, ip: IpAddr, now: i64, token: Seq<char>)
    requires
        issued(config, ip, now, token),
    ensures
        exists|i: int|
            0 <= i < token.len() && #[trigger] token[i] == '.' && forall|j: int|
                0 <= j < token.len() && j != i ==> {
                    let c = #[trigger] token[j];
                    'A' <= c <= 'Z' || 'a' <= c <= 'z' || '0' <= c <= '9' || c == '-' || c == '_'
                },
{
    let (a, b) = choose|a: Seq<char>, b: Seq<char>| #[trigger]
        url_safe(a) && #[trigger] url_safe(b) && token == a + seq!['.'] + b;
    let i = a.len() as int;
    assert(token[i] == '.');
    assert forall|j: int| 0 <= j < token.len() && j != i implies url_safe_char(
        #[trigger] token[j],
    ) by {
        if j < i {
            assert(token[j] == a[j]);
        } else {
            assert(token[j] == b[j - i - 1]);
        }
    }
}

/// Two genuine cookies with the same payload in front are one: nothing behind the dot of a
/// cookie can be changed, left out or added.
pub proof fn law_genuine_cookies_differ_in_their_payload(
    secret: Seq<char>,
    one: Seq<char>,
    other: Seq<char>,
)
    requires
        genuine(secret, one),
        genuine(secret, other),
        carried_payload(one) == carried_payload(other),
    ensures
        one == other,
{
}

/// An issued cookie is genuine, and with anything more behind it it is not, so that no
/// address passes with it.
pub proof fn law_a_cookie_with_more_behind_it_is_refused(
    config: Config,
    ip: IpAddr,
    now: i64,
    token: Seq<char>,
    more: Seq<char>,
)
    requires
        issued(config, ip, now, token),
        more.len() > 0,
    ensures
        genuine(config.challenge.hmac_secret@, token),
        !genuine(config.challenge.hmac_secret@, token + more),
{
    let (a, b) = choose|a: Seq<char>, b: Seq<char>| #[trigger]
        url_safe(a) && #[trigger] url_safe(b) && token == a + seq!['.'] + b;
    if a.contains('.') {
        let i = choose|i: int| 0 <= i < a.len() && a[i] == '.';
        assert(url_safe_char(a[i]));
    }
    lemma_split_of_join(a, '.', b);
    lemma_split_of_join(a, '.', b + more);
    assert(token + more =~= a + seq!['.'] + (b + more));
    assert(carried_payload(token + more) == carried_payload(token));
    assert((token + more).len() > token.len());
}

/// A cookie that is issued at `now` admits its address at a time exactly where that is no
/// later than the configured lifetime after `now`, and it admits no other address.
pub proof fn law_a_cookie_lives_as_long_as_configured(
    config: Config,
    ip: IpAddr,
    now: i64,
    token: Seq<char>,
    who: IpAddr,
    t: i64,
)
    requires
        issued(config, ip, now, token),
        config.challenge.cookie_ttl_secs <= i64::MAX,
        now + config.challenge.cookie_ttl_secs <= i64::MAX,
    ensures
        cookie_admits(config.challenge.hmac_secret@, who, token, t) <==> who == ip && t <= now
            + config.challenge.cookie_ttl_secs,
{
}

/// A cookie carries the address and the time at which it runs out, with a bar between them,
/// and behind the dot the HMAC-SHA256 of that text under the secret.
pub proof fn law_what_a_cookie_is_made_of(
    config: Config,
    ip: IpAddr,
    now: i64,
    token: Seq<char>,
)
    requires
        issued(config, ip, now, token),
        config.challenge.cookie_ttl_secs <= i64::MAX,
        now + config.challenge.cookie_ttl_secs <= i64::MAX,
    ensures
        ({
            let ends = now + config.challenge.cookie_ttl_secs;
            let text = ip.text() + seq!['|'] + if ends < 0 {
                seq!['-'] + decimal((-ends) as nat)
            } else {
                decimal(ends as nat)
            };
            &&& carried_payload(token) == Some(text)
            &&& token == base64_text(encode_utf8(text)) + seq!['.'] + base64_text(
                hmac_sha256(encode_utf8(config.challenge.hmac_secret@), encode_utf8(text)),
            )
        }),
{
}

/// A cookie without a dot admits nobody.
pub proof fn law_a_cookie_without_a_dot_is_refused(
    secret: Seq<char>,
    ip: IpAddr,
    cookie: Seq<char>,
    now: i64,
)
    requires
        !cookie.contains('.'),
    ensures
        !cookie_admits(secret, ip, cookie, now),
{
    law_texts_are_split_at_their_first_separator(cookie, '.', Seq::empty());
}

/// Of a payload and a signature in base64 with a dot between them, a cookie admits an address
/// at a time exactly where the signature is that of the payload under the secret, and the
/// payload is that address, a bar and a time that is not before the given one.
pub proof fn law_whom_a_cookie_admits(
    secret: Seq<char>,
    ip: IpAddr,
    front: Seq<char>,
    back: Seq<char>,
    payload: Seq<char>,
    given: Seq<u8>,
    who: Seq<char>,
    end: Seq<char>,
    now: i64,
)
    requires
        !front.contains('.'),
        base64_bytes(front) == Some(encode_utf8(payload)),
        base64_bytes(back) == Some(given),
        payload == who + seq!['|'] + end,
        !who.contains('|'),
    ensures
        cookie_admits(secret, ip, front + seq!['.'] + back, now) <==> given == hmac_sha256(
            encode_utf8(secret),
            encode_utf8(payload),
        ) && who == ip.text() && (parsed_i64(end) matches Some(e) && now <= e),
{
    law_texts_are_split_at_their_first_separator(front, '.', back);
    law_texts_are_split_at_their_first_separator(who, '|', end);
    encode_utf8_valid_utf8(payload);
    encode_utf8_decode_utf8(payload);
}

/// A cookie admits nobody whose parts are not base64, whose payload is not UTF-8 or has no
/// bar in it.
pub proof fn law_malformed_cookies_are_refused(
    secret: Seq<char>,
    ip: IpAddr,
    front: Seq<char>,
    back: Seq<char>,
    now: i64,
)
    requires
        !front.contains('.'),
        base64_bytes(front) is None || base64_bytes(back) is None || (base64_bytes(front) matches Some(
            bytes,
        ) && (!valid_utf8(bytes) || !decode_utf8(bytes).contains('|'))),
    ensures
        !cookie_admits(secret, ip, front + seq!['.'] + back, now),
{
    law_texts_are_split_at_their_first_separator(front, '.', back);
    if let Some(bytes) = base64_bytes(front) {
        if !decode_utf8(bytes).contains('|') {
            law_texts_are_split_at_their_first_separator(decode_utf8(bytes), '|', Seq::empty());
        }
    }
}

/// A lifetime is usable exactly where the expiry is an `i64` at every time that the clock can
/// show.
pub proof fn law_usable_lifetimes(config: Config, now: i64, r: bool)
    requires
        call_ensures(is_lifetime_usable, (&config,), r),
    ensures
        r == lifetime_usable(config),
        config.challenge.cookie_ttl_secs <= i64::MAX - CLOCK_LIMIT ==> r,
        r && -CLOCK_LIMIT <= now <= CLOCK_LIMIT ==> i64::MIN <= expiry_of(config, now) <= i64::MAX,
        i64::MAX - CLOCK_LIMIT < config.challenge.cookie_ttl_secs <= i64::MAX ==> !r,
{
}

} // verus!
