//! The endpoints, from header texts to status and page, up to and after the lookups that a
//! request may need.
use vstd::prelude::*;

use crate::analyze::{
    analyze_at, cooldown_computable, host_of, judge, judgeable, judgement, passes, service_of,
    Analysis,
};
use crate::challenge::{
    cookie_admits, expiry_of, issue, issued, law_a_cookie_has_one_dot, lifetime_usable,
    url_safe_char,
};
use crate::config::Config;
use crate::dns::{RdnsResult, RdnsStep};
use crate::net::{address_of, address_read, IpAddr};
use crate::responses::{challenge_body, cooldown_body, is_challenge_page, is_cooldown_page};
use crate::state::{
    clock_shows, clock_time, now_secs, AppState, IpStats, Verdict, VerdictCounts, VerdictView,
};
use crate::text::{
    blank, first_index, law_texts_are_split_at_their_first_separator,
    law_trimming_leaves_what_stands_between, lemma_first_index, lemma_first_index_unique,
    lemma_split_of_join, same_text, split_at_first, split_once, trim, trim_end, trim_start,
    trimmed, whitespace,
};

verus! {

/// The value of the pair `kv` in a cookie header, if its name is `name`.
pub open spec fn pair_value(kv: Seq<char>, name: Seq<char>) -> Option<Seq<char>> {
    match split_at_first(trimmed(kv), '=') {
        Some((k, v)) => if k == name {
            Some(v)
        } else {
            None
        },
        None => None,
    }
}

/// The value of the first pair named `name` in the cookie header `raw`, whose pairs have
/// semicolons between them.
pub open spec fn cookie_value(raw: Seq<char>, name: Seq<char>) -> Option<Seq<char>>
    decreases raw.len(),
    via cookie_value_terminates
{
    let i = first_index(raw, ';');
    match pair_value(raw.take(i), name) {
        Some(v) => Some(v),
        None => if i < raw.len() {
            cookie_value(raw.skip(i + 1), name)
        } else {
            None
        },
    }
}

#[via_fn]
proof fn cookie_value_terminates(raw: Seq<char>, name: Seq<char>) {
    lemma_first_index(raw, ';');
}

/// The value of the cookie `name` in a cookie header, if there is one.
pub open spec fn header_cookie(header: Option<&str>, name: Seq<char>) -> Option<Seq<char>> {
    match header {
        Some(raw) => cookie_value(raw@, name),
        None => None,
    }
}

/// The address that a header gives, with whitespace round it.
pub open spec fn header_address(header: Option<&str>) -> Option<(bool, u128)> {
    match header {
        Some(raw) => address_read(trimmed(raw@)),
        None => None,
    }
}

/// The address that the header `X-Real-IP` gives.
pub fn extract_ip(header: Option<&str>) -> (r: Option<IpAddr>)
    ensures
        match r {
            Some(ip) => header_address(header) == Some(ip.key()) && address_of(ip.key()) == ip,
            None => header_address(header) is None,
        },
{
    match header {
        Some(raw) => IpAddr::parse(trim(raw)),
        None => None,
    }
}

/// The value of the pair `kv`, if its name is `name`.
fn value_of_pair<'a>(kv: &'a str, name: &str) -> (r: Option<&'a str>)
    ensures
        match r {
            Some(v) => pair_value(kv@, name@) == Some(v@),
            None => pair_value(kv@, name@) is None,
        },
{
    match split_once(trim(kv), '=') {
        Some((k, v)) => {
            if same_text(k, name) {
                Some(v)
            } else {
                None
            }
        },
        None => None,
    }
}

/// The value of the cookie `name` in the header `Cookie`: that of the first pair so named.
pub fn extract_cookie(header: Option<&str>, name: &str) -> (r: Option<String>)
    ensures
        match r {
            Some(v) => header_cookie(header, name@) == Some(v@),
            None => header_cookie(header, name@) is None,
        },
{
    let raw: &str = match header {
        Some(raw) => raw,
        None => return None,
    };
    let mut rest: &str = raw;
    loop
        invariant
            header == Some(raw),
            cookie_value(raw@, name@) == cookie_value(rest@, name@),
        decreases rest@.len(),
    {
        proof {
            lemma_first_index(rest@, ';');
        }
        match split_once(rest, ';') {
            Some((kv, tail)) => {
                if let Some(v) = value_of_pair(kv, name) {
                    return Some(v.to_owned());
                }
                rest = tail;
            },
            None => {
                assert(rest@.take(first_index(rest@, ';')) =~= rest@);
                return match value_of_pair(rest, name) {
                    Some(v) => Some(v.to_owned()),
                    None => None,
                };
            },
        }
    }
}

/// The status that `/check` answers a verdict with.
pub open spec fn status(verdict: VerdictView) -> u16 {
    match verdict {
        VerdictView::Allow => 204,
        _ => 403,
    }
}

/// The status that `/check` answers `verdict` with: 204 for a pass, 403 for anything else.
pub fn status_of(verdict: &Verdict) -> (r: u16)
    ensures
        r == status(verdict@),
{
    match verdict {
        Verdict::Allow => 204,
        Verdict::Cooldown { .. } => 403,
        Verdict::Challenge => 403,
    }
}

/// How far `/check` has come.
pub enum CheckStep {
    /// The status is there.
    Reply(u16),
    /// The host name of `ip` decides: [`crate::dns::verify_rdns`] goes on from `step`, and
    /// [`check_resolved`] follows its outcome.
    Resolve { ip: IpAddr, step: RdnsStep },
}

/// `after` is `before` with the verdict on `ip` counted and put away.
pub open spec fn concluded(
    before: AppState,
    after: AppState,
    ip: IpAddr,
    verdict: VerdictView,
) -> bool {
    &&& before.same_settings(after)
    &&& after.hits() == before.hits()
    &&& before.adds_verdict(after, ip, verdict)
    &&& before.adds_put_away(after, ip, verdict)
}

/// Counts the verdict on `ip`, puts it away for the page that follows, and gives the status.
pub fn conclude_check(state: &mut AppState, ip: IpAddr, verdict: &Verdict) -> (r: u16)
    requires
        old(state).wf(),
    ensures
        final(state).wf(),
        concluded(*old(state), *final(state), ip, verdict@),
        r == status(verdict@),
{
    state.record_verdict(ip, verdict);
    let ghost between = *state;
    state.put_verdict_away(ip, verdict);
    assert(state.hits() == between.hits());
    status_of(verdict)
}

/// Answers `/check` at `now`, as far as that goes without a lookup. Without an address the
/// answer is 403 and nothing is remembered.
pub fn check_at(
    state: &mut AppState,
    ip_header: Option<&str>,
    cookie_header: Option<&str>,
    now: i64,
) -> (r: CheckStep)
    requires
        old(state).wf(),
        clock_time(now),
    ensures
        final(state).wf(),
        check_begun(*old(state), *final(state), ip_header, cookie_header, now, r),
{
    let ip: IpAddr = match extract_ip(ip_header) {
        Some(ip) => ip,
        None => return CheckStep::Reply(403),
    };
    let cookie: Option<String> = extract_cookie(
        cookie_header,
        state.config().challenge.cookie_name.as_str(),
    );
    let text: Option<&str> = match &cookie {
        Some(c) => Some(c.as_str()),
        None => None,
    };
    match analyze_at(state, ip, text, now) {
        Analysis::Decided(verdict) => CheckStep::Reply(conclude_check(state, ip, &verdict)),
        Analysis::Resolve(step) => CheckStep::Resolve { ip, step },
    }
}

/// What `/check` does at `now` with the headers of a request before any lookup: without an
/// address it answers 403 and remembers nothing; otherwise the hit is recorded, and the
/// request passes with 204, counted and put away, or its host name has to be looked up.
pub open spec fn check_begun(
    before: AppState,
    after: AppState,
    ip_header: Option<&str>,
    cookie_header: Option<&str>,
    now: i64,
    r: CheckStep,
) -> bool {
    match header_address(ip_header) {
        None => r == CheckStep::Reply(403) && after == before,
        Some(key) => {
            let ip = address_of(key);
            if passes(
                before.settings(),
                ip,
                before.record_after_hit(ip, now).count,
                header_cookie(cookie_header, before.settings().challenge.cookie_name@),
                now,
            ) {
                &&& r == CheckStep::Reply(204)
                &&& before.same_settings(after)
                &&& before.adds_hit(after, ip, now)
                &&& before.adds_verdict(after, ip, VerdictView::Allow)
                &&& before.adds_put_away(after, ip, VerdictView::Allow)
            } else {
                &&& r == (CheckStep::Resolve { ip, step: RdnsStep::ReadCache })
                &&& before.hit_at(after, ip, now)
            }
        },
    }
}

/// Answers `/check`, as far as that goes without a lookup.
pub fn check(state: &mut AppState, ip_header: Option<&str>, cookie_header: Option<&str>) -> (r:
    CheckStep)
    requires
        old(state).wf(),
    ensures
        final(state).wf(),
        exists|now: i64|
            clock_shows(now) && #[trigger] check_begun(
                *old(state),
                *final(state),
                ip_header,
                cookie_header,
                now,
                r,
            ),
{
    let now: i64 = now_secs();
    check_at(state, ip_header, cookie_header, now)
}

/// Answers `/check` at `now` once the reverse lookup of `ip` has given `rdns`.
pub fn check_resolved_at(
    state: &mut AppState,
    ip: IpAddr,
    rdns: &Option<RdnsResult>,
    now: i64,
) -> (r: u16)
    requires
        old(state).wf(),
        host_of(*rdns) matches Some(host) ==> cooldown_computable(
            old(state).settings(),
            service_of(old(state).settings(), host),
            now,
        ),
    ensures
        final(state).wf(),
        concluded(
            *old(state),
            *final(state),
            ip,
            judgement(old(state).settings(), host_of(*rdns), now),
        ),
        r == 403,
{
    let verdict: Verdict = judge(state.config(), rdns, now);
    conclude_check(state, ip, &verdict)
}

/// Answers `/check` once the reverse lookup of `ip` has given `rdns`.
pub fn check_resolved(state: &mut AppState, ip: IpAddr, rdns: &Option<RdnsResult>) -> (r: u16)
    requires
        old(state).wf(),
        judgeable(old(state).settings(), host_of(*rdns)),
    ensures
        final(state).wf(),
        exists|now: i64|
            clock_shows(now) && concluded(
                *old(state),
                *final(state),
                ip,
                #[trigger] judgement(old(state).settings(), host_of(*rdns), now),
            ),
        r == 403,
{
    let now: i64 = now_secs();
    check_resolved_at(state, ip, rdns, now)
}

/// The status that `/respond` answers with, whatever the page.
pub const RESPOND_STATUS: u16 = 200;

/// How far `/respond` has come.
pub enum RespondStep {
    /// The page is there.
    Page(String),
    /// The host name of `ip` decides: [`crate::dns::verify_rdns`] goes on from `step`, and
    /// [`respond_resolved`] follows its outcome.
    Resolve { ip: IpAddr, step: RdnsStep },
}

/// `body` is what the client at `ip` is shown. A challenge is answered with the page that
/// sets a cookie issued to the address, and anything else with a page of cooldown.
pub open spec fn answers(config: Config, ip: IpAddr, verdict: VerdictView, body: Seq<char>) -> bool {
    match verdict {
        VerdictView::Challenge => exists|now: i64, token: Seq<char>|
            clock_shows(now) && #[trigger] issued(config, ip, now, token) && is_challenge_page(
                config,
                token,
                body,
            ),
        _ => is_cooldown_page(body),
    }
}

/// The page that the client at `ip` is shown for `verdict`.
pub fn page_for(config: &Config, ip: IpAddr, verdict: &Verdict) -> (r: String)
    requires
        verdict@ == VerdictView::Challenge ==> lifetime_usable(*config),
    ensures
        answers(*config, ip, verdict@, r@),
{
    match verdict {
        Verdict::Challenge => {
            let token: String = issue(config, ip);
            challenge_body(config, token.as_str())
        },
        Verdict::Cooldown { .. } => cooldown_body(),
        Verdict::Allow => cooldown_body(),
    }
}

/// What `/respond` does at `now` for `ip` before any lookup, where `cached` is the verdict
/// that was put away for the address, if it is still there: the page for that verdict is
/// shown and nothing is remembered; without one the request is analyzed like any other.
pub open spec fn respond_begun(
    before: AppState,
    after: AppState,
    ip: IpAddr,
    cached: Option<VerdictView>,
    cookie_header: Option<&str>,
    now: i64,
    r: RespondStep,
) -> bool {
    match cached {
        Some(verdict) => after == before && (r matches RespondStep::Page(body) && answers(
            before.settings(),
            ip,
            verdict,
            body@,
        )),
        None => before.hit_at(after, ip, now) && if passes(
            before.settings(),
            ip,
            before.record_after_hit(ip, now).count,
            header_cookie(cookie_header, before.settings().challenge.cookie_name@),
            now,
        ) {
            r matches RespondStep::Page(body) && is_cooldown_page(body@)
        } else {
            r == (RespondStep::Resolve { ip, step: RdnsStep::ReadCache })
        },
    }
}

/// Answers `/respond` for `ip` at `now`, as far as that goes without a lookup, where `cached`
/// is the verdict that was put away for the address, if it is still there.
pub fn respond_at(
    state: &mut AppState,
    ip: IpAddr,
    cached: Option<Verdict>,
    cookie_header: Option<&str>,
    now: i64,
) -> (r: RespondStep)
    requires
        old(state).wf(),
        clock_time(now),
        cached matches Some(verdict) ==> verdict@ == VerdictView::Challenge ==> lifetime_usable(
            old(state).settings(),
        ),
    ensures
        final(state).wf(),
        respond_begun(
            *old(state),
            *final(state),
            ip,
            match cached {
                Some(verdict) => Some(verdict@),
                None => None,
            },
            cookie_header,
            now,
            r,
        ),
{
    if let Some(verdict) = cached {
        return RespondStep::Page(page_for(state.config(), ip, &verdict));
    }
    let cookie: Option<String> = extract_cookie(
        cookie_header,
        state.config().challenge.cookie_name.as_str(),
    );
    let text: Option<&str> = match &cookie {
        Some(c) => Some(c.as_str()),
        None => None,
    };
    match analyze_at(state, ip, text, now) {
        Analysis::Decided(verdict) => RespondStep::Page(page_for(state.config(), ip, &verdict)),
        Analysis::Resolve(step) => RespondStep::Resolve { ip, step },
    }
}

/// A challenge was put away for the address that the header gives.
pub open spec fn challenge_put_away(state: AppState, ip_header: Option<&str>) -> bool {
    match header_address(ip_header) {
        Some(key) => state.put_away().contains_key(key) && state.put_away()[key]
            == VerdictView::Challenge,
        None => false,
    }
}

/// Answers `/respond`, as far as that goes without a lookup. Without an address the answer
/// is a page of cooldown.
pub fn respond(state: &mut AppState, ip_header: Option<&str>, cookie_header: Option<&str>) -> (r:
    RespondStep)
    requires
        old(state).wf(),
        challenge_put_away(*old(state), ip_header) ==> lifetime_usable(old(state).settings()),
    ensures
        final(state).wf(),
        match header_address(ip_header) {
            None => *final(state) == *old(state) && (r matches RespondStep::Page(body)
                && is_cooldown_page(body@)),
            Some(key) => exists|cached: Option<VerdictView>, now: i64|
                clock_shows(now) && (cached matches Some(verdict) ==> old(
                    state,
                ).put_away().contains_key(key) && old(state).put_away()[key] == verdict) && old(
                    state,
                ).takes_up(address_of(key), cached) && #[trigger] respond_begun(
                    *old(state),
                    *final(state),
                    address_of(key),
                    cached,
                    cookie_header,
                    now,
                    r,
                ),
        },
{
    let ip: IpAddr = match extract_ip(ip_header) {
        Some(ip) => ip,
        None => return RespondStep::Page(cooldown_body()),
    };
    let cached: Option<Verdict> = state.take_up_verdict(ip);
    let now: i64 = now_secs();
    respond_at(state, ip, cached, cookie_header, now)
}

/// The page for `ip` at `now` once the reverse lookup of the address has given `rdns`.
pub fn respond_resolved_at(
    state: &AppState,
    ip: IpAddr,
    rdns: &Option<RdnsResult>,
    now: i64,
) -> (r: String)
    requires
        host_of(*rdns) matches Some(host) ==> cooldown_computable(
            state.settings(),
            service_of(state.settings(), host),
            now,
        ),
        host_of(*rdns) is None ==> lifetime_usable(state.settings()),
    ensures
        answers(state.settings(), ip, judgement(state.settings(), host_of(*rdns), now), r@),
{
    let verdict: Verdict = judge(state.config(), rdns, now);
    page_for(state.config(), ip, &verdict)
}

/// The page for `ip` once the reverse lookup of the address has given `rdns`.
pub fn respond_resolved(state: &AppState, ip: IpAddr, rdns: &Option<RdnsResult>) -> (r: String)
    requires
        judgeable(state.settings(), host_of(*rdns)),
        host_of(*rdns) is None ==> lifetime_usable(state.settings()),
    ensures
        match host_of(*rdns) {
            None => answers(state.settings(), ip, VerdictView::Challenge, r@),
            Some(_) => is_cooldown_page(r@),
        },
{
    let now: i64 = now_secs();
    respond_resolved_at(state, ip, rdns, now)
}

/// `name` can be the name of a cookie in a header: no equals sign or semicolon is in it, and
/// it does not begin with whitespace.
pub open spec fn cookie_name(name: Seq<char>) -> bool {
    &&& !name.contains('=')
    &&& !name.contains(';')
    &&& name.len() > 0 ==> !whitespace(name.first())
}

/// `value` can be the value of a cookie in a header: no semicolon is in it, and it does not
/// end in whitespace.
pub open spec fn cookie_content(value: Seq<char>) -> bool {
    &&& !value.contains(';')
    &&& value.len() > 0 ==> !whitespace(value.last())
}

/// A cookie that a client sends under its name is found under that name.
pub proof fn law_a_cookie_is_found(name: Seq<char>, value: Seq<char>)
    requires
        cookie_name(name),
        cookie_content(value),
    ensures
        cookie_value(name + seq!['='] + value, name) == Some(value),
{
    let raw = name + seq!['='] + value;
    assert forall|i: int| 0 <= i < raw.len() implies raw[i] != ';' by {
        if i < name.len() {
            assert(raw[i] == name[i]);
            assert(name.contains(name[i]));
        } else if i > name.len() {
            let j = i - name.len() - 1;
            assert(raw[i] == value[j]);
            assert(value.contains(value[j]));
        }
    }
    lemma_first_index_unique(raw, ';', raw.len() as int);
    assert(raw.take(raw.len() as int) =~= raw);
    assert(!whitespace(raw.first()));
    assert(!whitespace(raw.last()));
    assert(trim_start(raw) == raw);
    assert(trim_end(raw) == raw);
    lemma_split_of_join(name, '=', value);
}

/// A pair of another name in front of the others changes nothing.
pub proof fn law_other_cookies_are_passed_over(
    pair: Seq<char>,
    rest: Seq<char>,
    name: Seq<char>,
)
    requires
        !pair.contains(';'),
        pair_value(pair, name) is None,
    ensures
        cookie_value(pair + seq![';'] + rest, name) == cookie_value(rest, name),
{
    lemma_split_of_join(pair, ';', rest);
    lemma_first_index(pair + seq![';'] + rest, ';');
}

/// A browser that stores the cookie of a page that challenges, and sends it from the same
/// address, passes until the cookie runs out.
pub proof fn law_a_challenged_browser_passes(config: Config, ip: IpAddr, body: Seq<char>)
    requires
        answers(config, ip, VerdictView::Challenge, body),
        cookie_name(config.challenge.cookie_name@),
    ensures
        exists|now: i64, token: Seq<char>|
            clock_shows(now) && #[trigger] issued(config, ip, now, token) && is_challenge_page(
                config,
                token,
                body,
            ) && forall|count: u64, t: i64|
                t <= expiry_of(config, now) ==> #[trigger] passes(
                    config,
                    ip,
                    count,
                    cookie_value(
                        config.challenge.cookie_name@ + seq!['='] + token,
                        config.challenge.cookie_name@,
                    ),
                    t,
                ),
{
    let (now, token) = choose|now: i64, token: Seq<char>|
        clock_shows(now) && #[trigger] issued(config, ip, now, token) && is_challenge_page(
            config,
            token,
            body,
        );
    let name = config.challenge.cookie_name@;
    assert(cookie_content(token)) by {
        law_a_cookie_has_one_dot(config, ip, now, token);
        if token.contains(';') {
            let i = choose|i: int| 0 <= i < token.len() && token[i] == ';';
            assert(url_safe_char(token[i]) || token[i] == '.');
        }
    }
    law_a_cookie_is_found(name, token);
    assert forall|count: u64, t: i64| t <= expiry_of(config, now) implies #[trigger] passes(
        config,
        ip,
        count,
        cookie_value(name + seq!['='] + token, name),
        t,
    ) by {
        assert(cookie_admits(config.challenge.hmac_secret@, ip, token, t));
    }
}

/// Whatever the headers say, a check that needs no lookup is answered with 204 or 403, and
/// with 204 only where the request passes.
pub proof fn law_a_check_is_answered_with_204_or_403(
    before: AppState,
    after: AppState,
    ip_header: Option<&str>,
    cookie_header: Option<&str>,
    now: i64,
    code: u16,
)
    requires
        check_begun(before, after, ip_header, cookie_header, now, CheckStep::Reply(code)),
    ensures
        code == 204 || code == 403,
        code == 204 <==> match header_address(ip_header) {
            Some(key) => passes(
                before.settings(),
                address_of(key),
                before.record_after_hit(address_of(key), now).count,
                header_cookie(cookie_header, before.settings().challenge.cookie_name@),
                now,
            ),
            None => false,
        },
{
}

/// The verdict that the page after a check goes by is the one that the check came to.
pub proof fn law_the_page_goes_by_the_verdict_of_the_check(
    before: AppState,
    after: AppState,
    ip: IpAddr,
    verdict: VerdictView,
)
    requires
        concluded(before, after, ip, verdict),
    ensures
        after.put_away().contains_key(ip.key()),
        after.put_away()[ip.key()] == verdict,
{
}

/// In a pair with whitespace round it, what stands before the first equals sign is the name
/// and what stands behind it the value; without an equals sign there is no value, and under
/// any other name there is none.
pub proof fn law_pairs_are_names_and_values(
    front: Seq<char>,
    name: Seq<char>,
    value: Seq<char>,
    back: Seq<char>,
    other: Seq<char>,
)
    requires
        blank(front),
        blank(back),
        !name.contains('='),
        name.len() > 0 ==> !whitespace(name.first()),
        value.len() > 0 ==> !whitespace(value.last()),
    ensures
        pair_value(front + (name + seq!['='] + value) + back, name) == Some(value),
        other != name ==> pair_value(
            front + (name + seq!['='] + value) + back,
            other,
        ) is None,
        name.len() > 0 && !whitespace(name.last()) ==> pair_value(
            front + name + back,
            other,
        ) is None,
{
    let pair = name + seq!['='] + value;
    assert(!whitespace(pair.first()));
    assert(!whitespace(pair.last()));
    law_trimming_leaves_what_stands_between(front, pair, back);
    law_texts_are_split_at_their_first_separator(name, '=', value);
    if name.len() > 0 && !whitespace(name.last()) {
        law_trimming_leaves_what_stands_between(front, name, back);
    }
}

/// The first pair with the name gives the value of a cookie, whatever follows it; a pair
/// without that name gives way to those that follow it; and where none has the name there is
/// no value.
pub proof fn law_the_first_pair_with_the_name_counts(
    pair: Seq<char>,
    rest: Seq<char>,
    name: Seq<char>,
)
    requires
        !pair.contains(';'),
    ensures
        cookie_value(pair, name) == pair_value(pair, name),
        cookie_value(pair + seq![';'] + rest, name) == match pair_value(pair, name) {
            Some(value) => Some(value),
            None => cookie_value(rest, name),
        },
{
    lemma_first_index(pair, ';');
    if first_index(pair, ';') < pair.len() {
        assert(pair.contains(pair[first_index(pair, ';')]));
    }
    assert(pair.take(pair.len() as int) =~= pair);
    lemma_split_of_join(pair, ';', rest);
    lemma_first_index(pair + seq![';'] + rest, ';');
}

/// A header that is not there gives nothing; one that is there gives the cookie of the name
/// in it, and the address that it writes, with whitespace round it.
pub proof fn law_what_headers_give(
    raw: &str,
    name: &str,
    ip: Option<IpAddr>,
    cookie: Option<String>,
    no_ip: Option<IpAddr>,
    no_cookie: Option<String>,
)
    requires
        call_ensures(extract_ip, (Some(raw),), ip),
        call_ensures(extract_cookie, (Some(raw), name), cookie),
        call_ensures(extract_ip, (None,), no_ip),
        call_ensures(extract_cookie, (None, name), no_cookie),
    ensures
        no_ip is None,
        no_cookie is None,
        match ip {
            Some(a) => address_read(trimmed(raw@)) == Some(a.key()),
            None => address_read(trimmed(raw@)) is None,
        },
        match cookie {
            Some(value) => cookie_value(raw@, name@) == Some(value@),
            None => cookie_value(raw@, name@) is None,
        },
{
}

/// A pass is answered with 204, and a cooldown or a challenge with 403; the page is answered
/// with 200.
pub proof fn law_statuses(verdict: Verdict, r: u16)
    requires
        call_ensures(status_of, (&verdict,), r),
    ensures
        verdict is Allow <==> r == 204,
        verdict is Cooldown || verdict is Challenge <==> r == 403,
        status(verdict@) == r,
        RESPOND_STATUS == 200,
{
}

/// A check without an address changes nothing. One with an address counts a hit of it, at the
/// time of the check and under the settings. Where it passes it is recorded once as a pass,
/// ends the cooldown of the address and is put away; otherwise nothing but the hit is
/// remembered before the lookup.
pub proof fn law_what_a_check_remembers(
    before: AppState,
    after: AppState,
    ip_header: Option<&str>,
    cookie_header: Option<&str>,
    now: i64,
    r: CheckStep,
)
    requires
        check_begun(before, after, ip_header, cookie_header, now, r),
    ensures
        header_address(ip_header) is None ==> after == before && r == CheckStep::Reply(403),
        after.settings() == before.settings(),
        after.verdict_limits() == before.verdict_limits(),
        header_address(ip_header) matches Some(key) ==> {
            let ip = address_of(key);
            let record = if before.hits().contains_key(ip.key()) {
                before.hits()[ip.key()].hit(now, before.settings().thresholds.window_secs)
            } else {
                IpStats { count: 1, window_start: now, last_seen: now }
            };
            let passing = passes(
                before.settings(),
                ip,
                record.count,
                header_cookie(cookie_header, before.settings().challenge.cookie_name@),
                now,
            );
            &&& after.hits() == before.hits().insert(ip.key(), record)
            &&& passing ==> {
                &&& r == CheckStep::Reply(204)
                &&& before.recorded() < u64::MAX ==> after.recorded() == before.recorded() + 1
                &&& before.recorded_by_kind().allowed < u64::MAX
                    ==> after.recorded_by_kind().allowed == before.recorded_by_kind().allowed + 1
                &&& after.recorded_by_kind().cooldown == before.recorded_by_kind().cooldown
                &&& after.recorded_by_kind().challenge == before.recorded_by_kind().challenge
                &&& after.cooling() == before.cooling().remove(ip.key())
                &&& after.put_away() == before.put_away().insert(ip.key(), VerdictView::Allow)
            }
            &&& !passing ==> {
                &&& r == (CheckStep::Resolve { ip, step: RdnsStep::ReadCache })
                &&& after.recorded() == before.recorded()
                &&& after.recorded_by_kind() == before.recorded_by_kind()
                &&& after.cooling() == before.cooling()
                &&& after.put_away() == before.put_away()
            }
        },
{
}

/// Of two checks of one address with no check of it between them, where the second comes at
/// least a window after the first, the second is the first of a new window: it passes
/// wherever one request in a window does. Where it comes before the window has run its
/// length, it is counted in that window.
pub proof fn law_a_check_a_window_later_is_the_first(
    before: AppState,
    after: AppState,
    later_before: AppState,
    later_after: AppState,
    ip_header: Option<&str>,
    cookie: Option<&str>,
    later_cookie: Option<&str>,
    now: i64,
    later: i64,
    r: CheckStep,
    later_r: CheckStep,
)
    requires
        check_begun(before, after, ip_header, cookie, now, r),
        check_begun(later_before, later_after, ip_header, later_cookie, later, later_r),
        header_address(ip_header) is Some,
        later_before.settings() == after.settings(),
        ({
            let key = address_of(header_address(ip_header)->Some_0).key();
            &&& later_before.hits().contains_key(key)
            &&& later_before.hits()[key] == after.hits()[key]
            &&& after.hits()[key].window_start <= now
        }),
        before.settings().thresholds.window_secs <= i64::MAX,
    ensures
        ({
            let key = address_of(header_address(ip_header)->Some_0).key();
            let window = before.settings().thresholds.window_secs;
            let started = after.hits()[key].window_start;
            &&& later >= now + window ==> later_after.hits()[key].count == 1
                && later_after.hits()[key].window_start == later
            &&& later >= now + window && before.settings().thresholds.max_requests_per_window >= 1
                ==> later_r == CheckStep::Reply(204)
            &&& later < started + window && after.hits()[key].count < u64::MAX
                ==> later_after.hits()[key].count == after.hits()[key].count + 1
                && later_after.hits()[key].window_start == started
        }),
{
}

/// A verdict that ends a check is recorded once under its kind, is put away for the page, and
/// changes the cooldown of its address as its kind does; everything else stays.
pub proof fn law_what_a_verdict_changes(
    before: AppState,
    after: AppState,
    ip: IpAddr,
    verdict: VerdictView,
)
    requires
        concluded(before, after, ip, verdict),
    ensures
        after.settings() == before.settings(),
        after.verdict_limits() == before.verdict_limits(),
        after.hits() == before.hits(),
        after.put_away() == before.put_away().insert(ip.key(), verdict),
        before.recorded() < u64::MAX ==> after.recorded() == before.recorded() + 1,
        match verdict {
            VerdictView::Allow => after.cooling() == before.cooling().remove(ip.key()),
            VerdictView::Cooldown { service, until } => after.cooling() == before.cooling().insert(
                ip.key(),
                (service, until),
            ),
            VerdictView::Challenge => after.cooling() == before.cooling(),
        },
        verdict is Cooldown && before.recorded_by_kind().cooldown < u64::MAX
            ==> after.recorded_by_kind() == (VerdictCounts {
            allowed: before.recorded_by_kind().allowed,
            cooldown: (before.recorded_by_kind().cooldown + 1) as u64,
            challenge: before.recorded_by_kind().challenge,
        }),
        verdict is Challenge && before.recorded_by_kind().challenge < u64::MAX
            ==> after.recorded_by_kind() == (VerdictCounts {
            allowed: before.recorded_by_kind().allowed,
            cooldown: before.recorded_by_kind().cooldown,
            challenge: (before.recorded_by_kind().challenge + 1) as u64,
        }),
{
}

/// The page for a challenge sets a cookie that was issued to the address at a reading of the
/// clock; for anything else it is a page of cooldown.
pub proof fn law_pages_follow_the_verdict(
    config: Config,
    ip: IpAddr,
    verdict: Verdict,
    body: String,
)
    requires
        call_ensures(page_for, (&config, ip, &verdict), body),
    ensures
        verdict is Challenge ==> exists|now: i64, token: Seq<char>|
            call_ensures(now_secs, (), now) && #[trigger] issued(config, ip, now, token)
                && is_challenge_page(config, token, body@),
        verdict is Allow || verdict is Cooldown ==> is_cooldown_page(body@),
{
}

/// A page that is shown by the verdict of a check changes nothing. Without such a verdict the
/// request is counted as a hit and nothing else, and it is shown a page of cooldown where it
/// passes and sent to the lookup where it does not.
pub proof fn law_what_a_page_remembers(
    before: AppState,
    after: AppState,
    ip: IpAddr,
    cached: Option<VerdictView>,
    cookie_header: Option<&str>,
    now: i64,
    r: RespondStep,
)
    requires
        respond_begun(before, after, ip, cached, cookie_header, now, r),
    ensures
        cached is Some ==> after == before && r is Page,
        cached == Some(VerdictView::Challenge) ==> answers(
            before.settings(),
            ip,
            VerdictView::Challenge,
            r->Page_0@,
        ),
        cached is Some && cached != Some(VerdictView::Challenge) ==> is_cooldown_page(r->Page_0@),
        cached is None ==> {
            &&& before.hit_at(after, ip, now)
            &&& if passes(
                before.settings(),
                ip,
                after.hits()[ip.key()].count,
                header_cookie(cookie_header, before.settings().challenge.cookie_name@),
                now,
            ) {
                r is Page && is_cooldown_page(r->Page_0@)
            } else {
                r == (RespondStep::Resolve { ip, step: RdnsStep::ReadCache })
            }
        },
{
}

} // verus!
