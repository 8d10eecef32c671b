//! The pages that are served in place of the site.
use rand::seq::SliceRandom;
use rand::Rng;
use vstd::prelude::*;

use crate::config::Config;
use crate::number::{decimal, u64_text};

verus! {

/// `rand::seq::SliceRandom::choose` with the generator of the thread: one of the items,
/// and nothing only where there are none.
#[verifier::external_body]
fn choose_line<'a>(lines: &Vec<&'a str>) -> (r: Option<&'a str>)
    ensures
        match r {
            Some(line) => lines@.contains(line),
            None => lines@.len() == 0,
        },
{
    lines.choose(&mut rand::thread_rng()).copied()
}

/// `rand::Rng::gen_range` with the generator of the thread: a number of the range, which
/// must not be empty.
#[verifier::external_body]
fn random_below(low: usize, high: usize) -> (r: usize)
    requires
        low < high,
    ensures
        low <= r < high,
{
    rand::thread_rng().gen_range(low..high)
}

/// `rand::distributions::Alphanumeric` sampled with the generator of the thread: a letter
/// or a digit of ASCII.
#[verifier::external_body]
fn random_alphanumeric() -> (r: char)
    ensures
        alphanumeric(r),
{
    rand::thread_rng().sample(rand::distributions::Alphanumeric) as char
}

/// `c` is a letter or a digit of ASCII.
pub open spec fn alphanumeric(c: char) -> bool {
    'A' <= c <= 'Z' || 'a' <= c <= 'z' || '0' <= c <= '9'
}

/// `c` was drawn at random among the letters and digits.
pub closed spec fn drawn_char(c: char) -> bool {
    call_ensures(random_alphanumeric, (), c)
}

/// `len` was drawn at random, at least 50 and below 500.
pub closed spec fn drawn_length(len: usize) -> bool {
    call_ensures(random_below, (50, 500), len)
}

/// `line` was drawn at random among the lines that a page of cooldown can show.
pub closed spec fn drawn_line(line: Seq<char>) -> bool {
    exists|lines: Vec<&str>, drawn: &str|
        lines@.map_values(|l: &str| l@) == jokes() && drawn@ == line && #[trigger] call_ensures(
            choose_line,
            (&lines,),
            Some(drawn),
        )
}

/// `s` is `len` letters and digits, each of them drawn at random.
pub open spec fn pads(s: Seq<char>, len: int) -> bool {
    &&& s.len() == len
    &&& forall|i: int|
        0 <= i < s.len() ==> alphanumeric(#[trigger] s[i]) && drawn_char(s[i])
}

/// `s` can pad a page: letters and digits, of a number drawn at random, at least 50 and fewer
/// than 500.
pub open spec fn padding(s: Seq<char>) -> bool {
    &&& 50 <= s.len() < 500
    &&& drawn_length(s.len() as usize)
    &&& pads(s, s.len() as int)
}

/// The lines that a page of cooldown can show.
pub open spec fn jokes() -> Seq<Seq<char>> {
    seq![
        "Protected by CounterParser. Inquiries: TODO@yourdomain.example."@,
        "This page is guarded by a very small, very tired robot."@,
        "Limited-time offer: buy a date, get a byte free."@,
        "Nothing to see here. Please enjoy this complimentary silence."@,
        "Our terms of service require you to guess a number between 1 and infinity."@,
        "You have reached the bureaucracy department. Please hold."@,
        "This response is intentionally unhelpful."@,
    ]
}

/// The page that shows `line` to a client that is cooling down.
pub open spec fn cooldown_page(line: Seq<char>, pad: Seq<char>) -> Seq<char> {
    "<!doctype html><html><body><p>"@ + line + "</p><!-- "@ + pad + " --></body></html>"@
}

/// The page that makes a browser store `token` in the cookie `name` for `ttl` seconds and
/// load the page again.
pub open spec fn challenge_page(
    name: Seq<char>,
    token: Seq<char>,
    ttl: u64,
    pad: Seq<char>,
) -> Seq<char> {
    "<!doctype html><html><body>\n<p>One moment, please.</p>\n<script>document.cookie = \""@ + name
        + "="@ + token + "; path=/; max-age="@ + decimal(ttl as nat)
        + "; SameSite=Lax\"; location.reload();</script>\n<!-- "@ + pad + " -->\n</body></html>"@
}

/// `body` is a page of cooldown with a drawn line and a drawn padding.
pub open spec fn is_cooldown_page(body: Seq<char>) -> bool {
    exists|i: int, pad: Seq<char>|
        0 <= i < jokes().len() && drawn_line(jokes()[i]) && padding(pad) && body
            == #[trigger] cooldown_page(jokes()[i], pad)
}

/// `body` is the page that challenges with `token`, with some padding.
pub open spec fn is_challenge_page(config: Config, token: Seq<char>, body: Seq<char>) -> bool {
    exists|pad: Seq<char>|
        padding(pad) && body == #[trigger] challenge_page(
            config.challenge.cookie_name@,
            token,
            config.challenge.cookie_ttl_secs,
            pad,
        )
}

/// The page that shows `line`, padded with `pad`.
pub fn render_cooldown(line: &str, pad: &str) -> (r: String)
    ensures
        r@ == cooldown_page(line@, pad@),
{
    let mut page: String = "<!doctype html><html><body><p>".to_owned();
    page.append(line);
    page.append("</p><!-- ");
    page.append(pad);
    page.append(" --></body></html>");
    page
}

/// The page that makes a browser store `token` in the cookie `name` for `ttl` seconds and
/// load the page again, padded with `pad`.
pub fn render_challenge(name: &str, token: &str, ttl: u64, pad: &str) -> (r: String)
    ensures
        r@ == challenge_page(name@, token@, ttl, pad@),
{
    let mut page: String =
        "<!doctype html><html><body>\n<p>One moment, please.</p>\n<script>document.cookie = \"".to_owned();
    page.append(name);
    page.append("=");
    page.append(token);
    page.append("; path=/; max-age=");
    page.append(u64_text(ttl).as_str());
    page.append("; SameSite=Lax\"; location.reload();</script>\n<!-- ");
    page.append(pad);
    page.append(" -->\n</body></html>");
    page
}

/// `len` letters and digits of random choice.
pub fn padding_of(len: usize) -> (r: String)
    ensures
        pads(r@, len as int),
{
    let mut out: String = String::new();
    let mut i: usize = 0;
    while i < len
        invariant
            i <= len,
            out@.len() == i,
            forall|j: int|
                0 <= j < i ==> alphanumeric(#[trigger] out@[j]) && drawn_char(out@[j]),
        decreases len - i,
    {
        out.push(random_alphanumeric());
        i = i + 1;
    }
    out
}

/// How many characters pad a page: a number drawn for each page, so that pages differ in
/// length.
fn padding_length() -> (r: usize)
    ensures
        50 <= r < 500,
        drawn_length(r),
{
    random_below(50, 500)
}

/// The page that shows `line`, padded with `len` letters and digits.
pub fn cooldown_body_of(line: &str, len: usize) -> (r: String)
    ensures
        exists|pad: Seq<char>| #[trigger]
            pads(pad, len as int) && r@ == cooldown_page(line@, pad),
{
    let pad: String = padding_of(len);
    render_cooldown(line, pad.as_str())
}

/// A harmless page for a client that is cooling down.
pub fn cooldown_body() -> (r: String)
    ensures
        is_cooldown_page(r@),
{
    let lines: Vec<&str> = vec![
        "Protected by CounterParser. Inquiries: TODO@yourdomain.example.",
        "This page is guarded by a very small, very tired robot.",
        "Limited-time offer: buy a date, get a byte free.",
        "Nothing to see here. Please enjoy this complimentary silence.",
        "Our terms of service require you to guess a number between 1 and infinity.",
        "You have reached the bureaucracy department. Please hold.",
        "This response is intentionally unhelpful.",
    ];
    let line: &str = match choose_line(&lines) {
        Some(line) => line,
        None => lines[0],
    };
    let len: usize = padding_length();
    let page: String = cooldown_body_of(line, len);
    proof {
        let i = choose|i: int| 0 <= i < lines@.len() && lines@[i] == line;
        assert(jokes()[i] == line@);
        assert(lines@.map_values(|l: &str| l@) =~= jokes());
        assert(drawn_line(line@));
        let pad = choose|pad: Seq<char>| #[trigger]
            pads(pad, len as int) && page@ == cooldown_page(line@, pad);
        assert(page@ == cooldown_page(jokes()[i], pad));
    }
    page
}

/// The page that challenges a client with `token`, padded with `len` letters and digits.
pub fn challenge_body_of(config: &Config, token: &str, len: usize) -> (r: String)
    ensures
        exists|pad: Seq<char>| #[trigger]
            pads(pad, len as int) && r@ == challenge_page(
                config.challenge.cookie_name@,
                token@,
                config.challenge.cookie_ttl_secs,
                pad,
            ),
{
    let pad: String = padding_of(len);
    render_challenge(
        config.challenge.cookie_name.as_str(),
        token,
        config.challenge.cookie_ttl_secs,
        pad.as_str(),
    )
}

/// The page that challenges a client with `token`. A client that runs no scripts never
/// stores the cookie and is challenged again; a browser passes when it loads the page again.
pub fn challenge_body(config: &Config, token: &str) -> (r: String)
    ensures
        is_challenge_page(*config, token@, r@),
{
    let len: usize = padding_length();
    challenge_body_of(config, token, len)
}

/// Two pages that differ in nothing but the number of characters that pad them differ in
/// length by that number.
pub proof fn law_pages_differ_in_length_as_their_padding(
    line: Seq<char>,
    name: Seq<char>,
    token: Seq<char>,
    ttl: u64,
    one: Seq<char>,
    other: Seq<char>,
)
    ensures
        cooldown_page(line, one).len() - cooldown_page(line, other).len() == one.len()
            - other.len(),
        challenge_page(name, token, ttl, one).len() - challenge_page(
            name,
            token,
            ttl,
            other,
        ).len() == one.len() - other.len(),
{
}

/// `part` stands in `whole`.
pub open spec fn stands_in(part: Seq<char>, whole: Seq<char>) -> bool {
    exists|i: int|
        0 <= i <= whole.len() - part.len() && part == #[trigger] whole.subrange(i, i + part.len())
}

/// A page that challenges sets the cookie to the token and gives its time to live.
pub proof fn law_a_challenge_page_sets_the_cookie(
    name: Seq<char>,
    token: Seq<char>,
    ttl: u64,
    pad: Seq<char>,
)
    ensures
        stands_in(name + "="@ + token, challenge_page(name, token, ttl, pad)),
        stands_in("max-age="@ + decimal(ttl as nat), challenge_page(name, token, ttl, pad)),
{
    let page = challenge_page(name, token, ttl, pad);
    let head =
        "<!doctype html><html><body>\n<p>One moment, please.</p>\n<script>document.cookie = \""@;
    let pair = name + "="@ + token;
    let at = head.len() as int;
    assert(page.subrange(at, at + pair.len()) =~= pair);
    reveal_strlit("; path=/; max-age=");
    reveal_strlit("; path=/; ");
    reveal_strlit("max-age=");
    assert("; path=/; max-age="@ =~= "; path=/; "@ + "max-age="@);
    let age = "max-age="@ + decimal(ttl as nat);
    let after = at + pair.len() + "; path=/; "@.len();
    assert(page.subrange(after, after + age.len()) =~= age);
}

/// What pads a page are letters of the English alphabet and digits only, of a number that was
/// drawn and is at least 50 and below 500, each of them drawn as well.
pub proof fn law_what_pads_a_page(pad: Seq<char>, i: int)
    requires
        padding(pad),
        0 <= i < pad.len(),
    ensures
        50 <= pad.len() < 500,
        drawn_length(pad.len() as usize),
        drawn_char(pad[i]),
        "ABCDEFGHIJKLMNOPQRSTUVWXYZabcdefghijklmnopqrstuvwxyz0123456789"@.contains(pad[i]),
{
    reveal_strlit("ABCDEFGHIJKLMNOPQRSTUVWXYZabcdefghijklmnopqrstuvwxyz0123456789");
    let all = "ABCDEFGHIJKLMNOPQRSTUVWXYZabcdefghijklmnopqrstuvwxyz0123456789"@;
    let c = pad[i];
    assert(alphanumeric(c));
    assert forall|j: int| 0 <= j < 26 implies #[trigger] all[j] as int == 65 + j by {
        assert(j == 0 || j == 1 || j == 2 || j == 3 || j == 4 || j == 5 || j == 6 || j == 7 ||
            j == 8 || j == 9 || j == 10 || j == 11 || j == 12 || j == 13 || j == 14 || j ==
            15 || j == 16 || j == 17 || j == 18 || j == 19 || j == 20 || j == 21 || j == 22
            || j == 23 || j == 24 || j == 25);
    }
    assert forall|j: int| 26 <= j < 52 implies #[trigger] all[j] as int == 71 + j by {
        assert(j == 26 || j == 27 || j == 28 || j == 29 || j == 30 || j == 31 || j == 32 || j
            == 33 || j == 34 || j == 35 || j == 36 || j == 37 || j == 38 || j == 39 || j ==
            40 || j == 41 || j == 42 || j == 43 || j == 44 || j == 45 || j == 46 || j == 47
            || j == 48 || j == 49 || j == 50 || j == 51);
    }
    assert forall|j: int| 52 <= j < 62 implies #[trigger] all[j] as int == j - 4 by {
        assert(j == 52 || j == 53 || j == 54 || j == 55 || j == 56 || j == 57 || j == 58 || j
            == 59 || j == 60 || j == 61);
    }
    let at = if 'A' <= c <= 'Z' {
        c as int - 65
    } else if 'a' <= c <= 'z' {
        c as int - 71
    } else {
        c as int + 4
    };
    assert(all[at] == c);
}

/// Lengths, characters and lines are drawn by the random generator: from 50 up to below 500,
/// among the letters and digits, and among the lines.
proof fn law_draws_come_from_the_generator(len: usize, c: char, line: Seq<char>)
    ensures
        drawn_length(len) <==> call_ensures(random_below, (50, 500), len),
        drawn_char(c) <==> call_ensures(random_alphanumeric, (), c),
        drawn_line(line) ==> exists|lines: Vec<&str>, drawn: &str|
            drawn@ == line && lines@.map_values(|l: &str| l@) == jokes()
                && #[trigger] call_ensures(choose_line, (&lines,), Some(drawn)),
{
}

/// A page of cooldown shows one of seven lines, drawn at random, in a paragraph, and the
/// padding in a comment behind it.
pub proof fn law_what_a_page_of_cooldown_shows(body: Seq<char>)
    requires
        is_cooldown_page(body),
    ensures
        exists|line: Seq<char>, pad: Seq<char>|
            #![trigger cooldown_page(line, pad)]
            {
                &&& drawn_line(line)
                &&& padding(pad)
                &&& body == "<!doctype html><html><body>"@ + "<p>"@ + line + "</p>"@ + "<!-- "@
                    + pad + " -->"@ + "</body></html>"@
                &&& {
                    ||| line
                        == "Protected by CounterParser. Inquiries: TODO@yourdomain.example."@
                    ||| line == "This page is guarded by a very small, very tired robot."@
                    ||| line == "Limited-time offer: buy a date, get a byte free."@
                    ||| line == "Nothing to see here. Please enjoy this complimentary silence."@
                    ||| line
                        == "Our terms of service require you to guess a number between 1 and infinity."@
                    ||| line == "You have reached the bureaucracy department. Please hold."@
                    ||| line == "This response is intentionally unhelpful."@
                }
            },
{
    let (i, pad) = choose|i: int, pad: Seq<char>|
        0 <= i < jokes().len() && drawn_line(jokes()[i]) && padding(pad) && body
            == #[trigger] cooldown_page(jokes()[i], pad);
    let line = jokes()[i];
    lemma_cooldown_page_parts(line, pad);
    assert(i == 0 || i == 1 || i == 2 || i == 3 || i == 4 || i == 5 || i == 6);
    assert(body == cooldown_page(line, pad));
}

/// The parts of a page of cooldown.
proof fn lemma_cooldown_page_parts(line: Seq<char>, pad: Seq<char>)
    ensures
        cooldown_page(line, pad) == "<!doctype html><html><body>"@ + "<p>"@ + line + "</p>"@
            + "<!-- "@ + pad + " -->"@ + "</body></html>"@,
{
    reveal_strlit("<!doctype html><html><body><p>");
    reveal_strlit("<!doctype html><html><body>");
    reveal_strlit("<p>");
    reveal_strlit("</p><!-- ");
    reveal_strlit("</p>");
    reveal_strlit("<!-- ");
    reveal_strlit(" --></body></html>");
    reveal_strlit(" -->");
    reveal_strlit("</body></html>");
    assert("<!doctype html><html><body><p>"@ =~= "<!doctype html><html><body>"@ + "<p>"@);
    assert("</p><!-- "@ =~= "</p>"@ + "<!-- "@);
    assert(" --></body></html>"@ =~= " -->"@ + "</body></html>"@);
    assert(cooldown_page(line, pad) =~= "<!doctype html><html><body>"@ + "<p>"@ + line + "</p>"@
        + "<!-- "@ + pad + " -->"@ + "</body></html>"@);
}

/// A page that challenges asks for patience, runs one script and holds the padding in a
/// comment. The script stores the token in the cookie for the configured lifetime and loads
/// the page again.
pub proof fn law_what_a_challenge_page_does(config: Config, token: Seq<char>, body: Seq<char>)
    requires
        is_challenge_page(config, token, body),
    ensures
        exists|pad: Seq<char>| #[trigger]
            padding(pad) && body == "<!doctype html><html><body>\n"@
                + "<p>One moment, please.</p>\n"@ + "<script>"@ + "document.cookie = \""@
                + config.challenge.cookie_name@ + "="@ + token + "; path=/"@ + "; max-age="@
                + decimal(config.challenge.cookie_ttl_secs as nat) + "; SameSite=Lax\";"@
                + " location.reload();"@ + "</script>\n"@ + "<!-- "@ + pad + " -->\n"@
                + "</body></html>"@,
{
    let name = config.challenge.cookie_name@;
    let ttl = config.challenge.cookie_ttl_secs;
    let pad = choose|pad: Seq<char>|
        padding(pad) && body == #[trigger] challenge_page(name, token, ttl, pad);
    reveal_strlit(
        "<!doctype html><html><body>\n<p>One moment, please.</p>\n<script>document.cookie = \"",
    );
    reveal_strlit("<!doctype html><html><body>\n");
    reveal_strlit("<p>One moment, please.</p>\n");
    reveal_strlit("<script>");
    reveal_strlit("document.cookie = \"");
    reveal_strlit("; path=/; max-age=");
    reveal_strlit("; path=/");
    reveal_strlit("; max-age=");
    reveal_strlit("; SameSite=Lax\"; location.reload();</script>\n<!-- ");
    reveal_strlit("; SameSite=Lax\";");
    reveal_strlit(" location.reload();");
    reveal_strlit("</script>\n");
    reveal_strlit("<!-- ");
    reveal_strlit(" -->\n</body></html>");
    reveal_strlit(" -->\n");
    reveal_strlit("</body></html>");
    let head =
        "<!doctype html><html><body>\n<p>One moment, please.</p>\n<script>document.cookie = \""@;
    let head_parts = "<!doctype html><html><body>\n"@ + "<p>One moment, please.</p>\n"@
        + "<script>"@ + "document.cookie = \""@;
    assert(head =~= head_parts);
    assert("; path=/; max-age="@ =~= "; path=/"@ + "; max-age="@);
    let mid = "; SameSite=Lax\"; location.reload();</script>\n<!-- "@;
    assert(mid =~= "; SameSite=Lax\";"@ + " location.reload();"@ + "</script>\n"@ + "<!-- "@);
    assert(" -->\n</body></html>"@ =~= " -->\n"@ + "</body></html>"@);
    let age = decimal(ttl as nat);
    let whole = head_parts + name + "="@ + token + "; path=/"@ + "; max-age="@ + age
        + "; SameSite=Lax\";"@ + " location.reload();"@ + "</script>\n"@ + "<!-- "@ + pad
        + " -->\n"@ + "</body></html>"@;
    assert(challenge_page(name, token, ttl, pad) =~= whole);
}

/// Pages with other lines, names, tokens, lifetimes and paddings handed in hold exactly those:
/// what is handed in is rendered as it is, and one more character of any of them is one more
/// character of the page.
pub proof fn law_pages_grow_with_what_is_handed_in(
    line: Seq<char>,
    name: Seq<char>,
    token: Seq<char>,
    ttl: u64,
    pad: Seq<char>,
)
    ensures
        cooldown_page(line, pad).len() == cooldown_page(Seq::empty(), Seq::empty()).len()
            + line.len() + pad.len(),
        stands_in(line, cooldown_page(line, pad)),
        stands_in(pad, cooldown_page(line, pad)),
        challenge_page(name, token, ttl, pad).len() == challenge_page(
            Seq::empty(),
            Seq::empty(),
            0,
            Seq::empty(),
        ).len() + name.len() + token.len() + decimal(ttl as nat).len() - 1 + pad.len(),
        stands_in(pad, challenge_page(name, token, ttl, pad)),
{
    let page = cooldown_page(line, pad);
    let at = "<!doctype html><html><body><p>"@.len() as int;
    assert(page.subrange(at, at + line.len()) =~= line);
    let behind = at + line.len() + "</p><!-- "@.len();
    assert(page.subrange(behind, behind + pad.len()) =~= pad);
    let other = challenge_page(name, token, ttl, pad);
    let tail = " -->\n</body></html>"@.len() as int;
    let from = other.len() - tail - pad.len();
    assert(other.subrange(from, from + pad.len()) =~= pad);
    assert(decimal(0).len() == 1);
}

} // verus!
