//! Which known bot an address or a host name belongs to.
use vstd::prelude::*;

use crate::config::{BotPoolConfig, Config};
use crate::net::{any_contains, in_network, IpAddr};
use crate::text::{ascii_lower, ascii_lowered, ends_in, folded_host, without_trailing};

verus! {

/// `ip` lies in one of the networks of `pool`.
pub open spec fn pool_holds(pool: BotPoolConfig, ip: IpAddr) -> bool {
    exists|i: int| 0 <= i < pool.cidrs@.len() && (#[trigger] pool.cidrs@[i]).holds(ip)
}

/// A host name as it is compared: without the dots at its end, in lower case.
pub open spec fn host_form(host: Seq<char>) -> Seq<char> {
    ascii_lowered(without_trailing(host, '.'))
}

/// The host `host` is the domain `domain` or lies below it.
pub open spec fn within_domain(host: Seq<char>, domain: Seq<char>) -> bool {
    ||| host_form(host) == host_form(domain)
    ||| ends_in(host_form(host), seq!['.'] + host_form(domain))
}

/// `host` is named in the domain of `pool`.
pub open spec fn pool_names(pool: BotPoolConfig, host: Seq<char>) -> bool {
    within_domain(host, pool.rdns_suffix@)
}

/// Of a pool: that `ip` lies in one of its networks.
pub open spec fn holding(ip: IpAddr) -> spec_fn(BotPoolConfig) -> bool {
    |pool: BotPoolConfig| pool_holds(pool, ip)
}

/// Of a pool: that `host` is named in its domain.
pub open spec fn naming(host: Seq<char>) -> spec_fn(BotPoolConfig) -> bool {
    |pool: BotPoolConfig| pool_names(pool, host)
}

/// `i` is the position of the first pool of `pools` that `matching` holds of.
pub open spec fn first_pool(
    pools: Seq<(Seq<char>, BotPoolConfig)>,
    matching: spec_fn(BotPoolConfig) -> bool,
    i: int,
) -> bool {
    &&& 0 <= i < pools.len()
    &&& matching(pools[i].1)
    &&& forall|j: int| 0 <= j < i ==> !matching((#[trigger] pools[j]).1)
}

/// `matching` holds of one of `pools`.
pub open spec fn some_pool(
    pools: Seq<(Seq<char>, BotPoolConfig)>,
    matching: spec_fn(BotPoolConfig) -> bool,
) -> bool {
    exists|i: int| 0 <= i < pools.len() && matching((#[trigger] pools[i]).1)
}

/// `ip` lies in a network of a known bot.
pub open spec fn in_known_pool(config: Config, ip: IpAddr) -> bool {
    some_pool(config.bot_pools@, holding(ip))
}

/// `host` is named in the domain of a known bot.
pub open spec fn in_known_domain(config: Config, host: Seq<char>) -> bool {
    some_pool(config.bot_pools@, naming(host))
}

/// The name of the bot whose networks `ip` lies in: the first one, in the order of the
/// settings.
pub fn pool_for_ip(config: &Config, ip: IpAddr) -> (r: Option<&str>)
    ensures
        match r {
            Some(name) => exists|i: int| #[trigger]
                first_pool(config.bot_pools@, holding(ip), i)
                    && name@ == config.bot_pools@[i].0,
            None => !in_known_pool(*config, ip),
        },
        r is Some <==> in_known_pool(*config, ip),
{
    let ghost matching = holding(ip);
    let mut i: usize = 0;
    while i < config.bot_pools.len()
        invariant
            i <= config.bot_pools@.len(),
            matching == holding(ip),
            forall|j: int| 0 <= j < i ==> !matching((#[trigger] config.bot_pools@[j]).1),
        decreases config.bot_pools@.len() - i,
    {
        if any_contains(&config.bot_pools.value_at(i).cidrs, ip) {
            assert(matching(config.bot_pools@[i as int].1));
            assert(first_pool(config.bot_pools@, matching, i as int));
            return Some(config.bot_pools.name_at(i));
        }
        i = i + 1;
    }
    None
}

/// Whether the host `host`, in the form that is compared, is the domain `domain` or lies
/// below it.
fn lies_within(host: &Vec<char>, domain: &Vec<char>) -> (r: bool)
    ensures
        r == (host@ == domain@ || ends_in(host@, seq!['.'] + domain@)),
{
    if host.len() < domain.len() {
        return false;
    }
    let len: usize = host.len();
    let start: usize = len - domain.len();
    let ghost tail = host@.skip(start as int);
    let mut i: usize = 0;
    while i < domain.len()
        invariant
            i <= domain@.len(),
            len == host@.len(),
            start + domain@.len() == len,
            forall|j: int| 0 <= j < i ==> host@[start + j] == #[trigger] domain@[j],
        decreases domain@.len() - i,
    {
        if host[start + i] != domain[i] {
            assert(host@ != domain@);
            proof {
                let dotted = seq!['.'] + domain@;
                if ends_in(host@, dotted) {
                    assert(host@.skip(host@.len() - dotted.len())[i + 1] == dotted[i + 1]);
                }
            }
            return false;
        }
        i = i + 1;
    }
    assert(tail =~= domain@);
    if start == 0 {
        assert(host@ =~= domain@);
        return true;
    }
    let ghost dotted = seq!['.'] + domain@;
    proof {
        if host@[start - 1] == '.' {
            assert(host@.skip(start - 1) =~= dotted);
        } else if ends_in(host@, dotted) {
            assert(host@.skip(start - 1)[0] == dotted[0]);
        }
    }
    host[start - 1] == '.'
}

/// The name of the bot whose domain `hostname` is named in: the first one, in the order of
/// the settings.
pub fn pool_for_rdns_suffix<'a>(config: &'a Config, hostname: &str) -> (r: Option<&'a str>)
    ensures
        match r {
            Some(name) => exists|i: int| #[trigger]
                first_pool(config.bot_pools@, naming(hostname@), i)
                    && name@ == config.bot_pools@[i].0,
            None => !in_known_domain(*config, hostname@),
        },
        r is Some <==> in_known_domain(*config, hostname@),
{
    let host: Vec<char> = folded_host(hostname);
    let ghost matching = naming(hostname@);
    let mut i: usize = 0;
    while i < config.bot_pools.len()
        invariant
            i <= config.bot_pools@.len(),
            host@ == host_form(hostname@),
            matching == naming(hostname@),
            forall|j: int| 0 <= j < i ==> !matching((#[trigger] config.bot_pools@[j]).1),
        decreases config.bot_pools@.len() - i,
    {
        let domain: Vec<char> = folded_host(config.bot_pools.value_at(i).rdns_suffix.as_str());
        if lies_within(&host, &domain) {
            assert(matching(config.bot_pools@[i as int].1));
            assert(first_pool(config.bot_pools@, matching, i as int));
            return Some(config.bot_pools.name_at(i));
        }
        i = i + 1;
    }
    None
}

/// Folding the letters of a folded text changes nothing.
proof fn lemma_lowered_twice(s: Seq<char>)
    ensures
        ascii_lowered(ascii_lowered(s)) == ascii_lowered(s),
{
    assert(ascii_lowered(ascii_lowered(s)) =~= ascii_lowered(s));
}

/// Dropping the dots at the end and folding the letters can be done in either order.
proof fn lemma_without_trailing_lowered(s: Seq<char>)
    ensures
        without_trailing(ascii_lowered(s), '.') == ascii_lowered(without_trailing(s, '.')),
    decreases s.len(),
{
    let low = ascii_lowered(s);
    if s.len() > 0 {
        assert(low.last() == ascii_lower(s.last()));
        if s.last() == '.' {
            assert(low.drop_last() =~= ascii_lowered(s.drop_last()));
            lemma_without_trailing_lowered(s.drop_last());
        }
    }
}

/// A text that does not end in a dot is compared with its letters folded and nothing more.
proof fn lemma_host_form_undotted(s: Seq<char>)
    requires
        s.len() > 0,
        s.last() != '.',
    ensures
        host_form(s) == ascii_lowered(s),
{
}

/// A dot at the end of a host name changes no match.
pub proof fn law_trailing_dot_is_ignored(host: Seq<char>, domain: Seq<char>)
    ensures
        within_domain(host.push('.'), domain) == within_domain(host, domain),
        within_domain(host, domain.push('.')) == within_domain(host, domain),
{
    assert(host.push('.').drop_last() =~= host);
    assert(domain.push('.').drop_last() =~= domain);
}

/// Upper and lower case letters match alike.
pub proof fn law_case_is_ignored(host: Seq<char>, domain: Seq<char>)
    ensures
        within_domain(ascii_lowered(host), domain) == within_domain(host, domain),
        within_domain(host, ascii_lowered(domain)) == within_domain(host, domain),
{
    lemma_without_trailing_lowered(host);
    lemma_lowered_twice(without_trailing(host, '.'));
    lemma_without_trailing_lowered(domain);
    lemma_lowered_twice(without_trailing(domain, '.'));
}

/// A domain lies within itself, and so does every name below it.
pub proof fn law_names_below_a_domain_match(label: Seq<char>, domain: Seq<char>)
    requires
        domain.len() > 0,
        domain.last() != '.',
    ensures
        within_domain(domain, domain),
        within_domain(label + seq!['.'] + domain, domain),
{
    let host = label + seq!['.'] + domain;
    lemma_host_form_undotted(domain);
    assert(host.last() == domain.last());
    lemma_host_form_undotted(host);
    let dotted = seq!['.'] + host_form(domain);
    assert(host_form(host).skip(host.len() - dotted.len()) =~= dotted);
}

/// A name that only ends in the letters of a domain, without a dot before them, does not
/// match.
pub proof fn law_a_bare_suffix_does_not_match(front: Seq<char>, domain: Seq<char>)
    requires
        domain.len() > 0,
        domain.last() != '.',
        front.len() > 0,
        front.last() != '.',
    ensures
        !within_domain(front + domain, domain),
{
    let host = front + domain;
    lemma_host_form_undotted(domain);
    assert(host.last() == domain.last());
    lemma_host_form_undotted(host);
    let dotted = seq!['.'] + host_form(domain);
    let at = host.len() - dotted.len();
    if ends_in(host_form(host), dotted) {
        assert(host_form(host).skip(at)[0] == dotted[0]);
        assert(host_form(host)[at] == ascii_lower(front.last()));
    }
}

/// Every network of every known bot counts: where one of them holds an address, a bot is
/// found for it. The bot that is found has a network that holds the address, and no bot
/// before it in the settings has one.
pub proof fn law_every_network_of_a_bot_counts(
    config: Config,
    ip: IpAddr,
    i: int,
    k: int,
    r: Option<&str>,
)
    requires
        call_ensures(pool_for_ip, (&config, ip), r),
    ensures
        0 <= i < config.bot_pools@.len() && 0 <= k < config.bot_pools@[i].1.cidrs@.len()
            && in_network(
            config.bot_pools@[i].1.cidrs@[k].address(),
            config.bot_pools@[i].1.cidrs@[k].prefix(),
            ip,
        ) ==> r is Some && in_known_pool(config, ip),
        r is Some <==> in_known_pool(config, ip),
        r matches Some(name) ==> exists|at: int, by: int|
            0 <= at < config.bot_pools@.len() && name@ == config.bot_pools@[at].0 && 0 <= by
                < config.bot_pools@[at].1.cidrs@.len() && in_network(
                (#[trigger] config.bot_pools@[at].1.cidrs@[by]).address(),
                config.bot_pools@[at].1.cidrs@[by].prefix(),
                ip,
            ) && forall|before: int, other: int|
                0 <= before < at && 0 <= other < config.bot_pools@[before].1.cidrs@.len()
                    ==> !in_network(
                    (#[trigger] config.bot_pools@[before].1.cidrs@[other]).address(),
                    config.bot_pools@[before].1.cidrs@[other].prefix(),
                    ip,
                ),
{
    let pools = config.bot_pools@;
    let matching = holding(ip);
    if 0 <= i < pools.len() && 0 <= k < pools[i].1.cidrs@.len() && in_network(
        pools[i].1.cidrs@[k].address(),
        pools[i].1.cidrs@[k].prefix(),
        ip,
    ) {
        assert(pools[i].1.cidrs@[k].holds(ip));
        assert(matching(pools[i].1));
    }
    if let Some(name) = r {
        let at = choose|at: int| #[trigger]
            first_pool(pools, matching, at) && name@ == pools[at].0;
        let by = choose|by: int|
            0 <= by < pools[at].1.cidrs@.len() && (#[trigger] pools[at].1.cidrs@[by]).holds(ip);
        assert forall|before: int, other: int|
            0 <= before < at && 0 <= other < pools[before].1.cidrs@.len() implies !in_network(
            (#[trigger] pools[before].1.cidrs@[other]).address(),
            pools[before].1.cidrs@[other].prefix(),
            ip,
        ) by {
            assert(!matching(pools[before].1));
            assert(!pools[before].1.cidrs@[other].holds(ip));
        }
        assert(pools[at].1.cidrs@[by].holds(ip));
    }
}

/// Every known bot counts by its domain: where a host is named in one of the domains, a bot
/// is found for it. The bot that is found has such a domain, and no bot before it in the
/// settings has one.
pub proof fn law_every_domain_of_a_bot_counts(
    config: Config,
    hostname: &str,
    i: int,
    r: Option<&str>,
)
    requires
        call_ensures(pool_for_rdns_suffix, (&config, hostname), r),
    ensures
        0 <= i < config.bot_pools@.len() && within_domain(
            hostname@,
            config.bot_pools@[i].1.rdns_suffix@,
        ) ==> r is Some && in_known_domain(config, hostname@),
        r is Some <==> in_known_domain(config, hostname@),
        r matches Some(name) ==> exists|at: int|
            0 <= at < config.bot_pools@.len() && name@ == (#[trigger] config.bot_pools@[at]).0
                && within_domain(hostname@, config.bot_pools@[at].1.rdns_suffix@) && forall|
                before: int,
            |
                0 <= before < at ==> !within_domain(
                    hostname@,
                    (#[trigger] config.bot_pools@[before]).1.rdns_suffix@,
                ),
{
    let pools = config.bot_pools@;
    let matching = naming(hostname@);
    if 0 <= i < pools.len() && within_domain(hostname@, pools[i].1.rdns_suffix@) {
        assert(matching(pools[i].1));
    }
    if let Some(name) = r {
        let at = choose|at: int| #[trigger]
            first_pool(pools, matching, at) && name@ == pools[at].0;
        assert forall|before: int| 0 <= before < at implies !within_domain(
            hostname@,
            (#[trigger] pools[before]).1.rdns_suffix@,
        ) by {
            assert(!matching(pools[before].1));
        }
        assert(pools[at].1.rdns_suffix@ == pools[at].1.rdns_suffix@);
    }
}

/// Of names in small letters without a dot at the end, those within a domain are the domain
/// itself and what stands before a dot and the domain, and no others.
pub proof fn law_only_the_domain_and_names_below_it_match(host: Seq<char>, domain: Seq<char>)
    requires
        ascii_lowered(host) == host,
        ascii_lowered(domain) == domain,
        host.len() > 0 ==> host.last() != '.',
        domain.len() > 0 ==> domain.last() != '.',
    ensures
        within_domain(host, domain) <==> host == domain || exists|label: Seq<char>|
            host == #[trigger] (label + (seq!['.'] + domain)),
{
    assert(host_form(host) == host);
    assert(host_form(domain) == domain);
    let dotted = seq!['.'] + domain;
    if ends_in(host, dotted) {
        let label = host.take(host.len() - dotted.len());
        assert(host =~= label + dotted);
    }
    if exists|label: Seq<char>| host == #[trigger] (label + dotted) {
        let label = choose|label: Seq<char>| host == #[trigger] (label + dotted);
        assert(host.skip(host.len() - dotted.len()) =~= dotted);
    }
}

/// Any number of dots at the end of a host name or a domain changes no match.
pub proof fn law_trailing_dots_are_ignored(host: Seq<char>, domain: Seq<char>, dots: Seq<char>)
    requires
        forall|i: int| 0 <= i < dots.len() ==> #[trigger] dots[i] == '.',
    ensures
        within_domain(host + dots, domain) == within_domain(host, domain),
        within_domain(host, domain + dots) == within_domain(host, domain),
    decreases dots.len(),
{
    if dots.len() > 0 {
        let fewer = dots.drop_last();
        law_trailing_dots_are_ignored(host, domain, fewer);
        assert(dots[dots.len() - 1] == '.');
        assert(host + dots =~= (host + fewer).push('.'));
        assert(domain + dots =~= (domain + fewer).push('.'));
        law_trailing_dot_is_ignored(host + fewer, domain);
        law_trailing_dot_is_ignored(host, domain + fewer);
    } else {
        assert(host + dots =~= host);
        assert(domain + dots =~= domain);
    }
}

} // verus!
