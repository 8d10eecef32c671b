use std::collections::HashMap;

use counterparser::dns::{
    forward_confirms, resolve_uncached, reverse_lookup, verify_rdns, RdnsAnswer, RdnsResult,
    RdnsStep,
};
use counterparser::net::IpAddr;

/// A resolver whose answers are hardcoded per test, with no network access.
#[derive(Default)]
struct FakeResolver {
    ptr: HashMap<IpAddr, String>,
    forward: HashMap<String, Vec<IpAddr>>,
}

type RdnsCache = HashMap<IpAddr, Option<RdnsResult>>;

fn look_up(resolver: &FakeResolver, cache: &mut RdnsCache, ip: IpAddr) -> Option<RdnsResult> {
    let mut step = RdnsStep::ReadCache;
    loop {
        let answer = match &step {
            RdnsStep::ReadCache => RdnsAnswer::Cached(cache.get(&ip).cloned()),
            RdnsStep::ReverseLookup => {
                RdnsAnswer::Pointer(reverse_lookup(resolver.ptr.get(&ip).cloned().into_iter().collect()))
            }
            RdnsStep::ForwardConfirm { hostname } => RdnsAnswer::Confirmed(
                resolver
                    .forward
                    .get(hostname)
                    .is_some_and(|ips| forward_confirms(ips, ip)),
            ),
            RdnsStep::Store { result } => {
                cache.insert(ip, result.clone());
                RdnsAnswer::Stored
            }
            RdnsStep::Done { result } => return result.clone(),
        };
        step = verify_rdns(step, answer);
    }
}

fn ip(s: &str) -> IpAddr {
    IpAddr::parse(s).unwrap()
}

#[test]
fn forward_confirmed_ptr_is_trusted() {
    let ip = ip("66.249.64.10");
    let mut resolver = FakeResolver::default();
    resolver
        .ptr
        .insert(ip, "crawl-66-249-64-10.googlebot.com".to_string());
    resolver
        .forward
        .insert("crawl-66-249-64-10.googlebot.com".to_string(), vec![ip]);

    let mut cache = RdnsCache::new();
    let result = look_up(&resolver, &mut cache, ip);
    assert_eq!(
        result,
        Some(RdnsResult {
            hostname: "crawl-66-249-64-10.googlebot.com".to_string()
        })
    );
}

#[test]
fn mismatched_forward_lookup_is_untrusted() {
    let other = ip("9.9.9.9");
    let ip = ip("1.2.3.4");
    let mut resolver = FakeResolver::default();
    resolver.ptr.insert(ip, "spoofed.googlebot.com".to_string());
    // Forward lookup of the claimed hostname resolves elsewhere, not back to `ip`.
    resolver
        .forward
        .insert("spoofed.googlebot.com".to_string(), vec![other]);

    let mut cache = RdnsCache::new();
    let result = look_up(&resolver, &mut cache, ip);
    assert_eq!(result, None);
}

#[test]
fn missing_ptr_is_untrusted() {
    let ip = ip("5.6.7.8");
    let resolver = FakeResolver::default();
    let mut cache = RdnsCache::new();
    let result = look_up(&resolver, &mut cache, ip);
    assert_eq!(result, None);
}

#[test]
fn result_is_cached() {
    let ip = ip("66.249.64.10");
    let mut resolver = FakeResolver::default();
    resolver.ptr.insert(ip, "host.googlebot.com".to_string());
    resolver
        .forward
        .insert("host.googlebot.com".to_string(), vec![ip]);

    let mut cache = RdnsCache::new();
    let first = look_up(&resolver, &mut cache, ip);
    // Remove the PTR record; a cache hit should still return the earlier result.
    let resolver2 = FakeResolver {
        forward: resolver.forward,
        ..Default::default()
    };
    let second = look_up(&resolver2, &mut cache, ip);
    assert_eq!(first, second);
    assert!(second.is_some());
}

#[test]
fn an_untrusted_outcome_is_cached_too() {
    let ip = ip("5.6.7.8");
    let mut cache = RdnsCache::new();
    assert_eq!(look_up(&FakeResolver::default(), &mut cache, ip), None);
    assert_eq!(cache.get(&ip), Some(&None));
    let mut resolver = FakeResolver::default();
    resolver.ptr.insert(ip, "late.example.com".to_string());
    resolver.forward.insert("late.example.com".to_string(), vec![ip]);
    assert_eq!(look_up(&resolver, &mut cache, ip), None);
}

#[test]
fn steps_follow_their_answers() {
    let host = RdnsResult {
        hostname: "a.example".to_string(),
    };
    assert_eq!(
        verify_rdns(RdnsStep::ReadCache, RdnsAnswer::Cached(Some(Some(host.clone())))),
        RdnsStep::Done {
            result: Some(host.clone())
        }
    );
    assert_eq!(
        verify_rdns(RdnsStep::ReadCache, RdnsAnswer::Cached(None)),
        RdnsStep::ReverseLookup
    );
    assert_eq!(
        resolve_uncached(
            RdnsStep::ReverseLookup,
            RdnsAnswer::Pointer(Some("a.example".to_string()))
        ),
        RdnsStep::ForwardConfirm {
            hostname: "a.example".to_string()
        }
    );
    assert_eq!(
        resolve_uncached(
            RdnsStep::ForwardConfirm {
                hostname: "a.example".to_string()
            },
            RdnsAnswer::Confirmed(true)
        ),
        RdnsStep::Store {
            result: Some(host.clone())
        }
    );
    assert_eq!(
        verify_rdns(RdnsStep::Store { result: None }, RdnsAnswer::Stored),
        RdnsStep::Done { result: None }
    );
    // An answer that was not asked for changes nothing.
    assert_eq!(
        verify_rdns(RdnsStep::ReverseLookup, RdnsAnswer::Confirmed(true)),
        RdnsStep::ReverseLookup
    );
}

#[test]
fn the_first_name_and_any_address_count() {
    assert_eq!(reverse_lookup(vec![]), None);
    assert_eq!(
        reverse_lookup(vec!["a".to_string(), "b".to_string(), "c".to_string()]),
        Some("a".to_string())
    );
    assert!(forward_confirms(&vec![ip("1.1.1.1"), ip("::1")], ip("::1")));
    assert!(!forward_confirms(&vec![ip("1.1.1.1"), ip("::1")], ip("::2")));
    assert!(!forward_confirms(&vec![], ip("::2")));
}
