//! Forward-confirmed reverse DNS, as the decisions between one lookup and the next.
//!
//! The caller performs what a step asks for and hands the answer to [`verify_rdns`] until
//! the step is [`RdnsStep::Done`].
use vstd::prelude::*;

use crate::net::IpAddr;

verus! {

/// A host name that resolves back to the address it was found for.
#[derive(Clone, Debug, PartialEq, Eq)]
pub struct RdnsResult {
    pub hostname: String,
}

/// What is to be done next about an address.
#[derive(Clone, Debug, PartialEq, Eq)]
pub enum RdnsStep {
    /// Look the address up in the cache of earlier results.
    ReadCache,
    /// Ask for the host name of the address.
    ReverseLookup,
    /// Ask whether `hostname` resolves to the address.
    ForwardConfirm { hostname: String },
    /// Put `result` into the cache under the address.
    Store { result: Option<RdnsResult> },
    /// Nothing: `result` is the outcome.
    Done { result: Option<RdnsResult> },
}

/// What came back from a step.
#[derive(Clone, Debug, PartialEq, Eq)]
pub enum RdnsAnswer {
    /// What the cache holds: an earlier result, if there is one.
    Cached(Option<Option<RdnsResult>>),
    /// The host name of the address, if it has one.
    Pointer(Option<String>),
    /// Whether the host name resolves to the address.
    Confirmed(bool),
    /// The cache has the result.
    Stored,
}

/// The host name of an address among the `names` that it was looked up under: the first.
pub fn reverse_lookup(names: Vec<String>) -> (r: Option<String>)
    ensures
        r == (if names@.len() == 0 {
            None
        } else {
            Some(names@.first())
        }),
{
    let mut names = names;
    if names.len() == 0 {
        None
    } else {
        Some(names.swap_remove(0))
    }
}

/// Whether one of the addresses that a host name resolves to is `ip`.
pub fn forward_confirms(addresses: &Vec<IpAddr>, ip: IpAddr) -> (r: bool)
    ensures
        r == addresses@.contains(ip),
{
    let mut i: usize = 0;
    while i < addresses.len()
        invariant
            i <= addresses.len(),
            forall|j: int| 0 <= j < i ==> addresses@[j] != ip,
        decreases addresses.len() - i,
    {
        if addresses[i] == ip {
            assert(addresses@[i as int] == ip);
            return true;
        }
        i += 1;
    }
    false
}

/// The outcome that a host name and its confirmation give: the host name where it is
/// confirmed, and nothing otherwise.
pub open spec fn resolved(pointer: Option<String>, confirmed: bool) -> Option<RdnsResult> {
    match pointer {
        Some(hostname) => if confirmed {
            Some(RdnsResult { hostname })
        } else {
            None
        },
        None => None,
    }
}

/// The step that follows `step` once `answer` has come. An answer to another step than this
/// one changes nothing.
pub open spec fn next_step(step: RdnsStep, answer: RdnsAnswer) -> RdnsStep {
    match (step, answer) {
        (RdnsStep::ReadCache, RdnsAnswer::Cached(Some(result))) => RdnsStep::Done { result },
        (RdnsStep::ReadCache, RdnsAnswer::Cached(None)) => RdnsStep::ReverseLookup,
        (RdnsStep::ReverseLookup, RdnsAnswer::Pointer(Some(hostname))) => {
            RdnsStep::ForwardConfirm { hostname }
        },
        (RdnsStep::ReverseLookup, RdnsAnswer::Pointer(None)) => {
            RdnsStep::Store { result: resolved(None, false) }
        },
        (RdnsStep::ForwardConfirm { hostname }, RdnsAnswer::Confirmed(confirmed)) => {
            RdnsStep::Store { result: resolved(Some(hostname), confirmed) }
        },
        (RdnsStep::Store { result }, RdnsAnswer::Stored) => RdnsStep::Done { result },
        _ => step,
    }
}

/// The step that follows a lookup that the cache could not spare.
pub fn resolve_uncached(step: RdnsStep, answer: RdnsAnswer) -> (r: RdnsStep)
    requires
        step is ReverseLookup || step is ForwardConfirm,
    ensures
        r == next_step(step, answer),
{
    match (step, answer) {
        (RdnsStep::ReverseLookup, RdnsAnswer::Pointer(Some(hostname))) => {
            RdnsStep::ForwardConfirm { hostname }
        },
        (RdnsStep::ReverseLookup, RdnsAnswer::Pointer(None)) => RdnsStep::Store { result: None },
        (RdnsStep::ForwardConfirm { hostname }, RdnsAnswer::Confirmed(confirmed)) => {
            if confirmed {
                RdnsStep::Store { result: Some(RdnsResult { hostname }) }
            } else {
                RdnsStep::Store { result: None }
            }
        },
        (step, _) => step,
    }
}

/// The step that follows `step` once `answer` has come. The outcome is a host name only
/// where that name was confirmed to resolve back to the address, or an earlier outcome was
/// still in the cache.
pub fn verify_rdns(step: RdnsStep, answer: RdnsAnswer) -> (r: RdnsStep)
    ensures
        r == next_step(step, answer),
{
    match (step, answer) {
        (RdnsStep::ReadCache, RdnsAnswer::Cached(Some(result))) => RdnsStep::Done { result },
        (RdnsStep::ReadCache, RdnsAnswer::Cached(None)) => RdnsStep::ReverseLookup,
        (RdnsStep::Store { result }, RdnsAnswer::Stored) => RdnsStep::Done { result },
        (RdnsStep::ReverseLookup, answer) => resolve_uncached(RdnsStep::ReverseLookup, answer),
        (RdnsStep::ForwardConfirm { hostname }, answer) => {
            resolve_uncached(RdnsStep::ForwardConfirm { hostname }, answer)
        },
        (step, _) => step,
    }
}

/// The step that `answers`, handed over one after the other, lead to from `step`.
pub open spec fn run(step: RdnsStep, answers: Seq<RdnsAnswer>) -> RdnsStep
    decreases answers.len(),
{
    if answers.len() == 0 {
        step
    } else {
        run(next_step(step, answers.first()), answers.drop_first())
    }
}

/// A result in the cache is the outcome, and no lookup is made for it.
pub proof fn law_a_cached_result_is_the_outcome(result: Option<RdnsResult>)
    ensures
        next_step(RdnsStep::ReadCache, RdnsAnswer::Cached(Some(result))) == (RdnsStep::Done {
            result,
        }),
{
}

/// Without a result in the cache, an address without a host name is untrusted, and that is
/// what the cache is given.
pub proof fn law_no_host_name_is_untrusted()
    ensures
        run(
            RdnsStep::ReadCache,
            seq![RdnsAnswer::Cached(None), RdnsAnswer::Pointer(None)],
        ) == (RdnsStep::Store { result: None }),
        run(
            RdnsStep::ReadCache,
            seq![RdnsAnswer::Cached(None), RdnsAnswer::Pointer(None), RdnsAnswer::Stored],
        ) == (RdnsStep::Done { result: None }),
{
    let stored = seq![RdnsAnswer::Cached(None), RdnsAnswer::Pointer(None)];
    let done = stored.push(RdnsAnswer::Stored);
    assert(stored.drop_first() =~= seq![RdnsAnswer::Pointer(None)]);
    assert(done =~= seq![RdnsAnswer::Cached(None), RdnsAnswer::Pointer(None), RdnsAnswer::Stored]);
    assert(done.drop_first() =~= seq![RdnsAnswer::Pointer(None), RdnsAnswer::Stored]);
    assert(done.drop_first().drop_first() =~= seq![RdnsAnswer::Stored]);
    reveal_with_fuel(run, 4);
}

/// Without a result in the cache, a host name is trusted exactly where it resolves back to
/// the address, and the outcome is what the cache is given.
pub proof fn law_a_host_name_is_trusted_where_confirmed(hostname: String, confirmed: bool)
    ensures
        run(
            RdnsStep::ReadCache,
            seq![
                RdnsAnswer::Cached(None),
                RdnsAnswer::Pointer(Some(hostname)),
                RdnsAnswer::Confirmed(confirmed),
            ],
        ) == (RdnsStep::Store { result: resolved(Some(hostname), confirmed) }),
        run(
            RdnsStep::ReadCache,
            seq![
                RdnsAnswer::Cached(None),
                RdnsAnswer::Pointer(Some(hostname)),
                RdnsAnswer::Confirmed(confirmed),
                RdnsAnswer::Stored,
            ],
        ) == (RdnsStep::Done { result: resolved(Some(hostname), confirmed) }),
{
    let a = RdnsAnswer::Cached(None);
    let b = RdnsAnswer::Pointer(Some(hostname));
    let c = RdnsAnswer::Confirmed(confirmed);
    let d = RdnsAnswer::Stored;
    assert(seq![a, b, c].drop_first() =~= seq![b, c]);
    assert(seq![b, c].drop_first() =~= seq![c]);
    assert(seq![a, b, c, d].drop_first() =~= seq![b, c, d]);
    assert(seq![b, c, d].drop_first() =~= seq![c, d]);
    assert(seq![c, d].drop_first() =~= seq![d]);
    reveal_with_fuel(run, 5);
}

/// No run of answers leads to a trusted host name unless the cache held it or the run holds
/// its confirmation.
pub proof fn law_trust_needs_the_cache_or_a_confirmation(answers: Seq<RdnsAnswer>, host: RdnsResult)
    requires
        run(RdnsStep::ReadCache, answers) == (RdnsStep::Done { result: Some(host) }),
    ensures
        answers.contains(RdnsAnswer::Cached(Some(Some(host)))) || (answers.contains(
            RdnsAnswer::Pointer(Some(host.hostname)),
        ) && answers.contains(RdnsAnswer::Confirmed(true))),
{
    lemma_trusted_run(RdnsStep::ReadCache, answers, host);
}

/// What a run that ends in a trusted host name holds, by the step it starts from.
proof fn lemma_trusted_run(step: RdnsStep, answers: Seq<RdnsAnswer>, host: RdnsResult)
    requires
        run(step, answers) == (RdnsStep::Done { result: Some(host) }),
    ensures
        step matches RdnsStep::Done { result } ==> result == Some(host),
        step matches RdnsStep::Store { result } ==> result == Some(host),
        step matches RdnsStep::ForwardConfirm { hostname } ==> hostname == host.hostname
            && answers.contains(RdnsAnswer::Confirmed(true)),
        step is ReverseLookup ==> answers.contains(RdnsAnswer::Pointer(Some(host.hostname)))
            && answers.contains(RdnsAnswer::Confirmed(true)),
        step is ReadCache ==> answers.contains(RdnsAnswer::Cached(Some(Some(host)))) || (
        answers.contains(RdnsAnswer::Pointer(Some(host.hostname))) && answers.contains(
            RdnsAnswer::Confirmed(true),
        )),
    decreases answers.len(),
{
    if answers.len() > 0 {
        let first = answers.first();
        let rest = answers.drop_first();
        lemma_trusted_run(next_step(step, first), rest, host);
        assert(answers[0] == first);
        assert(answers.contains(first));
        assert forall|x: RdnsAnswer| rest.contains(x) implies answers.contains(x) by {
            let i = choose|i: int| 0 <= i < rest.len() && rest[i] == x;
            assert(answers[i + 1] == x);
        }
    }
}

/// Every host name that resolves back to the address is the outcome, whatever the name, and
/// every other one leaves the address untrusted; the cache is given the outcome in both
/// cases.
pub proof fn law_a_confirmed_host_name_is_the_outcome(hostname: String)
    ensures
        run(
            RdnsStep::ReadCache,
            seq![
                RdnsAnswer::Cached(None),
                RdnsAnswer::Pointer(Some(hostname)),
                RdnsAnswer::Confirmed(true),
            ],
        ) == (RdnsStep::Store { result: Some(RdnsResult { hostname }) }),
        run(
            RdnsStep::ReadCache,
            seq![
                RdnsAnswer::Cached(None),
                RdnsAnswer::Pointer(Some(hostname)),
                RdnsAnswer::Confirmed(true),
                RdnsAnswer::Stored,
            ],
        ) == (RdnsStep::Done { result: Some(RdnsResult { hostname }) }),
        run(
            RdnsStep::ReadCache,
            seq![
                RdnsAnswer::Cached(None),
                RdnsAnswer::Pointer(Some(hostname)),
                RdnsAnswer::Confirmed(false),
            ],
        ) == (RdnsStep::Store { result: None }),
        run(
            RdnsStep::ReadCache,
            seq![
                RdnsAnswer::Cached(None),
                RdnsAnswer::Pointer(Some(hostname)),
                RdnsAnswer::Confirmed(false),
                RdnsAnswer::Stored,
            ],
        ) == (RdnsStep::Done { result: None }),
{
    law_a_host_name_is_trusted_where_confirmed(hostname, true);
    law_a_host_name_is_trusted_where_confirmed(hostname, false);
}

/// Each step is followed by the next one when its own answer comes: the lookup only where the
/// cache holds nothing, the confirmation of exactly the name that was found, and the end only
/// when the cache has the outcome.
pub proof fn law_steps_follow_one_another(
    hostname: String,
    confirmed: bool,
    result: Option<RdnsResult>,
)
    ensures
        next_step(RdnsStep::ReadCache, RdnsAnswer::Cached(None)) == RdnsStep::ReverseLookup,
        next_step(RdnsStep::ReadCache, RdnsAnswer::Cached(Some(result))) == (RdnsStep::Done {
            result,
        }),
        next_step(RdnsStep::ReverseLookup, RdnsAnswer::Pointer(Some(hostname))) == (
        RdnsStep::ForwardConfirm { hostname }),
        next_step(RdnsStep::ReverseLookup, RdnsAnswer::Pointer(None)) == (RdnsStep::Store {
            result: None,
        }),
        next_step(RdnsStep::ForwardConfirm { hostname }, RdnsAnswer::Confirmed(true)) == (
        RdnsStep::Store { result: Some(RdnsResult { hostname }) }),
        next_step(RdnsStep::ForwardConfirm { hostname }, RdnsAnswer::Confirmed(false)) == (
        RdnsStep::Store { result: None }),
        next_step(RdnsStep::Store { result }, RdnsAnswer::Stored) == (RdnsStep::Done { result }),
{
}

/// An answer to another step changes nothing, and neither does any answer after the end.
pub proof fn law_other_answers_change_nothing(step: RdnsStep, answer: RdnsAnswer)
    requires
        !(step is ReadCache && answer is Cached),
        !(step is ReverseLookup && answer is Pointer),
        !(step is ForwardConfirm && answer is Confirmed),
        !(step is Store && answer is Stored),
    ensures
        next_step(step, answer) == step,
{
}

/// What the machine does with an answer is what the step calls for, whichever function takes
/// the answer.
pub proof fn law_lookups_are_taken_alike(
    step: RdnsStep,
    answer: RdnsAnswer,
    r: RdnsStep,
    uncached: RdnsStep,
)
    requires
        call_ensures(verify_rdns, (step, answer), r),
        step is ReverseLookup || step is ForwardConfirm ==> call_ensures(
            resolve_uncached,
            (step, answer),
            uncached,
        ),
    ensures
        r == run(step, seq![answer]),
        step is ReverseLookup || step is ForwardConfirm ==> uncached == r,
{
    assert(seq![answer].drop_first() =~= Seq::<RdnsAnswer>::empty());
    reveal_with_fuel(run, 2);
}

/// The first name of an address counts, and any of the addresses that a name resolves to.
pub proof fn law_the_first_name_and_any_address_count(
    names: Vec<String>,
    name: Option<String>,
    addresses: Vec<IpAddr>,
    ip: IpAddr,
    confirmed: bool,
    i: int,
)
    requires
        call_ensures(reverse_lookup, (names,), name),
        call_ensures(forward_confirms, (&addresses, ip), confirmed),
    ensures
        names@.len() > 0 ==> name == Some(names@[0]),
        names@.len() == 0 ==> name is None,
        0 <= i < addresses@.len() && addresses@[i] == ip ==> confirmed,
        confirmed ==> exists|j: int| 0 <= j < addresses@.len() && #[trigger] addresses@[j] == ip,
{
}

} // verus!
