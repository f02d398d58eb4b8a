//! One run of the confirmation engine: the observers' answers are folded into
//! a weighted tally per address, and the tally is held against the
//! confirmation number.

use vstd::prelude::*;
use crate::args::ConfigError;
use crate::ip::IpLiteral;
use crate::ipmap::{lemma_entry_is_mapped, IpMap};
use crate::ipset::IpSet;
use crate::ndhcp::providers::{HttpProvider, HttpProviders};
use crate::ndhcp::trust_factor::TrustFactorAuthority;

verus! {

/// Why an observer gave no usable answer.
#[derive(Clone, Debug, PartialEq, Eq)]
pub enum ObserverError {
    /// The request did not come back.
    Transport(String),
    /// The answer did not have the shape the observer is known for.
    Decode(String),
    /// The candidate address is not publicly reachable, so no request was spent on it.
    NonPublic(IpLiteral),
}

/// What one observer answered: the address it saw, or why there is none.
pub type Outcome = Result<IpLiteral, ObserverError>;

/// The weight that the answers from place `from` on give to `ip`.
pub open spec fn votes_from(weights: Seq<usize>, outcomes: Seq<Outcome>, ip: IpLiteral, from: int) -> nat
    decreases outcomes.len() - from,
{
    if from < 0 || from >= outcomes.len() {
        0
    } else {
        let vote: nat = if outcomes[from] == Ok::<IpLiteral, ObserverError>(ip) {
            weights[from] as nat
        } else {
            0
        };
        vote + votes_from(weights, outcomes, ip, from + 1)
    }
}

/// The accumulated weight of `ip`: the sum of the weights of the observers
/// that answered with it.
pub open spec fn votes(weights: Seq<usize>, outcomes: Seq<Outcome>, ip: IpLiteral) -> nat {
    votes_from(weights, outcomes, ip, 0)
}

/// Some observer from place `from` on answered with `ip`.
pub open spec fn voted_from(outcomes: Seq<Outcome>, ip: IpLiteral, from: int) -> bool {
    exists|i: int| from <= i < outcomes.len() && #[trigger] outcomes[i] == Ok::<IpLiteral, ObserverError>(ip)
}

/// Some observer answered with `ip`.
pub open spec fn voted(outcomes: Seq<Outcome>, ip: IpLiteral) -> bool {
    voted_from(outcomes, ip, 0)
}

/// The observers from place `from` on that failed, each with its error, in
/// the order in which they were asked.
pub open spec fn failures_from(providers: Seq<HttpProvider>, outcomes: Seq<Outcome>, from: int) -> Seq<
    (HttpProvider, ObserverError),
>
    decreases outcomes.len() - from,
{
    if from < 0 || from >= outcomes.len() {
        Seq::empty()
    } else {
        match outcomes[from] {
            Ok(_) => failures_from(providers, outcomes, from + 1),
            Err(e) => seq![(providers[from], e)] + failures_from(providers, outcomes, from + 1),
        }
    }
}

/// The observers that failed, each with its error, in the order in which
/// they were asked.
pub open spec fn failures(providers: Seq<HttpProvider>, outcomes: Seq<Outcome>) -> Seq<
    (HttpProvider, ObserverError),
> {
    failures_from(providers, outcomes, 0)
}

/// The addresses that reached the confirmation number.
pub open spec fn confirmed_set(confirmations: usize, weights: Seq<usize>, outcomes: Seq<Outcome>) -> Set<
    IpLiteral,
> {
    Set::new(|ip: IpLiteral| voted(outcomes, ip) && votes(weights, outcomes, ip) >= confirmations)
}

/// The addresses that fell short of the confirmation number, each with its
/// accumulated weight.
pub open spec fn unconfirmed_map(confirmations: usize, weights: Seq<usize>, outcomes: Seq<Outcome>) -> Map<
    IpLiteral,
    usize,
> {
    Map::new(
        |ip: IpLiteral| voted(outcomes, ip) && votes(weights, outcomes, ip) < confirmations,
        |ip: IpLiteral| votes(weights, outcomes, ip) as usize,
    )
}

/// An address is named from place `from` on exactly when the answer at
/// `from` names it or one after does.
pub proof fn lemma_voted_step(outcomes: Seq<Outcome>, ip: IpLiteral, from: int)
    requires
        0 <= from < outcomes.len(),
    ensures
        voted_from(outcomes, ip, from) <==> (outcomes[from] == Ok::<IpLiteral, ObserverError>(ip)
            || voted_from(outcomes, ip, from + 1)),
{
    let wanted = Ok::<IpLiteral, ObserverError>(ip);
    if voted_from(outcomes, ip, from) {
        let i = choose|i: int| from <= i < outcomes.len() && #[trigger] outcomes[i] == wanted;
        if i != from {
            assert(from + 1 <= i < outcomes.len() && outcomes[i] == wanted);
        }
    }
    if voted_from(outcomes, ip, from + 1) {
        let i = choose|i: int| from + 1 <= i < outcomes.len() && #[trigger] outcomes[i] == wanted;
        assert(from <= i < outcomes.len() && outcomes[i] == wanted);
    }
    if outcomes[from] == wanted {
        assert(voted_from(outcomes, ip, from));
    }
}

/// With valid trust factors, the weight gathered from place `from` on is at
/// most three per answer, and at least one for an address that was named.
pub proof fn lemma_votes_bounds(weights: Seq<usize>, outcomes: Seq<Outcome>, ip: IpLiteral, from: int)
    requires
        weights.len() == outcomes.len(),
        0 <= from <= outcomes.len(),
        forall|i: int| 0 <= i < weights.len() ==> TrustFactorAuthority::spec_is_valid(#[trigger] weights[i]),
    ensures
        votes_from(weights, outcomes, ip, from) <= 3 * (outcomes.len() - from),
        voted_from(outcomes, ip, from) ==> votes_from(weights, outcomes, ip, from) >= 1,
        !voted_from(outcomes, ip, from) ==> votes_from(weights, outcomes, ip, from) == 0,
    decreases outcomes.len() - from,
{
    if from < outcomes.len() {
        lemma_votes_bounds(weights, outcomes, ip, from + 1);
        lemma_voted_step(outcomes, ip, from);
        assert(TrustFactorAuthority::spec_is_valid(weights[from]));
    }
}

/// The sequence `s` with the neighbours at the places `i` and `i + 1` exchanged.
pub open spec fn exchanged<T>(s: Seq<T>, i: int) -> Seq<T> {
    s.update(i, s[i + 1]).update(i + 1, s[i])
}

/// Exchanging two neighbouring observers changes the weight that is
/// gathered from no place on, but from the place between the two.
pub proof fn lemma_votes_exchanged(
    weights: Seq<usize>,
    outcomes: Seq<Outcome>,
    ip: IpLiteral,
    i: int,
    from: int,
)
    requires
        weights.len() == outcomes.len(),
        0 <= i,
        i + 1 < outcomes.len(),
        0 <= from <= outcomes.len(),
        from != i + 1,
    ensures
        votes_from(exchanged(weights, i), exchanged(outcomes, i), ip, from) == votes_from(
            weights,
            outcomes,
            ip,
            from,
        ),
        voted_from(exchanged(outcomes, i), ip, from) == voted_from(outcomes, ip, from),
    decreases outcomes.len() - from,
{
    let w = exchanged(weights, i);
    let o = exchanged(outcomes, i);
    if from < outcomes.len() {
        if from == i {
            lemma_votes_exchanged(weights, outcomes, ip, i, i + 2);
            reveal_with_fuel(votes_from, 3);
            assert(votes_from(w, o, ip, i) == votes_from(weights, outcomes, ip, i));
        } else {
            lemma_votes_exchanged(weights, outcomes, ip, i, from + 1);
        }
    }
    let wanted = Ok::<IpLiteral, ObserverError>(ip);
    if voted_from(outcomes, ip, from) {
        let k = choose|k: int| from <= k < outcomes.len() && #[trigger] outcomes[k] == wanted;
        let moved = if k == i {
            i + 1
        } else if k == i + 1 {
            i
        } else {
            k
        };
        assert(o[moved] == wanted);
        assert(from <= moved < o.len());
    }
    if voted_from(o, ip, from) {
        let k = choose|k: int| from <= k < o.len() && #[trigger] o[k] == wanted;
        let moved = if k == i {
            i + 1
        } else if k == i + 1 {
            i
        } else {
            k
        };
        assert(outcomes[moved] == wanted);
        assert(from <= moved < outcomes.len());
    }
}

/// The tally does not depend on the order in which the observers are
/// listed: exchanging two neighbours, and so any reordering, changes
/// neither what is confirmed nor what stays unconfirmed.
pub proof fn lemma_tally_ignores_order(
    confirmations: usize,
    weights: Seq<usize>,
    outcomes: Seq<Outcome>,
    i: int,
)
    requires
        weights.len() == outcomes.len(),
        0 <= i,
        i + 1 < outcomes.len(),
    ensures
        confirmed_set(confirmations, exchanged(weights, i), exchanged(outcomes, i)) == confirmed_set(
            confirmations,
            weights,
            outcomes,
        ),
        unconfirmed_map(confirmations, exchanged(weights, i), exchanged(outcomes, i)) == unconfirmed_map(
            confirmations,
            weights,
            outcomes,
        ),
{
    let w = exchanged(weights, i);
    let o = exchanged(outcomes, i);
    assert forall|ip: IpLiteral|
        votes(w, o, ip) == votes(weights, outcomes, ip) && voted(o, ip) == voted(outcomes, ip) by {
        lemma_votes_exchanged(weights, outcomes, ip, i, 0);
    }
    assert(confirmed_set(confirmations, w, o) =~= confirmed_set(confirmations, weights, outcomes));
    assert(unconfirmed_map(confirmations, w, o) =~= unconfirmed_map(confirmations, weights, outcomes));
}

/// The result of one run of the confirmation engine.
#[derive(Clone, Debug)]
pub struct Report {
    /// The confirmation number that the run was held against.
    pub confirmations: usize,
    /// The addresses whose accumulated weight reached the confirmation number.
    pub confirmed: IpSet,
    /// The addresses that fell short, each with its accumulated weight.
    pub unconfirmed: IpMap<usize>,
    /// The observers that gave no answer, each with its error.
    pub failed: Vec<(HttpProvider, ObserverError)>,
}

impl Report {
    /// The collections of the report are in order.
    pub open spec fn wf(&self) -> bool {
        self.confirmed.wf() && self.unconfirmed.wf()
    }

    /// What a run over the given answers reports.
    pub open spec fn is_tally_of(
        &self,
        confirmations: usize,
        providers: Seq<HttpProvider>,
        weights: Seq<usize>,
        outcomes: Seq<Outcome>,
    ) -> bool {
        &&& self.wf()
        &&& self.confirmations == confirmations
        &&& self.confirmed@ == confirmed_set(confirmations, weights, outcomes)
        &&& self.unconfirmed@ == unconfirmed_map(confirmations, weights, outcomes)
        &&& self.failed@ == failures(providers, outcomes)
    }
}

/// In a report, no address is both confirmed and unconfirmed; every
/// confirmed address has gathered the confirmation number of the run at
/// least, and every unconfirmed address less.
pub proof fn lemma_report_parts(
    report: Report,
    confirmations: usize,
    providers: Seq<HttpProvider>,
    weights: Seq<usize>,
    outcomes: Seq<Outcome>,
)
    requires
        report.is_tally_of(confirmations, providers, weights, outcomes),
    ensures
        report.confirmed@.disjoint(report.unconfirmed@.dom()),
        forall|ip: IpLiteral| #[trigger]
            report.confirmed@.contains(ip) ==> votes(weights, outcomes, ip) >= report.confirmations,
        forall|ip: IpLiteral| #[trigger]
            report.unconfirmed@.contains_key(ip) ==> report.unconfirmed@[ip] == votes(weights, outcomes, ip)
                && votes(weights, outcomes, ip) < report.confirmations,
{
    assert forall|ip: IpLiteral| #[trigger]
        report.unconfirmed@.contains_key(ip) implies report.unconfirmed@[ip] == votes(weights, outcomes, ip)
        && votes(weights, outcomes, ip) < report.confirmations by {
        assert(votes(weights, outcomes, ip) < confirmations);
    }
}

impl Default for Report {
    fn default() -> (report: Self)
        ensures
            report.wf(),
            report.confirmations == 0,
            report.confirmed@ == Set::<IpLiteral>::empty(),
            report.unconfirmed@ == Map::<IpLiteral, usize>::empty(),
            report.failed@ == Seq::<(HttpProvider, ObserverError)>::empty(),
    {
        Report { confirmations: 0, confirmed: IpSet::new(), unconfirmed: IpMap::new(), failed: Vec::new() }
    }
}

/// Folds the answers of the observers into a report. The observer at place
/// `i` has the trust factor `weights[i]` and answered `outcomes[i]`.
///
/// Every address that some observer named gets the sum of the weights of the
/// observers that named it. Those whose sum reaches `confirmations` are
/// confirmed; the others stay unconfirmed with their sum. An observer that
/// failed is recorded with its error and adds to no sum. The report does not
/// depend on the order in which the observers are listed, but for the order
/// of the failures.
pub fn tally(
    confirmations: usize,
    providers: &[HttpProvider],
    weights: &[usize],
    outcomes: Vec<Outcome>,
) -> (report: Report)
    requires
        providers@.len() == outcomes@.len(),
        weights@.len() == outcomes@.len(),
        outcomes@.len() <= usize::MAX / 3,
        forall|i: int| 0 <= i < weights@.len() ==> TrustFactorAuthority::spec_is_valid(#[trigger] weights@[i]),
    ensures
        report.is_tally_of(confirmations, providers@, weights@, outcomes@),
        report.confirmed@.disjoint(report.unconfirmed@.dom()),
        forall|ip: IpLiteral| #[trigger]
            report.confirmed@.contains(ip) ==> votes(weights@, outcomes@, ip) >= report.confirmations,
        forall|ip: IpLiteral| #[trigger]
            report.unconfirmed@.contains_key(ip) ==> report.unconfirmed@[ip] < report.confirmations,
{
    let ghost all = outcomes@;
    let mut outcomes = outcomes;
    let mut buckets: IpMap<usize> = IpMap::new();
    let mut failed: Vec<(HttpProvider, ObserverError)> = Vec::new();
    while outcomes.len() > 0
        invariant
            providers@.len() == all.len(),
            weights@.len() == all.len(),
            all.len() <= usize::MAX / 3,
            forall|i: int| 0 <= i < weights@.len() ==> TrustFactorAuthority::spec_is_valid(#[trigger] weights@[i]),
            outcomes@.len() <= all.len(),
            outcomes@ == all.subrange(0, outcomes@.len() as int),
            buckets.wf(),
            forall|ip: IpLiteral| #[trigger]
                buckets@.contains_key(ip) <==> voted_from(all, ip, outcomes@.len() as int),
            forall|ip: IpLiteral| #[trigger]
                buckets@.contains_key(ip) ==> buckets@[ip] == votes_from(
                    weights@,
                    all,
                    ip,
                    outcomes@.len() as int,
                ),
            failed@ == failures_from(providers@, all, outcomes@.len() as int),
        decreases outcomes@.len(),
    {
        let i: usize = outcomes.len() - 1;
        let outcome = outcomes.pop().unwrap();
        assert(outcome == all[i as int]);
        match outcome {
            Ok(ip) => {
                let weight: usize = weights[i];
                let so_far: usize = match buckets.get(&ip) {
                    Some(sum) => *sum,
                    None => 0,
                };
                proof {
                    lemma_votes_bounds(weights@, all, ip, i + 1);
                }
                buckets.insert(ip, so_far + weight);
                proof {
                    assert forall|other: IpLiteral| #[trigger]
                        buckets@.contains_key(other) <==> voted_from(all, other, i as int) by {
                        lemma_voted_step(all, other, i as int);
                    }
                }
            },
            Err(error) => {
                failed.insert(0, (providers[i], error));
                proof {
                    assert(failed@ =~= failures_from(providers@, all, i as int));
                    assert forall|other: IpLiteral| #[trigger]
                        buckets@.contains_key(other) <==> voted_from(all, other, i as int) by {
                        lemma_voted_step(all, other, i as int);
                    }
                }
            },
        }
    }
    let mut confirmed = IpSet::new();
    let mut unconfirmed: IpMap<usize> = IpMap::new();
    let n: usize = buckets.len();
    let mut k: usize = 0;
    while k < n
        invariant
            buckets.wf(),
            n == buckets.entries().len(),
            k <= n,
            confirmed.wf(),
            unconfirmed.wf(),
            forall|ip: IpLiteral| #[trigger]
                confirmed@.contains(ip) <==> (exists|j: int|
                    0 <= j < k && (#[trigger] buckets.entries()[j]).0 == ip && buckets.entries()[j].1
                        >= confirmations),
            forall|ip: IpLiteral| #[trigger]
                unconfirmed@.contains_key(ip) <==> (exists|j: int|
                    0 <= j < k && (#[trigger] buckets.entries()[j]).0 == ip && buckets.entries()[j].1
                        < confirmations),
            forall|ip: IpLiteral| #[trigger]
                unconfirmed@.contains_key(ip) ==> buckets@.contains_key(ip) && unconfirmed@[ip] == buckets@[ip],
        decreases n - k,
    {
        let ip = buckets.key_at(k);
        let sum: usize = *buckets.value_at(k);
        if sum >= confirmations {
            confirmed.insert(ip);
        } else {
            unconfirmed.insert(ip, sum);
        }
        proof {
            let s = buckets.entries();
            assert forall|other: IpLiteral| #[trigger]
                confirmed@.contains(other) <==> (exists|j: int|
                    0 <= j < k + 1 && (#[trigger] s[j]).0 == other && s[j].1 >= confirmations) by {
                if other == ip && sum >= confirmations {
                    assert(s[k as int].0 == other && s[k as int].1 >= confirmations);
                }
            }
            assert forall|other: IpLiteral| #[trigger]
                unconfirmed@.contains_key(other) <==> (exists|j: int|
                    0 <= j < k + 1 && (#[trigger] s[j]).0 == other && s[j].1 < confirmations) by {
                if other == ip && sum < confirmations {
                    assert(s[k as int].0 == other && s[k as int].1 < confirmations);
                }
            }
        }
        k = k + 1;
    }
    proof {
        let s = buckets.entries();
        assert forall|ip: IpLiteral|
            confirmed@.contains(ip) <==> confirmed_set(confirmations, weights@, all).contains(ip) by {
            lemma_votes_bounds(weights@, all, ip, 0);
            if confirmed@.contains(ip) {
                let j = choose|j: int|
                    0 <= j < n && (#[trigger] s[j]).0 == ip && s[j].1 >= confirmations;
                lemma_entry_is_mapped(s, j);
            }
            if confirmed_set(confirmations, weights@, all).contains(ip) {
                assert(buckets@.contains_key(ip));
                let j = choose|j: int| 0 <= j < s.len() && (#[trigger] s[j]).0 == ip;
                lemma_entry_is_mapped(s, j);
            }
        }
        assert(confirmed@ =~= confirmed_set(confirmations, weights@, all));
        assert forall|ip: IpLiteral|
            unconfirmed@.contains_key(ip) <==> unconfirmed_map(confirmations, weights@, all).contains_key(
                ip,
            ) by {
            lemma_votes_bounds(weights@, all, ip, 0);
            if unconfirmed@.contains_key(ip) {
                let j = choose|j: int|
                    0 <= j < n && (#[trigger] s[j]).0 == ip && s[j].1 < confirmations;
                lemma_entry_is_mapped(s, j);
            }
            if unconfirmed_map(confirmations, weights@, all).contains_key(ip) {
                assert(buckets@.contains_key(ip));
                let j = choose|j: int| 0 <= j < s.len() && (#[trigger] s[j]).0 == ip;
                lemma_entry_is_mapped(s, j);
            }
        }
        assert forall|ip: IpLiteral| unconfirmed@.contains_key(ip) implies #[trigger] unconfirmed@[ip]
            == unconfirmed_map(confirmations, weights@, all)[ip] by {
            lemma_votes_bounds(weights@, all, ip, 0);
        }
        assert(unconfirmed@ =~= unconfirmed_map(confirmations, weights@, all));
    }
    Report { confirmations, confirmed, unconfirmed, failed }
}

/// The confirmation engine: the enabled observers, the authority that
/// weighs them, and the confirmation number to use in place of the
/// calculated one, if the caller chose one.
pub struct Manager {
    providers: HttpProviders,
    tfa: TrustFactorAuthority,
    confirmations: Option<usize>,
}

impl Manager {
    /// The enabled observers, in the order in which they are asked.
    pub closed spec fn spec_providers(&self) -> Seq<HttpProvider> {
        self.providers@
    }

    /// The authority that weighs the observers.
    pub closed spec fn spec_tfa(&self) -> TrustFactorAuthority {
        self.tfa
    }

    /// The confirmation number that the caller chose, if any.
    pub closed spec fn spec_override(&self) -> Option<usize> {
        self.confirmations
    }

    /// There is at least one observer, there are not more than can be summed
    /// up, and the authority is well formed.
    pub open spec fn wf(&self) -> bool {
        &&& 0 < self.spec_providers().len() <= usize::MAX / 3
        &&& self.spec_tfa().wf()
    }

    /// The trust factors of the enabled observers, one by one.
    pub open spec fn spec_weights(&self) -> Seq<usize> {
        self.spec_tfa().spec_weights_of(self.spec_providers())
    }

    /// The confirmation number in force: the one the caller chose, else the
    /// one calculated from the trust factors of the enabled observers.
    pub open spec fn spec_confirmations(&self) -> nat {
        match self.spec_override() {
            Some(n) => n as nat,
            None => self.spec_tfa().spec_calc_confirmation_number(self.spec_providers()),
        }
    }

    /// An engine over `providers` with the default trust factors.
    pub fn new(providers: HttpProviders) -> (manager: Self)
        requires
            0 < providers@.len() <= usize::MAX / 3,
        ensures
            manager.wf(),
            manager.spec_providers() == providers@,
            manager.spec_tfa()@ == Map::<HttpProvider, usize>::empty(),
            manager.spec_override() == None::<usize>,
    {
        Self::new_with_tfa(providers, TrustFactorAuthority::new())
    }

    /// An engine over `providers`, weighed by `tfa`.
    pub fn new_with_tfa(providers: HttpProviders, tfa: TrustFactorAuthority) -> (manager: Self)
        requires
            0 < providers@.len() <= usize::MAX / 3,
            tfa.wf(),
        ensures
            manager.wf(),
            manager.spec_providers() == providers@,
            manager.spec_tfa() == tfa,
            manager.spec_override() == None::<usize>,
    {
        Manager { providers, tfa, confirmations: None }
    }

    /// An engine over `providers`, weighed by `tfa`, where the observers are
    /// neither none nor too many.
    pub fn try_new_with_tfa(providers: HttpProviders, tfa: TrustFactorAuthority) -> (result: Result<
        Self,
        ConfigError,
    >)
        requires
            tfa.wf(),
        ensures
            match result {
                Ok(manager) => {
                    &&& 0 < providers@.len() <= usize::MAX / 3
                    &&& manager.wf()
                    &&& manager.spec_providers() == providers@
                    &&& manager.spec_tfa() == tfa
                    &&& manager.spec_override() == None::<usize>
                },
                Err(error) => error == if providers@.len() == 0 {
                    ConfigError::NoProviders
                } else {
                    ConfigError::TooManyProviders
                } && !(0 < providers@.len() <= usize::MAX / 3),
            },
    {
        let n: usize = providers.len();
        if n == 0 {
            Err(ConfigError::NoProviders)
        } else if n > usize::MAX / 3 {
            Err(ConfigError::TooManyProviders)
        } else {
            Ok(Self::new_with_tfa(providers, tfa))
        }
    }

    /// Overwrites default confirmation number that would have been dynamically
    /// calculated basing on the enabled providers' trust factors
    /// with the statically provided.
    pub fn set_confirmations(&mut self, new_confirmation_number: usize) -> (manager: &mut Self)
        ensures
            manager.spec_override() == Some(new_confirmation_number),
            manager.spec_providers() == old(self).spec_providers(),
            manager.spec_tfa() == old(self).spec_tfa(),
            *final(self) == *final(manager),
    {
        self.confirmations = Some(new_confirmation_number);
        self
    }

    /// The enabled observers, in the order in which they are asked.
    pub fn providers(&self) -> (providers: &[HttpProvider])
        ensures
            providers@ == self.spec_providers(),
    {
        self.providers.as_slice()
    }

    /// The confirmation number in force for a run.
    pub fn confirmations(&self) -> (n: usize)
        requires
            self.wf(),
        ensures
            n == self.spec_confirmations(),
    {
        match self.confirmations {
            Some(n) => n,
            None => self.tfa.calc_confirmation_number(self.providers.as_slice()),
        }
    }

    /// The confirmation number that the caller chose together with the one
    /// that would have been calculated, where the two differ. A chosen number
    /// that is too high makes consensus unreachable, and one that is too low
    /// lets a minority confirm an address: the caller is to be warned.
    pub fn unwise_override(&self) -> (r: Option<(usize, usize)>)
        requires
            self.wf(),
        ensures
            r == match self.spec_override() {
                Some(have) => {
                    let would_be = self.spec_tfa().spec_calc_confirmation_number(self.spec_providers());
                    if have != would_be {
                        Some((have, would_be as usize))
                    } else {
                        None
                    }
                },
                None => None,
            },
    {
        let would_be: usize = self.tfa.calc_confirmation_number(self.providers.as_slice());
        match self.confirmations {
            Some(have) => if have != would_be {
                Some((have, would_be))
            } else {
                None
            },
            None => None,
        }
    }

    /// Folds what the enabled observers answered into a report: `outcomes[i]`
    /// is the answer of the observer at place `i`, and every observer has
    /// answered or failed.
    pub fn run(&self, outcomes: Vec<Outcome>) -> (report: Report)
        requires
            self.wf(),
            outcomes@.len() == self.spec_providers().len(),
        ensures
            report.is_tally_of(
                self.spec_confirmations() as usize,
                self.spec_providers(),
                self.spec_weights(),
                outcomes@,
            ),
            report.confirmations == self.spec_confirmations(),
            report.confirmed@.disjoint(report.unconfirmed@.dom()),
            forall|ip: IpLiteral| #[trigger]
                report.confirmed@.contains(ip) ==> votes(self.spec_weights(), outcomes@, ip)
                    >= report.confirmations,
    {
        let confirmations: usize = self.confirmations();
        let weights = self.tfa.weights_of(self.providers.as_slice());
        tally(confirmations, self.providers.as_slice(), weights.as_slice(), outcomes)
    }
}

} // verus!
