//! How much each observer's vote counts, and how much agreement confirms an address.

use std::collections::HashMap;
use vstd::prelude::*;
use crate::args::ConfigError;
use crate::ndhcp::providers::HttpProvider;

verus! {

broadcast use vstd::std_specs::hash::group_hash_axioms;

/// The source of trust factors for every known [`HttpProvider`]: a default
/// per observer, and the overrides set by the user.
///
/// Its view is the map of overrides.
pub struct TrustFactorAuthority {
    custom: HashMap<u64, usize>,
}

/// The sum of the weights `ws`.
pub open spec fn sum_weights(ws: Seq<usize>) -> nat
    decreases ws.len(),
{
    if ws.len() == 0 {
        0
    } else {
        sum_weights(ws.drop_last()) + ws.last() as nat
    }
}

/// The accumulated weight an address needs to be confirmed, for `observers`
/// enabled observers whose weights sum to `total`: two thirds of the sum,
/// rounded up for two observers and down for three or more; a single
/// observer gets no discount.
pub open spec fn confirmation_number(total: nat, observers: nat) -> nat {
    if observers == 1 {
        total
    } else if observers == 2 {
        (2 * total + 2) / 3
    } else {
        (2 * total) / 3
    }
}

impl View for TrustFactorAuthority {
    type V = Map<HttpProvider, usize>;

    closed spec fn view(&self) -> Map<HttpProvider, usize> {
        Map::new(
            |p: HttpProvider| self.custom@.contains_key(p.spec_ordinal()),
            |p: HttpProvider| self.custom@[p.spec_ordinal()],
        )
    }
}

impl TrustFactorAuthority {
    pub const LOW: usize = 1;

    pub const MED: usize = 2;

    pub const HIG: usize = 3;

    /// Every override is a valid trust factor.
    pub open spec fn wf(self) -> bool {
        forall|p: HttpProvider| #[trigger] self@.contains_key(p) ==> Self::spec_is_valid(self@[p])
    }

    /// A trust factor is valid when it is low, medium or high.
    pub open spec fn spec_is_valid(trust_factor: usize) -> bool {
        1 <= trust_factor <= 3
    }

    /// The trust factor an observer has when the user set none.
    pub open spec fn spec_default_trust_factor(provider: HttpProvider) -> usize {
        match provider {
            HttpProvider::HttpBin => 1,
        }
    }

    /// The trust factor in force for `provider`: the override if there is one,
    /// else the default.
    pub open spec fn spec_trust_factor(self, provider: HttpProvider) -> usize {
        if self@.contains_key(provider) {
            self@[provider]
        } else {
            Self::spec_default_trust_factor(provider)
        }
    }

    /// The confirmation number of the given enabled observers.
    pub open spec fn spec_calc_confirmation_number(self, providers: Seq<HttpProvider>) -> nat {
        confirmation_number(sum_weights(self.spec_weights_of(providers)), providers.len())
    }

    /// The trust factors in force for `providers`, one by one.
    pub open spec fn spec_weights_of(self, providers: Seq<HttpProvider>) -> Seq<usize> {
        providers.map_values(|p: HttpProvider| self.spec_trust_factor(p))
    }

    /// The trust factors that `providers` have when the user set none.
    pub open spec fn spec_default_weights(providers: Seq<HttpProvider>) -> Seq<usize> {
        providers.map_values(|p: HttpProvider| Self::spec_default_trust_factor(p))
    }

    /// An authority without overrides weighs every observer by its default.
    pub proof fn lemma_default_weights(self, providers: Seq<HttpProvider>)
        requires
            self@ == Map::<HttpProvider, usize>::empty(),
        ensures
            self.spec_weights_of(providers) == Self::spec_default_weights(providers),
    {
        assert(self.spec_weights_of(providers) =~= Self::spec_default_weights(providers));
    }

    /// An authority without overrides.
    pub fn new() -> (tfa: Self)
        ensures
            tfa@ == Map::<HttpProvider, usize>::empty(),
            tfa.wf(),
    {
        let tfa = TrustFactorAuthority { custom: HashMap::new() };
        assert(tfa@ =~= Map::<HttpProvider, usize>::empty());
        tfa
    }

    /// Reports whether given trust factor is valid or not.
    #[verifier::when_used_as_spec(spec_is_valid)]
    pub fn is_valid(trust_factor: usize) -> (valid: bool)
        ensures
            valid == Self::spec_is_valid(trust_factor),
    {
        trust_factor == Self::LOW || trust_factor == Self::MED || trust_factor == Self::HIG
    }

    /// Returns trust factor for the given [`HttpProvider`] that is either
    /// defined by the user via [`Self::set_trust_factor`] or default one.
    pub fn trust_factor(&self, provider: HttpProvider) -> (tf: usize)
        requires
            self.wf(),
        ensures
            tf == self.spec_trust_factor(provider),
            Self::spec_is_valid(tf),
    {
        assert(self@.contains_key(provider) ==> self.custom@.contains_key(provider.spec_ordinal()));
        match self.custom.get(&provider.ordinal()) {
            Some(tf) => *tf,
            None => Self::default_trust_factor(provider),
        }
    }

    /// Overwrites default trust factor for the given [`HttpProvider`].
    /// New trust factor must be in valid range.
    pub fn set_trust_factor(&mut self, provider: &HttpProvider, new_trust_factor: usize)
        requires
            old(self).wf(),
            Self::spec_is_valid(new_trust_factor),
        ensures
            final(self).wf(),
            final(self)@ == old(self)@.insert(*provider, new_trust_factor),
    {
        self.custom.insert(provider.ordinal(), new_trust_factor);
        assert(self@ =~= old(self)@.insert(*provider, new_trust_factor));
    }

    /// Overwrites default trust factor for the given [`HttpProvider`], where
    /// the new trust factor is valid, and rejects it where it is not.
    pub fn try_set_trust_factor(&mut self, provider: &HttpProvider, new_trust_factor: usize) -> (result:
        Result<(), ConfigError>)
        requires
            old(self).wf(),
        ensures
            final(self).wf(),
            result == if Self::spec_is_valid(new_trust_factor) {
                Ok::<(), ConfigError>(())
            } else {
                Err::<(), ConfigError>(ConfigError::TrustFactorOutOfRange(new_trust_factor))
            },
            final(self)@ == if Self::spec_is_valid(new_trust_factor) {
                old(self)@.insert(*provider, new_trust_factor)
            } else {
                old(self)@
            },
    {
        if Self::is_valid(new_trust_factor) {
            self.set_trust_factor(provider, new_trust_factor);
            Ok(())
        } else {
            Err(ConfigError::TrustFactorOutOfRange(new_trust_factor))
        }
    }

    /// The trust factors in force for `providers`, one by one.
    pub fn weights_of(&self, providers: &[HttpProvider]) -> (ws: Vec<usize>)
        requires
            self.wf(),
        ensures
            ws@ == self.spec_weights_of(providers@),
            forall|i: int| 0 <= i < ws@.len() ==> Self::spec_is_valid(#[trigger] ws@[i]),
    {
        let mut ws: Vec<usize> = Vec::new();
        let mut i: usize = 0;
        while i < providers.len()
            invariant
                self.wf(),
                i <= providers@.len(),
                ws@ == self.spec_weights_of(providers@.subrange(0, i as int)),
                forall|k: int| 0 <= k < ws@.len() ==> Self::spec_is_valid(#[trigger] ws@[k]),
            decreases providers@.len() - i,
        {
            let tf = self.trust_factor(providers[i]);
            ws.push(tf);
            assert(ws@ =~= self.spec_weights_of(providers@.subrange(0, i + 1)));
            i = i + 1;
        }
        assert(providers@.subrange(0, i as int) =~= providers@);
        ws
    }

    /// Calculates and returns the **confirmation number** that must be achieved
    /// by every IP to consider it confirmed.
    ///
    /// During the process of verification, each provider's trust factor
    /// that reported the same IP is added to that IP's confirmation's bucket.
    ///
    /// When that bucket reaches the confirmation number that is returned
    /// by this func or re-defined by the user, the IP is considered confirmed.
    pub fn calc_confirmation_number(&self, providers: &[HttpProvider]) -> (n: usize)
        requires
            self.wf(),
            0 < providers@.len() <= usize::MAX / 3,
        ensures
            n == self.spec_calc_confirmation_number(providers@),
            0 < n <= sum_weights(self.spec_weights_of(providers@)),
    {
        let ws = self.weights_of(providers);
        let total = total_of(&ws);
        proof {
            lemma_sum_weights_bounds(ws@);
        }
        confirmation_number_for(total, providers.len())
    }

    // Returns default trust factor for the given [`HttpProvider`].
    fn default_trust_factor(provider: HttpProvider) -> (tf: usize)
        ensures
            tf == Self::spec_default_trust_factor(provider),
    {
        match provider {
            HttpProvider::HttpBin => Self::LOW,
        }
    }
}

impl Default for TrustFactorAuthority {
    fn default() -> (tfa: Self)
        ensures
            tfa@ == Map::<HttpProvider, usize>::empty(),
            tfa.wf(),
    {
        TrustFactorAuthority::new()
    }
}

/// The sum of valid trust factors lies between their number and three times
/// their number.
pub proof fn lemma_sum_weights_bounds(ws: Seq<usize>)
    requires
        forall|i: int| 0 <= i < ws.len() ==> TrustFactorAuthority::spec_is_valid(#[trigger] ws[i]),
    ensures
        ws.len() <= sum_weights(ws) <= 3 * ws.len(),
    decreases ws.len(),
{
    if ws.len() > 0 {
        assert(TrustFactorAuthority::spec_is_valid(ws[ws.len() - 1]));
        lemma_sum_weights_bounds(ws.drop_last());
    }
}

/// Adds the weights `ws` up.
pub fn total_of(ws: &Vec<usize>) -> (total: usize)
    requires
        ws@.len() <= usize::MAX / 3,
        forall|i: int| 0 <= i < ws@.len() ==> TrustFactorAuthority::spec_is_valid(#[trigger] ws@[i]),
    ensures
        total == sum_weights(ws@),
{
    let mut total: usize = 0;
    let mut i: usize = 0;
    while i < ws.len()
        invariant
            i <= ws@.len() <= usize::MAX / 3,
            forall|k: int| 0 <= k < ws@.len() ==> TrustFactorAuthority::spec_is_valid(#[trigger] ws@[k]),
            total == sum_weights(ws@.subrange(0, i as int)),
            total <= 3 * i,
        decreases ws@.len() - i,
    {
        assert(ws@.subrange(0, i + 1).drop_last() =~= ws@.subrange(0, i as int));
        total = total + ws[i];
        i = i + 1;
    }
    assert(ws@.subrange(0, i as int) =~= ws@);
    total
}

/// The confirmation number for `observers` enabled observers whose trust
/// factors sum to `total`.
pub fn confirmation_number_for(total: usize, observers: usize) -> (n: usize)
    ensures
        n == confirmation_number(total as nat, observers as nat),
{
    let thirds: usize = total / 3;
    let rest: usize = total % 3;
    if observers == 1 {
        total
    } else if observers == 2 {
        2 * thirds + (2 * rest + 2) / 3
    } else {
        2 * thirds + (2 * rest) / 3
    }
}

/// Among sets of observers that are rounded alike (one observer, two, or
/// three and more), a larger sum of trust factors never gives a smaller
/// confirmation number.
pub proof fn lemma_confirmation_number_monotonic(
    a: TrustFactorAuthority,
    providers_a: Seq<HttpProvider>,
    b: TrustFactorAuthority,
    providers_b: Seq<HttpProvider>,
)
    requires
        providers_a.len() > 0,
        providers_b.len() > 0,
        providers_a.len() == providers_b.len() || (providers_a.len() >= 3 && providers_b.len() >= 3),
        sum_weights(a.spec_weights_of(providers_a)) <= sum_weights(b.spec_weights_of(providers_b)),
    ensures
        a.spec_calc_confirmation_number(providers_a) <= b.spec_calc_confirmation_number(providers_b),
{
}

/// The confirmation number of a non-empty set of observers is strictly
/// positive, and no larger than the sum of their trust factors.
pub proof fn lemma_confirmation_number_positive(tfa: TrustFactorAuthority, providers: Seq<HttpProvider>)
    requires
        tfa.wf(),
        providers.len() > 0,
    ensures
        0 < tfa.spec_calc_confirmation_number(providers) <= sum_weights(tfa.spec_weights_of(providers)),
{
    let ws = tfa.spec_weights_of(providers);
    assert forall|i: int| 0 <= i < ws.len() implies TrustFactorAuthority::spec_is_valid(
        #[trigger] ws[i],
    ) by {
        let p = providers[i];
        if tfa@.contains_key(p) {
            assert(TrustFactorAuthority::spec_is_valid(tfa@[p]));
        }
    }
    lemma_sum_weights_bounds(ws);
}

/// A single observer gets no discount: the confirmation number is its own
/// trust factor.
pub proof fn lemma_single_observer_no_discount(tfa: TrustFactorAuthority, provider: HttpProvider)
    ensures
        tfa.spec_calc_confirmation_number(seq![provider]) == tfa.spec_trust_factor(provider),
{
    let ws = tfa.spec_weights_of(seq![provider]);
    assert(ws.len() == 1);
    assert(ws.last() == tfa.spec_trust_factor(provider));
    assert(ws.drop_last().len() == 0);
    assert(sum_weights(ws) == sum_weights(ws.drop_last()) + ws.last() as nat);
    assert(sum_weights(ws.drop_last()) == 0);
}

} // verus!
