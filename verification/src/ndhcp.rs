//! The confirmation engine: which addresses do enough trusted observers agree on?

pub mod address;
pub mod is_reserved;
pub mod manager;
pub mod providers;
pub mod screening;
pub mod trust_factor;

use vstd::prelude::*;
use crate::ip::IpLiteral;
use crate::ipset::ascending;
use crate::ndhcp::manager::{confirmed_set, Outcome};
use crate::ndhcp::trust_factor::{confirmation_number, sum_weights};

pub use crate::ndhcp::manager::Manager;
pub use crate::ndhcp::providers::{HttpProvider, HttpProviders, RequestMethod};
pub use crate::ndhcp::trust_factor::TrustFactorAuthority;

verus! {

/// The addresses that all observers, with their default trust factors,
/// confirm by the answers `outcomes`, in ascending order.
pub fn resolve(outcomes: Vec<Outcome>) -> (confirmed: Vec<IpLiteral>)
    requires
        outcomes@.len() == HttpProvider::spec_variants().len(),
    ensures
        ascending(confirmed@),
        confirmed@.to_set() == confirmed_set(
            confirmation_number(
                sum_weights(TrustFactorAuthority::spec_default_weights(HttpProvider::spec_variants())),
                HttpProvider::spec_variants().len(),
            ) as usize,
            TrustFactorAuthority::spec_default_weights(HttpProvider::spec_variants()),
            outcomes@,
        ),
{
    let all = HttpProvider::variants();
    resolve_by(all.as_slice(), outcomes)
}

/// The addresses that the observers `providers`, with their default trust
/// factors, confirm by the answers `outcomes`, in ascending order.
pub fn resolve_by(providers: &[HttpProvider], outcomes: Vec<Outcome>) -> (confirmed: Vec<IpLiteral>)
    requires
        0 < providers@.len() <= usize::MAX / 3,
        outcomes@.len() == providers@.len(),
    ensures
        ascending(confirmed@),
        confirmed@.to_set() == confirmed_set(
            confirmation_number(
                sum_weights(TrustFactorAuthority::spec_default_weights(providers@)),
                providers@.len(),
            ) as usize,
            TrustFactorAuthority::spec_default_weights(providers@),
            outcomes@,
        ),
{
    let manager = Manager::new(HttpProviders::from_slice(providers));
    let report = manager.run(outcomes);
    proof {
        report.confirmed.lemma_seq();
        manager.spec_tfa().lemma_default_weights(providers@);
    }
    report.confirmed.to_vec()
}

} // verus!
