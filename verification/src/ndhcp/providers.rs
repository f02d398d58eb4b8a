//! The closed set of observers that can be asked for the caller's public address.

use smallvec::SmallVec;
use vstd::prelude::*;

verus! {

/// An outside service that answers with the address it sees the caller as.
#[derive(Clone, Copy, Debug, PartialEq, Eq, Structural, Hash)]
pub enum HttpProvider {
    HttpBin,
}

/// How many observers there are.
pub const PROVIDER_COUNT: usize = 1;

/// The observers enabled for a run, in the order in which they are asked.
/// They are held in a `SmallVec` with room for one of each in place.
///
/// Trusted: the type hides the `SmallVec`; what it holds is known only
/// through [`providers_held`].
#[verifier::external_body]
pub struct HttpProviders {
    held: SmallVec<[HttpProvider; PROVIDER_COUNT]>,
}

/// The observers that `providers` holds, in order.
pub uninterp spec fn providers_held(providers: HttpProviders) -> Seq<HttpProvider>;

impl View for HttpProviders {
    type V = Seq<HttpProvider>;

    open spec fn view(&self) -> Seq<HttpProvider> {
        providers_held(*self)
    }
}

/// `SmallVec::from_slice`: a new `SmallVec` that holds copies of the
/// elements of the slice, in the order of the slice.
#[verifier::external_body]
fn small_from_slice(slice: &[HttpProvider]) -> (providers: HttpProviders)
    ensures
        providers_held(providers) == slice@,
{
    HttpProviders { held: SmallVec::from_slice(slice) }
}

/// `SmallVec::as_slice`: the elements that the `SmallVec` holds, in order.
#[verifier::external_body]
fn small_as_slice(providers: &HttpProviders) -> (held: &[HttpProvider])
    ensures
        held@ == providers_held(*providers),
{
    providers.held.as_slice()
}

impl HttpProviders {
    /// The observers of `slice`, in the same order.
    pub fn from_slice(slice: &[HttpProvider]) -> (providers: Self)
        ensures
            providers@ == slice@,
    {
        small_from_slice(slice)
    }

    /// The observers, in the order in which they are asked.
    pub fn as_slice(&self) -> (held: &[HttpProvider])
        ensures
            held@ == self@,
    {
        small_as_slice(self)
    }

    /// The number of observers, each counted as often as it is held.
    pub fn len(&self) -> (n: usize)
        ensures
            n == self@.len(),
    {
        small_as_slice(self).len()
    }

    /// Whether no observer is held.
    pub fn is_empty(&self) -> (r: bool)
        ensures
            r == (self@.len() == 0),
    {
        small_as_slice(self).len() == 0
    }
}

/// The HTTP method of an observer's request.
#[derive(Clone, Copy, Debug, PartialEq, Eq, Structural, Hash)]
pub enum RequestMethod {
    Get,
}

impl HttpProvider {
    /// How many observers there are.
    pub const COUNT: usize = PROVIDER_COUNT;

    /// The position of the observer among all observers.
    pub open spec fn spec_ordinal(self) -> u64 {
        match self {
            HttpProvider::HttpBin => 0,
        }
    }

    /// Every observer, in declaration order.
    pub open spec fn spec_variants() -> Seq<HttpProvider> {
        seq![HttpProvider::HttpBin]
    }

    /// The position of the observer among all observers.
    #[verifier::when_used_as_spec(spec_ordinal)]
    pub fn ordinal(self) -> (n: u64)
        ensures
            n == self.spec_ordinal(),
            n < Self::COUNT,
    {
        match self {
            HttpProvider::HttpBin => 0,
        }
    }

    /// Every observer, in declaration order.
    pub fn variants() -> (all: Vec<HttpProvider>)
        ensures
            all@ == Self::spec_variants(),
            all@.len() == Self::COUNT,
            forall|p: HttpProvider| all@.contains(p),
            all@.no_duplicates(),
    {
        let all = vec![HttpProvider::HttpBin];
        proof {
            assert(all@ =~= Self::spec_variants());
            assert forall|p: HttpProvider| all@.contains(p) by {
                assert(all@[0] == p);
            }
        }
        all
    }

    /// The address the observer is asked at.
    pub fn request_uri(&self) -> (uri: &'static str)
        ensures
            uri@ == Self::spec_request_uri(*self),
    {
        match self {
            HttpProvider::HttpBin => "https://httpbin.org/ip",
        }
    }

    /// The address the observer is asked at.
    pub open spec fn spec_request_uri(self) -> Seq<char> {
        match self {
            HttpProvider::HttpBin => "https://httpbin.org/ip"@,
        }
    }

    /// The method the observer is asked with.
    pub fn request_method(&self) -> (method: RequestMethod)
        ensures
            method == RequestMethod::Get,
    {
        match self {
            HttpProvider::HttpBin => RequestMethod::Get,
        }
    }

    /// The observer's name as it is written in configuration.
    pub fn name(&self) -> (name: &'static str)
        ensures
            name@ == Self::spec_name(*self),
    {
        match self {
            HttpProvider::HttpBin => "HttpBin",
        }
    }

    /// The observer's name as it is written in configuration.
    pub open spec fn spec_name(self) -> Seq<char> {
        match self {
            HttpProvider::HttpBin => "HttpBin"@,
        }
    }

    /// The observer that is written `name` in configuration, if there is one.
    pub open spec fn spec_from_name(name: Seq<char>) -> Option<HttpProvider> {
        if name == "HttpBin"@ {
            Some(HttpProvider::HttpBin)
        } else {
            None
        }
    }

    /// The observer that is written `name` in configuration, if there is
    /// one. Names are told apart by case.
    pub fn from_name(name: &str) -> (provider: Option<HttpProvider>)
        ensures
            provider == Self::spec_from_name(name@),
            provider matches Some(p) ==> p.spec_name() == name@,
    {
        let wanted = name.to_owned();
        let known = HttpProvider::HttpBin.name().to_owned();
        if wanted == known {
            Some(HttpProvider::HttpBin)
        } else {
            None
        }
    }

    /// The observer's host, as it is shown to people.
    pub open spec fn spec_host(self) -> Seq<char> {
        match self {
            HttpProvider::HttpBin => "httpbin.org"@,
        }
    }

    /// The observer's host, as it is shown to people.
    pub fn host(&self) -> (host: &'static str)
        ensures
            host@ == self.spec_host(),
    {
        match self {
            HttpProvider::HttpBin => "httpbin.org",
        }
    }

    /// The observer as it is shown to people: by its host.
    pub fn to_string(&self) -> (shown: String)
        ensures
            shown@ == self.spec_host(),
    {
        self.host().to_owned()
    }
}

} // verus!
