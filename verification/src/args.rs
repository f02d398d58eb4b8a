//! The configuration of the engines as it is written by the user, and what
//! is made of it before anything is asked of the network.

use vstd::prelude::*;
use vstd::string::StrSliceExecFns;
use crate::ndhcp::providers::{HttpProvider, HttpProviders};
use crate::ndhcp::trust_factor::TrustFactorAuthority;

verus! {

/// Why a configuration was rejected.
#[derive(Clone, Copy, Debug, PartialEq, Eq, Structural, Hash)]
pub enum ConfigError {
    /// Every observer is disabled: at least one must be enabled.
    NoProviders,
    /// The observers are more than can be weighed: a third of the largest
    /// number that can be held.
    TooManyProviders,
    /// An override of a trust factor has neither `=` nor `:` between the
    /// observer and the trust factor.
    NoSeparator,
    /// No observer is written like the text before the separator.
    UnknownProvider,
    /// The text after the separator is not a number that can be held.
    InvalidNumber,
    /// The trust factor is none of low, medium and high.
    TrustFactorOutOfRange(usize),
}

/// The observers of `all` that are not among `disabled`, in the order of `all`.
pub open spec fn without(all: Seq<HttpProvider>, disabled: Seq<HttpProvider>) -> Seq<HttpProvider>
    decreases all.len(),
{
    if all.len() == 0 {
        Seq::empty()
    } else if disabled.contains(all.last()) {
        without(all.drop_last(), disabled)
    } else {
        without(all.drop_last(), disabled).push(all.last())
    }
}

/// Whether `at` is the first place of `wanted` in `text`.
pub open spec fn is_first_place(text: Seq<char>, wanted: char, at: int) -> bool {
    &&& 0 <= at < text.len()
    &&& text[at] == wanted
    &&& forall|k: int| 0 <= k < at ==> text[k] != wanted
}

/// The first place of `wanted` in `text`, where it occurs.
pub open spec fn first_place(text: Seq<char>, wanted: char) -> int {
    choose|at: int| is_first_place(text, wanted, at)
}

/// The place of the character that parts the observer from the trust factor:
/// the first `=`, or the first `:` where there is no `=`.
pub open spec fn separator(text: Seq<char>) -> Option<int> {
    if text.contains('=') {
        Some(first_place(text, '='))
    } else if text.contains(':') {
        Some(first_place(text, ':'))
    } else {
        None
    }
}

/// The value of a decimal digit.
pub open spec fn digit(c: char) -> Option<nat> {
    if '0' <= c && c <= '9' {
        Some((c as u32 - '0' as u32) as nat)
    } else {
        None
    }
}

/// The number that decimal digits spell, however large.
pub open spec fn decimal(digits: Seq<char>) -> Option<nat>
    decreases digits.len(),
{
    if digits.len() == 0 {
        Some(0)
    } else {
        match (decimal(digits.drop_last()), digit(digits.last())) {
            (Some(high), Some(low)) => Some(10 * high + low),
            _ => None,
        }
    }
}

/// The number that `text` spells: decimal digits, at least one, after an
/// optional `+`, as long as the number can be held.
pub open spec fn spec_parse_number(text: Seq<char>) -> Option<usize> {
    let digits = if text.len() > 0 && text[0] == '+' {
        text.subrange(1, text.len() as int)
    } else {
        text
    };
    if digits.len() == 0 {
        None
    } else {
        match decimal(digits) {
            Some(value) => if value <= usize::MAX {
                Some(value as usize)
            } else {
                None
            },
            None => None,
        }
    }
}

/// What an override of a trust factor, written as `text`, comes to.
pub open spec fn spec_parse_trust_factor_pair(text: Seq<char>) -> Result<(HttpProvider, usize), ConfigError> {
    match separator(text) {
        None => Err(ConfigError::NoSeparator),
        Some(at) => match HttpProvider::spec_from_name(text.subrange(0, at)) {
            None => Err(ConfigError::UnknownProvider),
            Some(provider) => match spec_trust_factor_of(
                spec_parse_number(text.subrange(at + 1, text.len() as int)),
            ) {
                Ok(trust_factor) => Ok((provider, trust_factor)),
                Err(error) => Err(error),
            },
        },
    }
}

/// A number that digits spell grows with every digit, so that one that has
/// outgrown a bound stays beyond it.
pub proof fn lemma_decimal_grows(digits: Seq<char>, n: int)
    requires
        0 <= n <= digits.len(),
    ensures
        decimal(digits) is Some ==> decimal(digits.subrange(0, n)) is Some && decimal(
            digits.subrange(0, n),
        ).unwrap() <= decimal(digits).unwrap(),
        decimal(digits.subrange(0, n)) is None ==> decimal(digits) is None,
    decreases digits.len() - n,
{
    if n < digits.len() {
        lemma_decimal_grows(digits, n + 1);
        assert(digits.subrange(0, n + 1).drop_last() =~= digits.subrange(0, n));
    } else {
        assert(digits.subrange(0, n) =~= digits);
    }
}

/// A character has one first place.
pub proof fn lemma_first_place(text: Seq<char>, wanted: char, at: int)
    requires
        is_first_place(text, wanted, at),
    ensures
        text.contains(wanted),
        first_place(text, wanted) == at,
{
    let other = first_place(text, wanted);
    assert(is_first_place(text, wanted, other));
    if other < at {
        assert(text[other] != wanted);
    } else if at < other {
        assert(text[at] != wanted);
    }
}

/// The first place of `wanted` in `text`, if it occurs.
fn find_char(text: &str, wanted: char) -> (found: Option<usize>)
    ensures
        found is Some <==> text@.contains(wanted),
        found matches Some(at) ==> at == first_place(text@, wanted) && at < text@.len(),
{
    let n: usize = text.unicode_len();
    let mut i: usize = 0;
    while i < n
        invariant
            n == text@.len(),
            i <= n,
            forall|k: int| 0 <= k < i ==> text@[k] != wanted,
        decreases n - i,
    {
        if text.get_char(i) == wanted {
            proof {
                lemma_first_place(text@, wanted, i as int);
            }
            return Some(i);
        }
        i = i + 1;
    }
    proof {
        if text@.contains(wanted) {
            let k = choose|k: int| 0 <= k < text@.len() && text@[k] == wanted;
            assert(text@[k] != wanted);
        }
    }
    None
}

/// The number that `text` spells: decimal digits, at least one, after an
/// optional `+`. A number that cannot be held is no number.
pub fn parse_number(text: &str) -> (number: Option<usize>)
    ensures
        number == spec_parse_number(text@),
{
    let n: usize = text.unicode_len();
    let start: usize = if n > 0 && text.get_char(0) == '+' {
        1
    } else {
        0
    };
    if start == n {
        return None;
    }
    let ghost digits = text@.subrange(start as int, n as int);
    proof {
        if start == 0 {
            assert(digits =~= text@);
        }
    }
    let mut value: usize = 0;
    let mut i: usize = start;
    while i < n
        invariant
            n == text@.len(),
            start <= i <= n,
            start < n,
            digits == text@.subrange(start as int, n as int),
            digits == if text@.len() > 0 && text@[0] == '+' {
                text@.subrange(1, text@.len() as int)
            } else {
                text@
            },
            decimal(digits.subrange(0, i - start)) == Some(value as nat),
        decreases n - i,
    {
        let c = text.get_char(i);
        let ghost longer = digits.subrange(0, i - start + 1);
        proof {
            assert(longer.drop_last() =~= digits.subrange(0, i - start));
            assert(longer.last() == c);
            lemma_decimal_grows(digits, i - start + 1);
        }
        if c < '0' || c > '9' {
            proof {
                assert(digit(c) is None);
                assert(decimal(longer) is None);
            }
            return None;
        }
        let low: usize = (c as u32 - '0' as u32) as usize;
        assert(digit(c) == Some(low as nat));
        assert(decimal(longer) == Some(10 * (value as nat) + low as nat));
        if value > (usize::MAX - low) / 10 {
            return None;
        }
        value = 10 * value + low;
        i = i + 1;
    }
    assert(digits.subrange(0, n - start) =~= digits);
    Some(value)
}

/// The trust factor that a number stands for: the number itself where it
/// is low, medium or high.
pub open spec fn spec_trust_factor_of(number: Option<usize>) -> Result<usize, ConfigError> {
    match number {
        None => Err(ConfigError::InvalidNumber),
        Some(value) => if TrustFactorAuthority::spec_is_valid(value) {
            Ok(value)
        } else {
            Err(ConfigError::TrustFactorOutOfRange(value))
        },
    }
}

/// The trust factor that a number stands for: the number itself where it
/// is low, medium or high.
pub fn trust_factor_of(number: Option<usize>) -> (result: Result<usize, ConfigError>)
    ensures
        result == spec_trust_factor_of(number),
{
    match number {
        None => Err(ConfigError::InvalidNumber),
        Some(value) => if TrustFactorAuthority::is_valid(value) {
            Ok(value)
        } else {
            Err(ConfigError::TrustFactorOutOfRange(value))
        },
    }
}

/// The observers that the user turned off and on, and the trust factors
/// that the user chose.
pub struct OfProviders {
    /// List of providers that should be disabled (assuming enabled all).
    pub disable: Vec<HttpProvider>,
    /// List of enabled providers.
    /// Computed lately based on all providers and given `disable`.
    pub enable: HttpProviders,
    /// Custom trust factors of providers (1 - low, 2 - medium, 3 - high).
    pub trust_factor: Vec<(HttpProvider, usize)>,
}

impl OfProviders {
    /// Enables every observer that is not disabled, and fails where none is left.
    pub fn setup(&mut self) -> (result: Result<(), ConfigError>)
        ensures
            final(self).enable@ == without(HttpProvider::spec_variants(), old(self).disable@),
            final(self).disable == old(self).disable,
            final(self).trust_factor == old(self).trust_factor,
            result == if final(self).enable@.len() == 0 {
                Err::<(), ConfigError>(ConfigError::NoProviders)
            } else {
                Ok::<(), ConfigError>(())
            },
    {
        let all = HttpProvider::variants();
        let mut enabled: Vec<HttpProvider> = Vec::new();
        let mut i: usize = 0;
        while i < all.len()
            invariant
                i <= all@.len(),
                enabled@ == without(all@.subrange(0, i as int), self.disable@),
            decreases all@.len() - i,
        {
            let provider = all[i];
            proof {
                assert(all@.subrange(0, i + 1).drop_last() =~= all@.subrange(0, i as int));
            }
            if !is_among(&self.disable, provider) {
                enabled.push(provider);
            }
            i = i + 1;
        }
        assert(all@.subrange(0, i as int) =~= all@);
        self.enable = HttpProviders::from_slice(enabled.as_slice());
        if self.enable.is_empty() {
            Err(ConfigError::NoProviders)
        } else {
            Ok(())
        }
    }

    /// Reads an override of a trust factor, written as an observer, `=` or
    /// `:`, and a trust factor.
    pub fn parse_trust_factor_pair(s: &str) -> (result: Result<(HttpProvider, usize), ConfigError>)
        ensures
            result == spec_parse_trust_factor_pair(s@),
    {
        let pos: usize = match find_char(s, '=') {
            Some(pos) => pos,
            None => match find_char(s, ':') {
                Some(pos) => pos,
                None => {
                    return Err(ConfigError::NoSeparator);
                },
            },
        };
        let n: usize = s.unicode_len();
        let provider_str = s.substring_char(0, pos);
        let trust_factor_str = s.substring_char(pos + 1, n);
        let provider = match HttpProvider::from_name(provider_str) {
            Some(provider) => provider,
            None => {
                return Err(ConfigError::UnknownProvider);
            },
        };
        let trust_factor = match trust_factor_of(parse_number(trust_factor_str)) {
            Ok(trust_factor) => trust_factor,
            Err(error) => {
                return Err(error);
            },
        };
        Ok((provider, trust_factor))
    }

    /// The authority that weighs the observers as the user chose: every
    /// override in the order in which it was written, so that of two for
    /// one observer the later one stands.
    pub fn authority(&self) -> (tfa: TrustFactorAuthority)
        requires
            forall|i: int|
                0 <= i < self.trust_factor@.len() ==> TrustFactorAuthority::spec_is_valid(
                    (#[trigger] self.trust_factor@[i]).1,
                ),
        ensures
            tfa.wf(),
            tfa@ == overrides(self.trust_factor@),
    {
        let mut tfa = TrustFactorAuthority::new();
        let mut i: usize = 0;
        while i < self.trust_factor.len()
            invariant
                i <= self.trust_factor@.len(),
                forall|k: int|
                    0 <= k < self.trust_factor@.len() ==> TrustFactorAuthority::spec_is_valid(
                        (#[trigger] self.trust_factor@[k]).1,
                    ),
                tfa.wf(),
                tfa@ == overrides(self.trust_factor@.subrange(0, i as int)),
            decreases self.trust_factor@.len() - i,
        {
            let pair = self.trust_factor[i];
            proof {
                assert(self.trust_factor@.subrange(0, i + 1).drop_last() =~= self.trust_factor@.subrange(
                    0,
                    i as int,
                ));
            }
            tfa.set_trust_factor(&pair.0, pair.1);
            i = i + 1;
        }
        assert(self.trust_factor@.subrange(0, i as int) =~= self.trust_factor@);
        tfa
    }
}

/// The overrides that the pairs spell, the later pair standing where two
/// name one observer.
pub open spec fn overrides(pairs: Seq<(HttpProvider, usize)>) -> Map<HttpProvider, usize>
    decreases pairs.len(),
{
    if pairs.len() == 0 {
        Map::empty()
    } else {
        overrides(pairs.drop_last()).insert(pairs.last().0, pairs.last().1)
    }
}

/// Whether `provider` is one of `list`.
fn is_among(list: &Vec<HttpProvider>, provider: HttpProvider) -> (found: bool)
    ensures
        found == list@.contains(provider),
{
    let mut i: usize = 0;
    while i < list.len()
        invariant
            i <= list@.len(),
            forall|k: int| 0 <= k < i ==> list@[k] != provider,
        decreases list@.len() - i,
    {
        if list[i] == provider {
            return true;
        }
        i = i + 1;
    }
    false
}

} // verus!
