//! The settings of a run of the operator, and what is made of them before
//! the first cycle.

use vstd::prelude::*;
use crate::args::{ConfigError, OfProviders};
use crate::ndhcp::providers::PROVIDER_COUNT;

verus! {

/// A span of time: whole seconds, and the billionths of a second beyond them.
#[derive(Clone, Copy, Debug, PartialEq, Eq, Structural, Hash)]
pub struct Interval {
    pub secs: u64,
    pub nanos: u32,
}

/// The seconds between two checks where the user names none.
pub const DEF_INTERVAL: u64 = 60;

/// The fewest seconds that may lie between two checks.
pub const MIN_INTERVAL: u64 = 30;

/// The smallest confirmation number that can be asked for.
pub const MIN_CONFIRMATIONS: i32 = 1;

/// The largest confirmation number that can be asked for: one for each
/// observer that there is.
pub const MAX_CONFIRMATIONS: i32 = PROVIDER_COUNT as i32;

/// The most decimal digits that the text of an interval may hold.
pub const MAX_INTERVAL_DIGITS: usize = 11;

/// Why an interval was rejected.
#[derive(Clone, Copy, Debug, PartialEq, Eq, Structural, Hash)]
pub enum IntervalError {
    /// The text holds more decimal digits than `MAX_INTERVAL_DIGITS`.
    TooManyDigits,
    /// The text is no span of time.
    Unreadable,
    /// The span is shorter than the shortest that is allowed.
    TooShort(Interval),
}

/// The span of time that `humantime::parse_duration` reads out of `text`,
/// where it reads one.
pub uninterp spec fn duration_parsed(text: Seq<char>) -> Option<Interval>;

/// Whether `c` is a decimal digit.
pub open spec fn is_decimal_digit(c: char) -> bool {
    '0' <= c && c <= '9'
}

/// The number of decimal digits in `text`.
pub open spec fn digits_in(text: Seq<char>) -> nat
    decreases text.len(),
{
    if text.len() == 0 {
        0
    } else if is_decimal_digit(text.last()) {
        digits_in(text.drop_last()) + 1
    } else {
        digits_in(text.drop_last())
    }
}

/// `humantime::parse_duration`: the span of time that `text` spells as a
/// chain of numbers with units, such as `1hour 12min 5s`.
///
/// Trusted: the span that comes back depends on the text alone. The parser
/// adds up with checked arithmetic and fails where a number grows too
/// large, but for one step: where the billionths of a second add up to one
/// second exactly, it leaves the carry to `Duration::new`, which panics when
/// the seconds are `u64::MAX` already. The bound on the digits leaves such
/// texts out. A span whose number is `n` adds fewer than `(n + 1) *
/// 31 557 600` seconds, the seconds of a year, whatever its unit and its
/// fraction; the numbers of a text with eleven digits at most, each raised
/// by one, sum to `10^11` at most; so the seconds stay below `3.2 * 10^18`.
#[verifier::external_body]
fn read_duration(text: &str) -> (parsed: Option<Interval>)
    requires
        digits_in(text@) <= MAX_INTERVAL_DIGITS,
    ensures
        parsed == duration_parsed(text@),
{
    match humantime::parse_duration(text) {
        Ok(span) => Some(Interval { secs: span.as_secs(), nanos: span.subsec_nanos() }),
        Err(_) => None,
    }
}

/// The interval that a span of time makes, if the text spelled one: it has
/// to last thirty seconds at least.
pub open spec fn spec_interval_of(parsed: Option<Interval>) -> Result<Interval, IntervalError> {
    match parsed {
        None => Err(IntervalError::Unreadable),
        Some(span) => if span.secs >= MIN_INTERVAL {
            Ok(span)
        } else {
            Err(IntervalError::TooShort(span))
        },
    }
}

/// What the text of an interval comes to: nothing where it holds too many
/// digits to be read, and else the interval that its span of time makes.
pub open spec fn spec_parse_flag_interval(text: Seq<char>) -> Result<Interval, IntervalError> {
    if digits_in(text) <= MAX_INTERVAL_DIGITS {
        spec_interval_of(duration_parsed(text))
    } else {
        Err(IntervalError::TooManyDigits)
    }
}

/// A part of a text holds no more digits than the text.
pub proof fn lemma_digits_grow(text: Seq<char>, n: int)
    requires
        0 <= n <= text.len(),
    ensures
        digits_in(text.subrange(0, n)) <= digits_in(text),
    decreases text.len() - n,
{
    if n < text.len() {
        lemma_digits_grow(text, n + 1);
        assert(text.subrange(0, n + 1).drop_last() =~= text.subrange(0, n));
    } else {
        assert(text.subrange(0, n) =~= text);
    }
}

/// Whether `text` holds `MAX_INTERVAL_DIGITS` decimal digits at most.
pub fn has_few_digits(text: &str) -> (few: bool)
    ensures
        few == (digits_in(text@) <= MAX_INTERVAL_DIGITS),
{
    let mut digits: usize = 0;
    for c in it: text.chars()
        invariant
            it.seq() == text@,
            digits == digits_in(text@.subrange(0, it.index() as int)),
            digits <= MAX_INTERVAL_DIGITS,
    {
        proof {
            assert(text@.subrange(0, it.index() + 1).drop_last() =~= text@.subrange(0, it.index() as int));
            assert(text@.subrange(0, it.index() + 1).last() == c);
        }
        if '0' <= c && c <= '9' {
            if digits == MAX_INTERVAL_DIGITS {
                proof {
                    lemma_digits_grow(text@, it.index() + 1);
                }
                return false;
            }
            digits = digits + 1;
        }
    }
    assert(text@.subrange(0, text@.len() as int) =~= text@);
    true
}

/// The number within the bounds `MIN_CONFIRMATIONS` and `MAX_CONFIRMATIONS`
/// that is nearest to `confirmations`.
pub open spec fn spec_clamp_confirmations(confirmations: i32) -> i32 {
    if confirmations < MIN_CONFIRMATIONS {
        MIN_CONFIRMATIONS
    } else if confirmations > MAX_CONFIRMATIONS {
        MAX_CONFIRMATIONS
    } else {
        confirmations
    }
}

/// The interval that a span of time makes, if the text spelled one: it has
/// to last thirty seconds at least.
pub fn interval_of(parsed: Option<Interval>) -> (result: Result<Interval, IntervalError>)
    ensures
        result == spec_interval_of(parsed),
{
    match parsed {
        None => Err(IntervalError::Unreadable),
        Some(span) => if span.secs >= MIN_INTERVAL {
            Ok(span)
        } else {
            Err(IntervalError::TooShort(span))
        },
    }
}

/// The number within the bounds that is nearest to `confirmations`.
pub fn clamp_confirmations(confirmations: i32) -> (clamped: i32)
    ensures
        clamped == spec_clamp_confirmations(confirmations),
        MIN_CONFIRMATIONS <= clamped <= MAX_CONFIRMATIONS,
{
    if confirmations < MIN_CONFIRMATIONS {
        MIN_CONFIRMATIONS
    } else if confirmations > MAX_CONFIRMATIONS {
        MAX_CONFIRMATIONS
    } else {
        confirmations
    }
}

/// The list of options for the "run" command.
pub struct Args {
    /// The current node name the operator is running on.
    pub node: String,
    /// The number of providers required for IP address to consider it public.
    pub confirmations: i32,
    /// Perform dry run (real node addresses will not be changed).
    pub dry_run: bool,
    /// How often the checks must happen (must be 30s or more).
    pub interval: Interval,
    /// The observers to ask, and how much to trust them.
    pub providers: OfProviders,
    /// Remove unmatched ExternalIP addresses from the node.
    pub strict: bool,
}

impl Args {
    /// Parser for "--interval" flag: reads the span of time that `s`
    /// spells, and takes it where it lasts thirty seconds at least. A text
    /// with more than `MAX_INTERVAL_DIGITS` decimal digits is not read.
    pub fn parse_flag_interval(s: &str) -> (result: Result<Interval, IntervalError>)
        ensures
            result == spec_parse_flag_interval(s@),
    {
        if has_few_digits(s) {
            interval_of(read_duration(s))
        } else {
            Err(IntervalError::TooManyDigits)
        }
    }

    /// Whether many observers would discourage the interval: it is shorter
    /// than the one that is used where the user names none.
    pub fn interval_is_discouraged(&self) -> (short: bool)
        ensures
            short == (self.interval.secs < DEF_INTERVAL),
    {
        self.interval.secs < DEF_INTERVAL
    }

    // The preparation for [run], that adjusts some parameters if they had to.
    pub fn setup(self) -> (result: Result<Self, ConfigError>)
        requires
            self.interval.secs >= MIN_INTERVAL,
            self.node@.len() > 0,
        ensures
            match result {
                Ok(args) => {
                    &&& args.providers.enable@.len() > 0
                    &&& args.providers.enable@ == crate::args::without(
                        crate::ndhcp::providers::HttpProvider::spec_variants(),
                        self.providers.disable@,
                    )
                    &&& args.providers.disable == self.providers.disable
                    &&& args.providers.trust_factor == self.providers.trust_factor
                    &&& args.confirmations == spec_clamp_confirmations(self.confirmations)
                    &&& args.node == self.node
                    &&& args.dry_run == self.dry_run
                    &&& args.interval == self.interval
                    &&& args.strict == self.strict
                },
                Err(error) => error == ConfigError::NoProviders && crate::args::without(
                    crate::ndhcp::providers::HttpProvider::spec_variants(),
                    self.providers.disable@,
                ).len() == 0,
            },
    {
        let mut args = self;
        match args.providers.setup() {
            Ok(_) => {},
            Err(error) => {
                return Err(error);
            },
        }
        args.confirmations = clamp_confirmations(args.confirmations);
        Ok(args)
    }
}

} // verus!
