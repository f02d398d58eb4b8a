use fckloud::args::{parse_number, trust_factor_of, ConfigError, OfProviders};
use fckloud::build_info::{contains, git_sha_short, is_dirty_build, version, ENV_PREFIX};
use fckloud::cmd_run::{
    clamp_confirmations, has_few_digits, interval_of, Args, Interval, IntervalError, MAX_INTERVAL_DIGITS,
};
use fckloud::ndhcp::manager::Manager;
use fckloud::ndhcp::providers::{HttpProvider, HttpProviders};
use fckloud::ndhcp::trust_factor::TrustFactorAuthority;

fn of_providers(disable: Vec<HttpProvider>, trust_factor: Vec<(HttpProvider, usize)>) -> OfProviders {
    OfProviders { disable, enable: HttpProviders::from_slice(&[]), trust_factor }
}

fn run_args(confirmations: i32, disable: Vec<HttpProvider>) -> Args {
    Args {
        node: String::from("node-1"),
        confirmations,
        dry_run: true,
        interval: Interval { secs: 45, nanos: 0 },
        providers: of_providers(disable, Vec::new()),
        strict: true,
    }
}

#[test]
fn trust_factor_pair_with_either_separator() {
    assert_eq!(OfProviders::parse_trust_factor_pair("HttpBin=1"), Ok((HttpProvider::HttpBin, 1)));
    assert_eq!(OfProviders::parse_trust_factor_pair("HttpBin=2"), Ok((HttpProvider::HttpBin, 2)));
    assert_eq!(OfProviders::parse_trust_factor_pair("HttpBin:3"), Ok((HttpProvider::HttpBin, 3)));
    assert_eq!(OfProviders::parse_trust_factor_pair("HttpBin=+3"), Ok((HttpProvider::HttpBin, 3)));
    assert_eq!(OfProviders::parse_trust_factor_pair("HttpBin=003"), Ok((HttpProvider::HttpBin, 3)));
}

#[test]
fn trust_factor_pair_rejects_what_is_malformed() {
    assert_eq!(OfProviders::parse_trust_factor_pair("HttpBin"), Err(ConfigError::NoSeparator));
    assert_eq!(OfProviders::parse_trust_factor_pair(""), Err(ConfigError::NoSeparator));
    assert_eq!(OfProviders::parse_trust_factor_pair("httpbin=1"), Err(ConfigError::UnknownProvider));
    assert_eq!(OfProviders::parse_trust_factor_pair("=1"), Err(ConfigError::UnknownProvider));
    assert_eq!(OfProviders::parse_trust_factor_pair("HttpBin "), Err(ConfigError::NoSeparator));
    assert_eq!(OfProviders::parse_trust_factor_pair("HttpBin="), Err(ConfigError::InvalidNumber));
    assert_eq!(OfProviders::parse_trust_factor_pair("HttpBin=two"), Err(ConfigError::InvalidNumber));
    assert_eq!(OfProviders::parse_trust_factor_pair("HttpBin=-1"), Err(ConfigError::InvalidNumber));
    assert_eq!(OfProviders::parse_trust_factor_pair("HttpBin= 1"), Err(ConfigError::InvalidNumber));
    assert_eq!(
        OfProviders::parse_trust_factor_pair("HttpBin=0"),
        Err(ConfigError::TrustFactorOutOfRange(0))
    );
    assert_eq!(
        OfProviders::parse_trust_factor_pair("HttpBin=4"),
        Err(ConfigError::TrustFactorOutOfRange(4))
    );
}

#[test]
fn first_equals_sign_parts_the_pair() {
    // The first `=` parts the pair, even behind a `:`.
    assert_eq!(OfProviders::parse_trust_factor_pair("HttpBin:2=3"), Err(ConfigError::UnknownProvider));
    assert_eq!(OfProviders::parse_trust_factor_pair("HttpBin=2:3"), Err(ConfigError::InvalidNumber));
    assert_eq!(OfProviders::parse_trust_factor_pair("HttpBin=2=3"), Err(ConfigError::InvalidNumber));
    assert_eq!(OfProviders::parse_trust_factor_pair("HttpBin:2:3"), Err(ConfigError::InvalidNumber));
}

#[test]
fn numbers_are_read_as_the_standard_library_reads_them() {
    for text in ["0", "1", "7", "10", "+5", "0007", "18446744073709551615", "18446744073709551616",
        "99999999999999999999999", "", "+", "-", "-0", "1_000", "12a", "a12", " 1", "1 ", "++1", "٣"]
    {
        assert_eq!(parse_number(text), text.parse::<usize>().ok());
    }
    assert_eq!(parse_number("42"), Some(42));
    assert_eq!(parse_number("+"), None);
    assert_eq!(trust_factor_of(None), Err(ConfigError::InvalidNumber));
    assert_eq!(trust_factor_of(Some(2)), Ok(2));
    assert_eq!(trust_factor_of(Some(9)), Err(ConfigError::TrustFactorOutOfRange(9)));
}

#[test]
fn every_observer_is_enabled_unless_disabled() {
    let mut providers = of_providers(Vec::new(), Vec::new());
    assert_eq!(providers.setup(), Ok(()));
    assert_eq!(providers.enable.as_slice(), &[HttpProvider::HttpBin]);
    let mut providers = of_providers(vec![HttpProvider::HttpBin], Vec::new());
    assert_eq!(providers.setup(), Err(ConfigError::NoProviders));
    assert!(providers.enable.is_empty());
    assert_eq!(providers.disable, vec![HttpProvider::HttpBin]);
}

#[test]
fn later_override_stands() {
    let providers = of_providers(
        Vec::new(),
        vec![(HttpProvider::HttpBin, 3), (HttpProvider::HttpBin, 2)],
    );
    let tfa = providers.authority();
    assert_eq!(tfa.trust_factor(HttpProvider::HttpBin), 2);
    let tfa = of_providers(Vec::new(), Vec::new()).authority();
    assert_eq!(tfa.trust_factor(HttpProvider::HttpBin), 1);
}

#[test]
fn invalid_configuration_is_rejected() {
    let mut tfa = TrustFactorAuthority::new();
    assert_eq!(tfa.try_set_trust_factor(&HttpProvider::HttpBin, 3), Ok(()));
    assert_eq!(
        tfa.try_set_trust_factor(&HttpProvider::HttpBin, 4),
        Err(ConfigError::TrustFactorOutOfRange(4))
    );
    assert_eq!(
        tfa.try_set_trust_factor(&HttpProvider::HttpBin, 0),
        Err(ConfigError::TrustFactorOutOfRange(0))
    );
    assert_eq!(tfa.trust_factor(HttpProvider::HttpBin), 3);
    let none = Manager::try_new_with_tfa(HttpProviders::from_slice(&[]), TrustFactorAuthority::new());
    assert_eq!(none.err(), Some(ConfigError::NoProviders));
    let one = Manager::try_new_with_tfa(HttpProviders::from_slice(&[HttpProvider::HttpBin]), tfa);
    assert_eq!(one.ok().map(|manager| manager.confirmations()), Some(3));
}

#[test]
fn observers_beyond_count_are_rejected() {
    // An observer takes no room, so a list of them can be longer than any
    // sum of trust factors can count.
    let crowd = [HttpProvider::HttpBin; usize::MAX / 3 + 1];
    let many = Manager::try_new_with_tfa(HttpProviders::from_slice(&crowd), TrustFactorAuthority::new());
    assert_eq!(many.err(), Some(ConfigError::TooManyProviders));
}

#[test]
fn observers_are_found_by_name() {
    assert_eq!(HttpProvider::from_name("HttpBin"), Some(HttpProvider::HttpBin));
    assert_eq!(HttpProvider::from_name("httpbin"), None);
    assert_eq!(HttpProvider::from_name("HttpBin "), None);
    assert_eq!(HttpProvider::from_name("httpbin.org"), None);
    assert_eq!(HttpProvider::from_name(""), None);
    for provider in HttpProvider::variants() {
        assert_eq!(HttpProvider::from_name(provider.name()), Some(provider));
    }
}

#[test]
fn interval_of_thirty_seconds_and_more() {
    assert_eq!(
        Args::parse_flag_interval("30s"),
        Ok(Interval { secs: 30, nanos: 0 })
    );
    assert_eq!(Args::parse_flag_interval("1m"), Ok(Interval { secs: 60, nanos: 0 }));
    assert_eq!(
        Args::parse_flag_interval("1hour 12min 5s"),
        Ok(Interval { secs: 4325, nanos: 0 })
    );
    assert_eq!(
        Args::parse_flag_interval("30s 500ms"),
        Ok(Interval { secs: 30, nanos: 500_000_000 })
    );
    assert_eq!(
        Args::parse_flag_interval("29s 999ms"),
        Err(IntervalError::TooShort(Interval { secs: 29, nanos: 999_000_000 }))
    );
    assert_eq!(
        Args::parse_flag_interval("0"),
        Err(IntervalError::TooShort(Interval { secs: 0, nanos: 0 }))
    );
    assert_eq!(Args::parse_flag_interval("soon"), Err(IntervalError::Unreadable));
    assert_eq!(Args::parse_flag_interval(""), Err(IntervalError::Unreadable));
    assert_eq!(interval_of(None), Err(IntervalError::Unreadable));
    assert_eq!(
        interval_of(Some(Interval { secs: 30, nanos: 1 })),
        Ok(Interval { secs: 30, nanos: 1 })
    );
}

#[test]
fn interval_with_too_many_digits_is_not_read() {
    assert_eq!(MAX_INTERVAL_DIGITS, 11);
    assert_eq!(
        Args::parse_flag_interval("99999999999s"),
        Ok(Interval { secs: 99_999_999_999, nanos: 0 })
    );
    assert_eq!(
        Args::parse_flag_interval("99999999999y"),
        Ok(Interval { secs: 99_999_999_999 * 31_557_600, nanos: 0 })
    );
    assert_eq!(
        Args::parse_flag_interval("1h 1m 1s 1ms 1us 1ns 11111"),
        Err(IntervalError::Unreadable)
    );
    assert_eq!(Args::parse_flag_interval("100000000000s"), Err(IntervalError::TooManyDigits));
    assert_eq!(Args::parse_flag_interval("000000000030s"), Err(IntervalError::TooManyDigits));
    assert_eq!(Args::parse_flag_interval("30.00000000000s"), Err(IntervalError::TooManyDigits));
    assert_eq!(Args::parse_flag_interval("123456789012"), Err(IntervalError::TooManyDigits));
    // The seconds are the largest that can be held, and the billionths
    // add up to one second exactly.
    assert_eq!(
        Args::parse_flag_interval("18446744073709551615s 1000ms"),
        Err(IntervalError::TooManyDigits)
    );
    assert_eq!(
        Args::parse_flag_interval("18446744073709551615s 1000000000ns"),
        Err(IntervalError::TooManyDigits)
    );
    assert_eq!(Args::parse_flag_interval("30s 500ms 500ms"), Ok(Interval { secs: 31, nanos: 0 }));
    assert!(has_few_digits(""));
    assert!(has_few_digits("no digits at all, however long the text may be"));
    assert!(has_few_digits("1a2b3c4d5e6f7g8h9i0j1k"));
    assert!(!has_few_digits("1a2b3c4d5e6f7g8h9i0j1k2"));
    assert!(has_few_digits("٣٣٣٣٣٣٣٣٣٣٣٣٣٣٣٣"));
}

#[test]
fn confirmations_are_kept_within_bounds() {
    assert_eq!(clamp_confirmations(i32::MIN), 1);
    assert_eq!(clamp_confirmations(-1), 1);
    assert_eq!(clamp_confirmations(0), 1);
    assert_eq!(clamp_confirmations(1), 1);
    assert_eq!(clamp_confirmations(2), 1);
    assert_eq!(clamp_confirmations(i32::MAX), 1);
}

#[test]
fn run_settings_are_prepared() {
    let args = run_args(5, Vec::new()).setup().ok().unwrap();
    assert_eq!(args.confirmations, 1);
    assert_eq!(args.providers.enable.as_slice(), &[HttpProvider::HttpBin]);
    assert_eq!(args.node, "node-1");
    assert!(args.dry_run);
    assert!(args.strict);
    assert_eq!(args.interval, Interval { secs: 45, nanos: 0 });
    assert!(args.interval_is_discouraged());
    let failed = run_args(1, vec![HttpProvider::HttpBin]).setup();
    assert_eq!(failed.err(), Some(ConfigError::NoProviders));
    let mut unhurried = run_args(1, Vec::new());
    unhurried.interval = Interval { secs: 60, nanos: 0 };
    assert!(!unhurried.interval_is_discouraged());
}

#[test]
fn commit_hash_is_cut_to_seven() {
    assert_eq!(git_sha_short("0123456789abcdef"), "0123456");
    assert_eq!(git_sha_short("0123456"), "0123456");
    assert_eq!(git_sha_short("01234"), "01234");
    assert_eq!(git_sha_short(""), "");
}

#[test]
fn dirty_builds_say_so() {
    assert!(is_dirty_build("v1.2.3-4-gabcdef0-dirty"));
    assert!(is_dirty_build("dirty"));
    assert!(!is_dirty_build("v1.2.3-4-gabcdef0"));
    assert!(!is_dirty_build("dirt"));
    assert!(!is_dirty_build(""));
    assert!(contains("abc", ""));
    assert!(contains("", ""));
    assert!(!contains("", "a"));
    assert!(contains("aab", "ab"));
    assert!(!contains("aab", "ba"));
    for text in ["dirty", "xdirty", "dirtyx", "dirdirty", "d-i-r-t-y", "DIRTY"] {
        assert_eq!(is_dirty_build(text), text.contains("dirty"));
    }
}

#[test]
fn version_line_names_the_build() {
    assert_eq!(
        version("0.3.1", "0123456789abcdef", "v0.3.1-2-g0123456-dirty", "2025-01-31"),
        "v0.3.1, git: 0123456 (dirty), built: 2025-01-31"
    );
    assert_eq!(
        version("0.3.1", "0123456789abcdef", "v0.3.1", "2025-01-31"),
        "v0.3.1, git: 0123456, built: 2025-01-31"
    );
    assert_eq!(ENV_PREFIX, "FCKLOUD_");
}
