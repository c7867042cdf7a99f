use frametrace::duration::{
    canonical_nanos, has_unit_suffix, parse_duration, unit_for, DecodeError, Unit,
};

#[test]
fn integral_magnitudes_scale_exactly() {
    assert_eq!(parse_duration("2ms"), Ok(2_000_000));
    assert_eq!(parse_duration("1s"), Ok(1_000_000_000));
    assert_eq!(parse_duration("1w"), Ok(604_800_000_000_000));
    assert_eq!(parse_duration("375ns"), Ok(375));
    assert_eq!(parse_duration("7\u{b5}s"), Ok(7_000));
    assert_eq!(parse_duration("3m"), Ok(180_000_000_000));
    assert_eq!(parse_duration("2h"), Ok(7_200_000_000_000));
    assert_eq!(parse_duration("1d"), Ok(86_400_000_000_000));
}

#[test]
fn every_unit_scales_by_its_factor() {
    let units = [
        ("ns", Unit::NanoSecond),
        ("\u{b5}s", Unit::MicroSecond),
        ("ms", Unit::MilliSecond),
        ("s", Unit::Second),
        ("m", Unit::Minute),
        ("h", Unit::Hour),
        ("d", Unit::Day),
        ("w", Unit::Week),
    ];
    for (suffix, unit) in units {
        assert_eq!(unit_for(suffix), Some(unit));
        for magnitude in [0u64, 1, 2, 17, 1000] {
            let token = format!("{magnitude}{suffix}");
            assert_eq!(parse_duration(&token), Ok(magnitude * unit.nanos()));
        }
    }
}

#[test]
fn fractional_magnitudes() {
    assert_eq!(parse_duration("2.93ms"), Ok(2_930_000));
    assert_eq!(parse_duration("6.64ms"), Ok(6_640_000));
    assert_eq!(parse_duration("7.76ms"), Ok(7_760_000));
}

#[test]
fn unknown_suffix_is_rejected() {
    assert_eq!(parse_duration("5xs"), Err(DecodeError::TimeUnit));
    assert_eq!(parse_duration("5us"), Err(DecodeError::TimeUnit));
    assert_eq!(parse_duration("5MS"), Err(DecodeError::TimeUnit));
}

#[test]
fn negative_magnitude_is_rejected() {
    assert_eq!(parse_duration("-5ms"), Err(DecodeError::NegativeNumber));
}

#[test]
fn malformed_tokens_are_rejected() {
    assert_eq!(parse_duration(""), Err(DecodeError::Empty));
    assert_eq!(parse_duration("ms"), Err(DecodeError::InvalidInput));
    assert_eq!(parse_duration("1,5ms"), Err(DecodeError::TimeUnit));
    assert_eq!(parse_duration("1e99999ms"), Err(DecodeError::PositiveExponentOverflow));
    assert_eq!(parse_duration("1e-99999ms"), Err(DecodeError::NegativeExponentOverflow));
    assert!(matches!(parse_duration("1.5.2s"), Err(_)));
}

#[test]
fn values_beyond_the_canonical_range_overflow() {
    assert_eq!(parse_duration("18446744073709551615ns"), Ok(u64::MAX));
    assert_eq!(parse_duration("18446744073709551616ns"), Err(DecodeError::Overflow));
    assert_eq!(parse_duration("40000w"), Err(DecodeError::Overflow));
    assert_eq!(parse_duration("inf"), Err(DecodeError::TimeUnit));
}

#[test]
fn canonical_range_of_a_parsed_count() {
    assert_eq!(canonical_nanos("0ns", Ok(0)), Ok(0));
    assert_eq!(canonical_nanos("12ns", Ok(12)), Ok(12));
    assert_eq!(canonical_nanos("1s", Ok(u64::MAX as i128)), Ok(u64::MAX));
    assert_eq!(canonical_nanos("1s", Ok(u64::MAX as i128 + 1)), Err(DecodeError::Overflow));
    assert_eq!(canonical_nanos("1s", Ok(-1)), Err(DecodeError::NegativeNumber));
    assert_eq!(canonical_nanos("1s", Err(DecodeError::Syntax)), Err(DecodeError::Syntax));
    assert_eq!(canonical_nanos("1", Ok(12)), Err(DecodeError::TimeUnit));
    assert_eq!(canonical_nanos("1", Ok(-1)), Err(DecodeError::TimeUnit));
    assert_eq!(canonical_nanos("", Ok(12)), Err(DecodeError::TimeUnit));
    assert_eq!(canonical_nanos("1", Err(DecodeError::Empty)), Err(DecodeError::Empty));
}

#[test]
fn a_magnitude_needs_a_unit() {
    assert_eq!(parse_duration("5"), Err(DecodeError::TimeUnit));
    assert_eq!(parse_duration("5.5"), Err(DecodeError::TimeUnit));
    assert_eq!(parse_duration("1e3"), Err(DecodeError::TimeUnit));
    assert_eq!(parse_duration("infinity"), Err(DecodeError::TimeUnit));
    assert_eq!(parse_duration("5 ms"), Err(DecodeError::TimeUnit));
    assert_eq!(parse_duration("5ms "), Err(DecodeError::TimeUnit));
}

#[test]
fn unit_suffixes_are_recognised() {
    for token in ["1ns", "1\u{b5}s", "1ms", "1s", "1m", "1h", "1d", "1w", "s", "xms", "\u{b5}s"] {
        assert!(has_unit_suffix(token), "{token:?}");
    }
    for token in ["", "1", "1x", "1n", "1\u{b5}", "ms1", "1S", "1y", "inf", "1s "] {
        assert!(!has_unit_suffix(token), "{token:?}");
    }
}

#[test]
fn unit_table_is_exact() {
    assert_eq!(unit_for(""), None);
    assert_eq!(unit_for("S"), None);
    assert_eq!(unit_for("sec"), None);
    assert_eq!(unit_for("xs"), None);
    assert_eq!(unit_for("M"), None);
    assert_eq!(unit_for("y"), None);
    assert_eq!(Unit::MilliSecond.nanos(), 1_000_000);
    assert_eq!(Unit::Week.nanos(), 604_800_000_000_000);
}

#[test]
fn every_error_has_its_words() {
    assert_eq!(DecodeError::Empty.describe(), "empty input");
    assert_eq!(DecodeError::Syntax.describe(), "the magnitude is not a decimal number");
    assert_eq!(DecodeError::Overflow.describe(), "the duration is too long");
    assert_eq!(DecodeError::TimeUnit.describe(), "unknown or missing time unit");
    assert_eq!(DecodeError::NegativeExponentOverflow.describe(), "the exponent is too small");
    assert_eq!(DecodeError::PositiveExponentOverflow.describe(), "the exponent is too large");
    assert_eq!(DecodeError::NegativeNumber.describe(), "the duration is negative");
    assert_eq!(DecodeError::InvalidInput.describe(), "not a duration");
}

#[test]
fn syntax_errors_of_the_magnitude() {
    assert_eq!(parse_duration("1.5.2s"), Err(DecodeError::TimeUnit));
    assert_eq!(parse_duration("1e+s"), Err(DecodeError::Syntax));
    assert_eq!(parse_duration("+ms"), Err(DecodeError::InvalidInput));
    assert_eq!(parse_duration("+"), Err(DecodeError::Syntax));
}
