//! Duration tokens such as `2.93ms` or `375ns`, decoded to whole nanoseconds.
//!
//! The number grammar is that of `fundu_core`; the unit table, the range of
//! the canonical value and the error kinds are this module's own.

use fundu_core::error::ParseError;
use fundu_core::parse::Parser;
use fundu_core::time::{Multiplier, TimeUnit, TimeUnitsLike};
use vstd::prelude::*;

verus! {

/// `fundu_core::time::TimeUnit`, carried through opaquely.
#[verifier::external_type_specification]
#[verifier::external_body]
pub struct ExTimeUnit(TimeUnit);

/// `fundu_core::time::Multiplier`, carried through opaquely.
#[verifier::external_type_specification]
#[verifier::external_body]
pub struct ExMultiplier(Multiplier);

/// The units a duration token may end in.
#[derive(Debug, Clone, Copy, PartialEq, Eq, Structural)]
pub enum Unit {
    NanoSecond,
    MicroSecond,
    MilliSecond,
    Second,
    Minute,
    Hour,
    Day,
    Week,
}

impl Unit {
    /// The number of nanoseconds in one unit.
    pub open spec fn spec_nanos(self) -> nat {
        match self {
            Unit::NanoSecond => 1,
            Unit::MicroSecond => 1_000,
            Unit::MilliSecond => 1_000_000,
            Unit::Second => 1_000_000_000,
            Unit::Minute => 60_000_000_000,
            Unit::Hour => 3_600_000_000_000,
            Unit::Day => 86_400_000_000_000,
            Unit::Week => 604_800_000_000_000,
        }
    }

    /// The number of nanoseconds in one unit.
    pub fn nanos(self) -> (factor: u64)
        ensures
            factor == self.spec_nanos(),
    {
        match self {
            Unit::NanoSecond => 1,
            Unit::MicroSecond => 1_000,
            Unit::MilliSecond => 1_000_000,
            Unit::Second => 1_000_000_000,
            Unit::Minute => 60_000_000_000,
            Unit::Hour => 3_600_000_000_000,
            Unit::Day => 86_400_000_000_000,
            Unit::Week => 604_800_000_000_000,
        }
    }
}

/// The unit table: `ns`, `µs`, `ms`, `s`, `m`, `h`, `d` and `w`, and nothing
/// else. Matching is exact and case sensitive.
pub open spec fn unit_of(suffix: Seq<char>) -> Option<Unit> {
    if suffix == seq!['n', 's'] {
        Some(Unit::NanoSecond)
    } else if suffix == seq!['\u{b5}', 's'] {
        Some(Unit::MicroSecond)
    } else if suffix == seq!['m', 's'] {
        Some(Unit::MilliSecond)
    } else if suffix == seq!['s'] {
        Some(Unit::Second)
    } else if suffix == seq!['m'] {
        Some(Unit::Minute)
    } else if suffix == seq!['h'] {
        Some(Unit::Hour)
    } else if suffix == seq!['d'] {
        Some(Unit::Day)
    } else if suffix == seq!['w'] {
        Some(Unit::Week)
    } else {
        None
    }
}

/// Looks a unit suffix up in the unit table.
pub fn unit_for(suffix: &str) -> (unit: Option<Unit>)
    ensures
        unit == unit_of(suffix@),
{
    let len = suffix.unicode_len();
    if len == 1 {
        let c = suffix.get_char(0);
        assert(suffix@ =~= seq![c]);
        if c == 's' {
            Some(Unit::Second)
        } else if c == 'm' {
            Some(Unit::Minute)
        } else if c == 'h' {
            Some(Unit::Hour)
        } else if c == 'd' {
            Some(Unit::Day)
        } else if c == 'w' {
            Some(Unit::Week)
        } else {
            None
        }
    } else if len == 2 {
        let c = suffix.get_char(0);
        let d = suffix.get_char(1);
        assert(suffix@ =~= seq![c, d]);
        if d != 's' {
            None
        } else if c == 'n' {
            Some(Unit::NanoSecond)
        } else if c == '\u{b5}' {
            Some(Unit::MicroSecond)
        } else if c == 'm' {
            Some(Unit::MilliSecond)
        } else {
            None
        }
    } else {
        None
    }
}

/// Why a duration token was rejected.
#[derive(Debug, Clone, Copy, PartialEq, Eq, Structural)]
pub enum DecodeError {
    /// The token is empty.
    Empty,
    /// The magnitude is not a decimal number.
    Syntax,
    /// The value does not fit the canonical representation.
    Overflow,
    /// The token does not end in a suffix of the unit table.
    TimeUnit,
    /// The exponent of the magnitude is below the smallest one supported.
    NegativeExponentOverflow,
    /// The exponent of the magnitude is above the largest one supported.
    PositiveExponentOverflow,
    /// The magnitude is negative.
    NegativeNumber,
    /// The token is neither a number nor anything else the grammar knows.
    InvalidInput,
}

impl DecodeError {
    /// What the error says, in words.
    pub open spec fn description(self) -> Seq<char> {
        match self {
            DecodeError::Empty => "empty input"@,
            DecodeError::Syntax => "the magnitude is not a decimal number"@,
            DecodeError::Overflow => "the duration is too long"@,
            DecodeError::TimeUnit => "unknown or missing time unit"@,
            DecodeError::NegativeExponentOverflow => "the exponent is too small"@,
            DecodeError::PositiveExponentOverflow => "the exponent is too large"@,
            DecodeError::NegativeNumber => "the duration is negative"@,
            DecodeError::InvalidInput => "not a duration"@,
        }
    }

    /// What the error says, in words.
    pub fn describe(&self) -> (text: &'static str)
        ensures
            text@ == self.description(),
    {
        match self {
            DecodeError::Empty => "empty input",
            DecodeError::Syntax => "the magnitude is not a decimal number",
            DecodeError::Overflow => "the duration is too long",
            DecodeError::TimeUnit => "unknown or missing time unit",
            DecodeError::NegativeExponentOverflow => "the exponent is too small",
            DecodeError::PositiveExponentOverflow => "the exponent is too large",
            DecodeError::NegativeNumber => "the duration is negative",
            DecodeError::InvalidInput => "not a duration",
        }
    }
}

/// The unit table in the form the number parser consults.
struct TimeUnits {}

/// Gives a unit its `fundu_core` form: the `TimeUnit` of the same name,
/// paired with the neutral multiplier that `Multiplier::default` returns.
/// Nothing is claimed of the result, which is opaque here.
#[verifier::external_body]
fn outside_unit(unit: Unit) -> (TimeUnit, Multiplier) {
    let time_unit = match unit {
        Unit::NanoSecond => TimeUnit::NanoSecond,
        Unit::MicroSecond => TimeUnit::MicroSecond,
        Unit::MilliSecond => TimeUnit::MilliSecond,
        Unit::Second => TimeUnit::Second,
        Unit::Minute => TimeUnit::Minute,
        Unit::Hour => TimeUnit::Hour,
        Unit::Day => TimeUnit::Day,
        Unit::Week => TimeUnit::Week,
    };
    (time_unit, Multiplier::default())
}

impl TimeUnitsLike for TimeUnits {
    /// The table is never empty: it holds the eight units.
    fn is_empty(&self) -> (empty: bool)
        ensures
            !empty,
    {
        false
    }

    /// The unit that an identifier names, in the parser's form. There is one
    /// exactly for the identifiers of the unit table.
    fn get(&self, identifier: &str) -> (found: Option<(TimeUnit, Multiplier)>)
        ensures
            found is Some <==> unit_of(identifier@) is Some,
    {
        match unit_for(identifier) {
            Some(unit) => Some(outside_unit(unit)),
            None => None,
        }
    }
}

/// What `fundu_core`'s parser, in its default configuration and with this
/// module's unit table, makes of a token: the signed number of nanoseconds,
/// or the kind of its error.
pub uninterp spec fn parsed_duration(token: Seq<char>) -> Result<int, DecodeError>;

/// Runs `fundu_core::parse::Parser::parse` on the token, with the default
/// configuration, this module's unit table and neither keywords nor
/// numerals. A duration comes back as the signed nanosecond count that
/// `Duration::as_nanos` reports, an error as the kind of the same name.
/// The contract only names the outcome: it is a function of the token.
#[verifier::external_body]
fn parse_with_units(token: &str) -> (outcome: Result<i128, DecodeError>)
    ensures
        widened(outcome) == parsed_duration(token@),
{
    match Parser::new().parse(token, &TimeUnits {}, None, None) {
        Ok(duration) => Ok(duration.as_nanos()),
        Err(ParseError::Empty) => Err(DecodeError::Empty),
        Err(ParseError::Syntax(..)) => Err(DecodeError::Syntax),
        Err(ParseError::Overflow) => Err(DecodeError::Overflow),
        Err(ParseError::TimeUnit(..)) => Err(DecodeError::TimeUnit),
        Err(ParseError::NegativeExponentOverflow) => Err(DecodeError::NegativeExponentOverflow),
        Err(ParseError::PositiveExponentOverflow) => Err(DecodeError::PositiveExponentOverflow),
        Err(ParseError::NegativeNumber) => Err(DecodeError::NegativeNumber),
        Err(_) => Err(DecodeError::InvalidInput),
    }
}

/// Whether a token ends in a suffix of the unit table.
pub open spec fn ends_with_unit(token: Seq<char>) -> bool {
    ||| token.len() >= 1 && unit_of(token.skip(token.len() - 1)) is Some
    ||| token.len() >= 2 && unit_of(token.skip(token.len() - 2)) is Some
}

/// The outcome of the number parser, widened to mathematical integers.
pub open spec fn widened(parsed: Result<i128, DecodeError>) -> Result<int, DecodeError> {
    match parsed {
        Ok(nanos) => Ok(nanos as int),
        Err(error) => Err(error),
    }
}

/// The canonical value of a token, given what the number parser made of
/// it: an error of the parser stands; a number without a unit suffix is a
/// `TimeUnit` error, a negative one a `NegativeNumber` error, one above
/// `u64::MAX` nanoseconds an `Overflow`; anything else is the value.
pub open spec fn canonical(token: Seq<char>, parsed: Result<int, DecodeError>) -> Result<
    u64,
    DecodeError,
> {
    match parsed {
        Err(error) => Err(error),
        Ok(nanos) => if !ends_with_unit(token) {
            Err(DecodeError::TimeUnit)
        } else if nanos < 0 {
            Err(DecodeError::NegativeNumber)
        } else if nanos > u64::MAX {
            Err(DecodeError::Overflow)
        } else {
            Ok(nanos as u64)
        },
    }
}

/// Whether a token ends in a suffix of the unit table.
pub fn has_unit_suffix(token: &str) -> (b: bool)
    ensures
        b == ends_with_unit(token@),
{
    let len = token.unicode_len();
    if len >= 1 && unit_for(token.substring_char(len - 1, len)).is_some() {
        return true;
    }
    len >= 2 && unit_for(token.substring_char(len - 2, len)).is_some()
}

/// Brings a parsed token into the canonical representation, whole
/// nanoseconds in a `u64`. The token must end in a unit suffix, and the
/// parsed count must be neither negative nor above `u64::MAX`; an error of
/// the parser is passed on.
pub fn canonical_nanos(token: &str, parsed: Result<i128, DecodeError>) -> (nanos: Result<
    u64,
    DecodeError,
>)
    ensures
        nanos == canonical(token@, widened(parsed)),
{
    match parsed {
        Err(error) => Err(error),
        Ok(count) => {
            if !has_unit_suffix(token) {
                Err(DecodeError::TimeUnit)
            } else if count < 0 {
                Err(DecodeError::NegativeNumber)
            } else if count > u64::MAX as i128 {
                Err(DecodeError::Overflow)
            } else {
                Ok(count as u64)
            }
        },
    }
}

/// Decodes a duration token, a decimal magnitude directly followed by a
/// suffix of the unit table, to whole nanoseconds.
///
/// The number grammar and the scaling by the unit are those of
/// `fundu_core`, which `parsed_duration` names. On top of them the token
/// has to end in a unit suffix, and the value has to fit a `u64`.
pub fn parse_duration(token: &str) -> (nanos: Result<u64, DecodeError>)
    ensures
        nanos == canonical(token@, parsed_duration(token@)),
        nanos is Ok ==> ends_with_unit(token@),
{
    canonical_nanos(token, parse_with_units(token))
}

} // verus!
