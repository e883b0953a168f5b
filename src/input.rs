//! What each answer must satisfy, and the error reported when it does not.
use vstd::prelude::*;
use crate::decimal::{Decimal, ONE, MAX_UNITS, parse_decimal, text_units};
use vstd::string::StringSliceAdditionalSpecFns;

verus! {

/// The most decimal places the step size is rounded to; a larger precision
/// is accepted and rounds to this many.
pub const MAX_PLACES: u64 = 19;

/// The two classes of failure: the input could not be read, or what was read
/// is not acceptable.
#[derive(Clone, Copy, Debug, PartialEq, Eq, Structural)]
pub enum ErrorKind {
    InvalidInput,
    InvalidData,
}

/// Every reason a run stops before the iteration.
#[derive(Clone, Copy, Debug, PartialEq, Eq, Structural)]
pub enum InputError {
    /// The line could not be read.
    CannotRead,
    /// The line is not a number.
    CannotParse,
    SmallerUpperBound,
    FractionalSteps,
    NonPositiveSteps,
    FractionalPlaces,
    NonPositivePlaces,
    /// The text is not a well-formed expression.
    InvalidExpression,
    /// The expression names a variable or function the context lacks.
    UnboundExpression,
}

impl InputError {
    pub open spec fn spec_kind(self) -> ErrorKind {
        match self {
            InputError::CannotRead => ErrorKind::InvalidInput,
            _ => ErrorKind::InvalidData,
        }
    }

    pub fn kind(&self) -> (r: ErrorKind)
        ensures
            r == self.spec_kind(),
    {
        match self {
            InputError::CannotRead => ErrorKind::InvalidInput,
            _ => ErrorKind::InvalidData,
        }
    }

    /// The line shown to the user for each error.
    pub open spec fn spec_message(self) -> &'static str {
        match self {
            InputError::CannotRead => "Invalid input was supplied. Please try again.",
            InputError::CannotParse => "Input could not be parsed as a number. Please try again.",
            InputError::SmallerUpperBound => "The upper bound cannot be smaller than the lower bound. Please try again.",
            InputError::FractionalSteps => "The amount of steps must be a whole number. Please try again.",
            InputError::NonPositiveSteps => "The amount of steps cannot be zero or negative. Please try again.",
            InputError::FractionalPlaces => "The amount of places must be a whole number. Please try again.",
            InputError::NonPositivePlaces => "The amount of places cannot be zero or negative. Please try again.",
            InputError::InvalidExpression => "The differential expression you entered is either invalid, or contains unparseable tokens. Please try again.",
            InputError::UnboundExpression => "The differential expression could not be bound using the current context.",
        }
    }

    /// The line shown to the user for this error.
    pub fn message(&self) -> (r: &'static str)
        ensures
            r == self.spec_message(),
    {
        match self {
            InputError::CannotRead => "Invalid input was supplied. Please try again.",
            InputError::CannotParse => "Input could not be parsed as a number. Please try again.",
            InputError::SmallerUpperBound => "The upper bound cannot be smaller than the lower bound. Please try again.",
            InputError::FractionalSteps => "The amount of steps must be a whole number. Please try again.",
            InputError::NonPositiveSteps => "The amount of steps cannot be zero or negative. Please try again.",
            InputError::FractionalPlaces => "The amount of places must be a whole number. Please try again.",
            InputError::NonPositivePlaces => "The amount of places cannot be zero or negative. Please try again.",
            InputError::InvalidExpression => "The differential expression you entered is either invalid, or contains unparseable tokens. Please try again.",
            InputError::UnboundExpression => "The differential expression could not be bound using the current context.",
        }
    }
}

/// Reads one answer as a number.
pub fn read_number(line: &str) -> (r: Result<Decimal, InputError>)
    ensures
        r matches Ok(d) ==> text_units(line.spec_bytes()) == Some(d.units as int) && d.wf(),
        r is Err <==> !(text_units(line.spec_bytes()) is Some && -MAX_UNITS <= text_units(
            line.spec_bytes(),
        )->0 <= MAX_UNITS),
        r is Err ==> r == Err::<Decimal, InputError>(InputError::CannotParse),
{
    match parse_decimal(line) {
        Some(d) => Ok(d),
        None => Err(InputError::CannotParse),
    }
}

/// The interval [lower, upper] of the approximation.
#[derive(Clone, Copy, Debug, PartialEq, Eq, Structural)]
pub struct Bounds {
    pub lower: Decimal,
    pub upper: Decimal,
}

impl Bounds {
    pub open spec fn wf(self) -> bool {
        self.lower.wf() && self.upper.wf() && self.lower.units <= self.upper.units
    }
}

/// Accepts the bounds unless the upper one is below the lower one.
pub fn check_bounds(lower: Decimal, upper: Decimal) -> (r: Result<Bounds, InputError>)
    requires
        lower.wf(),
        upper.wf(),
    ensures
        r is Err <==> upper.units < lower.units,
        r is Err ==> r == Err::<Bounds, InputError>(InputError::SmallerUpperBound),
        r matches Ok(b) ==> b == (Bounds { lower, upper }) && b.wf(),
{
    if upper.units < lower.units {
        Err(InputError::SmallerUpperBound)
    } else {
        Ok(Bounds { lower, upper })
    }
}

/// The outcome of checking a count: a fractional value fails first, then one
/// that is zero or negative.
pub open spec fn count_outcome(d: Decimal, fractional: InputError, non_positive: InputError) -> Result<int, InputError> {
    if !d.is_whole() {
        Err(fractional)
    } else if d.units <= 0 {
        Err(non_positive)
    } else {
        Ok(d.whole_part())
    }
}

fn check_count(d: Decimal, fractional: InputError, non_positive: InputError) -> (r: Result<u64, InputError>)
    requires
        d.wf(),
    ensures
        r matches Ok(n) ==> count_outcome(d, fractional, non_positive) == Ok::<int, InputError>(n as int)
            && n <= 1_000_000_000_000_000_000,
        r matches Err(e) ==> count_outcome(d, fractional, non_positive) == Err::<int, InputError>(e),
{
    if !d.has_no_fraction() {
        Err(fractional)
    } else if d.units <= 0 {
        Err(non_positive)
    } else {
        Ok((d.units / ONE as i128) as u64)
    }
}

/// Accepts a step count N that is a whole number above zero.
pub fn check_steps(d: Decimal) -> (r: Result<u64, InputError>)
    requires
        d.wf(),
    ensures
        r matches Ok(n) ==> count_outcome(d, InputError::FractionalSteps, InputError::NonPositiveSteps)
            == Ok::<int, InputError>(n as int),
        r matches Err(e) ==> count_outcome(d, InputError::FractionalSteps, InputError::NonPositiveSteps)
            == Err::<int, InputError>(e),
{
    check_count(d, InputError::FractionalSteps, InputError::NonPositiveSteps)
}

/// Accepts a number of decimal places that is a whole number above zero.
pub fn check_places(d: Decimal) -> (r: Result<u64, InputError>)
    requires
        d.wf(),
    ensures
        r matches Ok(p) ==> count_outcome(d, InputError::FractionalPlaces, InputError::NonPositivePlaces)
            == Ok::<int, InputError>(p as int),
        r matches Err(e) ==> count_outcome(d, InputError::FractionalPlaces, InputError::NonPositivePlaces)
            == Err::<int, InputError>(e),
{
    match check_count(d, InputError::FractionalPlaces, InputError::NonPositivePlaces) {
        Ok(n) => Ok(n),
        Err(e) => Err(e),
    }
}

} // verus!
