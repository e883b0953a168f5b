//! The questions of one run, in order, each answer checked before the next
//! question is asked. The first unacceptable answer ends the run.
use vstd::prelude::*;
use vstd::string::StringSliceAdditionalSpecFns;
use crate::decimal::{Decimal, MAX_UNITS, text_units};
use crate::expression::{expression_parses, expression_binds, parsed_expr, is_blank, parse_expression, bind_expression};
use crate::input::{
    Bounds, InputError, count_outcome, read_number, check_bounds, check_steps,
    check_places,
};
use crate::step::{StepSize, derive_step_size, rounded_places, step_units};

verus! {

/// The question a session waits an answer to.
#[derive(Clone, Copy, Debug, PartialEq, Eq, Structural)]
pub enum Prompt {
    LowerBound,
    UpperBound,
    Steps,
    Places,
    Expression,
    InitialValue,
}

pub open spec fn rank(p: Prompt) -> nat {
    match p {
        Prompt::LowerBound => 0,
        Prompt::UpperBound => 1,
        Prompt::Steps => 2,
        Prompt::Places => 3,
        Prompt::Expression => 4,
        Prompt::InitialValue => 5,
    }
}

/// The value of a line read as a number, in units of 10^-SCALE, if it is one.
pub open spec fn number_of(line: &str) -> Option<int> {
    match text_units(line.spec_bytes()) {
        Some(u) => if -MAX_UNITS <= u <= MAX_UNITS {
            Some(u)
        } else {
            None
        },
        None => None,
    }
}

/// The answers accepted so far; a field is meaningful once its question has
/// been answered.
pub struct Session {
    pub prompt: Prompt,
    pub lower: Decimal,
    pub upper: Decimal,
    pub steps: u64,
    pub places: u64,
    pub expression: Option<meval::Expr>,
}

/// Everything the iteration needs.
pub struct Setup {
    pub bounds: Bounds,
    pub steps: u64,
    pub step_size: StepSize,
    pub expression: meval::Expr,
    pub initial: Decimal,
}

/// What follows an answer: the next question, the finished setup, or the
/// error that ends the run.
pub enum Progress {
    Ask(Session),
    Ready(Setup),
    Failed(InputError),
}

pub open spec fn failed_with(r: Progress, e: InputError) -> bool {
    r matches Progress::Failed(x) && x == e
}

/// `s` asks `p` next, keeps every other answer of `old`, and changes only
/// what `p`'s predecessor answered.
pub open spec fn asks_next(r: Progress, old: Session, p: Prompt) -> bool {
    r matches Progress::Ask(s) && s.prompt == p && s.wf() && (p != Prompt::UpperBound ==> s.lower
        == old.lower) && (p != Prompt::Steps ==> s.upper == old.upper) && (p != Prompt::Places
        ==> s.steps == old.steps) && (p != Prompt::Expression ==> s.places == old.places)
}

impl Session {
    pub open spec fn wf(self) -> bool {
        &&& self.lower.wf()
        &&& self.upper.wf()
        &&& rank(self.prompt) >= 2 ==> self.lower.units <= self.upper.units
        &&& rank(self.prompt) >= 3 ==> self.steps >= 1
        &&& rank(self.prompt) >= 4 ==> 1 <= self.places
        &&& rank(self.prompt) >= 5 ==> self.expression is Some
    }

    /// A session that asks for the lower bound first.
    pub fn start() -> (r: Session)
        ensures
            r.prompt == Prompt::LowerBound,
            r.wf(),
    {
        Session {
            prompt: Prompt::LowerBound,
            lower: Decimal { units: 0 },
            upper: Decimal { units: 0 },
            steps: 0,
            places: 0,
            expression: None,
        }
    }

    /// The question this session waits an answer to.
    pub fn prompt(&self) -> (r: Prompt)
        ensures
            r == self.prompt,
    {
        self.prompt
    }

    /// Takes the answer to the current question: `None` when no line could be
    /// read.
    pub fn answer(self, line: Option<&str>) -> (r: Progress)
        requires
            self.wf(),
        ensures
            line is None ==> failed_with(r, InputError::CannotRead),
            line matches Some(t) ==> match self.prompt {
                Prompt::LowerBound => match number_of(t) {
                    None => failed_with(r, InputError::CannotParse),
                    Some(u) => asks_next(r, self, Prompt::UpperBound) && r->Ask_0.lower.units == u,
                },
                Prompt::UpperBound => match number_of(t) {
                    None => failed_with(r, InputError::CannotParse),
                    Some(u) => if u < self.lower.units {
                        failed_with(r, InputError::SmallerUpperBound)
                    } else {
                        asks_next(r, self, Prompt::Steps) && r->Ask_0.upper.units == u
                    },
                },
                Prompt::Steps => match number_of(t) {
                    None => failed_with(r, InputError::CannotParse),
                    Some(u) => match count_outcome(
                        Decimal { units: u as i128 },
                        InputError::FractionalSteps,
                        InputError::NonPositiveSteps,
                    ) {
                        Err(e) => failed_with(r, e),
                        Ok(n) => asks_next(r, self, Prompt::Places) && r->Ask_0.steps == n,
                    },
                },
                Prompt::Places => match number_of(t) {
                    None => failed_with(r, InputError::CannotParse),
                    Some(u) => match count_outcome(
                        Decimal { units: u as i128 },
                        InputError::FractionalPlaces,
                        InputError::NonPositivePlaces,
                    ) {
                        Err(e) => failed_with(r, e),
                        Ok(n) => asks_next(r, self, Prompt::Expression) && r->Ask_0.places == n,
                    },
                },
                Prompt::Expression => if !is_blank(t.spec_bytes()) && expression_parses(t@) {
                    asks_next(r, self, Prompt::InitialValue) && r->Ask_0.expression == Some(
                        parsed_expr(t@),
                    )
                } else {
                    failed_with(r, InputError::InvalidExpression)
                },
                Prompt::InitialValue => match number_of(t) {
                    None => failed_with(r, InputError::CannotParse),
                    Some(u) => if !expression_binds(self.expression->0) {
                        failed_with(r, InputError::UnboundExpression)
                    } else {
                        r matches Progress::Ready(setup) && setup.bounds == (Bounds { lower: self.lower, upper: self.upper })
                        && setup.steps == self.steps && setup.initial.units == u
                        && setup.step_size.places == rounded_places(self.places as nat) && setup.step_size.units
                        == step_units(
                        self.lower.units as int,
                        self.upper.units as int,
                        self.steps as int,
                        rounded_places(self.places as nat),
                    ) && Some(setup.expression) == self.expression
                    },
                },
            },
    {
        let t = match line {
            None => {
                return Progress::Failed(InputError::CannotRead);
            },
            Some(t) => t,
        };
        let mut s = self;
        match s.prompt {
            Prompt::LowerBound => match read_number(t) {
                Err(e) => Progress::Failed(e),
                Ok(d) => {
                    s.lower = d;
                    s.prompt = Prompt::UpperBound;
                    Progress::Ask(s)
                },
            },
            Prompt::UpperBound => match read_number(t) {
                Err(e) => Progress::Failed(e),
                Ok(d) => match check_bounds(s.lower, d) {
                    Err(e) => Progress::Failed(e),
                    Ok(b) => {
                        s.upper = b.upper;
                        s.prompt = Prompt::Steps;
                        Progress::Ask(s)
                    },
                },
            },
            Prompt::Steps => match read_number(t) {
                Err(e) => Progress::Failed(e),
                Ok(d) => match check_steps(d) {
                    Err(e) => Progress::Failed(e),
                    Ok(n) => {
                        s.steps = n;
                        s.prompt = Prompt::Places;
                        Progress::Ask(s)
                    },
                },
            },
            Prompt::Places => match read_number(t) {
                Err(e) => Progress::Failed(e),
                Ok(d) => match check_places(d) {
                    Err(e) => Progress::Failed(e),
                    Ok(p) => {
                        s.places = p;
                        s.prompt = Prompt::Expression;
                        Progress::Ask(s)
                    },
                },
            },
            Prompt::Expression => match parse_expression(t) {
                Err(e) => Progress::Failed(e),
                Ok(e) => {
                    s.expression = Some(e);
                    s.prompt = Prompt::InitialValue;
                    Progress::Ask(s)
                },
            },
            Prompt::InitialValue => match read_number(t) {
                Err(e) => Progress::Failed(e),
                Ok(d) => {
                    let expression = match s.expression {
                        Some(e) => e,
                        None => {
                            return Progress::Failed(InputError::InvalidExpression);
                        },
                    };
                    match bind_expression(&expression) {
                        Err(e) => Progress::Failed(e),
                        Ok(()) => {
                            let bounds = Bounds { lower: s.lower, upper: s.upper };
                            let step_size = derive_step_size(bounds, s.steps, s.places);
                            Progress::Ready(
                                Setup { bounds, steps: s.steps, step_size, expression, initial: d },
                            )
                        },
                    }
                },
            },
        }
    }
}

} // verus!
