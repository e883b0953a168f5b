use euler_method::decimal::{parse_decimal, Decimal};
use euler_method::expression::{bind_expression, parse_expression};
use euler_method::input::{
    check_bounds, check_places, check_steps, read_number, Bounds, ErrorKind, InputError,
};
use euler_method::session::{Progress, Prompt, Session, Setup};
use euler_method::iteration::Iteration;
use euler_method::step::{derive_step_size, StepSize};

fn dec(units: i128) -> Decimal {
    Decimal { units }
}

fn feed(lines: &[&str]) -> Progress {
    let mut progress = Progress::Ask(Session::start());
    for line in lines {
        progress = match progress {
            Progress::Ask(s) => s.answer(Some(line)),
            done => return done,
        };
    }
    progress
}

fn failure(p: Progress) -> Option<InputError> {
    match p {
        Progress::Failed(e) => Some(e),
        _ => None,
    }
}

fn ready(p: Progress) -> Setup {
    match p {
        Progress::Ready(s) => s,
        Progress::Ask(s) => panic!("still asking {:?}", s.prompt()),
        Progress::Failed(e) => panic!("failed with {:?}", e),
    }
}

#[test]
fn parses_plain_numbers() {
    assert_eq!(parse_decimal("5"), Some(dec(5_000_000_000)));
    assert_eq!(parse_decimal("-2"), Some(dec(-2_000_000_000)));
    assert_eq!(parse_decimal("3.5"), Some(dec(3_500_000_000)));
    assert_eq!(parse_decimal("+.5"), Some(dec(500_000_000)));
    assert_eq!(parse_decimal("1."), Some(dec(1_000_000_000)));
    assert_eq!(parse_decimal("-0"), Some(dec(0)));
    assert_eq!(parse_decimal("0.000000001"), Some(dec(1)));
    assert_eq!(parse_decimal("1000000000"), Some(dec(1_000_000_000_000_000_000)));
}

#[test]
fn rejects_what_is_not_a_number() {
    assert_eq!(parse_decimal(""), None);
    assert_eq!(parse_decimal("."), None);
    assert_eq!(parse_decimal("-"), None);
    assert_eq!(parse_decimal("abc"), None);
    assert_eq!(parse_decimal("1.2.3"), None);
    assert_eq!(parse_decimal("1 "), None);
    assert_eq!(parse_decimal("--1"), None);
    assert_eq!(parse_decimal("e5"), None);
    assert_eq!(parse_decimal("1e"), None);
    assert_eq!(parse_decimal("1e+"), None);
    assert_eq!(parse_decimal("1e2.5"), None);
    assert_eq!(parse_decimal("1e2e3"), None);
    assert_eq!(parse_decimal("inf"), None);
    assert_eq!(parse_decimal("NaN"), None);
}

#[test]
fn reads_exponents_and_rounds_extra_digits() {
    assert_eq!(parse_decimal("1e3"), Some(dec(1_000_000_000_000)));
    assert_eq!(parse_decimal("2.5E2"), Some(dec(250_000_000_000)));
    assert_eq!(parse_decimal("1e-3"), Some(dec(1_000_000)));
    assert_eq!(parse_decimal("-4.2e+1"), Some(dec(-42_000_000_000)));
    assert_eq!(parse_decimal("0.0000000001"), Some(dec(0)));
    assert_eq!(parse_decimal("0.0000000005"), Some(dec(1)));
    assert_eq!(parse_decimal("-2.5e-9"), Some(dec(-3)));
    assert_eq!(parse_decimal("1000000000.000000001"), Some(dec(1_000_000_000_000_000_001)));
    assert_eq!(parse_decimal("0e99999999999999999999999999999999999"), Some(dec(0)));
    assert_eq!(parse_decimal("7e-99999999999999999999999999999999999"), Some(dec(0)));
}

#[test]
fn reads_magnitudes_up_to_ten_to_the_eighteen() {
    assert_eq!(parse_decimal("2000000000"), Some(dec(2_000_000_000_000_000_000)));
    assert_eq!(parse_decimal("1e18"), Some(dec(1_000_000_000_000_000_000_000_000_000)));
    assert_eq!(parse_decimal("-1e18"), Some(dec(-1_000_000_000_000_000_000_000_000_000)));
    assert_eq!(parse_decimal("1.000000000000000000001e18"), None);
    assert_eq!(parse_decimal("99999999999999999999999"), None);
    assert_eq!(parse_decimal("1e99999999999999999999999999999999999"), None);
}

#[test]
fn read_number_reports_parse_failure() {
    assert_eq!(read_number("4"), Ok(dec(4_000_000_000)));
    assert_eq!(read_number("four"), Err(InputError::CannotParse));
}

#[test]
fn bounds_upper_below_lower_fails() {
    assert_eq!(
        check_bounds(dec(5_000_000_000), dec(2_000_000_000)),
        Err(InputError::SmallerUpperBound)
    );
    assert_eq!(
        check_bounds(dec(2_000_000_000), dec(2_000_000_000)),
        Ok(Bounds { lower: dec(2_000_000_000), upper: dec(2_000_000_000) })
    );
}

#[test]
fn steps_must_be_whole_and_positive() {
    assert_eq!(check_steps(dec(3_500_000_000)), Err(InputError::FractionalSteps));
    assert_eq!(check_steps(dec(-2_000_000_000)), Err(InputError::NonPositiveSteps));
    assert_eq!(check_steps(dec(0)), Err(InputError::NonPositiveSteps));
    assert_eq!(check_steps(dec(-2_500_000_000)), Err(InputError::FractionalSteps));
    assert_eq!(check_steps(dec(4_000_000_000)), Ok(4));
}

#[test]
fn places_must_be_whole_and_positive() {
    assert_eq!(check_places(dec(1_500_000_000)), Err(InputError::FractionalPlaces));
    assert_eq!(check_places(dec(0)), Err(InputError::NonPositivePlaces));
    assert_eq!(check_places(dec(-3_000_000_000)), Err(InputError::NonPositivePlaces));
    assert_eq!(check_places(dec(19_000_000_000)), Ok(19));
    assert_eq!(check_places(dec(300_000_000_000)), Ok(300));
    assert_eq!(check_places(dec(4_000_000_000)), Ok(4));
}

fn bounds(lower: i128, upper: i128) -> Bounds {
    Bounds { lower: dec(lower), upper: dec(upper) }
}

#[test]
fn step_size_quarter() {
    let h = derive_step_size(bounds(0, 1_000_000_000), 4, 4);
    assert_eq!(h, StepSize { units: 2500, places: 4 });
}

#[test]
fn step_size_rounds_to_nearest() {
    assert_eq!(derive_step_size(bounds(0, 1_000_000_000), 3, 4).units, 3333);
    assert_eq!(derive_step_size(bounds(0, 2_000_000_000), 3, 2).units, 67);
    assert_eq!(derive_step_size(bounds(0, 2_000_000_000), 3, 18).units, 666_666_666_666_666_667);
}

#[test]
fn step_size_halves_round_away_from_zero() {
    assert_eq!(derive_step_size(bounds(0, 250_000_000), 2, 2).units, 13);
    assert_eq!(derive_step_size(bounds(1_000_000_000, 0), 8, 2).units, -13);
    assert_eq!(derive_step_size(bounds(-3_000_000_000, -1_000_000_000), 4, 1).units, 5);
}

#[test]
fn step_size_is_deterministic() {
    let a = derive_step_size(bounds(-1_234_567_890, 9_876_543_210), 7, 5);
    let b = derive_step_size(bounds(-1_234_567_890, 9_876_543_210), 7, 5);
    assert_eq!(a, b);
    assert_eq!(a.units, 158730);
}

#[test]
fn equal_bounds_give_zero_step() {
    assert_eq!(derive_step_size(bounds(3_000_000_000, 3_000_000_000), 5, 3).units, 0);
}

#[test]
fn single_step_spans_the_interval() {
    assert_eq!(derive_step_size(bounds(0, 1_000_000_000), 1, 2).units, 100);
}

#[test]
fn expression_parse_and_bind() {
    let e = parse_expression("y").unwrap();
    assert_eq!(bind_expression(&e), Ok(()));
    let e = parse_expression("sin(x) * y + pi").unwrap();
    assert_eq!(bind_expression(&e), Ok(()));
    let e = parse_expression("x + z").unwrap();
    assert_eq!(bind_expression(&e), Err(InputError::UnboundExpression));
    assert!(matches!(parse_expression("(x"), Err(InputError::InvalidExpression)));
}

#[test]
fn error_kinds() {
    assert_eq!(InputError::CannotRead.kind(), ErrorKind::InvalidInput);
    assert_eq!(InputError::CannotParse.kind(), ErrorKind::InvalidData);
    assert_eq!(InputError::UnboundExpression.kind(), ErrorKind::InvalidData);
    assert!(InputError::SmallerUpperBound.message().contains("upper bound"));
}

#[test]
fn session_asks_in_order() {
    let mut s = Session::start();
    let answers = ["0", "1", "4", "4", "y"];
    let prompts = [
        Prompt::LowerBound,
        Prompt::UpperBound,
        Prompt::Steps,
        Prompt::Places,
        Prompt::Expression,
    ];
    for (a, p) in answers.iter().zip(prompts.iter()) {
        assert_eq!(s.prompt(), *p);
        s = match s.answer(Some(a)) {
            Progress::Ask(next) => next,
            _ => panic!("stopped early"),
        };
    }
    assert_eq!(s.prompt(), Prompt::InitialValue);
}

#[test]
fn session_end_to_end_exponential() {
    let setup = ready(feed(&["0", "1", "4", "4", "y", "1"]));
    assert_eq!(setup.step_size, StepSize { units: 2500, places: 4 });
    assert_eq!(setup.steps, 4);
    assert_eq!(setup.initial, dec(1_000_000_000));
    assert_eq!(setup.bounds, bounds(0, 1_000_000_000));
}

#[test]
fn session_stops_on_smaller_upper_bound() {
    assert_eq!(failure(feed(&["5", "2", "4"])), Some(InputError::SmallerUpperBound));
}

#[test]
fn session_stops_on_fractional_steps() {
    assert_eq!(failure(feed(&["0", "1", "3.5"])), Some(InputError::FractionalSteps));
}

#[test]
fn session_stops_on_negative_steps() {
    assert_eq!(failure(feed(&["0", "1", "-2"])), Some(InputError::NonPositiveSteps));
}

#[test]
fn session_stops_on_undeclared_variable() {
    let p = feed(&["0", "1", "4", "4", "x + z", "1"]);
    assert_eq!(failure(p), Some(InputError::UnboundExpression));
}

#[test]
fn session_stops_on_bad_number_and_closed_input() {
    assert_eq!(failure(feed(&["zero"])), Some(InputError::CannotParse));
    assert_eq!(failure(Session::start().answer(None)), Some(InputError::CannotRead));
    assert_eq!(failure(feed(&["0", "1", "4", "4", "(x"])), Some(InputError::InvalidExpression));
}

fn run_indices(steps: u64) -> Vec<u64> {
    let mut it = Iteration::new(steps);
    let mut out = Vec::new();
    while !it.is_done() {
        out.push(it.advance());
    }
    out
}

#[test]
fn iteration_emits_indices_one_to_n() {
    assert_eq!(run_indices(4), vec![1, 2, 3, 4]);
    assert_eq!(run_indices(4), run_indices(4));
}

#[test]
fn iteration_single_step() {
    let mut it = Iteration::new(1);
    assert!(!it.is_done());
    assert_eq!(it.advance(), 1);
    assert!(it.is_done());
    assert_eq!(it, Iteration { emitted: 1, steps: 1 });
}

#[test]
fn end_to_end_records_follow_recurrence() {
    let setup = ready(feed(&["0", "1", "4", "4", "y", "1"]));
    let f = setup.expression.bind2_with_context(meval::Context::new(), "x", "y").unwrap();
    let h = setup.step_size.units as f64 / 10.0f64.powi(setup.step_size.places as i32);
    assert_eq!(h, 0.25);
    let mut x = setup.bounds.lower.units as f64 / 1e9;
    let mut y = setup.initial.units as f64 / 1e9;
    let mut it = Iteration::new(setup.steps);
    let mut records = Vec::new();
    while !it.is_done() {
        let i = it.advance();
        let w = y + h * f(x, y);
        records.push((i, w, x));
        x += h;
        y = w;
    }
    assert_eq!(
        records,
        vec![(1, 1.25, 0.0), (2, 1.5625, 0.25), (3, 1.953125, 0.5), (4, 2.44140625, 0.75)]
    );
}

#[test]
fn equal_bounds_keep_y_constant() {
    let setup = ready(feed(&["2", "2", "3", "2", "x * y + 1", "7"]));
    assert_eq!(setup.step_size.units, 0);
    let f = setup.expression.bind2_with_context(meval::Context::new(), "x", "y").unwrap();
    let h = setup.step_size.units as f64;
    let mut y = setup.initial.units as f64 / 1e9;
    let mut it = Iteration::new(setup.steps);
    while !it.is_done() {
        it.advance();
        y = y + h * f(2.0, y);
        assert_eq!(y, 7.0);
    }
}

#[test]
fn step_size_with_many_places() {
    let third = derive_step_size(bounds(0, 1_000_000_000), 3, 19);
    assert_eq!(third, StepSize { units: 3_333_333_333_333_333_333, places: 19 });
    let two_thirds = derive_step_size(bounds(0, 2_000_000_000_000_000_000), 3, 19);
    assert_eq!(two_thirds.units, 6_666_666_666_666_666_666_666_666_667);
    assert_eq!(derive_step_size(bounds(0, 1_000_000_000), 4, 19).units, 2_500_000_000_000_000_000);
    assert_eq!(derive_step_size(bounds(0, 1_000_000_000), 3, 300), third);
    assert_eq!(derive_step_size(bounds(1_000_000_000, 0), 3, 20).units, -3_333_333_333_333_333_333);
}

#[test]
fn session_accepts_large_precision() {
    let setup = ready(feed(&["0", "1", "4", "19", "y", "1"]));
    assert_eq!(setup.step_size, StepSize { units: 2_500_000_000_000_000_000, places: 19 });
}

#[test]
fn blank_expression_is_invalid() {
    assert!(matches!(parse_expression(" "), Err(InputError::InvalidExpression)));
    assert!(matches!(parse_expression("\t \r\n"), Err(InputError::InvalidExpression)));
    assert!(matches!(parse_expression(""), Err(InputError::InvalidExpression)));
    let e = parse_expression(" x + y ").unwrap();
    assert_eq!(bind_expression(&e), Ok(()));
    assert_eq!(failure(feed(&["0", "1", "4", "4", "  "])), Some(InputError::InvalidExpression));
}

#[test]
fn messages_per_error() {
    assert_eq!(
        InputError::FractionalSteps.message(),
        "The amount of steps must be a whole number. Please try again."
    );
    assert_eq!(
        InputError::FractionalPlaces.message(),
        "The amount of places must be a whole number. Please try again."
    );
    assert_ne!(InputError::NonPositiveSteps.message(), InputError::NonPositivePlaces.message());
}
