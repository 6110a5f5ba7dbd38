use dice_eval::eval;
use dice_eval::rng::RngSource;
use dice_eval::roll::parse::ParseError;
use dice_eval::roll::realize::RealizeError;
use dice_eval::roll::RollError;
use dice_eval::value::ValueError;
use dice_eval::EvalError;

fn rng() -> RngSource {
    RngSource::from_seed(&[0u8; 32])
}

#[test]
fn precedence_multiplication_before_addition() {
    let out = eval(b"2+3*4", &mut rng()).unwrap();
    assert_eq!(out, "2 + 3*4 = 14");
}

#[test]
fn grouping_overrides_precedence() {
    let out = eval(b"(2+3)*4", &mut rng()).unwrap();
    assert_eq!(out, "(2 + 3)*4 = 20");
}

#[test]
fn division_by_zero_always_fails() {
    let r = eval(b"1/0", &mut rng());
    assert!(matches!(r, Err(EvalError::Value(ValueError::DivisionByZero(_)))));
}

#[test]
fn die_size_zero_always_fails() {
    let r = eval(b"2d0", &mut rng());
    assert!(matches!(
        r,
        Err(EvalError::Roll(RollError::Realize(RealizeError::DieSizeIsZero)))
    ));
}

#[test]
fn roll_len_exceeding_maximum_fails() {
    let r = eval(b"111111111111111111111111d6", &mut rng());
    assert!(matches!(
        r,
        Err(EvalError::Roll(RollError::Realize(RealizeError::RollLenExceedsMaximum)))
    ));
}

#[test]
fn numeric_literal_normalizes_display() {
    let out = eval(b"007.50", &mut rng()).unwrap();
    assert_eq!(out, "7.5 = 7.5");
}

#[test]
fn numeric_literal_value_is_exact() {
    // 007.50 is exactly 15/2, so doubling it gives exactly 15.
    let out = eval(b"007.50*2", &mut rng()).unwrap();
    assert_eq!(out, "7.5*2 = 15");
}

#[test]
fn zero_fraction_collapses() {
    let out = eval(b"1.0", &mut rng()).unwrap();
    assert_eq!(out, "1 = 1");
}

#[test]
fn trailing_zeros_of_fraction_are_trimmed() {
    let out = eval(b"1.250", &mut rng()).unwrap();
    assert_eq!(out, "1.25 = 1.25");
}

#[test]
fn division_is_exact_until_display() {
    let out = eval(b"1/2", &mut rng()).unwrap();
    assert_eq!(out, "1/2 = 0.5");
}

#[test]
fn subtraction_and_negation() {
    let out = eval(b"-2", &mut rng()).unwrap();
    assert_eq!(out, "-2 = -2");
    let out = eval(b"--2", &mut rng()).unwrap();
    assert_eq!(out, "--2 = 2");
    let out = eval(b"5-7", &mut rng()).unwrap();
    assert_eq!(out, "5 - 7 = -2");
}

#[test]
fn logical_not_and_comparisons() {
    assert_eq!(eval(b"!0", &mut rng()).unwrap(), "!0 = 1");
    assert_eq!(eval(b"!3", &mut rng()).unwrap(), "!3 = 0");
    assert_eq!(eval(b"2<3", &mut rng()).unwrap(), "2 < 3 = 1");
    assert_eq!(eval(b"2<=2", &mut rng()).unwrap(), "2 <= 2 = 1");
    assert_eq!(eval(b"2>3", &mut rng()).unwrap(), "2 > 3 = 0");
    assert_eq!(eval(b"3>=4", &mut rng()).unwrap(), "3 >= 4 = 0");
    assert_eq!(eval(b"2=2", &mut rng()).unwrap(), "2 = 2 = 1");
    assert_eq!(eval(b"3!=2", &mut rng()).unwrap(), "3 != 2 = 1");
}

#[test]
fn whitespace_is_skipped() {
    let out = eval(b" 1 + 2 ", &mut rng()).unwrap();
    assert_eq!(out, "1 + 2 = 3");
}

#[test]
fn unexpected_token_on_malformed_input() {
    assert!(matches!(eval(b"(1", &mut rng()), Err(EvalError::UnexpectedToken)));
    assert!(matches!(eval(b"1 2", &mut rng()), Err(EvalError::UnexpectedToken)));
    assert!(matches!(eval(b"&", &mut rng()), Err(EvalError::UnexpectedToken)));
    assert!(matches!(eval(b"", &mut rng()), Err(EvalError::UnexpectedToken)));
    assert!(matches!(eval(b"1+", &mut rng()), Err(EvalError::UnexpectedToken)));
}

#[test]
fn roll_argument_errors() {
    assert!(matches!(
        eval(b"1d6xy3", &mut rng()),
        Err(EvalError::Roll(RollError::Parse(ParseError::InvalidArgumentKey)))
    ));
    assert!(matches!(
        eval(b"1d6dl1dl2", &mut rng()),
        Err(EvalError::Roll(RollError::Parse(ParseError::RepeatedArgumentKey)))
    ));
    assert!(matches!(
        eval(b"1d6dl", &mut rng()),
        Err(EvalError::Roll(RollError::Parse(ParseError::EmptyArgumentValue)))
    ));
}

#[test]
fn roll_in_expression_stays_in_range() {
    // 1d1 can only roll a 1.
    let out = eval(b"1d1+2", &mut rng()).unwrap();
    assert_eq!(out, "[1] + 2 = 3");
}

#[test]
fn same_seed_reproduces_a_whole_evaluation() {
    let seed = [9u8; 32];
    let mut rng1 = RngSource::from_seed(&seed);
    let mut rng2 = RngSource::from_seed(&seed);
    let a = eval(b"2d6+3d4dl1", &mut rng1).unwrap();
    let b = eval(b"2d6+3d4dl1", &mut rng2).unwrap();
    assert_eq!(a, b);
    // The rngs were consumed identically, so the next draws agree too.
    let c = eval(b"1d100", &mut rng1).unwrap();
    let d = eval(b"1d100", &mut rng2).unwrap();
    assert_eq!(c, d);
}

#[test]
fn roll_error_leaves_the_random_source_untouched() {
    let seed = [4u8; 32];
    let mut fresh = RngSource::from_seed(&seed);
    let mut failed = RngSource::from_seed(&seed);
    assert!(eval(b"2d0", &mut failed).is_err());
    // The die-size check precedes sampling, so both sources now agree.
    let a = eval(b"5d12", &mut fresh).unwrap();
    let b = eval(b"5d12", &mut failed).unwrap();
    assert_eq!(a, b);
}
