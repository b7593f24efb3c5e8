use calc_core::calculator::{Calculator, State};
use calc_core::dec::Dec;
use calc_core::error::CommandError;
use calc_core::operand::Operand;
use calc_core::operator::Operator;
use rust_decimal::Decimal;
use rust_decimal::MathematicalOps;
use std::str::FromStr;

fn feed(calc: &mut Calculator, keys: &str) {
    for c in keys.chars() {
        calc.symbol_in(c).unwrap();
    }
}

/// The display form of a plain decimal string: trailing digits are dropped
/// so that at most sixteen count, where the sign, the point and a leading
/// zero are free.
fn display_of(full: &str) -> String {
    let unsigned = full.strip_prefix('-').unwrap_or(full);
    let mut not_counted = 0usize;
    if full.contains('-') {
        not_counted += 1;
    }
    if full.contains('.') {
        not_counted += 1;
    }
    if unsigned.starts_with('0') {
        not_counted += 1;
    }
    let total = full.chars().count();
    let digits = total - not_counted;
    let keep = if digits > 16 { total - (digits - 16) } else { total };
    full.chars().take(keep).collect()
}

#[test]
fn chaining_is_left_to_right() {
    let mut calc = Calculator::new();
    feed(&mut calc, "5+3+2=");
    assert_eq!(calc.current_operand_to_str(), "10");

    let mut calc = Calculator::new();
    feed(&mut calc, "5+3*2=");
    assert_eq!(calc.current_operand_to_str(), "16");
}

#[test]
fn division_by_zero_overflows() {
    let mut calc = Calculator::new();
    feed(&mut calc, "5/0");
    assert!(matches!(calc.symbol_in('='), Err(CommandError::Overflow)));
    // The state before the failed evaluation is kept.
    assert_eq!(calc.current_operand_to_str(), "0");
}

#[test]
fn simple_arithmetic() {
    let mut calc = Calculator::new();
    feed(&mut calc, "2+3=");
    assert_eq!(calc.current_operand_to_str(), "5");

    let mut calc = Calculator::new();
    feed(&mut calc, "7/2=");
    assert_eq!(calc.current_operand_to_str(), "3.5");

    let mut calc = Calculator::new();
    feed(&mut calc, "5-8=");
    assert_eq!(calc.current_operand_to_str(), "-3");

    let mut calc = Calculator::new();
    feed(&mut calc, "1.5*2=");
    assert_eq!(calc.current_operand_to_str(), "3");
}

#[test]
fn integer_power() {
    let mut calc = Calculator::new();
    feed(&mut calc, "2^10=");
    assert_eq!(calc.current_operand_to_str(), "1024");
}

#[test]
fn fractional_power_follows_logarithmic_path() {
    let mut calc = Calculator::new();
    feed(&mut calc, "9^0.5=");
    // Mirror the evaluator: exp(0.5 * ln 9) rounded to 14 fractional places,
    // then normalized.
    let base = Decimal::from_str("9").unwrap();
    let exponent = Decimal::from_str("0.5").unwrap();
    let expected = exponent
        .checked_mul(base.checked_ln().unwrap())
        .unwrap()
        .checked_exp_with_tolerance(Decimal::ZERO)
        .unwrap()
        .round_dp(14)
        .normalize()
        .to_string();
    assert_eq!(calc.current_operand_to_str(), display_of(&expected));
}

#[test]
fn long_division_keeps_internal_precision() {
    let mut calc = Calculator::new();
    feed(&mut calc, "1/3=");
    let expected = (Decimal::ONE.checked_div(Decimal::from_str("3").unwrap()))
        .unwrap()
        .normalize()
        .to_string();
    assert_eq!(calc.current_operand_to_str(), display_of(&expected));
}

#[test]
fn percentage_uses_percent_of_left() {
    let mut calc = Calculator::new();
    feed(&mut calc, "200+10");
    calc.percentage().unwrap();
    assert_eq!(calc.current_operand_to_str(), "220");
}

#[test]
fn percentage_of_subtraction_folds_down() {
    let mut calc = Calculator::new();
    feed(&mut calc, "200-10");
    calc.percentage().unwrap();
    assert_eq!(calc.current_operand_to_str(), "180");
}

#[test]
fn percentage_of_multiplication_scales() {
    let mut calc = Calculator::new();
    feed(&mut calc, "50*10");
    calc.percentage().unwrap();
    assert_eq!(calc.current_operand_to_str(), "5");
}

#[test]
fn percentage_with_division_is_noop() {
    let mut calc = Calculator::new();
    feed(&mut calc, "50/10");
    calc.percentage().unwrap();
    assert_eq!(calc.current_operand_to_str(), "10");
}

#[test]
fn memory_toggle_clears_on_equal_value() {
    let mut calc = Calculator::new();
    feed(&mut calc, "5");
    calc.memory_add().unwrap();
    // The display still shows the value that equals the memory, so recall
    // acts as a memory clear.
    calc.memory_mrc().unwrap();
    assert_eq!(calc.current_operand_to_str(), "5");
    // The memory is zero now: recalling it replaces the display.
    calc.memory_mrc().unwrap();
    assert_eq!(calc.current_operand_to_str(), "0");
}

#[test]
fn memory_equality_ignores_trailing_zeros() {
    let mut calc = Calculator::new();
    feed(&mut calc, "5.0");
    calc.memory_add().unwrap();
    calc.memory_mrc().unwrap();
    calc.memory_mrc().unwrap();
    assert_eq!(calc.current_operand_to_str(), "0");
}

#[test]
fn memory_sub_folds_display_minus_memory() {
    let mut calc = Calculator::new();
    feed(&mut calc, "8");
    calc.memory_add().unwrap();
    feed(&mut calc, "+2=");
    // Memory holds 8, display 10: the fold computes display - memory.
    calc.memory_sub().unwrap();
    calc.erase_all();
    calc.memory_mrc().unwrap();
    assert_eq!(calc.current_operand_to_str(), "2");
}

#[test]
fn unary_operator_consumes_result_state() {
    let mut calc = Calculator::new();
    feed(&mut calc, "9");
    calc.operator_in(Operator::NaturalLogarithm).unwrap();
    assert!(matches!(calc.state, State::Result(_)));
    // Evaluation on a shown result is a no-op: the result stays.
    calc.symbol_in('=').unwrap();
    let shown = match &calc.state {
        State::Result(o) => o.to_string(),
        _ => panic!("a result is shown"),
    };
    assert_ne!(shown, "0");
    // The next unary operator consumes the shown value.
    let value = Decimal::from_str(&shown).unwrap();
    let expected = value.checked_sin().unwrap().normalize().to_string();
    calc.operator_in(Operator::Sine).unwrap();
    assert!(matches!(calc.state, State::Result(_)));
    assert_eq!(calc.current_operand_to_str(), display_of(&expected));
}

#[test]
fn logarithm_of_nonpositive_overflows() {
    let mut calc = Calculator::new();
    calc.set_current_operand(Dec { mant: 2, scale: 0, neg: true }).unwrap();
    assert!(matches!(
        calc.operator_in(Operator::NaturalLogarithm),
        Err(CommandError::Overflow)
    ));
    let mut calc = Calculator::new();
    assert!(matches!(
        calc.operator_in(Operator::NaturalLogarithm),
        Err(CommandError::Overflow)
    ));
}

#[test]
fn set_current_operand_round_trips_typed_digits() {
    let mut calc = Calculator::new();
    feed(&mut calc, "12.34");
    assert_eq!(calc.current_operand_to_str(), "12.34");
    calc.set_current_operand(Dec { mant: 1234, scale: 2, neg: false }).unwrap();
    assert_eq!(calc.current_operand_to_str(), "12.34");

    let mut calc = Calculator::new();
    feed(&mut calc, "0.0050");
    assert_eq!(calc.current_operand_to_str(), "0.0050");
    calc.set_current_operand(Dec { mant: 50, scale: 4, neg: false }).unwrap();
    assert_eq!(calc.current_operand_to_str(), "0.0050");
}

#[test]
fn oversized_magnitude_is_rejected() {
    let mut calc = Calculator::new();
    // Seventeen integer digits exceed the sixteen-digit display ceiling.
    let r = calc.set_current_operand(Dec { mant: 10000000000000000, scale: 0, neg: false });
    assert!(matches!(r, Err(CommandError::IncorrectOperand(_))));
    // The largest representable magnitude is still accepted.
    calc.set_current_operand(Dec { mant: 9999999999999999, scale: 0, neg: false }).unwrap();
    assert_eq!(calc.current_operand_to_str(), "9999999999999999");
}

#[test]
fn arithmetic_beyond_display_range_fails() {
    let mut calc = Calculator::new();
    feed(&mut calc, "9999999999999999*9");
    assert!(matches!(
        calc.symbol_in('='),
        Err(CommandError::OutOfBufferRange(_))
    ));
}

#[test]
fn buffer_rejects_digits_beyond_capacity() {
    let mut calc = Calculator::new();
    feed(&mut calc, "12345678901234567890");
    assert_eq!(calc.current_operand_to_str(), "1234567890123456");
}

#[test]
fn comma_is_accepted_as_decimal_point() {
    let mut calc = Calculator::new();
    feed(&mut calc, "1,5");
    assert_eq!(calc.current_operand_to_str(), "1.5");
}

#[test]
fn erase_steps_back_through_the_entry() {
    let mut calc = Calculator::new();
    feed(&mut calc, "12.5");
    calc.erase();
    // The point now trails the remaining digits, and the display shows it.
    assert_eq!(calc.current_operand_to_str(), "12.");
    calc.erase();
    // The next erase removes the trailing point, not a digit.
    assert_eq!(calc.current_operand_to_str(), "12");
    calc.erase();
    assert_eq!(calc.current_operand_to_str(), "1");
    calc.erase();
    assert_eq!(calc.current_operand_to_str(), "0");
    // Erasing the canonical-empty operand changes nothing.
    calc.erase();
    assert_eq!(calc.current_operand_to_str(), "0");
}

#[test]
fn pi_matches_the_library_constant() {
    let mut calc = Calculator::new();
    calc.pi();
    assert_eq!(calc.current_operand_to_str(), display_of(&Decimal::PI.to_string()));
    // The internal layout keeps more digits than the display shows.
    match &calc.state {
        State::ReadingLeftOrOperator(o) => {
            let expected: String = Decimal::PI.to_string().chars().take(29).collect();
            assert_eq!(o.to_string(), expected);
        },
        _ => panic!("still reading the left operand"),
    }
}

#[test]
fn eulers_number_matches_the_library_constant() {
    let mut calc = Calculator::new();
    calc.eulers_number();
    assert_eq!(calc.current_operand_to_str(), display_of(&Decimal::E.to_string()));
}

#[test]
fn operator_try_from_classifies_symbols() {
    assert!(matches!(Operator::try_from('/'), Ok(Operator::Division)));
    assert!(matches!(Operator::try_from('*'), Ok(Operator::Multiplication)));
    assert!(matches!(Operator::try_from('+'), Ok(Operator::Addition)));
    assert!(matches!(Operator::try_from('-'), Ok(Operator::Subtraction)));
    assert!(matches!(Operator::try_from('^'), Ok(Operator::Power)));
    assert!(matches!(
        Operator::try_from('x'),
        Err(CommandError::IncorrectOperation(_))
    ));
}

#[test]
fn apply_requires_second_operand() {
    let op = Operator::Addition;
    let r = op.apply(Dec { mant: 1, scale: 0, neg: false }, None);
    assert!(matches!(r, Err(CommandError::OperandIsMissing)));
}

#[test]
fn error_messages() {
    assert_eq!(CommandError::Overflow.to_string(), "Overflow");
    assert_eq!(
        CommandError::OperandIsMissing.to_string(),
        "Second operand is missing"
    );
    assert_eq!(
        CommandError::OutOfBufferRange(Dec { mant: 123450, scale: 1, neg: true }).to_string(),
        "Number -12345.0 is out of buffer range"
    );
    assert_eq!(
        CommandError::IncorrectOperand(Dec { mant: 17, scale: 0, neg: false }).to_string(),
        "Incorrect operand: 17"
    );
}

#[test]
fn operand_editing_primitives() {
    let mut operand = Operand::default();
    assert!(operand.is_internally_empty());
    assert!(operand.is_externally_empty());
    assert!(operand.is_positive());
    assert!(!operand.has_dot());
    assert_eq!(operand.numbers_count(), 1);

    assert!(operand.send_symbol('7'));
    assert!(operand.send_symbol('.'));
    assert!(operand.send_symbol('5'));
    assert!(operand.has_dot());
    assert_eq!(operand.numbers_count(), 2);
    assert_eq!(operand.to_string(), "7.5");
    assert!(!operand.send_symbol('x'));
    assert!(operand.send_erase());
    assert_eq!(operand.to_string(), "7");

    // A second point is not recorded.
    let mut operand = Operand::new();
    assert!(operand.send_symbol('1'));
    assert!(operand.send_symbol('.'));
    assert!(operand.send_symbol('2'));
    assert!(!operand.send_symbol('.'));
    assert_eq!(operand.to_string(), "1.2");

    // The sign flag is recorded once.
    assert!(operand.set_negative());
    assert!(!operand.set_negative());
    assert!(!operand.is_positive());
    assert_eq!(operand.to_string(), "-1.2");
}

#[test]
fn pending_operator_is_replaced() {
    let mut calc = Calculator::new();
    feed(&mut calc, "5+*2=");
    assert_eq!(calc.current_operand_to_str(), "10");
}

#[test]
fn digit_after_result_starts_fresh_entry() {
    let mut calc = Calculator::new();
    feed(&mut calc, "2+3=");
    assert_eq!(calc.current_operand_to_str(), "5");
    feed(&mut calc, "7");
    assert_eq!(calc.current_operand_to_str(), "7");
    assert!(matches!(calc.state, State::ReadingLeftOrOperator(_)));
}

#[test]
fn operator_after_result_continues_the_chain() {
    let mut calc = Calculator::new();
    feed(&mut calc, "2+3=*2=");
    assert_eq!(calc.current_operand_to_str(), "10");
}

#[test]
fn equals_on_initial_state_is_ignored() {
    let mut calc = Calculator::new();
    calc.pi();
    let shown = calc.current_operand_to_str();
    calc.symbol_in('=').unwrap();
    assert_eq!(calc.current_operand_to_str(), shown);
}

#[test]
fn erase_while_awaiting_right_operand_restarts() {
    let mut calc = Calculator::new();
    feed(&mut calc, "5+");
    calc.erase();
    assert_eq!(calc.current_operand_to_str(), "0");
    assert!(matches!(calc.state, State::ReadingLeftOrOperator(_)));
}

#[test]
fn placed_value_is_wiped_by_one_erase() {
    let mut calc = Calculator::new();
    calc.pi();
    calc.erase();
    assert_eq!(calc.current_operand_to_str(), "0");
}

#[test]
fn digit_replaces_a_placed_right_operand() {
    // A unary result sitting in the right slot is wiped by the next digit,
    // not extended by it.
    let mut calc = Calculator::new();
    feed(&mut calc, "5+9");
    calc.operator_in(Operator::NaturalLogarithm).unwrap();
    feed(&mut calc, "2=");
    assert_eq!(calc.current_operand_to_str(), "7");
}

#[test]
fn tiny_negative_power_rounds_to_plain_zero() {
    // (-10^-14)^3 underflows every representable place: the rounded result
    // is zero, and a zero never keeps a negative sign.
    let mut calc = Calculator::new();
    calc.set_current_operand(Dec { mant: 1, scale: 14, neg: true }).unwrap();
    feed(&mut calc, "^3=");
    assert_eq!(calc.current_operand_to_str(), "0");
    match &calc.state {
        State::Result(o) => assert!(o.is_positive()),
        _ => panic!("a result is shown"),
    }
}

#[test]
fn unary_classification() {
    assert!(Operator::NaturalLogarithm.is_unary());
    assert!(Operator::Sine.is_unary());
    assert!(Operator::Cosine.is_unary());
    assert!(!Operator::Addition.is_unary());
    assert!(!Operator::Power.is_unary());
}

#[test]
fn display_truncates_to_capacity() {
    // 28 significant digits survive internally; the display shows sixteen.
    let value = Dec { mant: 1234567890123456789012345678, scale: 27, neg: false };
    let operand = match Operand::try_from(&value) {
        Ok(o) => o,
        Err(_) => panic!("within range"),
    };
    assert_eq!(operand.to_string(), "1.234567890123456789012345678");
    assert_eq!(operand.current_state_string(), "1.234567890123456");

    // The sign and the point do not count against the digit budget.
    let value = Dec { mant: 1234567890123456789012345678, scale: 27, neg: true };
    let operand = match Operand::try_from(&value) {
        Ok(o) => o,
        Err(_) => panic!("within range"),
    };
    assert_eq!(operand.current_state_string(), "-1.234567890123456");

    // A leading zero is free even on a negative pure fraction.
    let value = Dec { mant: 123456789012345678901234567, scale: 28, neg: true };
    let operand = match Operand::try_from(&value) {
        Ok(o) => o,
        Err(_) => panic!("within range"),
    };
    assert_eq!(operand.current_state_string(), "-0.0123456789012345");
}

#[test]
fn trailing_point_is_shown_while_typing() {
    let mut calc = Calculator::new();
    feed(&mut calc, "3.");
    match &calc.state {
        State::ReadingLeftOrOperator(o) => {
            assert_eq!(o.current_state_string(), "3.");
            assert_eq!(o.to_string(), "3");
        },
        _ => panic!("still reading the left operand"),
    }
}
