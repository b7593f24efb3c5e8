use calc_core::calculator::Calculator;
use calc_core::error::CommandError;
use rust_decimal::Decimal;

#[test]
fn test_powers() {
    let a: f64 = 128.;
    let b: f64 = 2.;
    let result: f64 = a.ln() / b.ln();
    println!("{}", result);
}

#[test]
fn t_dec_max() {
    let mut max_dec = Decimal::MAX;
    max_dec.rescale(27);
    let dec_max_str: String = max_dec.to_string();
    println!("{}", &dec_max_str);
    println!("{}", dec_max_str.chars().count());
}

#[test]
fn t_general() {}

#[test]
fn test_calc() {
    let a = 8;
    let b = 94;
    println!("{}", a as f32 / b as f32);
}

#[test]
fn calculator() -> Result<(), CommandError> {
    let mut calc = Calculator::new();
    calc.symbol_in('5')?;
    calc.symbol_in('/')?;
    calc.symbol_in('1')?;
    calc.symbol_in('0')?;
    calc.symbol_in('0')?;
    calc.symbol_in('0')?;
    calc.erase();
    calc.symbol_in('+')?;
    calc.symbol_in('1')?;
    calc.symbol_in('0')?;
    calc.symbol_in('=')?;
    println!("{:?}", &calc);
    Ok(())
}

#[test]
fn is_normal() {
    let a: f64 = 0.0;
    println!("{}", a.is_finite());
}
