//! The operator tags and the stateless evaluator: checked decimal arithmetic
//! with explicit overflow and range detection.

use crate::dec::{
    add_rel, cos_of, dec_checked_add, dec_checked_cos, dec_checked_div, dec_checked_exp_zero_tol,
    dec_checked_ln, dec_checked_mul, dec_checked_powd, dec_checked_sin, dec_checked_sub,
    dec_of_parts, dec_round_dp, div_rel, exp_zero_tol_of, lemma_trunc_abs_from_scaled, ln_of,
    mul_rel, normalize, powd_of, round_dp_spec, sin_of, sub_rel, Dec,
};
use crate::error::CommandError;
use crate::operand::BUFFER_SIZE;
use vstd::prelude::*;

verus! {

/// The count of fractional places kept on the logarithmic power path: the
/// display capacity less room for the sign and leading-zero bookkeeping.
pub const POWER_ROUND_PLACES: u32 = (BUFFER_SIZE - 1 - 1) as u32;

/// A calculator operator, either binary (needing two operands) or unary.
#[derive(Debug, Clone, Copy, PartialEq, Eq, Structural)]
pub enum Operator {
    Division,
    Multiplication,
    Addition,
    Subtraction,
    Power,
    NaturalLogarithm,
    Sine,
    Cosine,
}

impl Operator {
    pub open spec fn is_unary_spec(self) -> bool {
        match self {
            Operator::NaturalLogarithm | Operator::Sine | Operator::Cosine => true,
            _ => false,
        }
    }

    /// Whether this operator consumes exactly one operand.
    pub fn is_unary(&self) -> (r: bool)
        ensures
            r == self.is_unary_spec(),
    {
        match self {
            Operator::Division => false,
            Operator::Multiplication => false,
            Operator::Addition => false,
            Operator::Subtraction => false,
            Operator::Power => false,
            Operator::NaturalLogarithm => true,
            Operator::Sine => true,
            Operator::Cosine => true,
        }
    }

    /// The operator denoted by a keyboard symbol, if any.
    pub fn try_from(symbol: char) -> (r: Result<Operator, CommandError>)
        ensures
            symbol == '/' ==> r == Result::<Operator, CommandError>::Ok(Operator::Division),
            symbol == '*' ==> r == Result::<Operator, CommandError>::Ok(Operator::Multiplication),
            symbol == '+' ==> r == Result::<Operator, CommandError>::Ok(Operator::Addition),
            symbol == '-' ==> r == Result::<Operator, CommandError>::Ok(Operator::Subtraction),
            symbol == '^' ==> r == Result::<Operator, CommandError>::Ok(Operator::Power),
            !(symbol == '/' || symbol == '*' || symbol == '+' || symbol == '-' || symbol == '^')
                ==> (r matches Err(e) && e matches CommandError::IncorrectOperation(_)),
    {
        match symbol {
            '/' => Ok(Operator::Division),
            '*' => Ok(Operator::Multiplication),
            '+' => Ok(Operator::Addition),
            '-' => Ok(Operator::Subtraction),
            '^' => Ok(Operator::Power),
            _ => Err(CommandError::IncorrectOperation("Incorrect operation symbol".to_owned())),
        }
    }
}

/// What the range check and trailing normalization make of a raw checked
/// result: a normalized equal-valued decimal when the integer part fits the
/// buffer, and `OutOfBufferRange` carrying the (valid) raw value otherwise.
pub open spec fn checked_result_rel(raw: Dec, r: Result<Dec, CommandError>) -> bool {
    &&& raw.valid()
    &&& if raw.in_buffer_range() {
        r matches Ok(d) && d.valid() && d.is_normal() && d.in_buffer_range() && d.scaled()
            == raw.scaled()
    } else {
        r == Result::<Dec, CommandError>::Err(CommandError::OutOfBufferRange(raw))
    }
}

/// Everything `Operator::apply` promises, as a relation between the operands
/// and the returned result.
pub open spec fn apply_rel(
    op: Operator,
    left: Dec,
    right: Option<Dec>,
    r: Result<Dec, CommandError>,
) -> bool {
    match op {
        Operator::Addition => match right {
            None => r == Result::<Dec, CommandError>::Err(CommandError::OperandIsMissing),
            Some(b) => {
                ||| exists|raw: Dec|
                    #[trigger] add_rel(left, b, Some(raw)) && checked_result_rel(raw, r)
                ||| add_rel(left, b, Option::<Dec>::None) && r == Result::<
                    Dec,
                    CommandError,
                >::Err(CommandError::Overflow)
            },
        },
        Operator::Subtraction => match right {
            None => r == Result::<Dec, CommandError>::Err(CommandError::OperandIsMissing),
            Some(b) => {
                ||| exists|raw: Dec|
                    #[trigger] sub_rel(left, b, Some(raw)) && checked_result_rel(raw, r)
                ||| sub_rel(left, b, Option::<Dec>::None) && r == Result::<
                    Dec,
                    CommandError,
                >::Err(CommandError::Overflow)
            },
        },
        Operator::Multiplication => match right {
            None => r == Result::<Dec, CommandError>::Err(CommandError::OperandIsMissing),
            Some(b) => {
                ||| exists|raw: Dec|
                    #[trigger] mul_rel(left, b, Some(raw)) && checked_result_rel(raw, r)
                ||| mul_rel(left, b, Option::<Dec>::None) && r == Result::<
                    Dec,
                    CommandError,
                >::Err(CommandError::Overflow)
            },
        },
        Operator::Division => match right {
            None => r == Result::<Dec, CommandError>::Err(CommandError::OperandIsMissing),
            Some(b) => {
                &&& (b.mant == 0 ==> r == Result::<Dec, CommandError>::Err(CommandError::Overflow))
                &&& ({
                    ||| exists|raw: Dec|
                        #[trigger] div_rel(left, b, Some(raw)) && checked_result_rel(raw, r)
                    ||| div_rel(left, b, Option::<Dec>::None) && r == Result::<
                        Dec,
                        CommandError,
                    >::Err(CommandError::Overflow)
                })
            },
        },
        Operator::Power => match right {
            None => r == Result::<Dec, CommandError>::Err(CommandError::OperandIsMissing),
            Some(b) => {
                if b.scale == 0 {
                    match powd_of((left.mant, left.scale, left.neg, b.mant, b.scale, b.neg)) {
                        None => r == Result::<Dec, CommandError>::Err(CommandError::Overflow),
                        Some(t) => checked_result_rel(
                            round_dp_spec(dec_of_parts(t), POWER_ROUND_PLACES),
                            r,
                        ),
                    }
                } else {
                    match ln_of((left.mant, left.scale, left.neg)) {
                        None => r == Result::<Dec, CommandError>::Err(CommandError::Overflow),
                        Some(lt) => {
                            ||| exists|product: Dec|
                                #[trigger] mul_rel(b, dec_of_parts(lt), Some(product)) && (match
                                exp_zero_tol_of((product.mant, product.scale, product.neg)) {
                                    None => r == Result::<Dec, CommandError>::Err(
                                        CommandError::Overflow,
                                    ),
                                    Some(et) => checked_result_rel(
                                        round_dp_spec(dec_of_parts(et), POWER_ROUND_PLACES),
                                        r,
                                    ),
                                })
                            ||| mul_rel(b, dec_of_parts(lt), Option::<Dec>::None) && r == Result::<
                                Dec,
                                CommandError,
                            >::Err(CommandError::Overflow)
                        },
                    }
                }
            },
        },
        Operator::NaturalLogarithm => {
            &&& (match ln_of((left.mant, left.scale, left.neg)) {
                None => r == Result::<Dec, CommandError>::Err(CommandError::Overflow),
                Some(t) => checked_result_rel(dec_of_parts(t), r),
            })
            &&& left.neg || left.mant == 0 ==> r == Result::<Dec, CommandError>::Err(
                CommandError::Overflow,
            )
        },
        Operator::Sine => match sin_of((left.mant, left.scale, left.neg)) {
            None => r == Result::<Dec, CommandError>::Err(CommandError::Overflow),
            Some(t) => checked_result_rel(dec_of_parts(t), r),
        },
        Operator::Cosine => match cos_of((left.mant, left.scale, left.neg)) {
            None => r == Result::<Dec, CommandError>::Err(CommandError::Overflow),
            Some(t) => checked_result_rel(dec_of_parts(t), r),
        },
    }
}

impl Operator {
    /// Range-check a raw checked result: values whose integer part exceeds
    /// the buffer fail with `OutOfBufferRange` carrying the offending value.
    fn valid_result(&self, result: Dec) -> (r: Result<Dec, CommandError>)
        requires
            result.valid(),
        ensures
            result.in_buffer_range() ==> r == Result::<Dec, CommandError>::Ok(result),
            !result.in_buffer_range() ==> r == Result::<Dec, CommandError>::Err(
                CommandError::OutOfBufferRange(result),
            ),
    {
        if result.is_in_buffer_range() {
            Ok(result)
        } else {
            Err(CommandError::OutOfBufferRange(result))
        }
    }

    /// Evaluate this operator on one or two decimals with checked arithmetic.
    /// Binary operators require the second operand; unary ones ignore it.
    /// Successful results are range-checked and normalized.
    pub fn apply(&self, left: Dec, right: Option<Dec>) -> (r: Result<Dec, CommandError>)
        requires
            left.valid(),
            right matches Some(b) ==> b.valid(),
        ensures
            apply_rel(*self, left, right, r),
    {
        match self {
            Operator::Division => {
                let b = require_operand(right)?;
                match dec_checked_div(&left, &b) {
                    None => Err(CommandError::Overflow),
                    Some(raw) => finish_checked(self.valid_result(raw)),
                }
            },
            Operator::Multiplication => {
                let b = require_operand(right)?;
                match dec_checked_mul(&left, &b) {
                    None => Err(CommandError::Overflow),
                    Some(raw) => finish_checked(self.valid_result(raw)),
                }
            },
            Operator::Addition => {
                let b = require_operand(right)?;
                match dec_checked_add(&left, &b) {
                    None => Err(CommandError::Overflow),
                    Some(raw) => finish_checked(self.valid_result(raw)),
                }
            },
            Operator::Subtraction => {
                let b = require_operand(right)?;
                match dec_checked_sub(&left, &b) {
                    None => Err(CommandError::Overflow),
                    Some(raw) => finish_checked(self.valid_result(raw)),
                }
            },
            Operator::Power => {
                let b = require_operand(right)?;
                let raw = if b.scale == 0 {
                    match dec_checked_powd(&left, &b) {
                        None => {
                            return Err(CommandError::Overflow);
                        },
                        Some(v) => v,
                    }
                } else {
                    let ln_left = match dec_checked_ln(&left) {
                        None => {
                            return Err(CommandError::Overflow);
                        },
                        Some(v) => v,
                    };
                    let product = match dec_checked_mul(&b, &ln_left) {
                        None => {
                            return Err(CommandError::Overflow);
                        },
                        Some(v) => v,
                    };
                    match dec_checked_exp_zero_tol(&product) {
                        None => {
                            return Err(CommandError::Overflow);
                        },
                        Some(v) => v,
                    }
                };
                let rounded = dec_round_dp(&raw, POWER_ROUND_PLACES);
                finish_checked(self.valid_result(rounded))
            },
            Operator::NaturalLogarithm => match dec_checked_ln(&left) {
                None => Err(CommandError::Overflow),
                Some(raw) => finish_checked(self.valid_result(raw)),
            },
            Operator::Sine => match dec_checked_sin(&left) {
                None => Err(CommandError::Overflow),
                Some(raw) => finish_checked(self.valid_result(raw)),
            },
            Operator::Cosine => match dec_checked_cos(&left) {
                None => Err(CommandError::Overflow),
                Some(raw) => finish_checked(self.valid_result(raw)),
            },
        }
    }
}

/// The range check and trailing normalization leave exactly one admissible
/// outcome for a given raw result.
pub proof fn lemma_checked_result_unique(
    raw: Dec,
    r1: Result<Dec, CommandError>,
    r2: Result<Dec, CommandError>,
)
    requires
        checked_result_rel(raw, r1),
        checked_result_rel(raw, r2),
    ensures
        r1 == r2,
{
    if raw.in_buffer_range() {
        match (r1, r2) {
            (Ok(d1), Ok(d2)) => {
                crate::dec::lemma_normal_form_unique(d1, d2);
            },
            _ => {
                assert(false);
            },
        }
    }
}

/// Law: the evaluator is a pure function of its inputs — any two outcomes
/// its contract admits for the same operator and operands are equal, as the
/// no-side-effects reading of the evaluator demands. Each checked call is
/// pinned by a named function of the operand parts, and normal form is
/// canonical, so the admitted outcome is unique.
pub proof fn lemma_apply_pure(
    op: Operator,
    left: Dec,
    right: Option<Dec>,
    r1: Result<Dec, CommandError>,
    r2: Result<Dec, CommandError>,
)
    requires
        apply_rel(op, left, right, r1),
        apply_rel(op, left, right, r2),
    ensures
        r1 == r2,
{
    match op {
        Operator::Addition => {
            if let Some(b) = right {
                let has1 = exists|raw: Dec|
                    #[trigger] add_rel(left, b, Some(raw)) && checked_result_rel(raw, r1);
                let has2 = exists|raw: Dec|
                    #[trigger] add_rel(left, b, Some(raw)) && checked_result_rel(raw, r2);
                if has1 && has2 {
                    let raw1 = choose|raw: Dec|
                        #[trigger] add_rel(left, b, Some(raw)) && checked_result_rel(raw, r1);
                    let raw2 = choose|raw: Dec|
                        #[trigger] add_rel(left, b, Some(raw)) && checked_result_rel(raw, r2);
                    assert(raw1 == raw2);
                    lemma_checked_result_unique(raw1, r1, r2);
                } else if has1 || has2 {
                    // One side succeeded and the other failed: the named parts
                    // function would be both a value and none.
                    assert(false);
                }
            }
        },
        Operator::Subtraction => {
            if let Some(b) = right {
                let has1 = exists|raw: Dec|
                    #[trigger] sub_rel(left, b, Some(raw)) && checked_result_rel(raw, r1);
                let has2 = exists|raw: Dec|
                    #[trigger] sub_rel(left, b, Some(raw)) && checked_result_rel(raw, r2);
                if has1 && has2 {
                    let raw1 = choose|raw: Dec|
                        #[trigger] sub_rel(left, b, Some(raw)) && checked_result_rel(raw, r1);
                    let raw2 = choose|raw: Dec|
                        #[trigger] sub_rel(left, b, Some(raw)) && checked_result_rel(raw, r2);
                    assert(raw1 == raw2);
                    lemma_checked_result_unique(raw1, r1, r2);
                } else if has1 || has2 {
                    assert(false);
                }
            }
        },
        Operator::Multiplication => {
            if let Some(b) = right {
                let has1 = exists|raw: Dec|
                    #[trigger] mul_rel(left, b, Some(raw)) && checked_result_rel(raw, r1);
                let has2 = exists|raw: Dec|
                    #[trigger] mul_rel(left, b, Some(raw)) && checked_result_rel(raw, r2);
                if has1 && has2 {
                    let raw1 = choose|raw: Dec|
                        #[trigger] mul_rel(left, b, Some(raw)) && checked_result_rel(raw, r1);
                    let raw2 = choose|raw: Dec|
                        #[trigger] mul_rel(left, b, Some(raw)) && checked_result_rel(raw, r2);
                    assert(raw1 == raw2);
                    lemma_checked_result_unique(raw1, r1, r2);
                } else if has1 || has2 {
                    assert(false);
                }
            }
        },
        Operator::Division => {
            if let Some(b) = right {
                let has1 = exists|raw: Dec|
                    #[trigger] div_rel(left, b, Some(raw)) && checked_result_rel(raw, r1);
                let has2 = exists|raw: Dec|
                    #[trigger] div_rel(left, b, Some(raw)) && checked_result_rel(raw, r2);
                if has1 && has2 {
                    let raw1 = choose|raw: Dec|
                        #[trigger] div_rel(left, b, Some(raw)) && checked_result_rel(raw, r1);
                    let raw2 = choose|raw: Dec|
                        #[trigger] div_rel(left, b, Some(raw)) && checked_result_rel(raw, r2);
                    assert(raw1 == raw2);
                    lemma_checked_result_unique(raw1, r1, r2);
                } else if has1 || has2 {
                    assert(false);
                }
            }
        },
        Operator::Power => {
            if let Some(b) = right {
                if b.scale == 0 {
                    match powd_of((left.mant, left.scale, left.neg, b.mant, b.scale, b.neg)) {
                        None => {},
                        Some(t) => {
                            lemma_checked_result_unique(
                                round_dp_spec(dec_of_parts(t), POWER_ROUND_PLACES),
                                r1,
                                r2,
                            );
                        },
                    }
                } else {
                    match ln_of((left.mant, left.scale, left.neg)) {
                        None => {},
                        Some(lt) => {
                            let base = dec_of_parts(lt);
                            let has1 = exists|product: Dec|
                                #[trigger] mul_rel(b, base, Some(product)) && (match
                                exp_zero_tol_of((product.mant, product.scale, product.neg)) {
                                    None => r1 == Result::<Dec, CommandError>::Err(
                                        CommandError::Overflow,
                                    ),
                                    Some(et) => checked_result_rel(
                                        round_dp_spec(dec_of_parts(et), POWER_ROUND_PLACES),
                                        r1,
                                    ),
                                });
                            let has2 = exists|product: Dec|
                                #[trigger] mul_rel(b, base, Some(product)) && (match
                                exp_zero_tol_of((product.mant, product.scale, product.neg)) {
                                    None => r2 == Result::<Dec, CommandError>::Err(
                                        CommandError::Overflow,
                                    ),
                                    Some(et) => checked_result_rel(
                                        round_dp_spec(dec_of_parts(et), POWER_ROUND_PLACES),
                                        r2,
                                    ),
                                });
                            if has1 && has2 {
                                let p1 = choose|product: Dec|
                                    #[trigger] mul_rel(b, base, Some(product)) && (match
                                    exp_zero_tol_of((product.mant, product.scale, product.neg)) {
                                        None => r1 == Result::<Dec, CommandError>::Err(
                                            CommandError::Overflow,
                                        ),
                                        Some(et) => checked_result_rel(
                                            round_dp_spec(dec_of_parts(et), POWER_ROUND_PLACES),
                                            r1,
                                        ),
                                    });
                                let p2 = choose|product: Dec|
                                    #[trigger] mul_rel(b, base, Some(product)) && (match
                                    exp_zero_tol_of((product.mant, product.scale, product.neg)) {
                                        None => r2 == Result::<Dec, CommandError>::Err(
                                            CommandError::Overflow,
                                        ),
                                        Some(et) => checked_result_rel(
                                            round_dp_spec(dec_of_parts(et), POWER_ROUND_PLACES),
                                            r2,
                                        ),
                                    });
                                assert(p1 == p2);
                                match exp_zero_tol_of((p1.mant, p1.scale, p1.neg)) {
                                    None => {},
                                    Some(et) => {
                                        lemma_checked_result_unique(
                                            round_dp_spec(dec_of_parts(et), POWER_ROUND_PLACES),
                                            r1,
                                            r2,
                                        );
                                    },
                                }
                            } else if has1 || has2 {
                                assert(false);
                            }
                        },
                    }
                }
            }
        },
        Operator::NaturalLogarithm => {
            match ln_of((left.mant, left.scale, left.neg)) {
                None => {},
                Some(t) => {
                    lemma_checked_result_unique(dec_of_parts(t), r1, r2);
                },
            }
        },
        Operator::Sine => {
            match sin_of((left.mant, left.scale, left.neg)) {
                None => {},
                Some(t) => {
                    lemma_checked_result_unique(dec_of_parts(t), r1, r2);
                },
            }
        },
        Operator::Cosine => {
            match cos_of((left.mant, left.scale, left.neg)) {
                None => {},
                Some(t) => {
                    lemma_checked_result_unique(dec_of_parts(t), r1, r2);
                },
            }
        },
    }
}

/// A successful evaluation always hands back a valid value whose integer
/// part fits the display buffer.
pub proof fn lemma_apply_ok_in_range(op: Operator, l: Dec, rt: Option<Dec>, d: Dec)
    requires
        apply_rel(op, l, rt, Ok(d)),
    ensures
        d.valid(),
        d.in_buffer_range(),
{
    match op {
        Operator::Addition => {},
        Operator::Subtraction => {},
        Operator::Multiplication => {},
        Operator::Division => {},
        Operator::Power => {},
        Operator::NaturalLogarithm => {},
        Operator::Sine => {},
        Operator::Cosine => {},
    }
}

/// A binary operator's demand for its second operand.
fn require_operand(operand: Option<Dec>) -> (r: Result<Dec, CommandError>)
    ensures
        operand matches Some(d) ==> r == Result::<Dec, CommandError>::Ok(d),
        operand is None ==> r == Result::<Dec, CommandError>::Err(CommandError::OperandIsMissing),
{
    match operand {
        Some(d) => Ok(d),
        None => Err(CommandError::OperandIsMissing),
    }
}

/// Normalize the successful outcome of a range check, leaving failures alone.
fn finish_checked(vr: Result<Dec, CommandError>) -> (r: Result<Dec, CommandError>)
    requires
        vr matches Ok(d) ==> d.valid(),
    ensures
        vr matches Ok(d) ==> (r matches Ok(n) && n.valid() && n.is_normal() && n.scaled()
            == d.scaled() && n.trunc_abs() == d.trunc_abs()),
        vr matches Err(e) ==> r == Result::<Dec, CommandError>::Err(e),
{
    match vr {
        Ok(d) => {
            let n = normalize(&d);
            proof {
                lemma_trunc_abs_from_scaled(d);
                lemma_trunc_abs_from_scaled(n);
            }
            Ok(n)
        },
        Err(e) => Err(e),
    }
}

} // verus!
