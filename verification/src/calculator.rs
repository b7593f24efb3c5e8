//! The input state machine: which operand is being edited, which operator is
//! pending, and how each incoming symbol or operator moves the machine.

use crate::dec::{dec_eq, iabs, pow10, Dec, MANT_LIMIT, SCALE_LIMIT};
use crate::error::CommandError;
use crate::operand::{
    empty_operand, from_dec_spec, is_digit_char, is_dot_symbol, is_number, render_spec,
    send_erase_result, send_symbol_result, to_dec_spec, Operand, OperandV,
};
use crate::operator::{apply_rel, Operator};
use vstd::pervasive::unreached;
use vstd::prelude::*;

verus! {

/// The mathematical model of the interaction state.
pub enum StateV {
    ReadingLeftOrOperator(OperandV),
    ReadingRight { left: OperandV, operator: Operator },
    ReadingRightOrNextAction { left: OperandV, operator: Operator, right: OperandV },
    Result(OperandV),
}

/// The interaction protocol: exactly one of four phases, each owning the
/// operand(s) it is editing or showing.
#[derive(Debug)]
pub enum State {
    ReadingLeftOrOperator(Operand),
    ReadingRight { left: Operand, operator: Operator },
    ReadingRightOrNextAction { left: Operand, operator: Operator, right: Operand },
    Result(Operand),
}

impl View for State {
    type V = StateV;

    open spec fn view(&self) -> StateV {
        match self {
            State::ReadingLeftOrOperator(o) => StateV::ReadingLeftOrOperator(o@),
            State::ReadingRight { left, operator } => StateV::ReadingRight {
                left: left@,
                operator: *operator,
            },
            State::ReadingRightOrNextAction { left, operator, right } => {
                StateV::ReadingRightOrNextAction {
                    left: left@,
                    operator: *operator,
                    right: right@,
                }
            },
            State::Result(o) => StateV::Result(o@),
        }
    }
}

impl StateV {
    pub open spec fn wf(self) -> bool {
        match self {
            StateV::ReadingLeftOrOperator(o) => o.wf(),
            StateV::ReadingRight { left, .. } => left.wf(),
            StateV::ReadingRightOrNextAction { left, right, .. } => left.wf() && right.wf(),
            StateV::Result(o) => o.wf(),
        }
    }

    /// The operand the display currently shows and commands act on.
    pub open spec fn active_operand(self) -> OperandV {
        match self {
            StateV::ReadingLeftOrOperator(o) => o,
            StateV::ReadingRight { left, .. } => left,
            StateV::ReadingRightOrNextAction { right, .. } => right,
            StateV::Result(o) => o,
        }
    }
}

impl State {
    /// The initial phase: an empty left operand, no operator chosen.
    pub fn begin() -> (r: State)
        ensures
            r@ == StateV::ReadingLeftOrOperator(empty_operand(false)),
            r@.wf(),
    {
        State::ReadingLeftOrOperator(Operand::new())
    }
}

/// The mathematical model of a calculator: its phase and its memory cell.
pub struct CalcV {
    pub state: StateV,
    pub memory: Dec,
}

/// The calculator core: the interaction state and the memory cell.
#[derive(Debug)]
pub struct Calculator {
    pub state: State,
    pub memory: Dec,
}

impl View for Calculator {
    type V = CalcV;

    open spec fn view(&self) -> CalcV {
        CalcV { state: self.state@, memory: self.memory }
    }
}

pub open spec fn is_operation_spec(c: char) -> bool {
    c == '/' || c == '+' || c == '-' || c == '*' || c == '^'
}

pub open spec fn op_of_symbol(c: char) -> Operator {
    if c == '/' {
        Operator::Division
    } else if c == '*' {
        Operator::Multiplication
    } else if c == '+' {
        Operator::Addition
    } else if c == '-' {
        Operator::Subtraction
    } else {
        Operator::Power
    }
}

pub open spec fn is_eq_spec(c: char) -> bool {
    c == '='
}

/// Whether a symbol dispatches to operator handling.
pub fn is_operation(symbol: char) -> (r: bool)
    ensures
        r == is_operation_spec(symbol),
{
    symbol == '/' || symbol == '+' || symbol == '-' || symbol == '*' || symbol == '^'
}

/// Whether a symbol is the evaluation key.
pub fn is_eq(symbol: char) -> (r: bool)
    ensures
        r == is_eq_spec(symbol),
{
    symbol == '='
}

/// One digit or point fed to an operand being edited: a stale result is
/// wiped first if the wipe flag is armed, and the flag is then disarmed.
pub open spec fn entry_step(o: OperandV, symbol: char) -> OperandV {
    let cleared = if o.reset {
        send_erase_result(o).0
    } else {
        o
    };
    let fed = send_symbol_result(cleared, symbol).0;
    OperandV { reset: false, ..fed }
}

/// Law: a keystroke arriving once the display capacity is filled leaves the
/// stored digits exactly as they are, at the machine level too.
pub proof fn lemma_entry_at_capacity(o: OperandV, symbol: char)
    requires
        o.digits.len() >= crate::operand::BUFFER_SIZE,
        !o.reset,
    ensures
        entry_step(o, symbol).digits == o.digits,
{
}

/// The right operand opened by the first symbol after an operator.
pub open spec fn fresh_right(symbol: char) -> OperandV {
    OperandV { reset: false, ..send_symbol_result(empty_operand(false), symbol).0 }
}

/// The operand that carries a computed value: laid out from the value and
/// armed to be wiped by the next erase.
pub open spec fn result_operand(d: Dec) -> OperandV {
    OperandV { reset: true, ..from_dec_spec(d) }
}

/// Evaluation of `left operator right` out of a state `pre`: on success the
/// machine shows the result; on failure the error is returned and `pre` is
/// kept.
pub open spec fn eval_to_result(
    pre: StateV,
    post: StateV,
    left: OperandV,
    op: Operator,
    right: OperandV,
    r: Result<(), CommandError>,
) -> bool {
    exists|out: Result<Dec, CommandError>|
        #[trigger] apply_rel(op, to_dec_spec(left), Some(to_dec_spec(right)), out) && (match out {
            Ok(d) => r is Ok && post == StateV::Result(result_operand(d)),
            Err(e) => r == Result::<(), CommandError>::Err(e) && post == pre,
        })
}

/// A unary operator consuming the operand `o`: on success the machine shows
/// the result as `wrap(d)`; on failure the error is returned and `pre` kept.
pub open spec fn unary_eval(
    pre: StateV,
    post: StateV,
    o: OperandV,
    op: Operator,
    wrap: spec_fn(Dec) -> StateV,
    r: Result<(), CommandError>,
) -> bool {
    exists|out: Result<Dec, CommandError>|
        #[trigger] apply_rel(op, to_dec_spec(o), Option::<Dec>::None, out) && (match out {
            Ok(d) => r is Ok && post == wrap(d),
            Err(e) => r == Result::<(), CommandError>::Err(e) && post == pre,
        })
}

/// The full transition relation of `operator_in`.
pub open spec fn operator_step(
    pre: StateV,
    post: StateV,
    op: Operator,
    r: Result<(), CommandError>,
) -> bool {
    match pre {
        StateV::ReadingLeftOrOperator(o) => {
            if op.is_unary_spec() {
                unary_eval(pre, post, o, op, |d: Dec| StateV::Result(result_operand(d)), r)
            } else {
                r is Ok && post == (StateV::ReadingRight { left: o, operator: op })
            }
        },
        StateV::ReadingRight { left, operator } => {
            if op.is_unary_spec() {
                unary_eval(pre, post, left, op, |d: Dec| StateV::Result(result_operand(d)), r)
            } else {
                r is Ok && post == (StateV::ReadingRight { left, operator: op })
            }
        },
        StateV::ReadingRightOrNextAction { left, operator, right } => {
            if op.is_unary_spec() {
                unary_eval(
                    pre,
                    post,
                    right,
                    op,
                    |d: Dec|
                        (StateV::ReadingRightOrNextAction {
                            left,
                            operator,
                            right: result_operand(d),
                        }),
                    r,
                )
            } else {
                exists|out: Result<Dec, CommandError>|
                    #[trigger] apply_rel(
                        operator,
                        to_dec_spec(left),
                        Some(to_dec_spec(right)),
                        out,
                    ) && (match out {
                        Ok(d) => r is Ok && post == (StateV::ReadingRight {
                            left: from_dec_spec(d),
                            operator: op,
                        }),
                        Err(e) => r == Result::<(), CommandError>::Err(e) && post == pre,
                    })
            }
        },
        StateV::Result(o) => {
            if op.is_unary_spec() {
                unary_eval(pre, post, o, op, |d: Dec| StateV::Result(result_operand(d)), r)
            } else {
                r is Ok && post == (StateV::ReadingRight { left: o, operator: op })
            }
        },
    }
}

/// The full transition relation of `symbol_in`.
pub open spec fn symbol_step(
    pre: StateV,
    post: StateV,
    symbol: char,
    r: Result<(), CommandError>,
) -> bool {
    if is_operation_spec(symbol) {
        operator_step(pre, post, op_of_symbol(symbol), r)
    } else {
        match pre {
            StateV::ReadingLeftOrOperator(o) => {
                if is_eq_spec(symbol) {
                    r is Ok && post == pre
                } else {
                    r is Ok && post == StateV::ReadingLeftOrOperator(entry_step(o, symbol))
                }
            },
            StateV::ReadingRight { left, operator } => {
                r is Ok && post == (StateV::ReadingRightOrNextAction {
                    left,
                    operator,
                    right: fresh_right(symbol),
                })
            },
            StateV::ReadingRightOrNextAction { left, operator, right } => {
                if is_digit_char(symbol) || is_dot_symbol(symbol) {
                    r is Ok && post == (StateV::ReadingRightOrNextAction {
                        left,
                        operator,
                        right: entry_step(right, symbol),
                    })
                } else if is_eq_spec(symbol) {
                    eval_to_result(pre, post, left, operator, right, r)
                } else {
                    r is Ok && post == pre
                }
            },
            StateV::Result(o) => {
                if is_eq_spec(symbol) {
                    r is Ok && post == pre
                } else if is_digit_char(symbol) || is_dot_symbol(symbol) {
                    r is Ok && post == StateV::ReadingLeftOrOperator(
                        entry_step(empty_operand(false), symbol),
                    )
                } else {
                    r is Ok && post == StateV::ReadingLeftOrOperator(empty_operand(false))
                }
            },
        }
    }
}

/// Move the state out of its slot, leaving the initial phase behind.
fn take_state(slot: &mut State) -> (r: State)
    ensures
        r == *old(slot),
        final(slot)@ == StateV::ReadingLeftOrOperator(empty_operand(false)),
{
    let mut tmp = State::begin();
    core::mem::swap(slot, &mut tmp);
    tmp
}

impl Calculator {
    /// Soundness of the whole machine: well-formed operands everywhere and a
    /// memory value the buffer could always take back.
    pub open spec fn wf(self) -> bool {
        &&& self@.state.wf()
        &&& self@.memory.valid()
        &&& self@.memory.in_buffer_range()
    }

    /// A fresh calculator: initial phase, memory zero.
    pub fn new() -> (r: Calculator)
        ensures
            r.wf(),
            r@.state == StateV::ReadingLeftOrOperator(empty_operand(false)),
            r@.memory == Dec::zero_spec(),
    {
        Self::with_state(State::begin())
    }

    fn with_state(state: State) -> (r: Calculator)
        ensures
            r@.state == state@,
            r@.memory == Dec::zero_spec(),
    {
        Calculator { state, memory: Dec::zero() }
    }

    /// Feed one input character: digits and separators edit the active
    /// operand, `=` evaluates, operator characters dispatch to `operator_in`.
    pub fn symbol_in(&mut self, symbol: char) -> (r: Result<(), CommandError>)
        requires
            old(self).wf(),
        ensures
            final(self).wf(),
            final(self)@.memory == old(self)@.memory,
            symbol_step(old(self)@.state, final(self)@.state, symbol, r),
    {
        if is_operation(symbol) {
            let op = match Operator::try_from(symbol) {
                Ok(op) => op,
                Err(_) => unreached(),
            };
            return self.operator_in(op);
        }
        let st = take_state(&mut self.state);
        match st {
            State::ReadingLeftOrOperator(mut operand) => {
                if is_eq(symbol) {
                    self.state = State::ReadingLeftOrOperator(operand);
                    return Ok(());
                }
                if operand.should_reset_on_clear() {
                    operand.send_erase();
                }
                operand.send_symbol(symbol);
                operand.set_should_reset_on_clear(false);
                self.state = State::ReadingLeftOrOperator(operand);
                Ok(())
            },
            State::ReadingRight { left, operator } => {
                let mut right = Operand::new();
                right.send_symbol(symbol);
                right.set_should_reset_on_clear(false);
                self.state = State::ReadingRightOrNextAction { left, operator, right };
                Ok(())
            },
            State::ReadingRightOrNextAction { left, operator, mut right } => {
                if is_number(symbol) || symbol == '.' || symbol == ',' {
                    if right.should_reset_on_clear() {
                        right.send_erase();
                    }
                    right.send_symbol(symbol);
                    right.set_should_reset_on_clear(false);
                    self.state = State::ReadingRightOrNextAction { left, operator, right };
                    return Ok(());
                }
                if is_eq(symbol) {
                    let left_dec = match left.to_dec() {
                        Ok(d) => d,
                        Err(_) => unreached(),
                    };
                    let right_dec = match right.to_dec() {
                        Ok(d) => d,
                        Err(_) => unreached(),
                    };
                    match operator.apply(left_dec, Some(right_dec)) {
                        Ok(value) => {
                            let mut result = match Operand::try_from(&value) {
                                Ok(o) => o,
                                Err(_) => unreached(),
                            };
                            result.set_should_reset_on_clear(true);
                            let ghost out = Result::<Dec, CommandError>::Ok(value);
                            self.state = State::Result(result);
                            proof {
                                assert(apply_rel(
                                    operator,
                                    to_dec_spec(left@),
                                    Some(to_dec_spec(right@)),
                                    out,
                                ));
                            }
                            Ok(())
                        },
                        Err(e) => {
                            let ghost out = Result::<Dec, CommandError>::Err(e);
                            self.state = State::ReadingRightOrNextAction { left, operator, right };
                            proof {
                                assert(apply_rel(
                                    operator,
                                    to_dec_spec(left@),
                                    Some(to_dec_spec(right@)),
                                    out,
                                ));
                            }
                            Err(e)
                        },
                    }
                } else {
                    self.state = State::ReadingRightOrNextAction { left, operator, right };
                    Ok(())
                }
            },
            State::Result(operand) => {
                if is_eq(symbol) {
                    self.state = State::Result(operand);
                    return Ok(());
                }
                let mut fresh = Operand::new();
                fresh.send_symbol(symbol);
                fresh.set_should_reset_on_clear(false);
                self.state = State::ReadingLeftOrOperator(fresh);
                Ok(())
            },
        }
    }

    /// Feed a structural operator: binary ones open or chain a pending
    /// operation, unary ones consume the relevant operand immediately.
    pub fn operator_in(&mut self, operator: Operator) -> (r: Result<(), CommandError>)
        requires
            old(self).wf(),
        ensures
            final(self).wf(),
            final(self)@.memory == old(self)@.memory,
            operator_step(old(self)@.state, final(self)@.state, operator, r),
    {
        let st = take_state(&mut self.state);
        match st {
            State::ReadingLeftOrOperator(operand) => {
                if operator.is_unary() {
                    let operand_dec = match operand.to_dec() {
                        Ok(d) => d,
                        Err(_) => unreached(),
                    };
                    match operator.apply(operand_dec, None) {
                        Ok(value) => {
                            let mut result = match Operand::try_from(&value) {
                                Ok(o) => o,
                                Err(_) => unreached(),
                            };
                            result.set_should_reset_on_clear(true);
                            let ghost out = Result::<Dec, CommandError>::Ok(value);
                            self.state = State::Result(result);
                            proof {
                                assert(apply_rel(
                                    operator,
                                    to_dec_spec(operand@),
                                    Option::<Dec>::None,
                                    out,
                                ));
                            }
                            return Ok(());
                        },
                        Err(e) => {
                            let ghost out = Result::<Dec, CommandError>::Err(e);
                            self.state = State::ReadingLeftOrOperator(operand);
                            proof {
                                assert(apply_rel(
                                    operator,
                                    to_dec_spec(operand@),
                                    Option::<Dec>::None,
                                    out,
                                ));
                            }
                            return Err(e);
                        },
                    }
                }
                self.state = State::ReadingRight { left: operand, operator };
                Ok(())
            },
            State::ReadingRight { left, operator: pending } => {
                if operator.is_unary() {
                    let operand_dec = match left.to_dec() {
                        Ok(d) => d,
                        Err(_) => unreached(),
                    };
                    match operator.apply(operand_dec, None) {
                        Ok(value) => {
                            let mut result = match Operand::try_from(&value) {
                                Ok(o) => o,
                                Err(_) => unreached(),
                            };
                            result.set_should_reset_on_clear(true);
                            let ghost out = Result::<Dec, CommandError>::Ok(value);
                            self.state = State::Result(result);
                            proof {
                                assert(apply_rel(
                                    operator,
                                    to_dec_spec(left@),
                                    Option::<Dec>::None,
                                    out,
                                ));
                            }
                            return Ok(());
                        },
                        Err(e) => {
                            let ghost out = Result::<Dec, CommandError>::Err(e);
                            self.state = State::ReadingRight { left, operator: pending };
                            proof {
                                assert(apply_rel(
                                    operator,
                                    to_dec_spec(left@),
                                    Option::<Dec>::None,
                                    out,
                                ));
                            }
                            return Err(e);
                        },
                    }
                }
                self.state = State::ReadingRight { left, operator };
                Ok(())
            },
            State::ReadingRightOrNextAction { left, operator: first_operator, right } => {
                let right_dec = match right.to_dec() {
                    Ok(d) => d,
                    Err(_) => unreached(),
                };
                if operator.is_unary() {
                    match operator.apply(right_dec, None) {
                        Ok(value) => {
                            let mut result = match Operand::try_from(&value) {
                                Ok(o) => o,
                                Err(_) => unreached(),
                            };
                            result.set_should_reset_on_clear(true);
                            let ghost out = Result::<Dec, CommandError>::Ok(value);
                            self.state = State::ReadingRightOrNextAction {
                                left,
                                operator: first_operator,
                                right: result,
                            };
                            proof {
                                assert(apply_rel(
                                    operator,
                                    to_dec_spec(right@),
                                    Option::<Dec>::None,
                                    out,
                                ));
                            }
                            return Ok(());
                        },
                        Err(e) => {
                            let ghost out = Result::<Dec, CommandError>::Err(e);
                            self.state = State::ReadingRightOrNextAction {
                                left,
                                operator: first_operator,
                                right,
                            };
                            proof {
                                assert(apply_rel(
                                    operator,
                                    to_dec_spec(right@),
                                    Option::<Dec>::None,
                                    out,
                                ));
                            }
                            return Err(e);
                        },
                    }
                }
                let left_dec = match left.to_dec() {
                    Ok(d) => d,
                    Err(_) => unreached(),
                };
                match first_operator.apply(left_dec, Some(right_dec)) {
                    Ok(value) => {
                        let new_left = match Operand::try_from(&value) {
                            Ok(o) => o,
                            Err(_) => unreached(),
                        };
                        let ghost out = Result::<Dec, CommandError>::Ok(value);
                        self.state = State::ReadingRight { left: new_left, operator };
                        proof {
                            assert(apply_rel(
                                first_operator,
                                to_dec_spec(left@),
                                Some(to_dec_spec(right@)),
                                out,
                            ));
                        }
                        Ok(())
                    },
                    Err(e) => {
                        let ghost out = Result::<Dec, CommandError>::Err(e);
                        self.state = State::ReadingRightOrNextAction {
                            left,
                            operator: first_operator,
                            right,
                        };
                        proof {
                            assert(apply_rel(
                                first_operator,
                                to_dec_spec(left@),
                                Some(to_dec_spec(right@)),
                                out,
                            ));
                        }
                        Err(e)
                    },
                }
            },
            State::Result(operand) => {
                if operator.is_unary() {
                    let operand_dec = match operand.to_dec() {
                        Ok(d) => d,
                        Err(_) => unreached(),
                    };
                    match operator.apply(operand_dec, None) {
                        Ok(value) => {
                            let mut result = match Operand::try_from(&value) {
                                Ok(o) => o,
                                Err(_) => unreached(),
                            };
                            result.set_should_reset_on_clear(true);
                            let ghost out = Result::<Dec, CommandError>::Ok(value);
                            self.state = State::Result(result);
                            proof {
                                assert(apply_rel(
                                    operator,
                                    to_dec_spec(operand@),
                                    Option::<Dec>::None,
                                    out,
                                ));
                            }
                            return Ok(());
                        },
                        Err(e) => {
                            let ghost out = Result::<Dec, CommandError>::Err(e);
                            self.state = State::Result(operand);
                            proof {
                                assert(apply_rel(
                                    operator,
                                    to_dec_spec(operand@),
                                    Option::<Dec>::None,
                                    out,
                                ));
                            }
                            return Err(e);
                        },
                    }
                }
                self.state = State::ReadingRight { left: operand, operator };
                Ok(())
            },
        }
    }
}

/// The transition relation of `set_current_operand`: a representable value
/// lands in the slot the current phase considers active (opening the right
/// slot when an operator is pending), armed to be wiped by the next erase.
pub open spec fn set_operand_step(
    pre: StateV,
    post: StateV,
    value: Dec,
    r: Result<(), CommandError>,
) -> bool {
    if value.in_buffer_range() {
        r is Ok && (match pre {
            StateV::ReadingLeftOrOperator(_) => post == StateV::ReadingLeftOrOperator(
                result_operand(value),
            ),
            StateV::ReadingRight { left, operator } => post == (
            StateV::ReadingRightOrNextAction { left, operator, right: result_operand(value) }),
            StateV::ReadingRightOrNextAction { left, operator, right: _ } => post == (
            StateV::ReadingRightOrNextAction { left, operator, right: result_operand(value) }),
            StateV::Result(_) => post == StateV::Result(result_operand(value)),
        })
    } else {
        r == Result::<(), CommandError>::Err(CommandError::IncorrectOperand(value)) && post == pre
    }
}

/// The transition relation of `erase`: one erase step on the operand being
/// edited, and a full restart out of the transient or result phases.
pub open spec fn erase_step(pre: StateV, post: StateV) -> bool {
    match pre {
        StateV::ReadingLeftOrOperator(o) => post == StateV::ReadingLeftOrOperator(
            send_erase_result(o).0,
        ),
        StateV::ReadingRight { .. } => post == StateV::ReadingLeftOrOperator(
            empty_operand(false),
        ),
        StateV::ReadingRightOrNextAction { left, operator, right } => post == (
        StateV::ReadingRightOrNextAction { left, operator, right: send_erase_result(right).0 }),
        StateV::Result(_) => post == StateV::ReadingLeftOrOperator(empty_operand(false)),
    }
}

impl Calculator {
    /// The decimal value of the operand the display currently shows.
    fn current_operand_to_dec(&self) -> (r: Dec)
        requires
            self.wf(),
        ensures
            r == to_dec_spec(self@.state.active_operand()),
            r.valid(),
    {
        let operand = match &self.state {
            State::ReadingLeftOrOperator(o) => o,
            State::ReadingRight { left, operator: _ } => left,
            State::ReadingRightOrNextAction { left: _, operator: _, right } => right,
            State::Result(o) => o,
        };
        match operand.to_dec() {
            Ok(d) => d,
            Err(_) => unreached(),
        }
    }

    /// The display content for the operand the machine currently shows,
    /// truncated to the display capacity as the visible line is.
    pub fn current_operand_to_str(&self) -> (r: String)
        requires
            self.wf(),
        ensures
            r@ == crate::operand::display_spec(self@.state.active_operand()),
    {
        let operand = match &self.state {
            State::ReadingLeftOrOperator(o) => o,
            State::ReadingRight { left, operator: _ } => left,
            State::ReadingRightOrNextAction { left: _, operator: _, right } => right,
            State::Result(o) => o,
        };
        operand.current_state_string()
    }

    /// Force the active slot to a given value (constants, memory recall,
    /// pasted values); rejects a value whose integer part cannot be shown.
    pub fn set_current_operand(&mut self, value: Dec) -> (r: Result<(), CommandError>)
        requires
            old(self).wf(),
            value.valid(),
        ensures
            final(self).wf(),
            final(self)@.memory == old(self)@.memory,
            set_operand_step(old(self)@.state, final(self)@.state, value, r),
    {
        let mut operand = match Operand::try_from(&value) {
            Ok(o) => o,
            Err(e) => {
                return Err(e);
            },
        };
        operand.set_should_reset_on_clear(true);
        let st = take_state(&mut self.state);
        match st {
            State::ReadingLeftOrOperator(_) => {
                self.state = State::ReadingLeftOrOperator(operand);
            },
            State::ReadingRight { left, operator } => {
                self.state = State::ReadingRightOrNextAction { left, operator, right: operand };
            },
            State::ReadingRightOrNextAction { left, operator, right: _ } => {
                self.state = State::ReadingRightOrNextAction { left, operator, right: operand };
            },
            State::Result(_) => {
                self.state = State::Result(operand);
            },
        }
        Ok(())
    }

    /// Fold the displayed value into memory with checked addition.
    pub fn memory_add(&mut self) -> (r: Result<(), CommandError>)
        requires
            old(self).wf(),
        ensures
            final(self).wf(),
            final(self)@.state == old(self)@.state,
            memory_step(old(self)@, final(self)@, Operator::Addition, r),
    {
        self.memory_apply(Operator::Addition)
    }

    /// Fold the displayed value into memory with checked subtraction.
    pub fn memory_sub(&mut self) -> (r: Result<(), CommandError>)
        requires
            old(self).wf(),
        ensures
            final(self).wf(),
            final(self)@.state == old(self)@.state,
            memory_step(old(self)@, final(self)@, Operator::Subtraction, r),
    {
        self.memory_apply(Operator::Subtraction)
    }

    fn memory_apply(&mut self, operator: Operator) -> (r: Result<(), CommandError>)
        requires
            old(self).wf(),
        ensures
            final(self).wf(),
            final(self)@.state == old(self)@.state,
            memory_step(old(self)@, final(self)@, operator, r),
    {
        let current = self.current_operand_to_dec();
        match operator.apply(current, Some(self.memory)) {
            Ok(value) => {
                let ghost out = Result::<Dec, CommandError>::Ok(value);
                proof {
                    crate::operator::lemma_apply_ok_in_range(
                        operator,
                        current,
                        Some(old(self)@.memory),
                        value,
                    );
                    assert(apply_rel(operator, current, Some(old(self)@.memory), out));
                }
                self.memory = value;
                Ok(())
            },
            Err(e) => {
                let ghost out = Result::<Dec, CommandError>::Err(e);
                proof {
                    assert(apply_rel(operator, current, Some(old(self)@.memory), out));
                }
                Err(e)
            },
        }
    }

    /// Memory recall with toggle semantics: if the display already shows the
    /// memory value, the memory is cleared to zero instead; otherwise the
    /// memory value is placed into the active slot.
    pub fn memory_mrc(&mut self) -> (r: Result<(), CommandError>)
        requires
            old(self).wf(),
        ensures
            final(self).wf(),
            r is Ok,
            ({
                let cur = to_dec_spec(old(self)@.state.active_operand());
                if cur.scaled() == old(self)@.memory.scaled() {
                    final(self)@.memory == Dec::zero_spec() && final(self)@.state == old(
                        self,
                    )@.state
                } else {
                    final(self)@.memory == old(self)@.memory && set_operand_step(
                        old(self)@.state,
                        final(self)@.state,
                        old(self)@.memory,
                        Result::<(), CommandError>::Ok(()),
                    )
                }
            }),
    {
        let current = self.current_operand_to_dec();
        if dec_eq(&current, &self.memory) {
            self.memory = Dec::zero();
            return Ok(());
        }
        let memory = self.memory;
        match self.set_current_operand(memory) {
            Ok(()) => Ok(()),
            Err(_) => unreached(),
        }
    }

    /// Place π into the active slot.
    pub fn pi(&mut self)
        requires
            old(self).wf(),
        ensures
            final(self).wf(),
            final(self)@.memory == old(self)@.memory,
            set_operand_step(
                old(self)@.state,
                final(self)@.state,
                Dec::pi_spec(),
                Result::<(), CommandError>::Ok(()),
            ),
    {
        let value = Dec::pi();
        proof {
            crate::dec::lemma_pow10_28();
        }
        match self.set_current_operand(value) {
            Ok(()) => (),
            Err(_) => unreached(),
        }
    }

    /// Place Euler's number into the active slot.
    pub fn eulers_number(&mut self)
        requires
            old(self).wf(),
        ensures
            final(self).wf(),
            final(self)@.memory == old(self)@.memory,
            set_operand_step(
                old(self)@.state,
                final(self)@.state,
                Dec::eulers_spec(),
                Result::<(), CommandError>::Ok(()),
            ),
    {
        let value = Dec::eulers();
        proof {
            crate::dec::lemma_pow10_28();
        }
        match self.set_current_operand(value) {
            Ok(()) => (),
            Err(_) => unreached(),
        }
    }

    /// Restart from scratch: initial phase, memory kept.
    pub fn erase_all(&mut self)
        requires
            old(self).wf(),
        ensures
            final(self).wf(),
            final(self)@.memory == old(self)@.memory,
            final(self)@.state == StateV::ReadingLeftOrOperator(empty_operand(false)),
    {
        self.state = State::begin();
    }

    /// One erase step on the operand being edited; the transient and result
    /// phases restart instead.
    pub fn erase(&mut self)
        requires
            old(self).wf(),
        ensures
            final(self).wf(),
            final(self)@.memory == old(self)@.memory,
            erase_step(old(self)@.state, final(self)@.state),
    {
        let st = take_state(&mut self.state);
        match st {
            State::ReadingLeftOrOperator(mut operand) => {
                operand.send_erase();
                self.state = State::ReadingLeftOrOperator(operand);
            },
            State::ReadingRight { left: _, operator: _ } => {
                self.state = State::begin();
            },
            State::ReadingRightOrNextAction { left, operator, mut right } => {
                right.send_erase();
                self.state = State::ReadingRightOrNextAction { left, operator, right };
            },
            State::Result(_) => {
                self.state = State::begin();
            },
        }
    }
}

/// What `checked_percent` promises of `number * percent / 100`: the outcome
/// chains the checked-division relation of `(number, 100)` with the
/// checked-multiplication relation of the quotient and `percent`. Division
/// by the nonzero constant cannot fail, so a failure is an `Overflow` of the
/// multiplication.
pub open spec fn percent_rel(number: Dec, percent: Dec, r: Result<Dec, CommandError>) -> bool {
    let hundred = Dec { mant: 100, scale: 0, neg: false };
    match r {
        Ok(p) => exists|q: Dec|
            #[trigger] crate::dec::div_rel(number, hundred, Some(q)) && crate::dec::mul_rel(
                q,
                percent,
                Some(p),
            ),
        Err(e) => e == CommandError::Overflow && exists|q: Dec|
            #[trigger] crate::dec::div_rel(number, hundred, Some(q)) && crate::dec::mul_rel(
                q,
                percent,
                Option::<Dec>::None,
            ),
    }
}

/// One percent step of `number`, scaled by `percent`: `(number / 100) * percent`
/// with checked decimal arithmetic.
fn checked_percent(number: Dec, percent: Dec) -> (r: Result<Dec, CommandError>)
    requires
        number.valid(),
        percent.valid(),
    ensures
        percent_rel(number, percent, r),
{
    let hundred = Dec { mant: 100, scale: 0, neg: false };
    let quotient = match crate::dec::dec_checked_div(&number, &hundred) {
        Some(q) => q,
        None => {
            // Division by the hundred constant cannot overflow: the dividend's
            // magnitude is far below a hundred times the 96-bit ceiling.
            proof {
                crate::dec::lemma_scaled_magnitude(number);
                crate::dec::lemma_pow10_28();
                assert(iabs(hundred.scaled()) == 100 * pow10(SCALE_LIMIT as nat));
                assert((MANT_LIMIT - 2) * (100 * pow10(SCALE_LIMIT as nat)) >= MANT_LIMIT * pow10(
                    SCALE_LIMIT as nat,
                )) by (nonlinear_arith)
                    requires
                        pow10(SCALE_LIMIT as nat) >= 1,
                        MANT_LIMIT == 79228162514264337593543950336,
                ;
            }
            unreached()
        },
    };
    match crate::dec::dec_checked_mul(&quotient, &percent) {
        Some(p) => Ok(p),
        None => Err(CommandError::Overflow),
    }
}

/// How the percentage command combines the left value with the computed
/// percent step, per pending operator: folded in for addition and
/// subtraction, taken as the result itself for multiplication.
pub open spec fn percent_combine_rel(op: Operator, l: Dec, p: Dec, raw: Dec) -> bool {
    match op {
        Operator::Addition => crate::dec::add_rel(l, p, Some(raw)),
        Operator::Subtraction => crate::dec::sub_rel(l, p, Some(raw)),
        _ => raw == p,
    }
}

/// The fold of the left value with the percent step overflowed.
pub open spec fn percent_combine_overflow(op: Operator, l: Dec, p: Dec) -> bool {
    match op {
        Operator::Addition => crate::dec::add_rel(l, p, Option::<Dec>::None),
        Operator::Subtraction => crate::dec::sub_rel(l, p, Option::<Dec>::None),
        _ => false,
    }
}

/// The shown value is the normalized form of the raw computed one.
pub open spec fn shown_for(raw: Dec, d: Dec) -> bool {
    d.valid() && d.is_normal() && d.scaled() == raw.scaled()
}

/// The transition relation of `percentage`: only the phase with a pending
/// addition, subtraction or multiplication computes; everything else is a
/// no-op. On success the machine shows the normalized combination of the
/// left value with the percent step `left * right / 100`, chained through
/// the checked-arithmetic relations; on failure the error is surfaced and
/// the state kept.
pub open spec fn percentage_step(
    pre: StateV,
    post: StateV,
    r: Result<(), CommandError>,
) -> bool {
    match pre {
        StateV::ReadingRightOrNextAction { left, operator, right } => {
            if operator == Operator::Addition || operator == Operator::Subtraction || operator
                == Operator::Multiplication {
                let l = to_dec_spec(left);
                let rt = to_dec_spec(right);
                match r {
                    Ok(_) => exists|p: Dec, raw: Dec, d: Dec|
                        {
                            &&& #[trigger] percent_rel(l, rt, Ok(p))
                            &&& #[trigger] percent_combine_rel(operator, l, p, raw)
                            &&& #[trigger] shown_for(raw, d)
                            &&& d.in_buffer_range()
                            &&& post == StateV::Result(result_operand(d))
                        },
                    Err(CommandError::Overflow) => post == pre && ({
                        ||| percent_rel(l, rt, Err(CommandError::Overflow))
                        ||| exists|p: Dec|
                            #[trigger] percent_rel(l, rt, Ok(p)) && percent_combine_overflow(
                                operator,
                                l,
                                p,
                            )
                    }),
                    Err(CommandError::IncorrectOperand(x)) => post == pre && exists|p: Dec, raw: Dec|
                        {
                            &&& #[trigger] percent_rel(l, rt, Ok(p))
                            &&& #[trigger] percent_combine_rel(operator, l, p, raw)
                            &&& shown_for(raw, x)
                            &&& !x.in_buffer_range()
                        },
                    Err(_) => false,
                }
            } else {
                r is Ok && post == pre
            }
        },
        _ => r is Ok && post == pre,
    }
}

impl Calculator {
    /// The percentage command: with a pending `+` or `-` the displayed right
    /// operand is read as a percentage of the left one and folded in; with a
    /// pending `*` the percentage itself becomes the result; any other phase
    /// or operator leaves the machine untouched.
    pub fn percentage(&mut self) -> (r: Result<(), CommandError>)
        requires
            old(self).wf(),
        ensures
            final(self).wf(),
            final(self)@.memory == old(self)@.memory,
            percentage_step(old(self)@.state, final(self)@.state, r),
    {
        let st = take_state(&mut self.state);
        match st {
            State::ReadingRightOrNextAction { left, operator, right } => {
                let is_computing = match operator {
                    Operator::Addition => true,
                    Operator::Subtraction => true,
                    Operator::Multiplication => true,
                    _ => false,
                };
                if !is_computing {
                    self.state = State::ReadingRightOrNextAction { left, operator, right };
                    return Ok(());
                }
                let left_dec = match left.to_dec() {
                    Ok(d) => d,
                    Err(_) => unreached(),
                };
                let right_dec = match right.to_dec() {
                    Ok(d) => d,
                    Err(_) => unreached(),
                };
                let percent = match checked_percent(left_dec, right_dec) {
                    Ok(p) => p,
                    Err(e) => {
                        self.state = State::ReadingRightOrNextAction { left, operator, right };
                        return Err(e);
                    },
                };
                let raw = match operator {
                    Operator::Addition => {
                        match crate::dec::dec_checked_add(&left_dec, &percent) {
                            Some(v) => v,
                            None => {
                                proof {
                                    assert(percent_combine_overflow(
                                        operator,
                                        left_dec,
                                        percent,
                                    ));
                                }
                                self.state = State::ReadingRightOrNextAction {
                                    left,
                                    operator,
                                    right,
                                };
                                return Err(CommandError::Overflow);
                            },
                        }
                    },
                    Operator::Subtraction => {
                        match crate::dec::dec_checked_sub(&left_dec, &percent) {
                            Some(v) => v,
                            None => {
                                proof {
                                    assert(percent_combine_overflow(
                                        operator,
                                        left_dec,
                                        percent,
                                    ));
                                }
                                self.state = State::ReadingRightOrNextAction {
                                    left,
                                    operator,
                                    right,
                                };
                                return Err(CommandError::Overflow);
                            },
                        }
                    },
                    _ => percent,
                };
                proof {
                    assert(percent_combine_rel(operator, left_dec, percent, raw));
                }
                let value = crate::dec::normalize(&raw);
                let mut result = match Operand::try_from(&value) {
                    Ok(o) => o,
                    Err(e) => {
                        proof {
                            assert(shown_for(raw, value));
                        }
                        self.state = State::ReadingRightOrNextAction { left, operator, right };
                        return Err(e);
                    },
                };
                result.set_should_reset_on_clear(true);
                proof {
                    assert(shown_for(raw, value));
                }
                self.state = State::Result(result);
                Ok(())
            },
            other => {
                self.state = other;
                Ok(())
            },
        }
    }
}

/// Law: the displayed content survives storing its own value back through
/// `set_current_operand` — for an operand typed within the display capacity
/// whose point (if any) sits between digits, laying out `to_dec_spec` of it
/// again renders and displays the very same strings.
pub proof fn lemma_display_round_trip(o: OperandV)
    requires
        o.wf(),
        o.digits.len() <= crate::operand::BUFFER_SIZE,
        !o.dot_at_end(),
    ensures
        render_spec(result_operand(to_dec_spec(o))) == render_spec(o),
        crate::operand::display_spec(result_operand(to_dec_spec(o)))
            == crate::operand::display_spec(o),
{
    crate::operand::lemma_operand_value_round_trip(o);
    let laid = result_operand(to_dec_spec(o));
    assert(laid.digits == o.digits);
    assert(laid.dot_after == o.dot_after);
    assert(laid.neg == o.neg);
    match o.dot_after {
        None => {
            assert(render_spec(laid) =~= render_spec(o));
        },
        Some(p) => {
            assert(render_spec(laid) =~= render_spec(o));
        },
    }
    assert(crate::operand::display_spec(laid) =~= crate::operand::display_spec(o));
}

/// The transition relation of the memory fold: the displayed value and the
/// old memory go through the evaluator, and on success the memory holds the
/// outcome; the interaction state never moves.
pub open spec fn memory_step(
    pre: CalcV,
    post: CalcV,
    operator: Operator,
    r: Result<(), CommandError>,
) -> bool {
    exists|out: Result<Dec, CommandError>|
        #[trigger] apply_rel(
            operator,
            to_dec_spec(pre.state.active_operand()),
            Some(pre.memory),
            out,
        ) && (match out {
            Ok(d) => r is Ok && post.memory == d,
            Err(e) => r == Result::<(), CommandError>::Err(e) && post.memory == pre.memory,
        })
}

} // verus!
