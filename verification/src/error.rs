//! The closed set of failures the calculator core can report.

use crate::dec::Dec;
use crate::operand::{dec_chars, dec_to_chars};
use crate::operator::Operator;
use vstd::prelude::*;

verus! {

/// A typed failure of a calculator command. Each variant carries enough
/// context to render a message; none carries recovery state.
#[derive(Debug)]
pub enum CommandError {
    /// An operation failed with the carried message.
    OperationFailure(Operator, String),
    /// The decimal's integer part exceeds what the display buffer can show.
    OutOfBufferRange(Dec),
    /// An operator symbol that the calculator does not recognize.
    IncorrectOperation(String),
    /// The value cannot be laid out in the operand buffer.
    IncorrectOperand(Dec),
    /// A binary operator was evaluated without a second operand.
    OperandIsMissing,
    /// A textual operand could not be converted to a decimal.
    ParsingFailure,
    /// Checked arithmetic could not produce a representable exact value.
    Overflow,
}

/// Relies on `format!`'s concatenation: the pieces appear in order, with the
/// character vector collected into a string between the two literals.
#[verifier::external_body]
fn join_message(prefix: &str, value: &Vec<char>, suffix: &str) -> (r: String)
    ensures
        r@ == prefix@ + value@ + suffix@,
{
    let middle: String = value.iter().collect();
    format!("{}{}{}", prefix, middle, suffix)
}

impl CommandError {
    /// The human-readable message for this failure, with the offending value
    /// rendered into it where one is carried.
    pub fn to_string(&self) -> (r: String)
        requires
            self matches CommandError::OutOfBufferRange(d) ==> d.valid(),
            self matches CommandError::IncorrectOperand(d) ==> d.valid(),
        ensures
            self matches CommandError::OperationFailure(op, m) ==> r@ == m@,
            self matches CommandError::OutOfBufferRange(d) ==> r@ == "Number "@ + dec_chars(*d)
                + " is out of buffer range"@,
            self matches CommandError::IncorrectOperation(m) ==> r@ == m@,
            self matches CommandError::IncorrectOperand(d) ==> r@ == "Incorrect operand: "@
                + dec_chars(*d),
            self is OperandIsMissing ==> r@ == "Second operand is missing"@,
            self is ParsingFailure ==> r@ == ""@,
            self is Overflow ==> r@ == "Overflow"@,
    {
        match self {
            CommandError::OperationFailure(_, message) => message.clone(),
            CommandError::OutOfBufferRange(value) => {
                let rendered = dec_to_chars(value);
                join_message("Number ", &rendered, " is out of buffer range")
            },
            CommandError::IncorrectOperation(message) => message.clone(),
            CommandError::IncorrectOperand(value) => {
                let rendered = dec_to_chars(value);
                let message = join_message("Incorrect operand: ", &rendered, "");
                proof {
                    reveal_strlit("");
                    assert(message@ =~= "Incorrect operand: "@ + dec_chars(*value));
                }
                message
            },
            CommandError::OperandIsMissing => "Second operand is missing".to_owned(),
            CommandError::ParsingFailure => "".to_owned(),
            CommandError::Overflow => "Overflow".to_owned(),
        }
    }
}

} // verus!
