//! Core of a desk calculator: a bounded operand buffer, checked decimal
//! arithmetic carried out by `rust_decimal`, and the key-by-key input state
//! machine that ties them together.

pub mod calculator;
pub mod dec;
pub mod error;
pub mod operand;
pub mod operator;
