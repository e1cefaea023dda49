//! Infix to postfix conversion (shunting-yard) and postfix evaluation planning
//! over string tokens, with the operator and function registries they share.

pub mod text;
pub mod registry;
pub mod converter;
pub mod evaluator;
pub mod pipeline;

pub use converter::ReversePolishNotationConverter;
pub use evaluator::{plan, BinaryOperator, EvaluationError, Instruction, UnaryFunction};
