//! An infix arithmetic expression evaluator with exact decimal semantics:
//! expressions over integer and decimal literals, `+ - * / % **` and
//! parentheses (ASCII or CJK fullwidth) are tokenized, converted to postfix
//! by the shunting-yard algorithm, and evaluated with a value stack.

pub mod dec;
pub mod token;
pub mod tokenizer;
pub mod postfix;
pub mod eval;
pub mod laws;
