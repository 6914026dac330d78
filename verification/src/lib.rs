//! A tree-walking interpreter for a small dynamically typed scripting
//! language with variables, arithmetic, comparisons, logical operators,
//! blocks, conditionals, loops and print statements.
//!
//! Source text goes through three stages, each with its meaning stated as a
//! function on mathematical values and its code proved to compute it:
//!
//! - [`scanner`] turns text into tokens ([`scanner::scan`]),
//! - [`parser`] turns tokens into statements ([`parser::parse_program`]),
//! - [`interpret`] runs statements in an environment of nested scopes
//!   ([`interpret::run_all`]); [`expr`] evaluates their expressions
//!   ([`expr::eval`]).
//!
//! Nothing here prints: what a program prints and every diagnostic are
//! collected and handed back. Doubles are computed by a [`float::FloatUnit`]
//! that the caller brings. A loop goes round at most as often as the budget
//! of the interpreter allows.
//!
//! [`round_trip`] and [`shape`] hold what is proved of the stages together.
pub mod error;
pub mod expr;
pub mod float;
pub mod interpret;
pub mod parser;
pub mod round_trip;
pub mod scanner;
pub mod shape;
pub mod text;
pub mod token;
pub mod token_type;
