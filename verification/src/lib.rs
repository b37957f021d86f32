//! A reverse-Polish-notation calculator core: a token parser and a
//! stack/register evaluation engine.
//!
//! The engine itself performs no floating-point arithmetic. A numeric value
//! is carried as plain data prepared by the host (its bit pattern, its
//! truncation to a register key, and its decimal rendering), and an
//! arithmetic reduction hands the two operands back to the host, which
//! computes the combined value and pushes it.

pub mod engine;
pub mod op;
pub mod text;

pub use engine::Env;
pub use engine::Outcome;
pub use op::Number;
pub use op::Op;
pub use op::ParseError;
pub use op::parse;
