//! Front end and evaluator of a small expression language over numbers,
//! strings, booleans, colours and first-class functions.
//!
//! Source text flows through the lexer ([`scan`]), the parser
//! ([`parser`]), the type checker ([`tc`]) and the evaluator
//! ([`interpreter`]); [`pipeline`] runs all four. Every stage is
//! specified against a mathematical model of its input and output.
//!
//! Two theorems tie the stages together. [`soundness`] shows that a
//! program that the type checker accepts never stops on a value of the
//! wrong kind. [`parser::roundtrip`] shows that the text which
//! [`parser::printer`] writes for a parsed program parses back to the same
//! program and the same table of names.
//!
//! Numbers are IEEE-754 binary64 values held as bit patterns ([`number`]).
//! The library compares and negates them itself; arithmetic and the reading
//! of number literals are asked of a kernel that the caller supplies.

pub mod interpreter;
pub mod number;
pub mod parser;
pub mod pipeline;
pub mod scan;
pub mod soundness;
pub mod tc;
pub mod text;
pub mod utils;
