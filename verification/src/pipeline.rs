//! The whole pipeline: source text to the values of its names.

use crate::interpreter::interpret;
use crate::interpreter::agrees;
use crate::interpreter::answers_all;
use crate::interpreter::run;
use crate::interpreter::InterpreterError;
use crate::interpreter::InterpreterState;
use crate::interpreter::NumericRequest;
use crate::interpreter::Oracle;
use crate::parser::grammar::parse_text;
use crate::parser::parse;
use crate::parser::ParserError;
use crate::soundness::checked_programs_run_well;
use crate::tc::check;
use crate::tc::check_program;
use crate::tc::variant::TypeCheckerError;
use crate::utils::Spanned;
use vstd::prelude::*;

verus! {

/// Why a source text has no values.
#[derive(Debug)]
pub enum Failure {
    /// The source is no program: every error found in it.
    Parse(Vec<ParserError>),
    /// The program has a type error: the first one.
    Type(Spanned<TypeCheckerError>),
    /// The run of the program stopped.
    Runtime(InterpreterError),
}

/// Whether `out` is what the front end gives for the source text `src`:
/// the parse errors of a source that is no program, the type error of a
/// program that has one, and for every other source neither of the two,
/// and the names of the program where it ran to its end.
pub open spec fn front_end(
    src: Seq<char>,
    out: Result<InterpreterState, Failure>,
) -> bool {
    match parse_text(src) {
        Err(errors) => out matches Err(Failure::Parse(found)) && found@ == errors,
        Ok((statements, names)) => match check_program(statements) {
            Err(error) => out matches Err(Failure::Type(found)) && found == error,
            Ok(_) => match out {
                Ok(state) => state.ident_map@ == names,
                Err(failure) => failure is Runtime,
            },
        },
    }
}

/// Whether `out` is what the run of the program that `src` writes gives
/// with the oracle `oracle`, where `src` is a program without a type
/// error: the state that the program ends in, or the error that stops it,
/// which can only be that calls are nested deeper than `depth`.
pub open spec fn back_end(
    src: Seq<char>,
    oracle: Oracle,
    depth: nat,
    out: Result<InterpreterState, Failure>,
) -> bool {
    match parse_text(src) {
        Err(_) => true,
        Ok((statements, names)) => check_program(statements) is Ok ==> match run(
            statements,
            oracle,
            depth,
        ) {
            Err(error) => {
                &&& error is CallDepthExceeded
                &&& out matches Err(Failure::Runtime(found))
                &&& found == error
            },
            Ok(state) => out matches Ok(ended) && ended@ == state,
        },
    }
}

/// Parses, checks and runs the source text `source`, with calls nested at
/// most `depth` deep and numbers computed by `kernel`, and returns the
/// state that the program ends in: its names and their values.
pub fn evaluate<K: Fn(NumericRequest) -> u64>(source: &str, kernel: &K, depth: usize) -> (out:
    Result<InterpreterState, Failure>)
    requires
        answers_all(*kernel),
    ensures
        front_end(source@, out),
        forall|oracle: Oracle| #[trigger]
            agrees(*kernel, oracle) ==> back_end(source@, oracle, depth as nat, out),
{
    let (statements, names) = match parse(source) {
        Err(errors) => {
            return Err(Failure::Parse(errors));
        },
        Ok(parsed) => parsed,
    };
    match check(&statements) {
        Err(error) => {
            return Err(Failure::Type(error));
        },
        Ok(_) => {},
    }
    let ghost program = crate::parser::ast::statement_models(statements@);
    let out = match interpret(statements, &names, kernel, depth) {
        Err(error) => Err(Failure::Runtime(error)),
        Ok(state) => Ok(state),
    };
    proof {
        assert forall|oracle: Oracle| #[trigger] agrees(*kernel, oracle) implies back_end(
            source@,
            oracle,
            depth as nat,
            out,
        ) by {
            checked_programs_run_well(program, oracle, depth as nat);
        }
    }
    out
}

} // verus!
