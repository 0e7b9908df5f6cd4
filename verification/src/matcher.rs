//! Compiled jq filters and what counts as a match.

use vstd::prelude::*;
use crate::engine::{compile_program, filter_may_give, outcome_view, program_error, run_program, Program, RunError};
use crate::value::{numbers_ok, Value};

verus! {

/// A compiled jq filter.
pub struct Matcher {
    program: Program,
}

impl Matcher {
    /// The source text the filter was compiled from.
    pub closed spec fn code(&self) -> Seq<char> {
        self.program.code()
    }

    /// Compiles a jq filter with the core, standard and JSON definitions.
    /// Fails exactly when the engine rejects the program, with its message.
    pub fn compile(code: &str) -> (r: Result<Matcher, String>)
        ensures
            r is Err <==> program_error(code@) is Some,
            r matches Err(e) ==> program_error(code@) == Some(e@),
            r matches Ok(m) ==> m.code() == code@,
    {
        match compile_program(code) {
            Ok(program) => Ok(Matcher { program }),
            Err(e) => Err(e),
        }
    }

    /// All outputs of the filter on one input, or the first error it
    /// raises, or the exit code it halts with: an outcome that the filter
    /// may give on that input (see `filter_may_give`).  The input's decimal
    /// numbers must be in number syntax, as the engine computes with them.
    ///
    /// Which outcome comes is not a function of the filter and the input (a
    /// filter may read the clock or the environment); the functions that
    /// use it (`run::process_results`, `preview::preview_step`) take the
    /// outcome as an argument and are exact for each outcome.
    pub fn apply(&self, input: Value) -> (r: Result<Vec<Value>, RunError>)
        requires
            numbers_ok(input),
        ensures
            filter_may_give(self.code(), input, outcome_view(r)),
    {
        run_program(&self.program, &input)
    }

    /// `apply` on a borrowed input.
    pub fn apply_to(&self, input: &Value) -> (r: Result<Vec<Value>, RunError>)
        requires
            numbers_ok(*input),
        ensures
            filter_may_give(self.code(), *input, outcome_view(r)),
    {
        run_program(&self.program, input)
    }
}

/// Whether a filter result counts as a match: everything except `null` and
/// `false`.
pub open spec fn is_match_spec(v: Value) -> bool {
    match v {
        Value::Null => false,
        Value::Bool(b) => b,
        _ => true,
    }
}

/// A filter result is a match unless it is `null` or `false`.
pub fn is_match(value: &Value) -> (r: bool)
    ensures
        r == is_match_spec(*value),
{
    match value {
        Value::Null => false,
        Value::Bool(b) => *b,
        _ => true,
    }
}

} // verus!
