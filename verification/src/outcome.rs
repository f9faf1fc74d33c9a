//! The two-level outcome of running one lint.
//!
//! The outer level is an *execution failure*: an unexpected runtime
//! problem (an unreadable tree, a failed delegate subsystem) that aborts
//! the whole run.  Nested inside the success case is the *check result*:
//! either the check passed, or it evaluated successfully and found a real
//! violation.  A rule that cannot even evaluate is a different failure
//! class from a rule that found a defect.

use vstd::prelude::*;

verus! {

/// A lint check has failed: the target is non-conforming.
#[derive(Debug)]
pub struct LintError {
    pub msg: Vec<u8>,
}

impl LintError {
    pub fn new(msg: Vec<u8>) -> (r: Self)
        ensures
            r.msg == msg,
    {
        LintError { msg }
    }
}

/// An unexpected runtime problem that prevents evaluation.
#[derive(Debug)]
pub struct RuntimeError {
    pub msg: Vec<u8>,
}

/// The outer error is for unexpected fatal runtime problems; the inner
/// error is for the lint failing in an expected way.
pub type LintResult = Result<Result<(), LintError>, RuntimeError>;

/// Mathematical mirror of a [`LintResult`].
#[verifier::ext_equal]
pub enum OutcomeV {
    /// The check evaluated and the target conforms.
    Pass,
    /// The check evaluated and found a violation, with its message.
    Fail(Seq<u8>),
    /// The check could not be evaluated, with the runtime error message.
    Error(Seq<u8>),
}

pub open spec fn outcome_of(r: LintResult) -> OutcomeV {
    match r {
        Ok(Ok(())) => OutcomeV::Pass,
        Ok(Err(e)) => OutcomeV::Fail(e.msg@),
        Err(e) => OutcomeV::Error(e.msg@),
    }
}

/// Everything is OK - no runtime error, and the targeted check passed.
pub fn lint_ok() -> (r: LintResult)
    ensures
        outcome_of(r) == OutcomeV::Pass,
{
    Ok(Ok(()))
}

/// We successfully found a lint failure.
pub fn lint_err(msg: Vec<u8>) -> (r: LintResult)
    ensures
        outcome_of(r) == OutcomeV::Fail(msg@),
{
    Ok(Err(LintError::new(msg)))
}

} // verus!
