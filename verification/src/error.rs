//! The planner's error type.

use vstd::prelude::*;

use crate::valid::CauseV;
use crate::valid::ValidationError;

verus! {

/// What went wrong while planning: a blueprint fault, a syntax fault from
/// the document parser, or a fault while building the plan.
#[derive(Debug)]
pub enum Error {
    Blueprint(String),
    Parse(String),
    Plan(ValidationError<String>),
}

/// The view of an [`Error`].
#[verifier::ext_equal]
pub enum ErrorV {
    Blueprint(Seq<char>),
    Parse(Seq<char>),
    Plan(Seq<CauseV<String>>),
}

impl View for Error {
    type V = ErrorV;

    open spec fn view(&self) -> ErrorV {
        match self {
            Error::Blueprint(s) => ErrorV::Blueprint(s@),
            Error::Parse(s) => ErrorV::Parse(s@),
            Error::Plan(e) => ErrorV::Plan(e@),
        }
    }
}

/// An [`ErrorV`] that carries exactly one plan cause with message `msg` and
/// no trace.
pub open spec fn is_plan_message(e: ErrorV, msg: Seq<char>) -> bool {
    &&& e matches ErrorV::Plan(cs)
    &&& e->Plan_0.len() == 1
    &&& e->Plan_0[0].message@ == msg
    &&& e->Plan_0[0].trace.len() == 0
}

impl Error {
    /// A plan error with the single cause `msg`.
    pub fn plan(msg: &str) -> (r: Error)
        ensures
            is_plan_message(r@, msg@),
    {
        Error::Plan(ValidationError::new(String::from_str(msg)))
    }
}


/// The one-line text of an error: the message of a blueprint or parse
/// fault, or the first cause of a plan fault.
pub open spec fn error_text(e: ErrorV) -> Seq<char> {
    match e {
        ErrorV::Blueprint(s) => s,
        ErrorV::Parse(s) => s,
        ErrorV::Plan(cs) => if cs.len() > 0 {
            cs[0].message@
        } else {
            Seq::<char>::empty()
        },
    }
}

impl Error {
    /// The error as one line of text.
    pub fn to_text(self) -> (r: String)
        ensures
            r@ == error_text(self@),
    {
        match self {
            Error::Blueprint(s) => s,
            Error::Parse(s) => s,
            Error::Plan(e) => {
                let causes = e.as_vec();
                if causes.len() > 0 {
                    proof {
                        assert(crate::valid::causes_view(causes@)[0] == causes@[0]@);
                    }
                    causes[0].message.clone()
                } else {
                    String::new()
                }
            },
        }
    }
}

} // verus!
