use vstd::prelude::*;

verus! {

/// std's `fmt::Error`, carried opaquely inside `TemplateError::StdErr`; nothing is claimed of it.
#[verifier::external_type_specification]
#[verifier::external_body]
pub struct ExFmtError(std::fmt::Error);

/// The errors of the template engine.
#[derive(Debug)]
pub enum TemplateError {
    /// A formatting error.
    StdErr(std::fmt::Error),
    /// A general error, with its message.
    GenericError(String),
    /// Something is registered already or is missing, with its name.
    ExistsError(String),
    /// A syntax error in an expression, with its message.
    SyntaxError(String),
    /// A check on primitive arguments failed: what was checked, and how.
    CheckError(String, String),
}

/// The result type of the template engine.
pub type TmplResult<T> = Result<T, TemplateError>;

impl vstd::std_specs::convert::FromSpecImpl<std::fmt::Error> for TemplateError {
    open spec fn obeys_from_spec() -> bool {
        true
    }

    open spec fn from_spec(v: std::fmt::Error) -> Self {
        TemplateError::StdErr(v)
    }
}

impl From<std::fmt::Error> for TemplateError {
    fn from(value: std::fmt::Error) -> (r: Self) {
        TemplateError::StdErr(value)
    }
}

} // verus!
