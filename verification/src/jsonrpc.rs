//! Errors as they are reported to the caller of a json-rpc method.

use vstd::prelude::*;

verus! {

/// The kind of an error.
#[derive(Debug, Clone, Copy, PartialEq, Eq, Structural)]
pub enum Code {
    InvalidParams,
    NotFound,
    AlreadyExists,
    InternalError,
}

/// An error of a json-rpc method.
#[derive(Debug, PartialEq, Eq)]
pub struct JsonRpcError {
    pub code: Code,
    pub message: String,
}

/// An error with its message as a sequence of characters.
#[verifier::ext_equal]
pub struct ErrorView {
    pub code: Code,
    pub message: Seq<char>,
}

impl View for JsonRpcError {
    type V = ErrorView;

    open spec fn view(&self) -> ErrorView {
        ErrorView { code: self.code, message: self.message@ }
    }
}

/// A result with the value and the error taken by their views.
pub open spec fn result_view<T: View>(res: Result<T, JsonRpcError>) -> Result<T::V, ErrorView> {
    match res {
        Ok(v) => Ok(v@),
        Err(e) => Err(e@),
    }
}

impl JsonRpcError {
    pub fn new(code: Code, message: String) -> (e: JsonRpcError)
        ensures
            e@ == (ErrorView { code, message: message@ }),
            e.code == code,
            e.message@ == message@,
    {
        JsonRpcError { code, message }
    }
}

/// What is said of a result is said of its value, or of the code and the message of its
/// error.
pub proof fn law_result_as_it_is<T: View>(res: Result<T, JsonRpcError>)
    ensures
        match res {
            Ok(v) => result_view(res) == Ok::<T::V, ErrorView>(v@),
            Err(e) => result_view(res) matches Err(err) && err.code == e.code && err.message
                == e.message@,
        },
{
}

} // verus!
