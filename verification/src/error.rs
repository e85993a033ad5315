//! Why a request is refused, and how the refusal is worded.

use vstd::prelude::*;
use crate::text::concat;

verus! {

/// Why a request is refused.
#[derive(Debug)]
pub enum ApiError {
    Unauthorized(String),
    BadRequest(String),
    NotFound(String),
    Internal(String),
}

/// A refusal with its text.
pub enum ApiErrorView {
    Unauthorized(Seq<char>),
    BadRequest(Seq<char>),
    NotFound(Seq<char>),
    Internal(Seq<char>),
}

impl View for ApiError {
    type V = ApiErrorView;

    open spec fn view(&self) -> ApiErrorView {
        match self {
            ApiError::Unauthorized(text) => ApiErrorView::Unauthorized(text@),
            ApiError::BadRequest(text) => ApiErrorView::BadRequest(text@),
            ApiError::NotFound(text) => ApiErrorView::NotFound(text@),
            ApiError::Internal(text) => ApiErrorView::Internal(text@),
        }
    }
}

/// What a call came to: the view of its value, or the refusal.
pub open spec fn outcome<T: View>(res: Result<T, ApiError>) -> Result<T::V, ApiErrorView> {
    match res {
        Ok(value) => Ok(value@),
        Err(error) => Err(error@),
    }
}

impl ApiErrorView {
    /// The status of the answer to a refused request.
    pub open spec fn status(self) -> u16 {
        match self {
            ApiErrorView::Unauthorized(_) => 401,
            ApiErrorView::BadRequest(_) => 400,
            ApiErrorView::NotFound(_) => 404,
            ApiErrorView::Internal(_) => 500,
        }
    }

    /// The text in the answer to a refused request.
    pub open spec fn message(self) -> Seq<char> {
        match self {
            ApiErrorView::Unauthorized(text) => "unauthorized: "@ + text,
            ApiErrorView::BadRequest(text) => "bad request: "@ + text,
            ApiErrorView::NotFound(text) => "not found: "@ + text,
            ApiErrorView::Internal(text) => "internal error: "@ + text,
        }
    }
}

impl ApiError {
    /// The status of the answer to a refused request.
    pub fn status(&self) -> (code: u16)
        ensures
            code == self@.status(),
    {
        match self {
            ApiError::Unauthorized(_) => 401,
            ApiError::BadRequest(_) => 400,
            ApiError::NotFound(_) => 404,
            ApiError::Internal(_) => 500,
        }
    }

    /// The text in the answer to a refused request.
    pub fn message(&self) -> (text: String)
        ensures
            text@ == self@.message(),
    {
        match self {
            ApiError::Unauthorized(text) => concat("unauthorized: ", text),
            ApiError::BadRequest(text) => concat("bad request: ", text),
            ApiError::NotFound(text) => concat("not found: ", text),
            ApiError::Internal(text) => concat("internal error: ", text),
        }
    }

    /// A refusal of the request as `text`.
    pub fn bad_request(text: &str) -> (error: ApiError)
        ensures
            error@ == ApiErrorView::BadRequest(text@),
    {
        ApiError::BadRequest(text.to_owned())
    }

    /// A failure of the service, worded as `text`.
    pub fn internal(text: &str) -> (error: ApiError)
        ensures
            error@ == ApiErrorView::Internal(text@),
    {
        ApiError::Internal(text.to_owned())
    }

    /// A missing or refused identity, worded as `text`.
    pub fn unauthorized(text: &str) -> (error: ApiError)
        ensures
            error@ == ApiErrorView::Unauthorized(text@),
    {
        ApiError::Unauthorized(text.to_owned())
    }

    /// Something that is not there, worded as `text`.
    pub fn not_found(text: &str) -> (error: ApiError)
        ensures
            error@ == ApiErrorView::NotFound(text@),
    {
        ApiError::NotFound(text.to_owned())
    }

    /// A refusal of the request: what was wrong, and the `detail`.
    pub fn bad_request_with(what: &str, detail: &str) -> (error: ApiError)
        ensures
            error@ == ApiErrorView::BadRequest(what@ + detail@),
    {
        ApiError::BadRequest(concat(what, detail))
    }

    /// A failure of the service: what failed, and the `detail`.
    pub fn internal_with(what: &str, detail: &str) -> (error: ApiError)
        ensures
            error@ == ApiErrorView::Internal(what@ + detail@),
    {
        ApiError::Internal(concat(what, detail))
    }
}

/// The answer tells a caller what kind of refusal it is: the status decides the first words.
pub proof fn lemma_status_tells_kind(a: ApiErrorView, b: ApiErrorView)
    ensures
        a.status() == b.status() <==> ((a is Unauthorized && b is Unauthorized) || (a is BadRequest
            && b is BadRequest) || (a is NotFound && b is NotFound) || (a is Internal
            && b is Internal)),
{
}

/// A refusal is answered with the status of its kind and with the words of its kind in front of its
/// text.
pub proof fn lemma_answers(text: Seq<char>)
    ensures
        ApiErrorView::Unauthorized(text).status() == 401,
        ApiErrorView::BadRequest(text).status() == 400,
        ApiErrorView::NotFound(text).status() == 404,
        ApiErrorView::Internal(text).status() == 500,
        ApiErrorView::Unauthorized(text).message() == "unauthorized: "@ + text,
        ApiErrorView::BadRequest(text).message() == "bad request: "@ + text,
        ApiErrorView::NotFound(text).message() == "not found: "@ + text,
        ApiErrorView::Internal(text).message() == "internal error: "@ + text,
{
}

/// What is said of a refusal is said of its kind and its text.
pub proof fn lemma_refusal_view(error: ApiError)
    ensures
        match error {
            ApiError::Unauthorized(text) => error@ == ApiErrorView::Unauthorized(text@),
            ApiError::BadRequest(text) => error@ == ApiErrorView::BadRequest(text@),
            ApiError::NotFound(text) => error@ == ApiErrorView::NotFound(text@),
            ApiError::Internal(text) => error@ == ApiErrorView::Internal(text@),
        },
{
}

/// What is said of what a call came to is said of its value, or of its refusal.
pub proof fn lemma_outcome<T: View>(res: Result<T, ApiError>)
    ensures
        match res {
            Ok(value) => outcome(res) == Ok::<T::V, ApiErrorView>(value@),
            Err(error) => outcome(res) == Err::<T::V, ApiErrorView>(error@),
        },
{
}

} // verus!
