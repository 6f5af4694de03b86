//! The authors service: its query parameters, its errors, and the search
//! statement it builds from untrusted text.
use vstd::prelude::*;
use vstd::string::StringExecFns;
use crate::escape::escape_internal;
use crate::model::escaped;

verus! {

/// The criteria of a count of authors.
pub struct QueryParameters {
    pub country: String,
}

/// What a request to the service can fail with.
#[derive(Clone, Copy, Debug, PartialEq, Eq, Structural)]
pub enum CustomError {
    BadRequest,
    AuthorNotFound,
    InternalServerError,
    AuthorIsRepeats,
}

/// The HTTP status code that reports each error.
pub open spec fn status_of(e: CustomError) -> u16 {
    match e {
        CustomError::InternalServerError => 500,
        CustomError::BadRequest => 400,
        CustomError::AuthorNotFound => 404,
        CustomError::AuthorIsRepeats => 501,
    }
}

impl CustomError {
    /// The HTTP status code of the response that reports this error.
    pub fn status(&self) -> (r: u16)
        ensures
            r == status_of(*self),
    {
        match self {
            CustomError::InternalServerError => 500,
            CustomError::BadRequest => 400,
            CustomError::AuthorNotFound => 404,
            CustomError::AuthorIsRepeats => 501,
        }
    }

    /// The message carried in the body of that response.
    pub fn message(&self) -> (r: &'static str)
        ensures
            *self == CustomError::InternalServerError ==> r@ == "Internal Server Error"@,
            *self == CustomError::BadRequest ==> r@ == "Bad Request"@,
            *self == CustomError::AuthorNotFound ==> r@ == "Author Not Found"@,
            *self == CustomError::AuthorIsRepeats ==> r@ == "The author repeats"@,
    {
        match self {
            CustomError::InternalServerError => "Internal Server Error",
            CustomError::BadRequest => "Bad Request",
            CustomError::AuthorNotFound => "Author Not Found",
            CustomError::AuthorIsRepeats => "The author repeats",
        }
    }
}

/// The statement that looks authors up by a pattern on their name: the
/// pattern enters the text only as one escaped string literal.
pub fn search_statement(pattern: &str) -> (sql: String)
    ensures
        sql@ == "SELECT * FROM authors WHERE name LIKE "@ + escaped(pattern@, false),
{
    let mut sql = String::from_str("SELECT * FROM authors WHERE name LIKE ");
    let literal = escape_internal(pattern, false);
    sql.append(literal.as_str());
    sql
}

} // verus!
