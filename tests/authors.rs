use sql_escape::{search_statement, CustomError, QueryParameters};

#[test]
fn search_statement_quotes_pattern() {
    assert_eq!(
        search_statement("O'Brien%"),
        "SELECT * FROM authors WHERE name LIKE 'O''Brien%'"
    );
}

#[test]
fn search_statement_with_backslash() {
    assert_eq!(
        search_statement("a\\%"),
        "SELECT * FROM authors WHERE name LIKE  E'a\\\\%'"
    );
}

#[test]
fn search_statement_injection() {
    assert_eq!(
        search_statement("x'; DELETE FROM authors; --"),
        "SELECT * FROM authors WHERE name LIKE 'x''; DELETE FROM authors; --'"
    );
}

#[test]
fn error_statuses() {
    assert_eq!(CustomError::InternalServerError.status(), 500);
    assert_eq!(CustomError::BadRequest.status(), 400);
    assert_eq!(CustomError::AuthorNotFound.status(), 404);
    assert_eq!(CustomError::AuthorIsRepeats.status(), 501);
}

#[test]
fn error_messages() {
    assert_eq!(CustomError::InternalServerError.message(), "Internal Server Error");
    assert_eq!(CustomError::BadRequest.message(), "Bad Request");
    assert_eq!(CustomError::AuthorNotFound.message(), "Author Not Found");
    assert_eq!(CustomError::AuthorIsRepeats.message(), "The author repeats");
}

#[test]
fn query_parameters_hold_country() {
    let q = QueryParameters { country: "Norway".to_string() };
    assert_eq!(q.country, "Norway");
}
