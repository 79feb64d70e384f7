//! The HTTP answer to a database error.

use vstd::prelude::*;

use crate::model::error::DbError;
use crate::node::dto::{ErrorResponse, ErrorView};
use crate::text;

verus! {

/// A consensus error that says that another node leads.
pub open spec fn says_not_leader(message: Seq<char>) -> bool {
    text::occurs(message, "not leader"@) || text::occurs(message, "forward"@)
}

/// The answer to a database error.
///
/// | error                          | status |
/// |--------------------------------|--------|
/// | not found                      | 404    |
/// | invalid input, serialization   | 400    |
/// | consensus, another node leads  | 307    |
/// | consensus, consistency         | 503    |
/// | network                        | 502    |
/// | everything else                | 500    |
pub open spec fn answer_to(err: DbError) -> ErrorView {
    match err {
        DbError::NotFound(m) => ErrorView::not_found(m@),
        DbError::InvalidInput(m) => ErrorView::bad_request(m@),
        DbError::SerializationError(m) => ErrorView::bad_request(m@),
        DbError::ConsensusError(m) => if says_not_leader(m@) {
            ErrorView::redirect(m@)
        } else {
            ErrorView::service_unavailable(m@)
        },
        DbError::ConsistencyError(m) => ErrorView::service_unavailable(m@),
        DbError::NetworkError(m) => ErrorView {
            status: 502,
            error_type: "network_error"@,
            reason: m@,
        },
        DbError::StorageError(m) => ErrorView::internal(m@),
        DbError::IndexError(m) => ErrorView::internal(m@),
        _ => ErrorView::internal(err.description()),
    }
}

/// Whether a consensus error says that another node leads.
pub fn is_not_leader(message: &str) -> (r: bool)
    ensures
        r == says_not_leader(message@),
{
    text::contains(message, "not leader") || text::contains(message, "forward")
}

/// The HTTP status and the response body for a database error.
pub fn db_error_to_response(err: DbError) -> (r: (u16, ErrorResponse))
    ensures
        r.1@ == answer_to(err),
        r.0 == r.1.status,
{
    let resp = match &err {
        DbError::NotFound(m) => ErrorResponse::not_found(m.as_str()),
        DbError::InvalidInput(m) => ErrorResponse::bad_request(m.as_str()),
        DbError::SerializationError(m) => ErrorResponse::bad_request(m.as_str()),
        DbError::ConsensusError(m) => {
            if is_not_leader(m.as_str()) {
                ErrorResponse::redirect(m.as_str())
            } else {
                ErrorResponse::service_unavailable(m.as_str())
            }
        },
        DbError::ConsistencyError(m) => ErrorResponse::service_unavailable(m.as_str()),
        DbError::NetworkError(m) => ErrorResponse::new(502, "network_error", m.as_str()),
        DbError::StorageError(m) => ErrorResponse::internal(m.as_str()),
        DbError::IndexError(m) => ErrorResponse::internal(m.as_str()),
        _ => ErrorResponse::internal(err.message().as_str()),
    };
    (resp.status, resp)
}

/// Every database error is answered with one of six statuses, none of them a
/// success.
pub proof fn errors_never_succeed(err: DbError)
    ensures
        set![307u16, 400u16, 404u16, 500u16, 502u16, 503u16].contains(answer_to(err).status),
        answer_to(err).status >= 300,
{
}

// ---------------------------------------------------------------------------
// Laws
// ---------------------------------------------------------------------------

/// Every error is answered with the status of its kind and with its cause; an error of the
/// consensus sends the client to the leader where another node leads.
pub proof fn errors_are_answered_by_kind(m: String, field: String, expected: String, got: String)
    ensures
        answer_to(DbError::NotFound(m)) == (ErrorView {
            status: 404,
            error_type: "not_found"@,
            reason: m@,
        }),
        answer_to(DbError::InvalidInput(m)) == (ErrorView {
            status: 400,
            error_type: "invalid_input"@,
            reason: m@,
        }),
        answer_to(DbError::SerializationError(m)) == (ErrorView {
            status: 400,
            error_type: "invalid_input"@,
            reason: m@,
        }),
        says_not_leader(m@) ==> answer_to(DbError::ConsensusError(m)) == (ErrorView {
            status: 307,
            error_type: "redirect"@,
            reason: m@,
        }),
        !says_not_leader(m@) ==> answer_to(DbError::ConsensusError(m)) == (ErrorView {
            status: 503,
            error_type: "service_unavailable"@,
            reason: m@,
        }),
        answer_to(DbError::ConsistencyError(m)) == (ErrorView {
            status: 503,
            error_type: "service_unavailable"@,
            reason: m@,
        }),
        answer_to(DbError::NetworkError(m)) == (ErrorView {
            status: 502,
            error_type: "network_error"@,
            reason: m@,
        }),
        answer_to(DbError::StorageError(m)) == (ErrorView {
            status: 500,
            error_type: "internal_error"@,
            reason: m@,
        }),
        answer_to(DbError::IndexError(m)) == (ErrorView {
            status: 500,
            error_type: "internal_error"@,
            reason: m@,
        }),
        answer_to(DbError::SnapshotError(m)) == (ErrorView {
            status: 500,
            error_type: "internal_error"@,
            reason: "snapshot error: "@ + m@,
        }),
        answer_to((DbError::SchemaConflict { field, expected, got })).status == 500,
        answer_to((DbError::SchemaConflict { field, expected, got })).reason
            == "schema conflict on field '"@ + field@ + "': expected "@ + expected@ + ", got "@
            + got@,
{
}

/// A message says that another node leads exactly where the words for it stand in it.
pub proof fn another_leader_is_told_in_words(a: Seq<char>, b: Seq<char>, m: Seq<char>)
    ensures
        says_not_leader(a + "not leader"@ + b),
        says_not_leader(a + "forward"@ + b),
        !text::occurs(m, "not leader"@) && !text::occurs(m, "forward"@) ==> !says_not_leader(m),
{
    let x = a + "not leader"@ + b;
    let y = a + "forward"@ + b;
    let at = a.len() as int;
    assert(x.subrange(at, at + "not leader"@.len()) =~= "not leader"@);
    assert(text::occurs_at(x, "not leader"@, at));
    assert(y.subrange(at, at + "forward"@.len()) =~= "forward"@);
    assert(text::occurs_at(y, "forward"@, at));
}

} // verus!
