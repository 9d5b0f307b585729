//! The answer of the statistics endpoint when a request fails.
use vstd::prelude::*;
use crate::services::statistics::StatisticsError;

verus! {

/// The HTTP status and body that answer a failed statistics request: a malformed request
/// is `422 Unprocessable Entity` with its explanation, a database failure a plain
/// `500 Internal Server Error`.
pub fn to_http_error(error: StatisticsError) -> (r: (u16, String))
    ensures
        error matches StatisticsError::InvalidRequest(m) ==> r.0 == 422 && r.1@ == m@,
        error is Database ==> r.0 == 500 && r.1@ == "Internal Server Error"@,
{
    match error {
        StatisticsError::InvalidRequest(message) => (422, message),
        StatisticsError::Database(_) => (500, String::from_str("Internal Server Error")),
    }
}

} // verus!
