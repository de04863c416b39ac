//! The decisions of the public endpoints (and of the admin endpoints that
//! share them).
use vstd::prelude::*;

use crate::error::AppError;
use crate::handlers::admin::tournament_not_found_message;
use crate::models::Tournament;
use crate::text::text_around_number;

verus! {

/// The store's active tournament, which the request needs: none is answered
/// with "No active tournament" (404).
pub fn require_active_tournament(active: Option<Tournament>) -> (r: Result<Tournament, AppError>)
    ensures
        active is None ==> (r matches Err(AppError::NotFound(m)) && m@ == "No active tournament"@),
        active matches Some(t) ==> (r matches Ok(u) && u == t),
{
    match active {
        Some(t) => Ok(t),
        None => Err(AppError::NotFound(String::from_str("No active tournament"))),
    }
}

/// The store counts this many tournaments with id `id`: none is answered
/// with "Tournament {id} not found" (404).
pub fn ensure_tournament_exists(id: i64, count: i64) -> (r: Result<(), AppError>)
    ensures
        count == 0 ==> (r matches Err(AppError::NotFound(m)) && m@ == tournament_not_found_message(
            id as int,
        )),
        count != 0 ==> r is Ok,
{
    if count == 0 {
        return Err(AppError::NotFound(text_around_number("Tournament ", id, " not found")));
    }
    Ok(())
}

} // verus!
