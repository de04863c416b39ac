//! The rules of the endpoints: score validation, the game that gets
//! recorded, and (in the submodules) the decision chains of each endpoint.

pub mod admin;
pub mod player;
pub mod public;

use vstd::prelude::*;

use crate::error::AppError;
use crate::models::{GameResponse, GameRow, response_of_row};

pub use crate::standings::compute_standings;

verus! {

/// The scores a two-out-of-three match can end with: someone won two games
/// (2-0 or 2-1, possibly with one drawn game), or all three games were played
/// out without a player reaching two wins.
pub open spec fn valid_match_score(reporter_wins: int, opponent_wins: int, draws: int) -> bool {
    ||| (reporter_wins == 2 && opponent_wins == 0 && draws == 0)
    ||| (reporter_wins == 2 && opponent_wins == 0 && draws == 1)
    ||| (reporter_wins == 2 && opponent_wins == 1 && draws == 0)
    ||| (reporter_wins == 0 && opponent_wins == 2 && draws == 0)
    ||| (reporter_wins == 0 && opponent_wins == 2 && draws == 1)
    ||| (reporter_wins == 1 && opponent_wins == 2 && draws == 0)
    ||| (reporter_wins == 1 && opponent_wins == 1 && draws == 1)
    ||| (reporter_wins == 1 && opponent_wins == 0 && draws == 2)
    ||| (reporter_wins == 0 && opponent_wins == 1 && draws == 2)
    ||| (reporter_wins == 0 && opponent_wins == 0 && draws == 3)
}

/// The text of the error that refuses an invalid score.
pub open spec fn invalid_score_message() -> Seq<char> {
    "Invalid match score. Valid results: 2-0, 2-1, 0-2, 1-2, or played-out draw (3 total games)."@
}

/// Checks that a reported score is a possible result of a best-of-three match.
pub fn validate_match_score(reporter_wins: i64, opponent_wins: i64, draws: i64) -> (r: Result<
    (),
    AppError,
>)
    ensures
        r is Ok <==> valid_match_score(reporter_wins as int, opponent_wins as int, draws as int),
        r matches Err(e) ==> e matches AppError::BadRequest(m) && m@ == invalid_score_message(),
{
    let total: i128 = reporter_wins as i128 + opponent_wins as i128 + draws as i128;
    let valid = reporter_wins >= 0 && opponent_wins >= 0 && draws >= 0 && total >= 1 && total <= 3
        && reporter_wins <= 2 && opponent_wins <= 2 && (reporter_wins == 2 || opponent_wins == 2
        || total == 3);
    if !valid {
        return Err(
            AppError::BadRequest(
                String::from_str(
                    "Invalid match score. Valid results: 2-0, 2-1, 0-2, 1-2, or played-out draw (3 total games).",
                ),
            ),
        );
    }
    Ok(())
}

/// What was checked before a game is recorded: the membership counts the
/// store gave for both players, and, for reported games, the count of pending
/// games between them.
pub struct GameChecks {
    pub reporter_memberships: int,
    pub opponent_memberships: int,
    pub pending_between: Option<int>,
}

/// A game about to be recorded, as the store will hold it.
pub struct NewGameView {
    pub tournament_id: i64,
    pub reporter_id: i64,
    pub opponent_id: i64,
    pub reporter_game_wins: i64,
    pub opponent_game_wins: i64,
    pub game_draws: i64,
    /// Recorded as confirmed (admin-created) rather than pending (reported).
    pub confirmed: bool,
    pub checks: GameChecks,
}

/// A game may be recorded only between two different players, both in the
/// tournament, with a valid score; a reported (pending) game only when no
/// other pending game between the two exists.
pub open spec fn admissible_game(g: NewGameView) -> bool {
    &&& g.reporter_id != g.opponent_id
    &&& valid_match_score(
        g.reporter_game_wins as int,
        g.opponent_game_wins as int,
        g.game_draws as int,
    )
    &&& g.checks.reporter_memberships != 0
    &&& g.checks.opponent_memberships != 0
    &&& !g.confirmed ==> (g.checks.pending_between matches Some(p) && p <= 0)
}

/// A game that passed its flow's checks and is ready to be inserted.
pub struct NewGame {
    tournament_id: i64,
    reporter_id: i64,
    opponent_id: i64,
    reporter_game_wins: i64,
    opponent_game_wins: i64,
    game_draws: i64,
    confirmed: bool,
    checks: Ghost<GameChecks>,
}

impl View for NewGame {
    type V = NewGameView;

    closed spec fn view(&self) -> NewGameView {
        NewGameView {
            tournament_id: self.tournament_id,
            reporter_id: self.reporter_id,
            opponent_id: self.opponent_id,
            reporter_game_wins: self.reporter_game_wins,
            opponent_game_wins: self.opponent_game_wins,
            game_draws: self.game_draws,
            confirmed: self.confirmed,
            checks: self.checks@,
        }
    }
}

impl NewGame {
    pub(crate) fn new(v: Ghost<NewGameView>, tournament_id: i64, reporter_id: i64, opponent_id: i64,
        reporter_game_wins: i64, opponent_game_wins: i64, game_draws: i64, confirmed: bool) -> (g: NewGame)
        requires
            v@.tournament_id == tournament_id,
            v@.reporter_id == reporter_id,
            v@.opponent_id == opponent_id,
            v@.reporter_game_wins == reporter_game_wins,
            v@.opponent_game_wins == opponent_game_wins,
            v@.game_draws == game_draws,
            v@.confirmed == confirmed,
        ensures
            g@ == v@,
    {
        NewGame {
            tournament_id,
            reporter_id,
            opponent_id,
            reporter_game_wins,
            opponent_game_wins,
            game_draws,
            confirmed,
            checks: Ghost(v@.checks),
        }
    }

    pub fn tournament_id(&self) -> (r: i64)
        ensures
            r == self@.tournament_id,
    {
        self.tournament_id
    }

    pub fn reporter_id(&self) -> (r: i64)
        ensures
            r == self@.reporter_id,
    {
        self.reporter_id
    }

    pub fn opponent_id(&self) -> (r: i64)
        ensures
            r == self@.opponent_id,
    {
        self.opponent_id
    }

    pub fn reporter_game_wins(&self) -> (r: i64)
        ensures
            r == self@.reporter_game_wins,
    {
        self.reporter_game_wins
    }

    pub fn opponent_game_wins(&self) -> (r: i64)
        ensures
            r == self@.opponent_game_wins,
    {
        self.opponent_game_wins
    }

    pub fn game_draws(&self) -> (r: i64)
        ensures
            r == self@.game_draws,
    {
        self.game_draws
    }

    pub fn confirmed(&self) -> (r: bool)
        ensures
            r == self@.confirmed,
    {
        self.confirmed
    }
}

/// Turns stored rows into client answers, in order.
pub fn responses_from_rows(rows: Vec<GameRow>) -> (out: Vec<GameResponse>)
    ensures
        out.len() == rows.len(),
        forall|k: int| 0 <= k < rows.len() ==> response_of_row(#[trigger] out@[k], rows@[k]),
{
    let mut rows = rows;
    let ghost orig = rows@;
    let mut stack: Vec<GameRow> = Vec::new();
    while rows.len() > 0
        invariant
            rows.len() + stack.len() == orig.len(),
            forall|k: int| 0 <= k < rows.len() ==> #[trigger] rows@[k] == orig[k],
            forall|k: int|
                0 <= k < stack.len() ==> #[trigger] stack@[k] == orig[orig.len() - 1 - k],
        decreases rows.len(),
    {
        let row = rows.pop().unwrap();
        stack.push(row);
    }
    let mut out: Vec<GameResponse> = Vec::new();
    while stack.len() > 0
        invariant
            out.len() + stack.len() == orig.len(),
            forall|k: int|
                0 <= k < stack.len() ==> #[trigger] stack@[k] == orig[orig.len() - 1 - k],
            forall|k: int| 0 <= k < out.len() ==> response_of_row(#[trigger] out@[k], orig[k]),
        decreases stack.len(),
    {
        let row = stack.pop().unwrap();
        out.push(GameResponse::from(row));
    }
    out
}

} // verus!
