//! The stored rows, the answers and the requests of the API.
use vstd::prelude::*;

verus! {

// ── Stored rows ──────────────────────────────────────────────────────────────

/// A bearer token: one per player, plus the admins.
#[derive(Debug, Clone)]
pub struct TokenRow {
    pub id: i64,
    pub token: String,
    pub name: String,
    pub is_admin: i64,
    pub created_at: String,
}

impl TokenRow {
    /// The stored flag is an integer; any non-zero value marks an admin.
    pub fn is_admin(&self) -> (b: bool)
        ensures
            b == (self.is_admin != 0),
    {
        self.is_admin != 0
    }
}

/// A game as read back from the store, with both players' names joined in.
#[derive(Debug)]
pub struct GameRow {
    pub id: i64,
    pub tournament_id: i64,
    pub reporter_id: i64,
    pub reporter_name: String,
    pub opponent_id: i64,
    pub opponent_name: String,
    pub reporter_game_wins: i64,
    pub opponent_game_wins: i64,
    pub game_draws: i64,
    pub status: String,
    pub reported_at: String,
    pub confirmed_at: Option<String>,
}

// ── Answers ──────────────────────────────────────────────────────────────────

#[derive(Debug)]
pub struct Tournament {
    pub id: i64,
    pub name: String,
    pub status: String,
    pub started_at: String,
    pub archived_at: Option<String>,
}

#[derive(Debug, Clone)]
pub struct PlayerInfo {
    pub id: i64,
    pub name: String,
}

#[derive(Debug)]
pub struct PlayerWithToken {
    pub id: i64,
    pub name: String,
    pub token: String,
    pub created_at: String,
}

#[derive(Debug)]
pub struct GameResponse {
    pub id: i64,
    pub tournament_id: i64,
    pub reporter: PlayerInfo,
    pub opponent: PlayerInfo,
    pub reporter_game_wins: i64,
    pub opponent_game_wins: i64,
    pub game_draws: i64,
    pub match_result: String,
    pub status: String,
    pub reported_at: String,
    pub confirmed_at: Option<String>,
}

/// A player's line in the standings.  The two rates of the ranking
/// (match points per possible match point, games won per game played) are
/// ratios of the integer fields below.
#[derive(Debug)]
pub struct Standing {
    pub rank: usize,
    pub player_id: i64,
    pub player_name: String,
    pub match_wins: i64,
    pub match_draws: i64,
    pub match_losses: i64,
    pub total_matches: i64,
    pub match_points: i64,
    pub game_wins: i64,
    pub game_losses: i64,
    pub game_draws_count: i64,
    pub total_games: i64,
}

/// Who won the match, told from the reporter's side: whoever won more games.
pub open spec fn match_result_text(reporter_game_wins: int, opponent_game_wins: int) -> Seq<
    char,
> {
    if reporter_game_wins > opponent_game_wins {
        "reporter_win"@
    } else if reporter_game_wins < opponent_game_wins {
        "opponent_win"@
    } else {
        "draw"@
    }
}

/// What a response says of the row it was made from.
pub open spec fn response_of_row(resp: GameResponse, r: GameRow) -> bool {
    &&& resp.id == r.id
    &&& resp.tournament_id == r.tournament_id
    &&& resp.reporter.id == r.reporter_id
    &&& resp.reporter.name == r.reporter_name
    &&& resp.opponent.id == r.opponent_id
    &&& resp.opponent.name == r.opponent_name
    &&& resp.reporter_game_wins == r.reporter_game_wins
    &&& resp.opponent_game_wins == r.opponent_game_wins
    &&& resp.game_draws == r.game_draws
    &&& resp.match_result@ == match_result_text(
        r.reporter_game_wins as int,
        r.opponent_game_wins as int,
    )
    &&& resp.status == r.status
    &&& resp.reported_at == r.reported_at
    &&& resp.confirmed_at == r.confirmed_at
}

impl From<GameRow> for GameResponse {
    /// Turns a stored row into the answer sent to clients, naming the match winner.
    fn from(r: GameRow) -> (resp: GameResponse)
        ensures
            response_of_row(resp, r),
    {
        let match_result = if r.reporter_game_wins > r.opponent_game_wins {
            String::from_str("reporter_win")
        } else if r.reporter_game_wins < r.opponent_game_wins {
            String::from_str("opponent_win")
        } else {
            String::from_str("draw")
        };
        GameResponse {
            id: r.id,
            tournament_id: r.tournament_id,
            reporter: PlayerInfo { id: r.reporter_id, name: r.reporter_name },
            opponent: PlayerInfo { id: r.opponent_id, name: r.opponent_name },
            reporter_game_wins: r.reporter_game_wins,
            opponent_game_wins: r.opponent_game_wins,
            game_draws: r.game_draws,
            match_result,
            status: r.status,
            reported_at: r.reported_at,
            confirmed_at: r.confirmed_at,
        }
    }
}

/// A response holds strings, which no spec expression can build, so the
/// conversion is described by the `ensures` of `from` above instead.
impl vstd::std_specs::convert::FromSpecImpl<GameRow> for GameResponse {
    open spec fn obeys_from_spec() -> bool {
        false
    }

    open spec fn from_spec(v: GameRow) -> GameResponse {
        arbitrary()
    }
}

} // verus!

verus! {

// ── Requests ─────────────────────────────────────────────────────────────────

#[derive(Debug)]
pub struct ReportGameRequest {
    pub opponent_id: i64,
    pub reporter_game_wins: i64,
    pub opponent_game_wins: i64,
    pub game_draws: i64,
}

#[derive(Debug)]
pub struct CreatePlayerRequest {
    pub name: String,
    pub token: Option<String>,
}

#[derive(Debug)]
pub struct CreateTournamentRequest {
    pub name: String,
}

#[derive(Debug)]
pub struct AddTournamentPlayerRequest {
    pub token_id: i64,
}

#[derive(Debug)]
pub struct AdminCreateGameRequest {
    pub tournament_id: Option<i64>,
    pub player1_id: i64,
    pub player2_id: i64,
    pub player1_game_wins: i64,
    pub player2_game_wins: i64,
    pub game_draws: i64,
}

} // verus!
