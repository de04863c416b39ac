//! The decisions of the player endpoints.
//!
//! Reporting a game is a chain of checks against the store; each stage below
//! takes the store's answer to its question and yields the next stage, the
//! final game to insert, or the error the request is answered with.
use vstd::prelude::*;

use crate::error::AppError;
use crate::handlers::admin::game_not_found_message;
use crate::handlers::{
    admissible_game, invalid_score_message, valid_match_score, validate_match_score, GameChecks,
    NewGame, NewGameView,
};
use crate::models::{GameResponse, GameRow, ReportGameRequest, Standing, Tournament};
use crate::text::{text_around_number, text_equals};
use crate::text::decimal;

verus! {

/// What a game report has established so far.
pub struct ReportView {
    pub reporter_id: i64,
    pub opponent_id: i64,
    pub reporter_game_wins: i64,
    pub opponent_game_wins: i64,
    pub game_draws: i64,
    /// The active tournament (once found).
    pub tournament_id: i64,
    /// How many memberships of the reporter in it the store counted (once asked).
    pub reporter_memberships: int,
    /// How many memberships of the opponent in it the store counted (once asked).
    pub opponent_memberships: int,
}

struct ReportState {
    reporter_id: i64,
    opponent_id: i64,
    reporter_game_wins: i64,
    opponent_game_wins: i64,
    game_draws: i64,
    tournament_id: i64,
    reporter_memberships: Ghost<int>,
    opponent_memberships: Ghost<int>,
}

impl View for ReportState {
    type V = ReportView;

    closed spec fn view(&self) -> ReportView {
        ReportView {
            reporter_id: self.reporter_id,
            opponent_id: self.opponent_id,
            reporter_game_wins: self.reporter_game_wins,
            opponent_game_wins: self.opponent_game_wins,
            game_draws: self.game_draws,
            tournament_id: self.tournament_id,
            reporter_memberships: self.reporter_memberships@,
            opponent_memberships: self.opponent_memberships@,
        }
    }
}

/// The opening checks of a report hold: the opponent is someone else and
/// the score is valid.
pub open spec fn report_opened(v: ReportView) -> bool {
    &&& v.reporter_id != v.opponent_id
    &&& valid_match_score(
        v.reporter_game_wins as int,
        v.opponent_game_wins as int,
        v.game_draws as int,
    )
}

pub open spec fn self_report_message() -> Seq<char> {
    "Cannot report a game against yourself"@
}

pub open spec fn no_active_tournament_message() -> Seq<char> {
    "No active tournament"@
}

pub open spec fn opponent_not_in_message() -> Seq<char> {
    "Opponent is not in the active tournament"@
}

pub open spec fn pending_exists_message() -> Seq<char> {
    "A pending game between these players already exists"@
}

/// A report that passed its opening checks; next, the active tournament.
pub struct ReportGame(ReportState);

/// A report in the active tournament; next, whether the reporter is in it.
pub struct ReportInTournament(ReportState);

/// A report whose reporter is in the tournament; next, whether the opponent is.
pub struct ReportReporterIn(ReportState);

/// A report whose players are both in the tournament; next, whether a
/// pending game between them already exists.
pub struct ReportPlayersIn(ReportState);

impl View for ReportGame {
    type V = ReportView;

    closed spec fn view(&self) -> ReportView {
        self.0@
    }
}

impl View for ReportInTournament {
    type V = ReportView;

    closed spec fn view(&self) -> ReportView {
        self.0@
    }
}

impl View for ReportReporterIn {
    type V = ReportView;

    closed spec fn view(&self) -> ReportView {
        self.0@
    }
}

impl View for ReportPlayersIn {
    type V = ReportView;

    closed spec fn view(&self) -> ReportView {
        self.0@
    }
}

impl ReportGame {
    #[verifier::type_invariant]
    spec fn inv(self) -> bool {
        report_opened(self.0@)
    }

    /// Opens the report that the player `reporter_id` makes: refused when it
    /// names the reporter as opponent, then when the score is invalid.
    pub fn start(reporter_id: i64, request: &ReportGameRequest) -> (r: Result<ReportGame, AppError>)
        ensures
            request.opponent_id == reporter_id ==> (r matches Err(AppError::BadRequest(m)) && m@
                == self_report_message()),
            request.opponent_id != reporter_id && !valid_match_score(
                request.reporter_game_wins as int,
                request.opponent_game_wins as int,
                request.game_draws as int,
            ) ==> (r matches Err(AppError::BadRequest(m)) && m@ == invalid_score_message()),
            request.opponent_id != reporter_id && valid_match_score(
                request.reporter_game_wins as int,
                request.opponent_game_wins as int,
                request.game_draws as int,
            ) ==> r is Ok,
            r matches Ok(s) ==> {
                &&& s@.reporter_id == reporter_id
                &&& s@.opponent_id == request.opponent_id
                &&& s@.reporter_game_wins == request.reporter_game_wins
                &&& s@.opponent_game_wins == request.opponent_game_wins
                &&& s@.game_draws == request.game_draws
                &&& report_opened(s@)
            },
    {
        if request.opponent_id == reporter_id {
            return Err(AppError::BadRequest(String::from_str("Cannot report a game against yourself")));
        }
        match validate_match_score(
            request.reporter_game_wins,
            request.opponent_game_wins,
            request.game_draws,
        ) {
            Err(e) => {
                return Err(e);
            },
            Ok(()) => {},
        }
        Ok(
            ReportGame(
                ReportState {
                    reporter_id,
                    opponent_id: request.opponent_id,
                    reporter_game_wins: request.reporter_game_wins,
                    opponent_game_wins: request.opponent_game_wins,
                    game_draws: request.game_draws,
                    tournament_id: 0,
                    reporter_memberships: Ghost(0),
                    opponent_memberships: Ghost(0),
                },
            ),
        )
    }

    /// The store's active tournament, if any: a report needs one.
    pub fn in_active_tournament(self, active: Option<Tournament>) -> (r: Result<
        ReportInTournament,
        AppError,
    >)
        ensures
            active is None ==> (r matches Err(AppError::BadRequest(m)) && m@
                == no_active_tournament_message()),
            active matches Some(t) ==> (r matches Ok(s) && s@ == ReportView {
                tournament_id: t.id,
                ..self@
            }),
    {
        proof {
            use_type_invariant(&self);
        }
        match active {
            None => Err(AppError::BadRequest(String::from_str("No active tournament"))),
            Some(t) => {
                let ReportGame(mut st) = self;
                st.tournament_id = t.id;
                Ok(ReportInTournament(st))
            },
        }
    }
}

impl ReportInTournament {
    #[verifier::type_invariant]
    spec fn inv(self) -> bool {
        report_opened(self.0@)
    }

    pub fn tournament_id(&self) -> (r: i64)
        ensures
            r == self@.tournament_id,
    {
        self.0.tournament_id
    }

    pub fn reporter_id(&self) -> (r: i64)
        ensures
            r == self@.reporter_id,
    {
        self.0.reporter_id
    }

    /// How many times the store lists the reporter in the tournament: the
    /// reporter must be listed, or the request is forbidden.
    pub fn reporter_memberships(self, count: i64) -> (r: Result<ReportReporterIn, AppError>)
        ensures
            count == 0 ==> r matches Err(AppError::Forbidden),
            count != 0 ==> (r matches Ok(s) && s@ == ReportView {
                reporter_memberships: count as int,
                ..self@
            }),
    {
        proof {
            use_type_invariant(&self);
        }
        if count == 0 {
            return Err(AppError::Forbidden);
        }
        let ReportInTournament(mut st) = self;
        st.reporter_memberships = Ghost(count as int);
        Ok(ReportReporterIn(st))
    }
}

impl ReportReporterIn {
    #[verifier::type_invariant]
    spec fn inv(self) -> bool {
        &&& report_opened(self.0@)
        &&& self.0@.reporter_memberships != 0
    }

    pub fn tournament_id(&self) -> (r: i64)
        ensures
            r == self@.tournament_id,
    {
        self.0.tournament_id
    }

    pub fn opponent_id(&self) -> (r: i64)
        ensures
            r == self@.opponent_id,
    {
        self.0.opponent_id
    }

    /// How many times the store lists the opponent in the tournament: the
    /// opponent must be listed.
    pub fn opponent_memberships(self, count: i64) -> (r: Result<ReportPlayersIn, AppError>)
        ensures
            count == 0 ==> (r matches Err(AppError::BadRequest(m)) && m@
                == opponent_not_in_message()),
            count != 0 ==> (r matches Ok(s) && s@ == ReportView {
                opponent_memberships: count as int,
                ..self@
            }),
    {
        proof {
            use_type_invariant(&self);
        }
        if count == 0 {
            return Err(
                AppError::BadRequest(String::from_str("Opponent is not in the active tournament")),
            );
        }
        let ReportReporterIn(mut st) = self;
        st.opponent_memberships = Ghost(count as int);
        Ok(ReportPlayersIn(st))
    }
}

impl ReportPlayersIn {
    #[verifier::type_invariant]
    spec fn inv(self) -> bool {
        &&& report_opened(self.0@)
        &&& self.0@.reporter_memberships != 0
        &&& self.0@.opponent_memberships != 0
    }

    pub fn tournament_id(&self) -> (r: i64)
        ensures
            r == self@.tournament_id,
    {
        self.0.tournament_id
    }

    pub fn reporter_id(&self) -> (r: i64)
        ensures
            r == self@.reporter_id,
    {
        self.0.reporter_id
    }

    pub fn opponent_id(&self) -> (r: i64)
        ensures
            r == self@.opponent_id,
    {
        self.0.opponent_id
    }

    /// How many pending games between the two players (either way round)
    /// the store holds in the tournament: there must be none.  The game to
    /// record is then the reported one, pending.
    pub fn pending_games(self, count: i64) -> (r: Result<NewGame, AppError>)
        ensures
            count > 0 ==> (r matches Err(AppError::BadRequest(m)) && m@
                == pending_exists_message()),
            count <= 0 ==> (r matches Ok(g) && g@ == NewGameView {
                tournament_id: self@.tournament_id,
                reporter_id: self@.reporter_id,
                opponent_id: self@.opponent_id,
                reporter_game_wins: self@.reporter_game_wins,
                opponent_game_wins: self@.opponent_game_wins,
                game_draws: self@.game_draws,
                confirmed: false,
                checks: GameChecks {
                    reporter_memberships: self@.reporter_memberships,
                    opponent_memberships: self@.opponent_memberships,
                    pending_between: Some(count as int),
                },
            }),
            r matches Ok(g) ==> admissible_game(g@),
    {
        proof {
            use_type_invariant(&self);
        }
        if count > 0 {
            return Err(
                AppError::BadRequest(
                    String::from_str("A pending game between these players already exists"),
                ),
            );
        }
        let st = &self.0;
        let ghost v = NewGameView {
            tournament_id: st.tournament_id,
            reporter_id: st.reporter_id,
            opponent_id: st.opponent_id,
            reporter_game_wins: st.reporter_game_wins,
            opponent_game_wins: st.opponent_game_wins,
            game_draws: st.game_draws,
            confirmed: false,
            checks: GameChecks {
                reporter_memberships: st.reporter_memberships@,
                opponent_memberships: st.opponent_memberships@,
                pending_between: Some(count as int),
            },
        };
        Ok(NewGame::new(
            Ghost(v),
            st.tournament_id,
            st.reporter_id,
            st.opponent_id,
            st.reporter_game_wins,
            st.opponent_game_wins,
            st.game_draws,
            false,
        ))
    }
}

/// How the opponent answers a reported game.
pub enum Resolution {
    Confirm,
    Dispute,
}

/// A game that is pending and was fetched on behalf of its opponent.
pub struct PendingGame {
    row: GameRow,
    opponent: Ghost<i64>,
}

impl View for PendingGame {
    type V = GameRow;

    closed spec fn view(&self) -> GameRow {
        self.row
    }
}

pub open spec fn not_pending_message(status: Seq<char>) -> Seq<char> {
    "Game is not pending (status: "@ + status + ")"@
}

/// A change of a pending game's status, made by its opponent.
pub struct StatusChange {
    game_id: i64,
    resolution: Resolution,
}

pub struct StatusChangeView {
    pub game_id: i64,
    pub confirms: bool,
}

impl View for StatusChange {
    type V = StatusChangeView;

    closed spec fn view(&self) -> StatusChangeView {
        StatusChangeView {
            game_id: self.game_id,
            confirms: self.resolution is Confirm,
        }
    }
}

impl StatusChange {
    pub fn game_id(&self) -> (r: i64)
        ensures
            r == self@.game_id,
    {
        self.game_id
    }

    /// The change confirms the game (else it disputes it).
    pub fn confirms(&self) -> (r: bool)
        ensures
            r == self@.confirms,
    {
        match self.resolution {
            Resolution::Confirm => true,
            Resolution::Dispute => false,
        }
    }
}

/// The game `game_id` as the store returned it, checked on behalf of the
/// player `token_id`: it must exist, the player must be its opponent, and it
/// must still be pending.
pub fn get_pending_game_for_opponent(row: Option<GameRow>, game_id: i64, token_id: i64) -> (r:
    Result<PendingGame, AppError>)
    ensures
        row is None ==> (r matches Err(AppError::NotFound(m)) && m@ == game_not_found_message(
            game_id as int,
        )),
        row matches Some(g) ==> (g.opponent_id != token_id ==> r matches Err(AppError::Forbidden)),
        row matches Some(g) ==> (g.opponent_id == token_id && g.status@ != "pending"@ ==> (
        r matches Err(AppError::BadRequest(m)) && m@ == not_pending_message(g.status@))),
        row matches Some(g) ==> (g.opponent_id == token_id && g.status@ == "pending"@ ==> (
        r matches Ok(p) && p@ == g)),
{
    let g = match row {
        None => {
            return Err(AppError::NotFound(text_around_number("Game ", game_id, " not found")));
        },
        Some(g) => g,
    };
    if g.opponent_id != token_id {
        return Err(AppError::Forbidden);
    }
    if !text_equals(g.status.as_str(), "pending") {
        let mut m = String::from_str("Game is not pending (status: ");
        m.append(g.status.as_str());
        m.append(")");
        return Err(AppError::BadRequest(m));
    }
    Ok(PendingGame { row: g, opponent: Ghost(token_id) })
}

impl PendingGame {
    #[verifier::type_invariant]
    spec fn inv(self) -> bool {
        &&& self.row.status@ == "pending"@
        &&& self.row.opponent_id == self.opponent@
    }

    /// The opponent confirms or disputes the game.  Only a pending game, and
    /// only on behalf of its opponent, is ever changed this way.
    pub fn resolve(self, resolution: Resolution) -> (c: StatusChange)
        ensures
            c@.game_id == self@.id,
            c@.confirms == (resolution is Confirm),
            self@.status@ == "pending"@,
    {
        proof {
            use_type_invariant(&self);
        }
        StatusChange { game_id: self.row.id, resolution }
    }
}

/// The line of `player_id` in the standings: the first one naming them.
pub fn find_standing(standings: Vec<Standing>, player_id: i64) -> (r: Option<Standing>)
    ensures
        r is None <==> (forall|k: int| 0 <= k < standings.len() ==> (#[trigger] standings@[k]).player_id
            != player_id),
        r matches Some(s) ==> exists|k: int|
            {
                &&& 0 <= k < standings.len()
                &&& s == standings@[k]
                &&& s.player_id == player_id
                &&& forall|j: int| 0 <= j < k ==> (#[trigger] standings@[j]).player_id != player_id
            },
{
    let mut lines = standings;
    let n = lines.len();
    let mut k: usize = 0;
    while k < n
        invariant
            n == lines.len(),
            lines@ == standings@,
            k <= n,
            forall|j: int| 0 <= j < k ==> (#[trigger] standings@[j]).player_id != player_id,
        decreases n - k,
    {
        if lines[k].player_id == player_id {
            let s = lines.remove(k);
            assert(s == standings@[k as int]);
            return Some(s);
        }
        k = k + 1;
    }
    None
}

/// What the "my games" endpoint does first, given the id of the store's
/// active tournament, if any.
pub enum MyGamesStep {
    /// Answer at once: with no active tournament the list is empty.
    Answer(Vec<GameResponse>),
    /// List the player's games in this tournament.
    List(i64),
}

pub fn my_games_step(active_tournament_id: Option<i64>) -> (s: MyGamesStep)
    ensures
        active_tournament_id is None ==> (s matches MyGamesStep::Answer(v) && v@.len() == 0),
        active_tournament_id matches Some(id) ==> s == MyGamesStep::List(id),
{
    match active_tournament_id {
        None => MyGamesStep::Answer(Vec::new()),
        Some(id) => MyGamesStep::List(id),
    }
}

} // verus!
