//! The decisions of the admin endpoints.
use vstd::prelude::*;

use crate::error::AppError;
use crate::handlers::{
    admissible_game, invalid_score_message, valid_match_score, validate_match_score, GameChecks,
    NewGame, NewGameView,
};
use crate::models::{AdminCreateGameRequest, CreatePlayerRequest, CreateTournamentRequest, GameRow};
use crate::text::{decimal, push_decimal, text_around_number, trim, trimmed};
use crate::store::opens_tournament;
use crate::text::text_equals;
use crate::token::{admin_token, is_hyphenated_uuid, player_token, usable_token};

verus! {

pub open spec fn player_not_found_message(id: int) -> Seq<char> {
    "Player "@ + decimal(id) + " not found"@
}

pub open spec fn tournament_not_found_message(id: int) -> Seq<char> {
    "Tournament "@ + decimal(id) + " not found"@
}

pub open spec fn game_not_found_message(id: int) -> Seq<char> {
    "Game "@ + decimal(id) + " not found"@
}

pub open spec fn game_not_confirmable_message(id: int) -> Seq<char> {
    "Game "@ + decimal(id) + " not found or already confirmed"@
}

pub open spec fn not_in_tournament_message(player_id: int, tournament_id: int) -> Seq<char> {
    "Player "@ + decimal(player_id) + " is not in tournament "@ + decimal(tournament_id)
}

// ── Players ──────────────────────────────────────────────────────────────────

/// A player token about to be inserted.
pub struct NewPlayer {
    pub name: String,
    pub token: String,
}

/// Checks a create-player request: the name, trimmed, must not be empty; the
/// token is the one given (trimmed, unless blank) or a fresh random UUID.
pub fn new_player(request: &CreatePlayerRequest) -> (r: Result<NewPlayer, AppError>)
    ensures
        trimmed(request.name@).len() == 0 ==> (r matches Err(AppError::BadRequest(m)) && m@
            == "Name cannot be empty"@),
        trimmed(request.name@).len() != 0 ==> (r matches Ok(p) && p.name@ == trimmed(
            request.name@,
        )),
        r matches Ok(p) ==> (usable_token(request.token) matches Some(t) ==> p.token@ == t),
        r matches Ok(p) ==> (usable_token(request.token) is None ==> is_hyphenated_uuid(
            p.token@,
        )),
{
    let name = trim(request.name.as_str());
    if name.unicode_len() == 0 {
        return Err(AppError::BadRequest(String::from_str("Name cannot be empty")));
    }
    let token = player_token(&request.token);
    Ok(NewPlayer { name, token })
}

/// One of the deletions that remove a player.
pub enum Removal {
    /// The player's memberships in tournaments.
    Memberships(i64),
    /// Every game the player reported or was reported against in.
    Games(i64),
    /// The player's token itself.
    Token(i64),
}

/// The deletions that remove player `id`, given how many non-admin tokens
/// with that id the store counts: none means the player does not exist.
/// Memberships and games go before the token that they refer to.
pub fn player_removal(id: i64, count: i64) -> (r: Result<Vec<Removal>, AppError>)
    ensures
        count == 0 ==> (r matches Err(AppError::NotFound(m)) && m@ == player_not_found_message(
            id as int,
        )),
        count != 0 ==> (r matches Ok(steps) && steps@ == seq![
            Removal::Memberships(id),
            Removal::Games(id),
            Removal::Token(id),
        ]),
{
    if count == 0 {
        return Err(AppError::NotFound(text_around_number("Player ", id, " not found")));
    }
    let mut steps: Vec<Removal> = Vec::new();
    steps.push(Removal::Memberships(id));
    steps.push(Removal::Games(id));
    steps.push(Removal::Token(id));
    assert(steps@ =~= seq![Removal::Memberships(id), Removal::Games(id), Removal::Token(id)]);
    Ok(steps)
}

// ── Tournaments ──────────────────────────────────────────────────────────────

/// A tournament request with a usable name; next, the count of active
/// tournaments.
pub struct NewTournament {
    name: String,
}

impl View for NewTournament {
    type V = Seq<char>;

    closed spec fn view(&self) -> Seq<char> {
        self.name@
    }
}

impl NewTournament {
    #[verifier::type_invariant]
    spec fn inv(self) -> bool {
        self.name@.len() > 0
    }

    /// The name, trimmed, must not be empty.
    pub fn start(request: &CreateTournamentRequest) -> (r: Result<NewTournament, AppError>)
        ensures
            trimmed(request.name@).len() == 0 ==> (r matches Err(AppError::BadRequest(m)) && m@
                == "Tournament name cannot be empty"@),
            trimmed(request.name@).len() != 0 ==> (r matches Ok(t) && t@ == trimmed(
                request.name@,
            )),
    {
        let name = trim(request.name.as_str());
        if name.unicode_len() == 0 {
            return Err(AppError::BadRequest(String::from_str("Tournament name cannot be empty")));
        }
        Ok(NewTournament { name })
    }

    /// How many active tournaments the store counts: a new one opens only when
    /// there is none, so at most one is ever active.  Yields the name to insert.
    pub fn active_count(self, count: i64) -> (r: Result<String, AppError>)
        ensures
            count > 0 ==> (r matches Err(AppError::BadRequest(m)) && m@
                == "Archive the current tournament before creating a new one"@),
            count <= 0 ==> (r matches Ok(name) && name@ == self@ && name@.len() > 0),
            r is Ok <==> opens_tournament(count as int),
    {
        proof {
            use_type_invariant(&self);
        }
        if count > 0 {
            return Err(
                AppError::BadRequest(
                    String::from_str("Archive the current tournament before creating a new one"),
                ),
            );
        }
        Ok(self.name)
    }
}

/// A request to put player `token_id` in tournament `tournament_id`; next, the
/// count of tournaments with that id.
pub struct Enrolment {
    tournament_id: i64,
    token_id: i64,
}

/// An enrolment in an existing tournament; next, the count of players with
/// the id.
pub struct EnrolmentInTournament {
    tournament_id: i64,
    token_id: i64,
}

/// An enrolment of an existing player in an existing tournament.
pub struct Membership {
    pub tournament_id: i64,
    pub token_id: i64,
}

pub struct EnrolmentView {
    pub tournament_id: i64,
    pub token_id: i64,
}

impl View for Enrolment {
    type V = EnrolmentView;

    closed spec fn view(&self) -> EnrolmentView {
        EnrolmentView { tournament_id: self.tournament_id, token_id: self.token_id }
    }
}

impl View for EnrolmentInTournament {
    type V = EnrolmentView;

    closed spec fn view(&self) -> EnrolmentView {
        EnrolmentView { tournament_id: self.tournament_id, token_id: self.token_id }
    }
}

impl Enrolment {
    pub fn start(tournament_id: i64, token_id: i64) -> (e: Enrolment)
        ensures
            e@ == (EnrolmentView { tournament_id, token_id }),
    {
        Enrolment { tournament_id, token_id }
    }

    pub fn tournament_id(&self) -> (r: i64)
        ensures
            r == self@.tournament_id,
    {
        self.tournament_id
    }

    /// The tournament must exist.
    pub fn tournament_count(self, count: i64) -> (r: Result<EnrolmentInTournament, AppError>)
        ensures
            count == 0 ==> (r matches Err(AppError::NotFound(m)) && m@
                == tournament_not_found_message(self@.tournament_id as int)),
            count != 0 ==> (r matches Ok(e) && e@ == self@),
    {
        if count == 0 {
            return Err(
                AppError::NotFound(
                    text_around_number("Tournament ", self.tournament_id, " not found"),
                ),
            );
        }
        Ok(EnrolmentInTournament { tournament_id: self.tournament_id, token_id: self.token_id })
    }
}

impl EnrolmentInTournament {
    pub fn token_id(&self) -> (r: i64)
        ensures
            r == self@.token_id,
    {
        self.token_id
    }

    /// The player must exist (as a non-admin token).
    pub fn player_count(self, count: i64) -> (r: Result<Membership, AppError>)
        ensures
            count == 0 ==> (r matches Err(AppError::NotFound(m)) && m@ == player_not_found_message(
                self@.token_id as int,
            )),
            count != 0 ==> (r matches Ok(m) && m.tournament_id == self@.tournament_id
                && m.token_id == self@.token_id),
    {
        if count == 0 {
            return Err(AppError::NotFound(text_around_number("Player ", self.token_id, " not found")));
        }
        Ok(Membership { tournament_id: self.tournament_id, token_id: self.token_id })
    }
}

// ── Games ────────────────────────────────────────────────────────────────────

/// Deleting game `id` removed this many rows: none means there was no such game.
pub fn deleted_game(id: i64, rows_affected: u64) -> (r: Result<(), AppError>)
    ensures
        rows_affected == 0 ==> (r matches Err(AppError::NotFound(m)) && m@
            == game_not_found_message(id as int)),
        rows_affected != 0 ==> r is Ok,
{
    if rows_affected == 0 {
        return Err(AppError::NotFound(text_around_number("Game ", id, " not found")));
    }
    Ok(())
}

/// Whether an admin may force-confirm game `id`, as the store returned it:
/// any existing game that is not confirmed yet (pending or disputed).
/// Yields the id to confirm.
pub fn admin_confirmable(row: Option<GameRow>, id: i64) -> (r: Result<i64, AppError>)
    ensures
        (row matches Some(g) && g.status@ != "confirmed"@) ==> r == Ok::<i64, AppError>(id),
        !(row matches Some(g) && g.status@ != "confirmed"@) ==> (r matches Err(AppError::NotFound(m))
            && m@ == game_not_confirmable_message(id as int)),
{
    if let Some(g) = row {
        if !text_equals(g.status.as_str(), "confirmed") {
            return Ok(id);
        }
    }
    Err(AppError::NotFound(text_around_number("Game ", id, " not found or already confirmed")))
}

/// Confirming game `id` (if not confirmed yet) changed this many rows: none
/// means there was no such game or it was confirmed meanwhile.
pub fn force_confirmed(id: i64, rows_affected: u64) -> (r: Result<(), AppError>)
    ensures
        rows_affected == 0 ==> (r matches Err(AppError::NotFound(m)) && m@
            == game_not_confirmable_message(id as int)),
        rows_affected != 0 ==> r is Ok,
{
    if rows_affected == 0 {
        return Err(
            AppError::NotFound(
                text_around_number("Game ", id, " not found or already confirmed"),
            ),
        );
    }
    Ok(())
}

/// What an admin-created game has established so far.
pub struct AdminGameView {
    pub tournament_id: i64,
    pub player1_id: i64,
    pub player2_id: i64,
    pub player1_game_wins: i64,
    pub player2_game_wins: i64,
    pub game_draws: i64,
    pub player1_memberships: int,
}

struct AdminGameState {
    tournament_id: i64,
    player1_id: i64,
    player2_id: i64,
    player1_game_wins: i64,
    player2_game_wins: i64,
    game_draws: i64,
    player1_memberships: Ghost<int>,
}

impl View for AdminGameState {
    type V = AdminGameView;

    closed spec fn view(&self) -> AdminGameView {
        AdminGameView {
            tournament_id: self.tournament_id,
            player1_id: self.player1_id,
            player2_id: self.player2_id,
            player1_game_wins: self.player1_game_wins,
            player2_game_wins: self.player2_game_wins,
            game_draws: self.game_draws,
            player1_memberships: self.player1_memberships@,
        }
    }
}

pub open spec fn admin_game_opened(v: AdminGameView) -> bool {
    &&& v.player1_id != v.player2_id
    &&& valid_match_score(
        v.player1_game_wins as int,
        v.player2_game_wins as int,
        v.game_draws as int,
    )
}

/// An admin game whose tournament is not given; next, the active tournament.
pub struct AdminGameNeedsTournament(AdminGameState);

/// An admin game in a known tournament; next, whether player 1 is in it.
pub struct AdminGameInTournament(AdminGameState);

/// An admin game whose player 1 is in the tournament; next, player 2.
pub struct AdminGamePlayer1In(AdminGameState);

impl View for AdminGameNeedsTournament {
    type V = AdminGameView;

    closed spec fn view(&self) -> AdminGameView {
        self.0@
    }
}

impl View for AdminGameInTournament {
    type V = AdminGameView;

    closed spec fn view(&self) -> AdminGameView {
        self.0@
    }
}

impl View for AdminGamePlayer1In {
    type V = AdminGameView;

    closed spec fn view(&self) -> AdminGameView {
        self.0@
    }
}

/// How an admin game continues after its opening checks.
pub enum AdminGameStart {
    /// The request named its tournament.
    InTournament(AdminGameInTournament),
    /// The active tournament is to be used.
    NeedsTournament(AdminGameNeedsTournament),
}

/// The opening checks of an admin-created game: two different players, then
/// a valid score; the tournament is the one named, else the active one.
pub fn start_admin_game(request: &AdminCreateGameRequest) -> (r: Result<AdminGameStart, AppError>)
    ensures
        request.player1_id == request.player2_id ==> (r matches Err(AppError::BadRequest(m)) && m@
            == "Players must be different"@),
        request.player1_id != request.player2_id && !valid_match_score(
            request.player1_game_wins as int,
            request.player2_game_wins as int,
            request.game_draws as int,
        ) ==> (r matches Err(AppError::BadRequest(m)) && m@ == invalid_score_message()),
        request.player1_id != request.player2_id && valid_match_score(
            request.player1_game_wins as int,
            request.player2_game_wins as int,
            request.game_draws as int,
        ) ==> r is Ok,
        r is Ok ==> (request.tournament_id is Some <==> r->Ok_0 is InTournament),
        r matches Ok(AdminGameStart::InTournament(s)) ==> {
            &&& s@.tournament_id == request.tournament_id->Some_0
            &&& s@.player1_id == request.player1_id
            &&& s@.player2_id == request.player2_id
            &&& s@.player1_game_wins == request.player1_game_wins
            &&& s@.player2_game_wins == request.player2_game_wins
            &&& s@.game_draws == request.game_draws
            &&& admin_game_opened(s@)
        },
        r matches Ok(AdminGameStart::NeedsTournament(s)) ==> {
            &&& s@.player1_id == request.player1_id
            &&& s@.player2_id == request.player2_id
            &&& s@.player1_game_wins == request.player1_game_wins
            &&& s@.player2_game_wins == request.player2_game_wins
            &&& s@.game_draws == request.game_draws
            &&& admin_game_opened(s@)
        },
{
    if request.player1_id == request.player2_id {
        return Err(AppError::BadRequest(String::from_str("Players must be different")));
    }
    match validate_match_score(
        request.player1_game_wins,
        request.player2_game_wins,
        request.game_draws,
    ) {
        Err(e) => {
            return Err(e);
        },
        Ok(()) => {},
    }
    let st = AdminGameState {
        tournament_id: 0,
        player1_id: request.player1_id,
        player2_id: request.player2_id,
        player1_game_wins: request.player1_game_wins,
        player2_game_wins: request.player2_game_wins,
        game_draws: request.game_draws,
        player1_memberships: Ghost(0),
    };
    match request.tournament_id {
        Some(id) => Ok(
            AdminGameStart::InTournament(AdminGameInTournament(AdminGameState { tournament_id: id, ..st })),
        ),
        None => Ok(AdminGameStart::NeedsTournament(AdminGameNeedsTournament(st))),
    }
}

impl AdminGameNeedsTournament {
    #[verifier::type_invariant]
    spec fn inv(self) -> bool {
        admin_game_opened(self.0@)
    }

    /// The id of the store's active tournament, if any: one is needed.
    pub fn active_tournament_id(self, active: Option<i64>) -> (r: Result<
        AdminGameInTournament,
        AppError,
    >)
        ensures
            active is None ==> (r matches Err(AppError::BadRequest(m)) && m@
                == "No active tournament"@),
            active matches Some(id) ==> (r matches Ok(s) && s@ == AdminGameView {
                tournament_id: id,
                ..self@
            }),
    {
        proof {
            use_type_invariant(&self);
        }
        match active {
            None => Err(AppError::BadRequest(String::from_str("No active tournament"))),
            Some(id) => {
                let AdminGameNeedsTournament(mut st) = self;
                st.tournament_id = id;
                Ok(AdminGameInTournament(st))
            },
        }
    }
}

impl AdminGameInTournament {
    #[verifier::type_invariant]
    spec fn inv(self) -> bool {
        admin_game_opened(self.0@)
    }

    pub fn tournament_id(&self) -> (r: i64)
        ensures
            r == self@.tournament_id,
    {
        self.0.tournament_id
    }

    pub fn player1_id(&self) -> (r: i64)
        ensures
            r == self@.player1_id,
    {
        self.0.player1_id
    }

    /// How many times the store lists player 1 in the tournament: must be some.
    pub fn player1_memberships(self, count: i64) -> (r: Result<AdminGamePlayer1In, AppError>)
        ensures
            count == 0 ==> (r matches Err(AppError::BadRequest(m)) && m@
                == not_in_tournament_message(self@.player1_id as int, self@.tournament_id as int)),
            count != 0 ==> (r matches Ok(s) && s@ == AdminGameView {
                player1_memberships: count as int,
                ..self@
            }),
    {
        proof {
            use_type_invariant(&self);
        }
        if count == 0 {
            return Err(
                AppError::BadRequest(
                    not_in_tournament_text(self.0.player1_id, self.0.tournament_id),
                ),
            );
        }
        let AdminGameInTournament(mut st) = self;
        st.player1_memberships = Ghost(count as int);
        Ok(AdminGamePlayer1In(st))
    }
}

fn not_in_tournament_text(player_id: i64, tournament_id: i64) -> (s: String)
    ensures
        s@ == not_in_tournament_message(player_id as int, tournament_id as int),
{
    let mut s = text_around_number("Player ", player_id, " is not in tournament ");
    push_decimal(&mut s, tournament_id);
    s
}

impl AdminGamePlayer1In {
    #[verifier::type_invariant]
    spec fn inv(self) -> bool {
        &&& admin_game_opened(self.0@)
        &&& self.0@.player1_memberships != 0
    }

    pub fn tournament_id(&self) -> (r: i64)
        ensures
            r == self@.tournament_id,
    {
        self.0.tournament_id
    }

    pub fn player2_id(&self) -> (r: i64)
        ensures
            r == self@.player2_id,
    {
        self.0.player2_id
    }

    /// How many times the store lists player 2 in the tournament: must be
    /// some.  The game to record is then player 1's report against player 2,
    /// already confirmed.
    pub fn player2_memberships(self, count: i64) -> (r: Result<NewGame, AppError>)
        ensures
            count == 0 ==> (r matches Err(AppError::BadRequest(m)) && m@
                == not_in_tournament_message(self@.player2_id as int, self@.tournament_id as int)),
            count != 0 ==> (r matches Ok(g) && g@ == NewGameView {
                tournament_id: self@.tournament_id,
                reporter_id: self@.player1_id,
                opponent_id: self@.player2_id,
                reporter_game_wins: self@.player1_game_wins,
                opponent_game_wins: self@.player2_game_wins,
                game_draws: self@.game_draws,
                confirmed: true,
                checks: GameChecks {
                    reporter_memberships: self@.player1_memberships,
                    opponent_memberships: count as int,
                    pending_between: None,
                },
            }),
            r matches Ok(g) ==> admissible_game(g@),
    {
        proof {
            use_type_invariant(&self);
        }
        if count == 0 {
            return Err(
                AppError::BadRequest(
                    not_in_tournament_text(self.0.player2_id, self.0.tournament_id),
                ),
            );
        }
        let st = &self.0;
        let ghost v = NewGameView {
            tournament_id: st.tournament_id,
            reporter_id: st.player1_id,
            opponent_id: st.player2_id,
            reporter_game_wins: st.player1_game_wins,
            opponent_game_wins: st.player2_game_wins,
            game_draws: st.game_draws,
            confirmed: true,
            checks: GameChecks {
                reporter_memberships: st.player1_memberships@,
                opponent_memberships: count as int,
                pending_between: None,
            },
        };
        Ok(
            NewGame::new(
                Ghost(v),
                st.tournament_id,
                st.player1_id,
                st.player2_id,
                st.player1_game_wins,
                st.player2_game_wins,
                st.game_draws,
                true,
            ),
        )
    }
}

// ── Startup ──────────────────────────────────────────────────────────────────

/// The token of the admin to create at startup, given how many admins the
/// store counts and the configured token: an admin is created only when there
/// is none, with the configured token, else a fresh random UUID.
pub fn admin_to_seed(admin_count: i64, configured: Option<String>) -> (r: Option<String>)
    ensures
        admin_count != 0 ==> r is None,
        admin_count == 0 ==> r is Some,
        admin_count == 0 ==> (configured matches Some(c) ==> r == Some(c)),
        admin_count == 0 && configured is None ==> is_hyphenated_uuid(r->Some_0@),
{
    if admin_count == 0 {
        Some(admin_token(configured))
    } else {
        None
    }
}

} // verus!
