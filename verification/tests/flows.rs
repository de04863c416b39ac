use league_scoring::error::AppError;
use league_scoring::handlers::admin::{
    admin_confirmable, admin_to_seed, deleted_game, force_confirmed, new_player, player_removal, start_admin_game,
    AdminGameStart, Enrolment, NewTournament, Removal,
};
use league_scoring::handlers::player::{
    find_standing, get_pending_game_for_opponent, my_games_step, MyGamesStep, ReportGame,
    Resolution,
};
use league_scoring::handlers::public::{ensure_tournament_exists, require_active_tournament};
use league_scoring::handlers::responses_from_rows;
use league_scoring::models::{
    AdminCreateGameRequest, CreatePlayerRequest, CreateTournamentRequest, GameRow,
    ReportGameRequest, Standing, Tournament,
};

fn bad(e: AppError) -> String {
    match e {
        AppError::BadRequest(m) => m,
        _ => panic!("expected a bad request"),
    }
}

fn missing(e: AppError) -> String {
    match e {
        AppError::NotFound(m) => m,
        _ => panic!("expected not found"),
    }
}

fn active(id: i64) -> Option<Tournament> {
    Some(Tournament {
        id,
        name: "Spring".to_string(),
        status: "active".to_string(),
        started_at: "then".to_string(),
        archived_at: None,
    })
}

fn report(opponent_id: i64, rw: i64, ow: i64, d: i64) -> ReportGameRequest {
    ReportGameRequest { opponent_id, reporter_game_wins: rw, opponent_game_wins: ow, game_draws: d }
}

#[test]
fn report_against_yourself_is_refused() {
    let e = ReportGame::start(4, &report(4, 2, 0, 0)).err().unwrap();
    assert_eq!(bad(e), "Cannot report a game against yourself");
}

#[test]
fn report_with_invalid_score_is_refused() {
    let e = ReportGame::start(4, &report(5, 2, 2, 0)).err().unwrap();
    assert!(bad(e).starts_with("Invalid match score."));
}

#[test]
fn report_needs_an_active_tournament() {
    let r = ReportGame::start(4, &report(5, 2, 1, 0)).ok().unwrap();
    let e = r.in_active_tournament(None).err().unwrap();
    assert_eq!(bad(e), "No active tournament");
}

#[test]
fn reporter_outside_the_tournament_is_forbidden() {
    let r = ReportGame::start(4, &report(5, 2, 1, 0)).ok().unwrap();
    let r = r.in_active_tournament(active(7)).ok().unwrap();
    assert_eq!(r.tournament_id(), 7);
    assert_eq!(r.reporter_id(), 4);
    assert!(matches!(r.reporter_memberships(0), Err(AppError::Forbidden)));
}

#[test]
fn opponent_outside_the_tournament_is_refused() {
    let r = ReportGame::start(4, &report(5, 2, 1, 0)).ok().unwrap();
    let r = r.in_active_tournament(active(7)).ok().unwrap();
    let r = r.reporter_memberships(1).ok().unwrap();
    assert_eq!(r.opponent_id(), 5);
    let e = r.opponent_memberships(0).err().unwrap();
    assert_eq!(bad(e), "Opponent is not in the active tournament");
}

#[test]
fn duplicate_pending_report_is_refused() {
    let r = ReportGame::start(4, &report(5, 2, 1, 0)).ok().unwrap();
    let r = r.in_active_tournament(active(7)).ok().unwrap();
    let r = r.reporter_memberships(1).ok().unwrap();
    let r = r.opponent_memberships(1).ok().unwrap();
    let e = r.pending_games(1).err().unwrap();
    assert_eq!(bad(e), "A pending game between these players already exists");
}

#[test]
fn accepted_report_is_recorded_pending() {
    let r = ReportGame::start(4, &report(5, 1, 2, 0)).ok().unwrap();
    let r = r.in_active_tournament(active(7)).ok().unwrap();
    let r = r.reporter_memberships(1).ok().unwrap();
    let r = r.opponent_memberships(1).ok().unwrap();
    assert_eq!((r.tournament_id(), r.reporter_id(), r.opponent_id()), (7, 4, 5));
    let g = r.pending_games(0).ok().unwrap();
    assert_eq!(g.tournament_id(), 7);
    assert_eq!(g.reporter_id(), 4);
    assert_eq!(g.opponent_id(), 5);
    assert_eq!(g.reporter_game_wins(), 1);
    assert_eq!(g.opponent_game_wins(), 2);
    assert_eq!(g.game_draws(), 0);
    assert!(!g.confirmed());
}

fn stored(opponent_id: i64, status: &str) -> GameRow {
    GameRow {
        id: 11,
        tournament_id: 7,
        reporter_id: 4,
        reporter_name: "Ann".to_string(),
        opponent_id,
        opponent_name: "Bob".to_string(),
        reporter_game_wins: 2,
        opponent_game_wins: 0,
        game_draws: 0,
        status: status.to_string(),
        reported_at: "then".to_string(),
        confirmed_at: None,
    }
}

#[test]
fn only_the_opponent_resolves_a_pending_game() {
    let e = get_pending_game_for_opponent(None, 11, 5).err().unwrap();
    assert_eq!(missing(e), "Game 11 not found");
    let e = get_pending_game_for_opponent(Some(stored(5, "pending")), 11, 4).err().unwrap();
    assert!(matches!(e, AppError::Forbidden));
    let e = get_pending_game_for_opponent(Some(stored(5, "confirmed")), 11, 5).err().unwrap();
    assert_eq!(bad(e), "Game is not pending (status: confirmed)");
    let p = get_pending_game_for_opponent(Some(stored(5, "pending")), 11, 5).ok().unwrap();
    let c = p.resolve(Resolution::Confirm);
    assert_eq!(c.game_id(), 11);
    assert!(c.confirms());
    let p = get_pending_game_for_opponent(Some(stored(5, "pending")), 11, 5).ok().unwrap();
    assert!(!p.resolve(Resolution::Dispute).confirms());
}

#[test]
fn responses_keep_the_row_order() {
    let mut a = stored(5, "pending");
    a.id = 1;
    let mut b = stored(5, "disputed");
    b.id = 2;
    b.reporter_game_wins = 0;
    b.opponent_game_wins = 2;
    let out = responses_from_rows(vec![a, b]);
    assert_eq!(out.len(), 2);
    assert_eq!(out[0].id, 1);
    assert_eq!(out[0].match_result, "reporter_win");
    assert_eq!(out[1].id, 2);
    assert_eq!(out[1].status, "disputed");
    assert_eq!(out[1].match_result, "opponent_win");
    assert!(responses_from_rows(vec![]).is_empty());
}

fn line(player_id: i64, rank: usize) -> Standing {
    Standing {
        rank,
        player_id,
        player_name: format!("p{}", player_id),
        match_wins: 0,
        match_draws: 0,
        match_losses: 0,
        total_matches: 0,
        match_points: 0,
        game_wins: 0,
        game_losses: 0,
        game_draws_count: 0,
        total_games: 0,
    }
}

#[test]
fn own_standing_is_found() {
    let s = find_standing(vec![line(3, 1), line(8, 2), line(8, 3)], 8).unwrap();
    assert_eq!(s.rank, 2);
    assert!(find_standing(vec![line(3, 1)], 8).is_none());
    assert!(find_standing(vec![], 8).is_none());
}

#[test]
fn new_players_need_a_name() {
    let e = new_player(&CreatePlayerRequest { name: "  ".to_string(), token: None }).err().unwrap();
    assert_eq!(bad(e), "Name cannot be empty");
    let p = new_player(&CreatePlayerRequest {
        name: " Ann ".to_string(),
        token: Some(" t0k ".to_string()),
    })
    .ok()
    .unwrap();
    assert_eq!(p.name, "Ann");
    assert_eq!(p.token, "t0k");
    let p = new_player(&CreatePlayerRequest { name: "Bob".to_string(), token: Some("".to_string()) })
        .ok()
        .unwrap();
    assert_eq!(p.token.len(), 36);
}

#[test]
fn removing_a_player_removes_their_data_first() {
    let e = player_removal(12, 0).err().unwrap();
    assert_eq!(missing(e), "Player 12 not found");
    let steps = player_removal(12, 1).ok().unwrap();
    assert!(matches!(
        steps.as_slice(),
        [Removal::Memberships(12), Removal::Games(12), Removal::Token(12)]
    ));
}

#[test]
fn only_one_tournament_is_active() {
    let e = NewTournament::start(&CreateTournamentRequest { name: " \t".to_string() }).err().unwrap();
    assert_eq!(bad(e), "Tournament name cannot be empty");
    let t = NewTournament::start(&CreateTournamentRequest { name: " Spring ".to_string() }).ok().unwrap();
    let e = t.active_count(1).err().unwrap();
    assert_eq!(bad(e), "Archive the current tournament before creating a new one");
    let t = NewTournament::start(&CreateTournamentRequest { name: " Spring ".to_string() }).ok().unwrap();
    assert_eq!(t.active_count(0).ok().unwrap(), "Spring");
}

#[test]
fn enrolment_needs_tournament_and_player() {
    let e = Enrolment::start(3, 9);
    assert_eq!(e.tournament_id(), 3);
    assert_eq!(missing(e.tournament_count(0).err().unwrap()), "Tournament 3 not found");
    let e = Enrolment::start(3, 9).tournament_count(1).ok().unwrap();
    assert_eq!(e.token_id(), 9);
    assert_eq!(missing(e.player_count(0).err().unwrap()), "Player 9 not found");
    let e = Enrolment::start(3, 9).tournament_count(1).ok().unwrap();
    let m = e.player_count(1).ok().unwrap();
    assert_eq!((m.tournament_id, m.token_id), (3, 9));
}

#[test]
fn deleting_and_force_confirming_games() {
    assert_eq!(missing(deleted_game(5, 0).err().unwrap()), "Game 5 not found");
    assert!(deleted_game(5, 1).is_ok());
    assert_eq!(
        missing(force_confirmed(-5, 0).err().unwrap()),
        "Game -5 not found or already confirmed"
    );
    assert!(force_confirmed(5, 1).is_ok());
}

fn admin_game(tournament_id: Option<i64>, p1: i64, p2: i64, w1: i64, w2: i64) -> AdminCreateGameRequest {
    AdminCreateGameRequest {
        tournament_id,
        player1_id: p1,
        player2_id: p2,
        player1_game_wins: w1,
        player2_game_wins: w2,
        game_draws: 0,
    }
}

#[test]
fn admin_games_are_checked_and_confirmed() {
    let e = start_admin_game(&admin_game(None, 1, 1, 2, 0)).err().unwrap();
    assert_eq!(bad(e), "Players must be different");
    let e = start_admin_game(&admin_game(None, 1, 2, 1, 0)).err().unwrap();
    assert!(bad(e).starts_with("Invalid match score."));
    let s = match start_admin_game(&admin_game(None, 1, 2, 2, 1)).ok().unwrap() {
        AdminGameStart::NeedsTournament(s) => s,
        AdminGameStart::InTournament(_) => panic!("no tournament was named"),
    };
    assert_eq!(bad(s.active_tournament_id(None).err().unwrap()), "No active tournament");
    let s = match start_admin_game(&admin_game(Some(6), 1, 2, 2, 1)).ok().unwrap() {
        AdminGameStart::InTournament(s) => s,
        AdminGameStart::NeedsTournament(_) => panic!("the tournament was named"),
    };
    assert_eq!((s.tournament_id(), s.player1_id()), (6, 1));
    assert_eq!(bad(s.player1_memberships(0).err().unwrap()), "Player 1 is not in tournament 6");
    let s = match start_admin_game(&admin_game(None, 1, 2, 2, 1)).ok().unwrap() {
        AdminGameStart::NeedsTournament(s) => s,
        AdminGameStart::InTournament(_) => panic!("no tournament was named"),
    };
    let s = s.active_tournament_id(Some(8)).ok().unwrap();
    let s = s.player1_memberships(1).ok().unwrap();
    assert_eq!((s.tournament_id(), s.player2_id()), (8, 2));
    let s2 = match start_admin_game(&admin_game(Some(8), 1, 2, 2, 1)).ok().unwrap() {
        AdminGameStart::InTournament(s) => s,
        AdminGameStart::NeedsTournament(_) => panic!("the tournament was named"),
    };
    let s2 = s2.player1_memberships(1).ok().unwrap();
    assert_eq!(bad(s2.player2_memberships(0).err().unwrap()), "Player 2 is not in tournament 8");
    let g = s.player2_memberships(1).ok().unwrap();
    assert!(g.confirmed());
    assert_eq!((g.tournament_id(), g.reporter_id(), g.opponent_id()), (8, 1, 2));
    assert_eq!((g.reporter_game_wins(), g.opponent_game_wins(), g.game_draws()), (2, 1, 0));
}

#[test]
fn public_checks() {
    assert_eq!(missing(require_active_tournament(None).err().unwrap()), "No active tournament");
    assert_eq!(require_active_tournament(active(2)).ok().unwrap().id, 2);
    assert_eq!(missing(ensure_tournament_exists(44, 0).err().unwrap()), "Tournament 44 not found");
    assert!(ensure_tournament_exists(44, 1).is_ok());
}

#[test]
fn first_admin_is_seeded_once() {
    assert_eq!(admin_to_seed(0, Some("root".to_string())), Some("root".to_string()));
    assert_eq!(admin_to_seed(0, None).unwrap().len(), 36);
    assert_eq!(admin_to_seed(1, Some("root".to_string())), None);
}

#[test]
fn admin_confirms_any_unconfirmed_game() {
    assert_eq!(admin_confirmable(Some(stored(5, "pending")), 11).ok(), Some(11));
    assert_eq!(admin_confirmable(Some(stored(5, "disputed")), 11).ok(), Some(11));
    assert_eq!(
        missing(admin_confirmable(Some(stored(5, "confirmed")), 11).err().unwrap()),
        "Game 11 not found or already confirmed"
    );
    assert_eq!(
        missing(admin_confirmable(None, 11).err().unwrap()),
        "Game 11 not found or already confirmed"
    );
}

#[test]
fn my_games_without_active_tournament_is_empty() {
    assert!(matches!(my_games_step(None), MyGamesStep::Answer(v) if v.is_empty()));
    assert!(matches!(my_games_step(Some(3)), MyGamesStep::List(3)));
}

#[test]
fn enrolling_twice_gives_the_same_membership() {
    let first = Enrolment::start(3, 9).tournament_count(1).ok().unwrap().player_count(1).ok().unwrap();
    let again = Enrolment::start(3, 9).tournament_count(1).ok().unwrap().player_count(1).ok().unwrap();
    assert_eq!((first.tournament_id, first.token_id), (again.tournament_id, again.token_id));
}
