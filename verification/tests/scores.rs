use league_scoring::error::AppError;
use league_scoring::handlers::validate_match_score;
use league_scoring::models::{GameResponse, GameRow, TokenRow};

fn bad_request_text(r: Result<(), AppError>) -> String {
    match r {
        Err(AppError::BadRequest(m)) => m,
        _ => panic!("expected a bad request"),
    }
}

#[test]
fn valid_scores_are_accepted() {
    for (r, o, d) in [
        (2, 0, 0),
        (2, 1, 0),
        (0, 2, 0),
        (1, 2, 0),
        (2, 0, 1),
        (0, 2, 1),
        (1, 1, 1),
        (1, 0, 2),
        (0, 1, 2),
        (0, 0, 3),
    ] {
        assert!(validate_match_score(r, o, d).is_ok(), "{r}-{o}-{d}");
    }
}

#[test]
fn invalid_scores_are_refused_with_the_rules() {
    for (r, o, d) in [
        (0, 0, 0),
        (1, 0, 0),
        (1, 1, 0),
        (3, 0, 0),
        (2, 2, 0),
        (2, 1, 1),
        (0, 0, 4),
        (-1, 2, 0),
        (2, -1, 0),
        (2, 0, -1),
        (i64::MAX, i64::MAX, 2),
        (i64::MIN, 0, 0),
    ] {
        let m = bad_request_text(validate_match_score(r, o, d));
        assert_eq!(
            m,
            "Invalid match score. Valid results: 2-0, 2-1, 0-2, 1-2, or played-out draw (3 total games)."
        );
    }
}

#[test]
fn admin_flag_is_any_non_zero_value() {
    let mut t = TokenRow {
        id: 1,
        token: "t".to_string(),
        name: "Ann".to_string(),
        is_admin: 0,
        created_at: "now".to_string(),
    };
    assert!(!t.is_admin());
    t.is_admin = 1;
    assert!(t.is_admin());
    t.is_admin = -7;
    assert!(t.is_admin());
}

fn row(rw: i64, ow: i64) -> GameRow {
    GameRow {
        id: 9,
        tournament_id: 4,
        reporter_id: 1,
        reporter_name: "Ann".to_string(),
        opponent_id: 2,
        opponent_name: "Bob".to_string(),
        reporter_game_wins: rw,
        opponent_game_wins: ow,
        game_draws: 1,
        status: "pending".to_string(),
        reported_at: "2024-01-01 10:00:00".to_string(),
        confirmed_at: None,
    }
}

#[test]
fn response_names_the_match_winner() {
    let r = GameResponse::from(row(2, 1));
    assert_eq!(r.match_result, "reporter_win");
    assert_eq!(r.id, 9);
    assert_eq!(r.tournament_id, 4);
    assert_eq!(r.reporter.id, 1);
    assert_eq!(r.reporter.name, "Ann");
    assert_eq!(r.opponent.id, 2);
    assert_eq!(r.opponent.name, "Bob");
    assert_eq!(r.game_draws, 1);
    assert_eq!(r.status, "pending");
    assert_eq!(r.confirmed_at, None);
    assert_eq!(GameResponse::from(row(0, 2)).match_result, "opponent_win");
    assert_eq!(GameResponse::from(row(1, 1)).match_result, "draw");
}

#[test]
fn error_status_codes() {
    assert_eq!(AppError::BadRequest(String::new()).status_code(), 400);
    assert_eq!(AppError::Unauthorized.status_code(), 401);
    assert_eq!(AppError::Forbidden.status_code(), 403);
    assert_eq!(AppError::NotFound(String::new()).status_code(), 404);
    assert_eq!(AppError::Database(String::new()).status_code(), 500);
}

#[test]
fn error_messages_for_clients() {
    assert_eq!(AppError::BadRequest("bad".to_string()).message(), "bad");
    assert_eq!(AppError::NotFound("gone".to_string()).message(), "gone");
    assert_eq!(AppError::Unauthorized.message(), "Unauthorized");
    assert_eq!(AppError::Forbidden.message(), "Forbidden");
    assert_eq!(AppError::Database("disk full".to_string()).message(), "Internal server error");
}
