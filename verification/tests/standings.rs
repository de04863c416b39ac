use league_scoring::handlers::compute_standings;
use league_scoring::models::{GameRow, PlayerInfo, Standing};

fn player(id: i64, name: &str) -> PlayerInfo {
    PlayerInfo { id, name: name.to_string() }
}

fn game(reporter: i64, opponent: i64, rw: i64, ow: i64, d: i64) -> GameRow {
    GameRow {
        id: 0,
        tournament_id: 1,
        reporter_id: reporter,
        reporter_name: String::new(),
        opponent_id: opponent,
        opponent_name: String::new(),
        reporter_game_wins: rw,
        opponent_game_wins: ow,
        game_draws: d,
        status: "confirmed".to_string(),
        reported_at: String::new(),
        confirmed_at: None,
    }
}

fn line<'a>(out: &'a [Standing], id: i64) -> &'a Standing {
    out.iter().find(|s| s.player_id == id).unwrap()
}

#[test]
fn records_and_ranks() {
    let players = vec![player(1, "Cid"), player(2, "Ann"), player(3, "Bob")];
    let games = vec![
        game(1, 2, 2, 0, 0), // Cid beats Ann
        game(3, 1, 1, 2, 0), // Cid beats Bob
        game(2, 3, 1, 1, 1), // Ann and Bob draw
    ];
    let out = compute_standings(&players, &games).unwrap();
    assert_eq!(out.len(), 3);
    let ranks: Vec<usize> = out.iter().map(|s| s.rank).collect();
    assert_eq!(ranks, vec![1, 2, 3]);
    // Cid: 2 wins out of 2 matches.
    assert_eq!(out[0].player_id, 1);
    assert_eq!(out[0].player_name, "Cid");
    assert_eq!(out[0].match_wins, 2);
    assert_eq!(out[0].match_points, 6);
    assert_eq!(out[0].total_matches, 2);
    assert_eq!(out[0].game_wins, 4);
    assert_eq!(out[0].game_losses, 1);
    assert_eq!(out[0].total_games, 5);
    // Ann and Bob both have 1 point from 2 matches; Bob's GWR 2/5 beats Ann's 1/4.
    assert_eq!(out[1].player_id, 3);
    assert_eq!(out[2].player_id, 2);
    let bob = line(&out, 3);
    assert_eq!((bob.match_wins, bob.match_draws, bob.match_losses), (0, 1, 1));
    assert_eq!((bob.game_wins, bob.game_losses, bob.game_draws_count), (2, 3, 1));
    assert_eq!(bob.total_games, 6);
}

#[test]
fn match_points_rate_normalises_for_games_played() {
    // Ann: 1 win in 1 match (rate 1). Bob: 2 wins, 1 loss (rate 2/3).
    let players = vec![player(1, "Bob"), player(2, "Ann"), player(3, "Cid")];
    let games = vec![
        game(2, 3, 2, 0, 0),
        game(1, 3, 2, 0, 0),
        game(1, 3, 2, 1, 0),
        game(3, 1, 2, 0, 0),
    ];
    let out = compute_standings(&players, &games).unwrap();
    assert_eq!(out[0].player_id, 2);
    assert_eq!(out[1].player_id, 1);
    assert_eq!(out[2].player_id, 3);
}

#[test]
fn ties_fall_back_to_names_then_given_order() {
    let players = vec![player(5, "Zed"), player(6, "Amy"), player(7, "Amy"), player(8, "Bea")];
    let out = compute_standings(&players, &vec![]).unwrap();
    let ids: Vec<i64> = out.iter().map(|s| s.player_id).collect();
    assert_eq!(ids, vec![6, 7, 8, 5]);
    assert!(out.iter().all(|s| s.total_matches == 0 && s.match_points == 0));
}

#[test]
fn names_order_by_code_point() {
    let players = vec![player(1, "b"), player(2, "B"), player(3, "ä"), player(4, "a")];
    let out = compute_standings(&players, &vec![]).unwrap();
    let ids: Vec<i64> = out.iter().map(|s| s.player_id).collect();
    assert_eq!(ids, vec![2, 4, 1, 3]);
}

#[test]
fn games_of_others_do_not_count() {
    let players = vec![player(1, "Ann")];
    let games = vec![game(2, 3, 2, 0, 0)];
    let out = compute_standings(&players, &games).unwrap();
    assert_eq!(out[0].total_matches, 0);
    assert_eq!(out[0].total_games, 0);
}

#[test]
fn empty_player_list_gives_empty_standings() {
    let out = compute_standings(&vec![], &vec![game(1, 2, 2, 0, 0)]).unwrap();
    assert!(out.is_empty());
}

#[test]
fn overflowing_records_are_refused() {
    let players = vec![player(1, "Ann")];
    let games = vec![game(1, 2, i64::MAX, 0, 0), game(1, 2, 1, 0, 0)];
    assert!(compute_standings(&players, &games).is_none());
    // Game counts that fit but whose total does not.
    let games = vec![game(1, 2, i64::MAX, 1, 0)];
    assert!(compute_standings(&players, &games).is_none());
    // A player whose games are not involved is unaffected.
    let players = vec![player(3, "Cid")];
    assert!(compute_standings(&players, &games).is_some());
}

#[test]
fn standings_balance_wins_and_losses() {
    let players = vec![player(1, "A"), player(2, "B"), player(3, "C"), player(4, "D")];
    let games = vec![
        game(1, 2, 2, 1, 0),
        game(3, 4, 0, 2, 1),
        game(1, 3, 1, 1, 1),
        game(2, 4, 2, 0, 0),
        game(4, 1, 1, 0, 2),
    ];
    let out = compute_standings(&players, &games).unwrap();
    let wins: i64 = out.iter().map(|s| s.match_wins).sum();
    let losses: i64 = out.iter().map(|s| s.match_losses).sum();
    let gw: i64 = out.iter().map(|s| s.game_wins).sum();
    let gl: i64 = out.iter().map(|s| s.game_losses).sum();
    assert_eq!(wins, losses);
    assert_eq!(gw, gl);
    let draws: i64 = out.iter().map(|s| s.match_draws).sum();
    let game_draws: i64 = out.iter().map(|s| s.game_draws_count).sum();
    assert_eq!(draws % 2, 0);
    assert_eq!(game_draws % 2, 0);
    for s in &out {
        assert_eq!(s.total_matches, s.match_wins + s.match_draws + s.match_losses);
        assert_eq!(s.match_points, 3 * s.match_wins + s.match_draws);
        assert!(s.match_points <= 3 * s.total_matches);
    }
}
