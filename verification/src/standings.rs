//! Standings, computed from the confirmed games of a tournament.
//!
//! Ranking method: Match Points Rate (MPR) = (3W + D) / (3N), where a match
//! is won by the player who won more of its games.  Tiebreaker: Game Win Rate
//! (GWR) = game wins / games played.  Then names in ascending order; players
//! tied on all three keep the order in which they were given.
use vstd::prelude::*;

use crate::models::{match_result_text, GameRow, PlayerInfo, Standing};
use crate::text::{
    lemma_text_lt_irreflexive, lemma_text_lt_total, lemma_text_lt_transitive, text_before, text_lt,
};

verus! {

/// A player's results over some games.
pub struct Record {
    pub match_wins: int,
    pub match_draws: int,
    pub match_losses: int,
    pub game_wins: int,
    pub game_losses: int,
    pub game_draws: int,
}

pub open spec fn empty_record() -> Record {
    Record {
        match_wins: 0,
        match_draws: 0,
        match_losses: 0,
        game_wins: 0,
        game_losses: 0,
        game_draws: 0,
    }
}

pub open spec fn add_records(a: Record, b: Record) -> Record {
    Record {
        match_wins: a.match_wins + b.match_wins,
        match_draws: a.match_draws + b.match_draws,
        match_losses: a.match_losses + b.match_losses,
        game_wins: a.game_wins + b.game_wins,
        game_losses: a.game_losses + b.game_losses,
        game_draws: a.game_draws + b.game_draws,
    }
}

/// The player took part in the game, as reporter or as opponent.
pub open spec fn plays_in(player_id: i64, g: GameRow) -> bool {
    g.reporter_id == player_id || g.opponent_id == player_id
}

/// Games the player won in this game's match (the reporter's side is taken
/// when the player is recorded on both sides).
pub open spec fn own_game_wins(player_id: i64, g: GameRow) -> int {
    if g.reporter_id == player_id {
        g.reporter_game_wins as int
    } else {
        g.opponent_game_wins as int
    }
}

pub open spec fn other_game_wins(player_id: i64, g: GameRow) -> int {
    if g.reporter_id == player_id {
        g.opponent_game_wins as int
    } else {
        g.reporter_game_wins as int
    }
}

/// What one game adds to a player's record.
pub open spec fn game_record(player_id: i64, g: GameRow) -> Record {
    if !plays_in(player_id, g) {
        empty_record()
    } else {
        let mine = own_game_wins(player_id, g);
        let theirs = other_game_wins(player_id, g);
        Record {
            match_wins: if mine > theirs { 1 } else { 0 },
            match_draws: if mine == theirs { 1 } else { 0 },
            match_losses: if mine < theirs { 1 } else { 0 },
            game_wins: mine,
            game_losses: theirs,
            game_draws: g.game_draws as int,
        }
    }
}

/// A player's record over a sequence of games: the sum of what each adds.
pub open spec fn player_record(player_id: i64, games: Seq<GameRow>) -> Record
    decreases games.len(),
{
    if games.len() == 0 {
        empty_record()
    } else {
        add_records(player_record(player_id, games.drop_last()), game_record(player_id, games.last()))
    }
}

pub open spec fn total_matches(r: Record) -> int {
    r.match_wins + r.match_draws + r.match_losses
}

pub open spec fn match_points(r: Record) -> int {
    3 * r.match_wins + r.match_draws
}

pub open spec fn total_games(r: Record) -> int {
    r.game_wins + r.game_losses + r.game_draws
}

pub open spec fn in_i64(x: int) -> bool {
    i64::MIN <= x <= i64::MAX
}

/// Every running count of a record fits in an `i64`.
pub open spec fn counts_fit(r: Record) -> bool {
    &&& in_i64(r.match_wins)
    &&& in_i64(r.match_draws)
    &&& in_i64(r.match_losses)
    &&& in_i64(r.game_wins)
    &&& in_i64(r.game_losses)
    &&& in_i64(r.game_draws)
}

/// The derived totals fit in an `i64` at each step of their evaluation.
pub open spec fn totals_fit(r: Record) -> bool {
    &&& in_i64(r.match_wins + r.match_draws)
    &&& in_i64(total_matches(r))
    &&& in_i64(3 * r.match_wins)
    &&& in_i64(match_points(r))
    &&& in_i64(r.game_wins + r.game_losses)
    &&& in_i64(total_games(r))
}

/// Computing the player's record with `i64` arithmetic never overflows.
pub open spec fn record_fits(player_id: i64, games: Seq<GameRow>) -> bool {
    &&& forall|k: int|
        0 <= k <= games.len() ==> #[trigger] counts_fit(player_record(player_id, games.take(k)))
    &&& totals_fit(player_record(player_id, games))
}

/// Match Points Rate as (numerator, denominator): (3W + D) / (3N), or 0
/// when the player has no match.
pub open spec fn match_points_rate(r: Record) -> (int, int) {
    if total_matches(r) > 0 {
        (match_points(r), 3 * total_matches(r))
    } else {
        (0, 1)
    }
}

/// Game Win Rate as (numerator, denominator): wins / games, or 0 when the
/// player has played no game.
pub open spec fn game_win_rate(r: Record) -> (int, int) {
    if total_games(r) > 0 {
        (r.game_wins, total_games(r))
    } else {
        (0, 1)
    }
}

/// Ratio `x` is greater than ratio `y` (denominators are positive).
pub open spec fn rate_above(x: (int, int), y: (int, int)) -> bool {
    x.0 * y.1 > y.0 * x.1
}

pub open spec fn rate_equal(x: (int, int), y: (int, int)) -> bool {
    x.0 * y.1 == y.0 * x.1
}

/// Player `a` ranks strictly above player `b`: higher MPR, then higher GWR,
/// then the name that comes first.
pub open spec fn ranks_above(a: Record, a_name: Seq<char>, b: Record, b_name: Seq<char>) -> bool {
    let (ma, mb) = (match_points_rate(a), match_points_rate(b));
    let (ga, gb) = (game_win_rate(a), game_win_rate(b));
    ||| rate_above(ma, mb)
    ||| rate_equal(ma, mb) && rate_above(ga, gb)
    ||| rate_equal(ma, mb) && rate_equal(ga, gb) && text_lt(a_name, b_name)
}

/// Neither player ranks above the other.
pub open spec fn ranks_level(a: Record, a_name: Seq<char>, b: Record, b_name: Seq<char>) -> bool {
    &&& rate_equal(match_points_rate(a), match_points_rate(b))
    &&& rate_equal(game_win_rate(a), game_win_rate(b))
    &&& a_name == b_name
}

proof fn lemma_rate_order(x: (int, int), y: (int, int), z: (int, int))
    requires
        x.1 > 0,
        y.1 > 0,
        z.1 > 0,
    ensures
        !rate_above(x, x),
        rate_equal(x, x),
        rate_equal(x, y) == rate_equal(y, x),
        rate_above(x, y) ==> !rate_above(y, x) && !rate_equal(x, y),
        rate_above(x, y) || rate_above(y, x) || rate_equal(x, y),
        rate_above(x, y) && rate_above(y, z) ==> rate_above(x, z),
        rate_above(x, y) && rate_equal(y, z) ==> rate_above(x, z),
        rate_equal(x, y) && rate_above(y, z) ==> rate_above(x, z),
        rate_equal(x, y) && rate_equal(y, z) ==> rate_equal(x, z),
{
    let (a, b) = x;
    let (c, d) = y;
    let (e, f) = z;
    assert(c * b == b * c) by (nonlinear_arith);
    assert(a * d == d * a) by (nonlinear_arith);
    assert(a * d > c * b && c * f > e * d ==> a * f > e * b) by (nonlinear_arith)
        requires
            b > 0,
            d > 0,
            f > 0,
    {
        if a * d > c * b && c * f > e * d {
            assert(a * d * f > c * b * f);
            assert(c * f * b > e * d * b);
            assert(a * f * d > e * b * d);
        }
    }
    assert(a * d > c * b && c * f == e * d ==> a * f > e * b) by (nonlinear_arith)
        requires
            b > 0,
            d > 0,
            f > 0,
    {
        if a * d > c * b && c * f == e * d {
            assert(a * d * f > c * b * f);
            assert(c * f * b == e * d * b);
            assert(a * f * d > e * b * d);
        }
    }
    assert(a * d == c * b && c * f > e * d ==> a * f > e * b) by (nonlinear_arith)
        requires
            b > 0,
            d > 0,
            f > 0,
    {
        if a * d == c * b && c * f > e * d {
            assert(a * d * f == c * b * f);
            assert(c * f * b > e * d * b);
            assert(a * f * d > e * b * d);
        }
    }
    assert(a * d == c * b && c * f == e * d ==> a * f == e * b) by (nonlinear_arith)
        requires
            b > 0,
            d > 0,
            f > 0,
    {
        if a * d == c * b && c * f == e * d {
            assert(a * d * f == c * b * f);
            assert(c * f * b == e * d * b);
            assert(a * f * d == e * b * d);
        }
    }
}

proof fn lemma_rates_positive(r: Record)
    ensures
        match_points_rate(r).1 > 0,
        game_win_rate(r).1 > 0,
{
}

/// Ranking is a strict weak order: irreflexive and transitive, with "level"
/// as its equivalence, and any two players either level or one above.
pub proof fn lemma_ranking_order(
    a: Record,
    an: Seq<char>,
    b: Record,
    bn: Seq<char>,
    c: Record,
    cn: Seq<char>,
)
    ensures
        !ranks_above(a, an, a, an),
        ranks_level(a, an, a, an),
        ranks_level(a, an, b, bn) == ranks_level(b, bn, a, an),
        ranks_above(a, an, b, bn) ==> !ranks_above(b, bn, a, an) && !ranks_level(a, an, b, bn),
        ranks_above(a, an, b, bn) || ranks_above(b, bn, a, an) || ranks_level(a, an, b, bn),
        ranks_above(a, an, b, bn) && ranks_above(b, bn, c, cn) ==> ranks_above(a, an, c, cn),
        ranks_above(a, an, b, bn) && ranks_level(b, bn, c, cn) ==> ranks_above(a, an, c, cn),
        ranks_level(a, an, b, bn) && ranks_above(b, bn, c, cn) ==> ranks_above(a, an, c, cn),
        ranks_level(a, an, b, bn) && ranks_level(b, bn, c, cn) ==> ranks_level(a, an, c, cn),
{
    lemma_rates_positive(a);
    lemma_rates_positive(b);
    lemma_rates_positive(c);
    let (ma, mb, mc) = (match_points_rate(a), match_points_rate(b), match_points_rate(c));
    let (ga, gb, gc) = (game_win_rate(a), game_win_rate(b), game_win_rate(c));
    lemma_rate_order(ma, mb, mc);
    lemma_rate_order(mb, ma, mc);
    lemma_rate_order(ga, gb, gc);
    lemma_rate_order(gb, ga, gc);
    lemma_text_lt_irreflexive(an);
    lemma_text_lt_total(an, bn);
    if text_lt(an, bn) && text_lt(bn, cn) {
        lemma_text_lt_transitive(an, bn, cn);
    }
}

/// The exec counterpart of `Record`.
#[derive(Clone, Copy)]
struct Tally {
    match_wins: i64,
    match_draws: i64,
    match_losses: i64,
    game_wins: i64,
    game_losses: i64,
    game_draws: i64,
}

impl View for Tally {
    type V = Record;

    closed spec fn view(&self) -> Record {
        Record {
            match_wins: self.match_wins as int,
            match_draws: self.match_draws as int,
            match_losses: self.match_losses as int,
            game_wins: self.game_wins as int,
            game_losses: self.game_losses as int,
            game_draws: self.game_draws as int,
        }
    }
}

proof fn lemma_record_step(player_id: i64, games: Seq<GameRow>, i: int)
    requires
        0 <= i < games.len(),
    ensures
        player_record(player_id, games.take(i + 1)) == add_records(
            player_record(player_id, games.take(i)),
            game_record(player_id, games[i]),
        ),
{
    assert(games.take(i + 1).drop_last() =~= games.take(i));
}

/// Adds up the player's record over the games; `None` exactly when the
/// `i64` arithmetic that does so overflows.
fn tally_player(player_id: i64, games: &Vec<GameRow>) -> (r: Option<Tally>)
    ensures
        r is Some <==> record_fits(player_id, games@),
        r matches Some(t) ==> t@ == player_record(player_id, games@),
{
    let mut t = Tally {
        match_wins: 0,
        match_draws: 0,
        match_losses: 0,
        game_wins: 0,
        game_losses: 0,
        game_draws: 0,
    };
    let n = games.len();
    assert(games@.take(0) =~= Seq::<GameRow>::empty());
    for i in 0..n
        invariant
            n == games@.len(),
            t@ == player_record(player_id, games@.take(i as int)),
            forall|k: int|
                0 <= k <= i ==> #[trigger] counts_fit(player_record(player_id, games@.take(k))),
    {
        proof {
            lemma_record_step(player_id, games@, i as int);
        }
        let g = &games[i];
        if g.reporter_id == player_id || g.opponent_id == player_id {
            let (mine, theirs) = if g.reporter_id == player_id {
                (g.reporter_game_wins, g.opponent_game_wins)
            } else {
                (g.opponent_game_wins, g.reporter_game_wins)
            };
            let mw = if mine > theirs { t.match_wins.checked_add(1) } else { Some(t.match_wins) };
            let md = if mine == theirs { t.match_draws.checked_add(1) } else { Some(t.match_draws) };
            let ml = if mine < theirs { t.match_losses.checked_add(1) } else { Some(t.match_losses) };
            let gw = t.game_wins.checked_add(mine);
            let gl = t.game_losses.checked_add(theirs);
            let gd = t.game_draws.checked_add(g.game_draws);
            match (mw, md, ml, gw, gl, gd) {
                (Some(mw), Some(md), Some(ml), Some(gw), Some(gl), Some(gd)) => {
                    t = Tally {
                        match_wins: mw,
                        match_draws: md,
                        match_losses: ml,
                        game_wins: gw,
                        game_losses: gl,
                        game_draws: gd,
                    };
                },
                _ => {
                    assert(!counts_fit(player_record(player_id, games@.take(i + 1))));
                    return None;
                },
            }
        } else {
            assert(game_record(player_id, games@[i as int]) == empty_record());
        }
        assert(t@ == player_record(player_id, games@.take(i + 1)));
    }
    assert(games@.take(n as int) =~= games@);
    let sum1 = t.match_wins.checked_add(t.match_draws);
    let three = t.match_wins.checked_mul(3);
    let sum3 = t.game_wins.checked_add(t.game_losses);
    match (sum1, three, sum3) {
        (Some(s1), Some(th), Some(s3)) => {
            let tm = s1.checked_add(t.match_losses);
            let mp = th.checked_add(t.match_draws);
            let tg = s3.checked_add(t.game_draws);
            if tm.is_none() || mp.is_none() || tg.is_none() {
                return None;
            }
        },
        _ => {
            return None;
        },
    }
    Some(t)
}

proof fn lemma_match_counts_nonnegative(player_id: i64, games: Seq<GameRow>)
    ensures
        player_record(player_id, games).match_wins >= 0,
        player_record(player_id, games).match_draws >= 0,
        player_record(player_id, games).match_losses >= 0,
    decreases games.len(),
{
    if games.len() > 0 {
        lemma_match_counts_nonnegative(player_id, games.drop_last());
    }
}

/// Where the standings put player `i` before player `j` (indices into
/// `players`): `i` ranks above `j`, or they are level and `i` came first.
pub open spec fn placed_before(players: Seq<PlayerInfo>, games: Seq<GameRow>, i: int, j: int) -> bool {
    let ri = player_record(players[i].id, games);
    let rj = player_record(players[j].id, games);
    ||| ranks_above(ri, players[i].name@, rj, players[j].name@)
    ||| ranks_level(ri, players[i].name@, rj, players[j].name@) && i < j
}

/// `perm` lists each of `0..n` exactly once.
pub open spec fn is_ordering(perm: Seq<int>, n: int) -> bool {
    &&& perm.len() == n
    &&& forall|k: int| 0 <= k < n ==> 0 <= #[trigger] perm[k] < n
    &&& forall|a: int, b: int| 0 <= a < b < n ==> perm[a] != perm[b]
    &&& forall|i: int| 0 <= i < n ==> #[trigger] perm.contains(i)
}

/// The line reports the player's record over the games.
pub open spec fn standing_reports(s: Standing, p: PlayerInfo, r: Record) -> bool {
    &&& s.player_id == p.id
    &&& s.player_name == p.name
    &&& s.match_wins == r.match_wins
    &&& s.match_draws == r.match_draws
    &&& s.match_losses == r.match_losses
    &&& s.total_matches == total_matches(r)
    &&& s.match_points == match_points(r)
    &&& s.game_wins == r.game_wins
    &&& s.game_losses == r.game_losses
    &&& s.game_draws_count == r.game_draws
    &&& s.total_games == total_games(r)
}

/// `out` lists the players in `perm` order, each line reporting that player.
pub open spec fn lines_follow(
    players: Seq<PlayerInfo>,
    games: Seq<GameRow>,
    out: Seq<Standing>,
    perm: Seq<int>,
) -> bool {
    &&& is_ordering(perm, players.len() as int)
    &&& forall|k: int|
        0 <= k < out.len() ==> standing_reports(
            #[trigger] out[k],
            players[perm[k]],
            player_record(players[perm[k]].id, games),
        )
    &&& forall|a: int, b: int|
        0 <= a < b < out.len() ==> placed_before(players, games, perm[a], perm[b])
}

/// The standings of `players` over `games`: one line per player, ranked
/// 1, 2, 3, ... in ranking order.
pub open spec fn standings_of(players: Seq<PlayerInfo>, games: Seq<GameRow>, out: Seq<Standing>) -> bool {
    &&& out.len() == players.len()
    &&& forall|k: int| 0 <= k < out.len() ==> #[trigger] out[k].rank == k + 1
    &&& exists|perm: Seq<int>| lines_follow(players, games, out, perm)
}

/// Every player's record can be computed without overflow.
pub open spec fn all_records_fit(players: Seq<PlayerInfo>, games: Seq<GameRow>) -> bool {
    forall|i: int| 0 <= i < players.len() ==> record_fits(#[trigger] players[i].id, games)
}

/// The two rates of a record, as exact integers.
struct Key {
    mp: u128,
    mp_den: u128,
    gw: i128,
    gw_den: i128,
}

spec fn key_is(k: Key, r: Record) -> bool {
    &&& k.mp as int == match_points_rate(r).0
    &&& k.mp_den as int == match_points_rate(r).1
    &&& k.gw as int == game_win_rate(r).0
    &&& k.gw_den as int == game_win_rate(r).1
    &&& key_is_bounded(k)
}

/// The cross products that compare two keys' rates fit their integer types.
proof fn lemma_key_products_fit(ka: Key, kb: Key)
    requires
        key_is_bounded(ka),
        key_is_bounded(kb),
    ensures
        ka.mp * kb.mp_den <= u128::MAX,
        kb.mp * ka.mp_den <= u128::MAX,
        i128::MIN <= ka.gw * kb.gw_den <= i128::MAX,
        i128::MIN <= kb.gw * ka.gw_den <= i128::MAX,
{
    let lim: int = i64::MAX as int;
    assert(ka.mp * kb.mp_den <= lim * (3 * lim)) by (nonlinear_arith)
        requires
            ka.mp <= lim,
            kb.mp_den <= 3 * lim,
    ;
    assert(kb.mp * ka.mp_den <= lim * (3 * lim)) by (nonlinear_arith)
        requires
            kb.mp <= lim,
            ka.mp_den <= 3 * lim,
    ;
    assert(-(lim + 1) * lim <= ka.gw * kb.gw_den <= lim * lim) by (nonlinear_arith)
        requires
            -(lim + 1) <= ka.gw <= lim,
            0 < kb.gw_den <= lim,
    ;
    assert(-(lim + 1) * lim <= kb.gw * ka.gw_den <= lim * lim) by (nonlinear_arith)
        requires
            -(lim + 1) <= kb.gw <= lim,
            0 < ka.gw_den <= lim,
    ;
}

spec fn key_is_bounded(k: Key) -> bool {
    &&& k.mp <= i64::MAX as u128
    &&& k.mp_den <= 3 * (i64::MAX as u128)
    &&& i64::MIN <= k.gw <= i64::MAX
    &&& 0 < k.gw_den <= i64::MAX
}

fn key_of(t: &Tally, Ghost(r): Ghost<Record>) -> (k: Key)
    requires
        t@ == r,
        totals_fit(r),
        r.match_wins >= 0,
        r.match_draws >= 0,
        r.match_losses >= 0,
    ensures
        key_is(k, r),
{
    let tm = t.match_wins + t.match_draws + t.match_losses;
    let mp = 3 * t.match_wins + t.match_draws;
    let tg = t.game_wins + t.game_losses + t.game_draws;
    let (mp, mp_den) = if tm > 0 {
        (mp as u128, 3 * (tm as u128))
    } else {
        (0u128, 1u128)
    };
    let (gw, gw_den) = if tg > 0 {
        (t.game_wins as i128, tg as i128)
    } else {
        (0i128, 1i128)
    };
    Key { mp, mp_den, gw, gw_den }
}

fn rank_above_exec(
    ka: &Key,
    an: &String,
    kb: &Key,
    bn: &String,
    Ghost(ra): Ghost<Record>,
    Ghost(rb): Ghost<Record>,
) -> (above: bool)
    requires
        key_is(*ka, ra),
        key_is(*kb, rb),
    ensures
        above == ranks_above(ra, an@, rb, bn@),
{
    proof {
        lemma_key_products_fit(*ka, *kb);
    }
    let m1 = ka.mp * kb.mp_den;
    let m2 = kb.mp * ka.mp_den;
    if m1 != m2 {
        return m1 > m2;
    }
    let g1 = ka.gw * kb.gw_den;
    let g2 = kb.gw * ka.gw_den;
    if g1 != g2 {
        return g1 > g2;
    }
    text_before(an.as_str(), bn.as_str())
}

fn level_exec(
    ka: &Key,
    an: &String,
    kb: &Key,
    bn: &String,
    Ghost(ra): Ghost<Record>,
    Ghost(rb): Ghost<Record>,
) -> (level: bool)
    requires
        key_is(*ka, ra),
        key_is(*kb, rb),
    ensures
        level == ranks_level(ra, an@, rb, bn@),
{
    proof {
        lemma_key_products_fit(*ka, *kb);
    }
    ka.mp * kb.mp_den == kb.mp * ka.mp_den && ka.gw * kb.gw_den == kb.gw * ka.gw_den && *an == *bn
}

/// The placement order is a strict total order on the players' indices.
proof fn lemma_placement_order(players: Seq<PlayerInfo>, games: Seq<GameRow>, i: int, j: int, k: int)
    requires
        0 <= i < players.len(),
        0 <= j < players.len(),
        0 <= k < players.len(),
    ensures
        !placed_before(players, games, i, i),
        i != j ==> placed_before(players, games, i, j) || placed_before(players, games, j, i),
        placed_before(players, games, i, j) ==> !placed_before(players, games, j, i),
        placed_before(players, games, i, j) && placed_before(players, games, j, k) ==> placed_before(
            players,
            games,
            i,
            k,
        ),
{
    let ri = player_record(players[i].id, games);
    let rj = player_record(players[j].id, games);
    let rk = player_record(players[k].id, games);
    lemma_ranking_order(ri, players[i].name@, rj, players[j].name@, rk, players[k].name@);
    lemma_ranking_order(rj, players[j].name@, ri, players[i].name@, rk, players[k].name@);
}

spec fn keyed(keys: Seq<Key>, players: Seq<PlayerInfo>, games: Seq<GameRow>) -> bool {
    &&& keys.len() == players.len()
    &&& forall|k: int|
        0 <= k < keys.len() ==> key_is(#[trigger] keys[k], player_record(players[k].id, games))
}

fn placed_before_exec(
    keys: &Vec<Key>,
    players: &Vec<PlayerInfo>,
    i: usize,
    j: usize,
    Ghost(games): Ghost<Seq<GameRow>>,
) -> (b: bool)
    requires
        keyed(keys@, players@, games),
        i < players.len(),
        j < players.len(),
    ensures
        b == placed_before(players@, games, i as int, j as int),
{
    let ghost ri = player_record(players@[i as int].id, games);
    let ghost rj = player_record(players@[j as int].id, games);
    assert(key_is(keys@[i as int], ri));
    assert(key_is(keys@[j as int], rj));
    if rank_above_exec(&keys[i], &players[i].name, &keys[j], &players[j].name, Ghost(ri), Ghost(rj)) {
        true
    } else {
        i < j && level_exec(&keys[i], &players[i].name, &keys[j], &players[j].name, Ghost(ri), Ghost(rj))
    }
}

/// Sorts the player indices into placement order (an insertion sort).
fn order_players(keys: &Vec<Key>, players: &Vec<PlayerInfo>, Ghost(games): Ghost<Seq<GameRow>>) -> (perm: Vec<usize>)
    requires
        keyed(keys@, players@, games),
    ensures
        perm.len() == players.len(),
        forall|k: int| 0 <= k < perm.len() ==> #[trigger] perm@[k] < players.len(),
        forall|i: int| 0 <= i < players.len() ==> #[trigger] perm@.contains(i as usize),
        forall|a: int, b: int|
            0 <= a < b < perm.len() ==> placed_before(players@, games, perm@[a] as int, perm@[b] as int),
{
    let n = players.len();
    let mut perm: Vec<usize> = Vec::new();
    for i in 0..n
        invariant
            n == players.len(),
            keyed(keys@, players@, games),
            perm.len() == i,
            forall|k: int| 0 <= k < perm.len() ==> #[trigger] perm@[k] < i,
            forall|q: int| 0 <= q < i ==> #[trigger] perm@.contains(q as usize),
            forall|a: int, b: int|
                0 <= a < b < perm.len() ==> placed_before(players@, games, perm@[a] as int, perm@[b] as int),
    {
        let mut pos: usize = 0;
        loop
            invariant
                n == players.len(),
                keyed(keys@, players@, games),
                perm.len() == i,
                i < n,
                pos <= perm.len(),
                forall|k: int| 0 <= k < perm.len() ==> #[trigger] perm@[k] < i,
                forall|k: int| 0 <= k < pos ==> placed_before(players@, games, perm@[k] as int, i as int),
            ensures
                pos <= perm.len(),
                forall|k: int| 0 <= k < pos ==> placed_before(players@, games, perm@[k] as int, i as int),
                pos < perm.len() ==> !placed_before(players@, games, perm@[pos as int] as int, i as int),
            decreases perm.len() - pos,
        {
            if pos == perm.len() {
                break;
            }
            if !placed_before_exec(keys, players, perm[pos], i, Ghost(games)) {
                break;
            }
            pos = pos + 1;
        }
        let ghost old_perm = perm@;
        proof {
            if pos < old_perm.len() {
                lemma_placement_order(players@, games, old_perm[pos as int] as int, i as int, 0);
                assert(placed_before(players@, games, i as int, old_perm[pos as int] as int));
                assert forall|b: int| pos < b < old_perm.len() implies placed_before(
                    players@,
                    games,
                    i as int,
                    old_perm[b] as int,
                ) by {
                    lemma_placement_order(
                        players@,
                        games,
                        i as int,
                        old_perm[pos as int] as int,
                        old_perm[b] as int,
                    );
                }
            }
        }
        perm.insert(pos, i);
        proof {
            assert forall|q: int| 0 <= q < i + 1 implies #[trigger] perm@.contains(q as usize) by {
                if q == i {
                    assert(perm@[pos as int] == q as usize);
                } else {
                    assert(old_perm.contains(q as usize));
                    let w = choose|w: int| 0 <= w < old_perm.len() && old_perm[w] == q as usize;
                    if w < pos {
                        assert(perm@[w] == q as usize);
                    } else {
                        assert(perm@[w + 1] == q as usize);
                    }
                }
            }
            assert forall|a: int, b: int| 0 <= a < b < perm.len() implies placed_before(
                players@,
                games,
                perm@[a] as int,
                perm@[b] as int,
            ) by {
                if a < pos && b == pos {
                } else if a < pos && b > pos {
                    assert(perm@[b] == old_perm[b - 1]);
                } else if a == pos {
                    assert(perm@[b] == old_perm[b - 1]);
                    if b - 1 == pos {
                    }
                } else if a > pos {
                    assert(perm@[a] == old_perm[a - 1]);
                    assert(perm@[b] == old_perm[b - 1]);
                }
            }
        }
    }
    perm
}

/// The standings of the players over the games (the games being the confirmed
/// games of a tournament): one line per player with their match and game
/// record, in ranking order, ranked from 1.  `None` exactly when adding up
/// some player's record in `i64` would overflow.
pub fn compute_standings(players: &Vec<PlayerInfo>, games: &Vec<GameRow>) -> (r: Option<Vec<Standing>>)
    ensures
        r is Some <==> all_records_fit(players@, games@),
        r matches Some(out) ==> standings_of(players@, games@, out@),
{
    let n = players.len();
    let mut tallies: Vec<Tally> = Vec::new();
    let mut keys: Vec<Key> = Vec::new();
    for i in 0..n
        invariant
            n == players.len(),
            tallies.len() == i,
            keys.len() == i,
            forall|k: int|
                0 <= k < i ==> #[trigger] tallies@[k]@ == player_record(players@[k].id, games@),
            forall|k: int|
                0 <= k < i ==> key_is(#[trigger] keys@[k], player_record(players@[k].id, games@)),
            forall|k: int| 0 <= k < i ==> record_fits(#[trigger] players@[k].id, games@),
    {
        match tally_player(players[i].id, games) {
            None => {
                return None;
            },
            Some(t) => {
                let ghost r = player_record(players@[i as int].id, games@);
                proof {
                    lemma_match_counts_nonnegative(players@[i as int].id, games@);
                }
                let k = key_of(&t, Ghost(r));
                tallies.push(t);
                keys.push(k);
            },
        }
    }
    let perm = order_players(&keys, players, Ghost(games@));
    let mut out: Vec<Standing> = Vec::new();
    for k in 0..n
        invariant
            n == players.len(),
            perm.len() == n,
            tallies.len() == n,
            forall|q: int| 0 <= q < perm.len() ==> #[trigger] perm@[q] < n,
            forall|q: int|
                0 <= q < n ==> #[trigger] tallies@[q]@ == player_record(players@[q].id, games@),
            forall|q: int| 0 <= q < n ==> record_fits(#[trigger] players@[q].id, games@),
            out.len() == k,
            forall|q: int| 0 <= q < k ==> #[trigger] out@[q].rank == q + 1,
            forall|q: int|
                0 <= q < k ==> standing_reports(
                    #[trigger] out@[q],
                    players@[perm@[q] as int],
                    player_record(players@[perm@[q] as int].id, games@),
                ),
    {
        let idx = perm[k];
        let t = tallies[idx];
        assert(record_fits(players@[idx as int].id, games@));
        assert(tallies@[idx as int]@ == player_record(players@[idx as int].id, games@));
        assert(totals_fit(t@));
        let s = Standing {
            rank: k + 1,
            player_id: players[idx].id,
            player_name: players[idx].name.clone(),
            match_wins: t.match_wins,
            match_draws: t.match_draws,
            match_losses: t.match_losses,
            total_matches: t.match_wins + t.match_draws + t.match_losses,
            match_points: 3 * t.match_wins + t.match_draws,
            game_wins: t.game_wins,
            game_losses: t.game_losses,
            game_draws_count: t.game_draws,
            total_games: t.game_wins + t.game_losses + t.game_draws,
        };
        out.push(s);
    }
    proof {
        let ip = perm@.map_values(|x: usize| x as int);
        assert forall|i: int| 0 <= i < n implies #[trigger] ip.contains(i) by {
            assert(perm@.contains(i as usize));
            let w = choose|w: int| 0 <= w < perm@.len() && perm@[w] == i as usize;
            assert(ip[w] == i);
        }
        assert forall|a: int, b: int| 0 <= a < b < n implies ip[a] != ip[b] by {
            lemma_placement_order(players@, games@, ip[a], ip[b], 0);
        }
        assert(lines_follow(players@, games@, out@, ip));
    }
    Some(out)
}

// ── Laws ─────────────────────────────────────────────────────────────────────

/// A game counts for its two players as mirror images: one's match win is
/// the other's match loss, one's game wins are the other's game losses, and
/// the drawn match and drawn games count for both.
pub proof fn lemma_game_counts_mirrored(g: GameRow)
    requires
        g.reporter_id != g.opponent_id,
    ensures
        game_record(g.reporter_id, g).match_wins == game_record(g.opponent_id, g).match_losses,
        game_record(g.reporter_id, g).match_losses == game_record(g.opponent_id, g).match_wins,
        game_record(g.reporter_id, g).match_draws == game_record(g.opponent_id, g).match_draws,
        game_record(g.reporter_id, g).game_wins == game_record(g.opponent_id, g).game_losses,
        game_record(g.reporter_id, g).game_losses == game_record(g.opponent_id, g).game_wins,
        game_record(g.reporter_id, g).game_draws == game_record(g.opponent_id, g).game_draws,
{
}

/// A game is a match win, a match draw or a match loss for each of its
/// players, exactly one of them, and nothing for anyone else.
pub proof fn lemma_one_match_per_game(player_id: i64, g: GameRow)
    ensures
        plays_in(player_id, g) ==> total_matches(game_record(player_id, g)) == 1,
        !plays_in(player_id, g) ==> game_record(player_id, g) == empty_record(),
{
}

/// The winner a game's response names is the player whom the standings
/// credit with the match win; a drawn response is a drawn match for both.
pub proof fn lemma_match_result_agrees(g: GameRow)
    requires
        g.reporter_id != g.opponent_id,
    ensures
        match_result_text(g.reporter_game_wins as int, g.opponent_game_wins as int)
            == "reporter_win"@ <==> game_record(g.reporter_id, g).match_wins == 1,
        match_result_text(g.reporter_game_wins as int, g.opponent_game_wins as int)
            == "opponent_win"@ <==> game_record(g.opponent_id, g).match_wins == 1,
        match_result_text(g.reporter_game_wins as int, g.opponent_game_wins as int) == "draw"@
            <==> game_record(g.reporter_id, g).match_draws == 1 && game_record(
            g.opponent_id,
            g,
        ).match_draws == 1,
{
    reveal_strlit("reporter_win");
    reveal_strlit("opponent_win");
    reveal_strlit("draw");
    assert("reporter_win"@[0] != "opponent_win"@[0]);
    assert("reporter_win"@.len() != "draw"@.len());
    assert("opponent_win"@.len() != "draw"@.len());
}

/// The sum of `f` over the players' records.
pub open spec fn sum_over_players(
    players: Seq<PlayerInfo>,
    games: Seq<GameRow>,
    f: spec_fn(Record) -> int,
) -> int
    decreases players.len(),
{
    if players.len() == 0 {
        0
    } else {
        sum_over_players(players.drop_last(), games, f) + f(
            player_record(players.last().id, games),
        )
    }
}

/// The sum of `f` over what one game adds to each player's record.
pub open spec fn sum_over_game(players: Seq<PlayerInfo>, g: GameRow, f: spec_fn(Record) -> int) -> int
    decreases players.len(),
{
    if players.len() == 0 {
        0
    } else {
        sum_over_game(players.drop_last(), g, f) + f(game_record(players.last().id, g))
    }
}

pub open spec fn additive(f: spec_fn(Record) -> int) -> bool {
    &&& forall|a: Record, b: Record| #[trigger] f(add_records(a, b)) == f(a) + f(b)
    &&& f(empty_record()) == 0
}

pub open spec fn has_player(players: Seq<PlayerInfo>, id: i64) -> bool {
    exists|k: int| 0 <= k < players.len() && players[k].id == id
}

pub open spec fn distinct_ids(players: Seq<PlayerInfo>) -> bool {
    forall|a: int, b: int| 0 <= a < b < players.len() ==> players[a].id != players[b].id
}

proof fn lemma_sum_split(players: Seq<PlayerInfo>, games: Seq<GameRow>, f: spec_fn(Record) -> int)
    requires
        games.len() > 0,
        additive(f),
    ensures
        sum_over_players(players, games, f) == sum_over_players(players, games.drop_last(), f)
            + sum_over_game(players, games.last(), f),
    decreases players.len(),
{
    if players.len() > 0 {
        lemma_sum_split(players.drop_last(), games, f);
        let id = players.last().id;
        assert(f(player_record(id, games)) == f(player_record(id, games.drop_last())) + f(
            game_record(id, games.last()),
        ));
    }
}

proof fn lemma_sum_of_game(players: Seq<PlayerInfo>, g: GameRow, f: spec_fn(Record) -> int)
    requires
        additive(f),
        distinct_ids(players),
        g.reporter_id != g.opponent_id,
    ensures
        sum_over_game(players, g, f) == (if has_player(players, g.reporter_id) {
            f(game_record(g.reporter_id, g))
        } else {
            0
        }) + (if has_player(players, g.opponent_id) {
            f(game_record(g.opponent_id, g))
        } else {
            0
        }),
    decreases players.len(),
{
    if players.len() > 0 {
        let rest = players.drop_last();
        let last = players.last();
        assert(distinct_ids(rest));
        lemma_sum_of_game(rest, g, f);
        assert forall|id: i64| has_player(players, id) <==> has_player(rest, id) || last.id == id by {
            if has_player(players, id) {
                let k = choose|k: int| 0 <= k < players.len() && players[k].id == id;
                if k < players.len() - 1 {
                    assert(rest[k].id == id);
                }
            }
            if has_player(rest, id) {
                let k = choose|k: int| 0 <= k < rest.len() && rest[k].id == id;
                assert(players[k].id == id);
            }
            if last.id == id {
                assert(players[players.len() - 1].id == id);
            }
        }
        assert forall|k: int| 0 <= k < rest.len() implies rest[k].id != last.id by {
            assert(players[k].id != players[players.len() - 1].id);
        }
        if last.id == g.reporter_id {
            assert(!has_player(rest, g.reporter_id));
        } else if last.id == g.opponent_id {
            assert(!has_player(rest, g.opponent_id));
        } else {
            assert(game_record(last.id, g) == empty_record());
        }
    }
}

proof fn lemma_balanced_sum(
    players: Seq<PlayerInfo>,
    games: Seq<GameRow>,
    f: spec_fn(Record) -> int,
)
    requires
        additive(f),
        forall|g: GameRow| g.reporter_id != g.opponent_id ==> #[trigger] f(game_record(g.reporter_id, g)) + f(
            game_record(g.opponent_id, g),
        ) == 0,
        distinct_ids(players),
        forall|i: int|
            0 <= i < games.len() ==> {
                &&& (#[trigger] games[i]).reporter_id != games[i].opponent_id
                &&& has_player(players, games[i].reporter_id)
                &&& has_player(players, games[i].opponent_id)
            },
    ensures
        sum_over_players(players, games, f) == 0,
    decreases games.len(),
{
    if games.len() == 0 {
        lemma_sum_of_empty(players, games, f);
    } else {
        lemma_sum_split(players, games, f);
        let g = games.last();
        assert(g == games[games.len() - 1]);
        lemma_sum_of_game(players, g, f);
        assert(f(game_record(g.reporter_id, g)) + f(game_record(g.opponent_id, g)) == 0);
        lemma_balanced_sum(players, games.drop_last(), f);
    }
}

proof fn lemma_paired_sum_even(
    players: Seq<PlayerInfo>,
    games: Seq<GameRow>,
    f: spec_fn(Record) -> int,
)
    requires
        additive(f),
        forall|g: GameRow| g.reporter_id != g.opponent_id ==> (#[trigger] f(game_record(g.reporter_id, g)) + f(
            game_record(g.opponent_id, g),
        )) % 2 == 0,
        distinct_ids(players),
        forall|i: int|
            0 <= i < games.len() ==> {
                &&& (#[trigger] games[i]).reporter_id != games[i].opponent_id
                &&& has_player(players, games[i].reporter_id)
                &&& has_player(players, games[i].opponent_id)
            },
    ensures
        sum_over_players(players, games, f) % 2 == 0,
    decreases games.len(),
{
    if games.len() == 0 {
        lemma_sum_of_empty(players, games, f);
    } else {
        lemma_sum_split(players, games, f);
        let g = games.last();
        assert(g == games[games.len() - 1]);
        lemma_sum_of_game(players, g, f);
        assert((f(game_record(g.reporter_id, g)) + f(game_record(g.opponent_id, g))) % 2 == 0);
        lemma_paired_sum_even(players, games.drop_last(), f);
    }
}

proof fn lemma_sum_of_empty(players: Seq<PlayerInfo>, games: Seq<GameRow>, f: spec_fn(Record) -> int)
    requires
        additive(f),
        games.len() == 0,
    ensures
        sum_over_players(players, games, f) == 0,
    decreases players.len(),
{
    if players.len() > 0 {
        lemma_sum_of_empty(players.drop_last(), games, f);
    }
}

/// When every game is between two different players of the list, and no
/// player is listed twice, the standings balance: the players' match wins add
/// up to their match losses, and their game wins to their game losses; and
/// since a drawn match, like a drawn game, counts for both players, the
/// players' match draws and game draws each add up to an even number.
pub proof fn lemma_standings_balance(players: Seq<PlayerInfo>, games: Seq<GameRow>)
    requires
        distinct_ids(players),
        forall|i: int|
            0 <= i < games.len() ==> {
                &&& (#[trigger] games[i]).reporter_id != games[i].opponent_id
                &&& has_player(players, games[i].reporter_id)
                &&& has_player(players, games[i].opponent_id)
            },
    ensures
        sum_over_players(players, games, |r: Record| r.match_wins) == sum_over_players(
            players,
            games,
            |r: Record| r.match_losses,
        ),
        sum_over_players(players, games, |r: Record| r.game_wins) == sum_over_players(
            players,
            games,
            |r: Record| r.game_losses,
        ),
        sum_over_players(players, games, |r: Record| r.match_draws) % 2 == 0,
        sum_over_players(players, games, |r: Record| r.game_draws) % 2 == 0,
{
    let match_draws = |r: Record| r.match_draws;
    let game_draws = |r: Record| r.game_draws;
    assert forall|g: GameRow| g.reporter_id != g.opponent_id implies (#[trigger] match_draws(
        game_record(g.reporter_id, g),
    ) + match_draws(game_record(g.opponent_id, g))) % 2 == 0 by {
        lemma_game_counts_mirrored(g);
    }
    assert forall|g: GameRow| g.reporter_id != g.opponent_id implies (#[trigger] game_draws(
        game_record(g.reporter_id, g),
    ) + game_draws(game_record(g.opponent_id, g))) % 2 == 0 by {
        lemma_game_counts_mirrored(g);
    }
    lemma_paired_sum_even(players, games, match_draws);
    lemma_paired_sum_even(players, games, game_draws);
    let net_matches = |r: Record| r.match_wins - r.match_losses;
    let net_games = |r: Record| r.game_wins - r.game_losses;
    assert forall|g: GameRow| g.reporter_id != g.opponent_id implies #[trigger] net_matches(
        game_record(g.reporter_id, g),
    ) + net_matches(game_record(g.opponent_id, g)) == 0 by {
        lemma_game_counts_mirrored(g);
    }
    assert forall|g: GameRow| g.reporter_id != g.opponent_id implies #[trigger] net_games(
        game_record(g.reporter_id, g),
    ) + net_games(game_record(g.opponent_id, g)) == 0 by {
        lemma_game_counts_mirrored(g);
    }
    lemma_balanced_sum(players, games, net_matches);
    lemma_balanced_sum(players, games, net_games);
    lemma_sum_difference(players, games, |r: Record| r.match_wins, |r: Record| r.match_losses, net_matches);
    lemma_sum_difference(players, games, |r: Record| r.game_wins, |r: Record| r.game_losses, net_games);
}

proof fn lemma_sum_difference(
    players: Seq<PlayerInfo>,
    games: Seq<GameRow>,
    f: spec_fn(Record) -> int,
    g: spec_fn(Record) -> int,
    d: spec_fn(Record) -> int,
)
    requires
        forall|r: Record| #[trigger] d(r) == f(r) - g(r),
    ensures
        sum_over_players(players, games, d) == sum_over_players(players, games, f) - sum_over_players(
            players,
            games,
            g,
        ),
    decreases players.len(),
{
    if players.len() > 0 {
        lemma_sum_difference(players.drop_last(), games, f, g, d);
        let r = player_record(players.last().id, games);
        assert(d(r) == f(r) - g(r));
    }
}

proof fn lemma_sorted_orderings_equal(
    players: Seq<PlayerInfo>,
    games: Seq<GameRow>,
    a: Seq<int>,
    b: Seq<int>,
)
    requires
        a.len() == b.len(),
        forall|k: int| 0 <= k < a.len() ==> 0 <= #[trigger] a[k] < players.len(),
        forall|k: int| 0 <= k < b.len() ==> 0 <= #[trigger] b[k] < players.len(),
        forall|x: int| a.contains(x) <==> b.contains(x),
        forall|i: int, j: int| 0 <= i < j < a.len() ==> placed_before(players, games, a[i], a[j]),
        forall|i: int, j: int| 0 <= i < j < b.len() ==> placed_before(players, games, b[i], b[j]),
    ensures
        a == b,
    decreases a.len(),
{
    if a.len() > 0 {
        assert(a.contains(a[0]));
        assert(b.contains(b[0]));
        let i = choose|i: int| 0 <= i < a.len() && a[i] == b[0];
        let j = choose|j: int| 0 <= j < b.len() && b[j] == a[0];
        if a[0] != b[0] {
            assert(i > 0 && j > 0);
            assert(placed_before(players, games, a[0], b[0]));
            assert(placed_before(players, games, b[0], a[0]));
            lemma_placement_order(players, games, a[0], b[0], 0);
        }
        let ta = a.drop_first();
        let tb = b.drop_first();
        assert forall|x: int| ta.contains(x) <==> tb.contains(x) by {
            if ta.contains(x) {
                let k = choose|k: int| 0 <= k < ta.len() && ta[k] == x;
                assert(a[k + 1] == x);
                if x == a[0] {
                    lemma_placement_order(players, games, a[0], a[0], 0);
                }
                assert(b.contains(x));
                let m = choose|m: int| 0 <= m < b.len() && b[m] == x;
                assert(m != 0);
                assert(tb[m - 1] == x);
            }
            if tb.contains(x) {
                let k = choose|k: int| 0 <= k < tb.len() && tb[k] == x;
                assert(b[k + 1] == x);
                if x == b[0] {
                    lemma_placement_order(players, games, b[0], b[0], 0);
                }
                assert(a.contains(x));
                let m = choose|m: int| 0 <= m < a.len() && a[m] == x;
                assert(m != 0);
                assert(ta[m - 1] == x);
            }
        }
        assert forall|i: int, j: int| 0 <= i < j < ta.len() implies placed_before(
            players,
            games,
            ta[i],
            ta[j],
        ) by {
            assert(ta[i] == a[i + 1] && ta[j] == a[j + 1]);
        }
        assert forall|i: int, j: int| 0 <= i < j < tb.len() implies placed_before(
            players,
            games,
            tb[i],
            tb[j],
        ) by {
            assert(tb[i] == b[i + 1] && tb[j] == b[j + 1]);
        }
        lemma_sorted_orderings_equal(players, games, ta, tb);
        assert(a =~= b) by {
            assert forall|k: int| 0 <= k < a.len() implies a[k] == b[k] by {
                if k > 0 {
                    assert(a[k] == ta[k - 1]);
                    assert(b[k] == tb[k - 1]);
                }
            }
        }
    }
}

/// The standings are determined by the players and the games: two lists that
/// both are standings of them are the same list.
pub proof fn lemma_standings_determined(
    players: Seq<PlayerInfo>,
    games: Seq<GameRow>,
    out1: Seq<Standing>,
    out2: Seq<Standing>,
)
    requires
        standings_of(players, games, out1),
        standings_of(players, games, out2),
    ensures
        out1 == out2,
{
    let p1 = choose|perm: Seq<int>| lines_follow(players, games, out1, perm);
    let p2 = choose|perm: Seq<int>| lines_follow(players, games, out2, perm);
    let n = players.len() as int;
    assert forall|x: int| p1.contains(x) <==> p2.contains(x) by {
        if p1.contains(x) {
            let k = choose|k: int| 0 <= k < p1.len() && p1[k] == x;
            assert(0 <= p1[k] < n);
            assert(p2.contains(x));
        }
        if p2.contains(x) {
            let k = choose|k: int| 0 <= k < p2.len() && p2[k] == x;
            assert(0 <= p2[k] < n);
            assert(p1.contains(x));
        }
    }
    lemma_sorted_orderings_equal(players, games, p1, p2);
    assert forall|k: int| 0 <= k < out1.len() implies out1[k] == out2[k] by {
        assert(standing_reports(out1[k], players[p1[k]], player_record(players[p1[k]].id, games)));
        assert(standing_reports(out2[k], players[p2[k]], player_record(players[p2[k]].id, games)));
        assert(out1[k].rank == k + 1);
        assert(out2[k].rank == k + 1);
    }
    assert(out1 =~= out2);
}

/// Adding one game to the games adds exactly its counts to a player's
/// record: to the reporter, a match win, draw or loss by whether they won
/// more, fewer or as many games, its reporter wins as game wins, its
/// opponent wins as game losses, and all of its drawn games, whatever the
/// match outcome; mirrored for the opponent; nothing for anyone else.
pub proof fn lemma_record_grows_by_game(player_id: i64, games: Seq<GameRow>, g: GameRow)
    ensures
        ({
            let before = player_record(player_id, games);
            let after = player_record(player_id, games.push(g));
            let rw = g.reporter_game_wins as int;
            let ow = g.opponent_game_wins as int;
            &&& g.reporter_id == player_id ==> {
                &&& after.match_wins == before.match_wins + if rw > ow { 1int } else { 0 }
                &&& after.match_draws == before.match_draws + if rw == ow { 1int } else { 0 }
                &&& after.match_losses == before.match_losses + if rw < ow { 1int } else { 0 }
                &&& after.game_wins == before.game_wins + rw
                &&& after.game_losses == before.game_losses + ow
                &&& after.game_draws == before.game_draws + g.game_draws
            }
            &&& (g.reporter_id != player_id && g.opponent_id == player_id) ==> {
                &&& after.match_wins == before.match_wins + if ow > rw { 1int } else { 0 }
                &&& after.match_draws == before.match_draws + if rw == ow { 1int } else { 0 }
                &&& after.match_losses == before.match_losses + if ow < rw { 1int } else { 0 }
                &&& after.game_wins == before.game_wins + ow
                &&& after.game_losses == before.game_losses + rw
                &&& after.game_draws == before.game_draws + g.game_draws
            }
            &&& (g.reporter_id != player_id && g.opponent_id != player_id) ==> after == before
        }),
        player_record(player_id, Seq::<GameRow>::empty()) == empty_record(),
{
    assert(games.push(g).drop_last() =~= games);
}

/// The rates a line of the standings is ranked by, from its own fields:
/// (match points, 3 x matches), and (game wins, games), each 0 without any.
pub open spec fn line_rates(s: Standing) -> ((int, int), (int, int)) {
    (
        if s.total_matches > 0 {
            (s.match_points as int, 3 * s.total_matches)
        } else {
            (0, 1)
        },
        if s.total_games > 0 {
            (s.game_wins as int, s.total_games as int)
        } else {
            (0, 1)
        },
    )
}

/// Line `a` may stand before line `b`: a greater match points rate, or the
/// same and a greater game win rate, or both the same and a name that is not
/// after `b`'s.
pub open spec fn line_not_below(a: Standing, b: Standing) -> bool {
    let ((am, ad), (ag, agd)) = line_rates(a);
    let ((bm, bd), (bg, bgd)) = line_rates(b);
    ||| am * bd > bm * ad
    ||| am * bd == bm * ad && ag * bgd > bg * agd
    ||| am * bd == bm * ad && ag * bgd == bg * agd && (text_lt(a.player_name@, b.player_name@)
        || a.player_name@ == b.player_name@)
}

/// What every line of the standings says, in its own fields: match points
/// are 3 per win and 1 per draw, matches are wins + draws + losses, games are
/// game wins + game losses + drawn games, and the record is the player's own
/// over the games; and the lines stand in ranking order: match points rate
/// (3W + D) / (3N), then game win rate, then name.
pub proof fn lemma_standings_lines(players: Seq<PlayerInfo>, games: Seq<GameRow>, out: Seq<Standing>)
    requires
        standings_of(players, games, out),
    ensures
        forall|k: int|
            0 <= k < out.len() ==> {
                &&& (#[trigger] out[k]).match_points == 3 * out[k].match_wins + out[k].match_draws
                &&& out[k].total_matches == out[k].match_wins + out[k].match_draws
                    + out[k].match_losses
                &&& out[k].total_games == out[k].game_wins + out[k].game_losses
                    + out[k].game_draws_count
                &&& out[k].rank == k + 1
                &&& exists|i: int|
                    0 <= i < players.len() && players[i].id == out[k].player_id
                        && players[i].name == out[k].player_name && out[k].game_draws_count
                        == player_record(players[i].id, games).game_draws
                        && out[k].game_wins == player_record(players[i].id, games).game_wins
                        && out[k].match_wins == player_record(players[i].id, games).match_wins
                        && out[k].match_draws == player_record(players[i].id, games).match_draws
            },
        forall|k: int, l: int| 0 <= k < l < out.len() ==> line_not_below(out[k], out[l]),
{
    let perm = choose|perm: Seq<int>| lines_follow(players, games, out, perm);
    assert forall|k: int| 0 <= k < out.len() implies {
        &&& (#[trigger] out[k]).match_points == 3 * out[k].match_wins + out[k].match_draws
        &&& out[k].total_matches == out[k].match_wins + out[k].match_draws + out[k].match_losses
        &&& out[k].total_games == out[k].game_wins + out[k].game_losses + out[k].game_draws_count
        &&& out[k].rank == k + 1
        &&& exists|i: int|
            0 <= i < players.len() && players[i].id == out[k].player_id && players[i].name
                == out[k].player_name && out[k].game_draws_count == player_record(
                players[i].id,
                games,
            ).game_draws && out[k].game_wins == player_record(players[i].id, games).game_wins
                && out[k].match_wins == player_record(players[i].id, games).match_wins
                && out[k].match_draws == player_record(players[i].id, games).match_draws
    } by {
        assert(standing_reports(out[k], players[perm[k]], player_record(players[perm[k]].id, games)));
        assert(0 <= perm[k] < players.len());
    }
    assert forall|k: int, l: int| 0 <= k < l < out.len() implies line_not_below(out[k], out[l]) by {
        let i = perm[k];
        let j = perm[l];
        assert(standing_reports(out[k], players[i], player_record(players[i].id, games)));
        assert(standing_reports(out[l], players[j], player_record(players[j].id, games)));
        assert(placed_before(players, games, i, j));
    }
}

} // verus!
