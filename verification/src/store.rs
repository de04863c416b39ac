//! A model of what the store holds, and the laws the endpoints keep of it.
//!
//! The endpoints ask the store questions (counts of games, tournaments,
//! memberships) and write rows according to the answers.  Here the rows that
//! those questions and writes touch are modelled as sequences and sets; the
//! laws say that the writes the endpoints make, given the store's true
//! answers, keep the store's invariants.
use vstd::prelude::*;

use crate::handlers::{admissible_game, NewGameView};

verus! {

/// A game row, as far as the store's invariants concern it.
pub struct StoredGame {
    pub id: int,
    pub tournament_id: i64,
    pub reporter_id: i64,
    pub opponent_id: i64,
    pub status: Seq<char>,
}

/// A tournament row, as far as the store's invariants concern it.
pub struct StoredTournament {
    pub id: i64,
    pub active: bool,
}

pub open spec fn pending_status() -> Seq<char> {
    "pending"@
}

pub open spec fn confirmed_status() -> Seq<char> {
    "confirmed"@
}

/// The game is between players `a` and `b`, either way round.
pub open spec fn same_pair(g: StoredGame, a: i64, b: i64) -> bool {
    ||| (g.reporter_id == a && g.opponent_id == b)
    ||| (g.reporter_id == b && g.opponent_id == a)
}

/// What the report flow's pending-game count counts: pending games of the
/// tournament between the two players, either way round.
pub open spec fn pending_between(g: StoredGame, tournament_id: i64, a: i64, b: i64) -> bool {
    &&& g.tournament_id == tournament_id
    &&& g.status == pending_status()
    &&& same_pair(g, a, b)
}

pub open spec fn count_pending_between(
    games: Seq<StoredGame>,
    tournament_id: i64,
    a: i64,
    b: i64,
) -> nat
    decreases games.len(),
{
    if games.len() == 0 {
        0
    } else {
        count_pending_between(games.drop_last(), tournament_id, a, b) + if pending_between(
            games.last(),
            tournament_id,
            a,
            b,
        ) {
            1nat
        } else {
            0nat
        }
    }
}

/// In every tournament, at most one game between any two players is pending.
pub open spec fn one_pending_per_pair(games: Seq<StoredGame>) -> bool {
    forall|i: int, j: int|
        #![trigger games[i], games[j]]
        0 <= i < j < games.len() && games[i].status == pending_status() ==> !pending_between(
            games[j],
            games[i].tournament_id,
            games[i].reporter_id,
            games[i].opponent_id,
        )
}

/// No game is recorded between a player and themselves.
pub open spec fn no_self_games(games: Seq<StoredGame>) -> bool {
    forall|i: int| 0 <= i < games.len() ==> (#[trigger] games[i]).reporter_id != games[i].opponent_id
}

/// The row a recorded game becomes: pending when reported, confirmed when
/// an admin created it.
pub open spec fn stored_game(g: NewGameView, id: int) -> StoredGame {
    StoredGame {
        id,
        tournament_id: g.tournament_id,
        reporter_id: g.reporter_id,
        opponent_id: g.opponent_id,
        status: if g.confirmed {
            confirmed_status()
        } else {
            pending_status()
        },
    }
}

/// The store's games after game `id` changed to `status`.
pub open spec fn with_status(games: Seq<StoredGame>, id: int, status: Seq<char>) -> Seq<StoredGame> {
    Seq::new(
        games.len(),
        |i: int|
            if games[i].id == id {
                StoredGame { status, ..games[i] }
            } else {
                games[i]
            },
    )
}

proof fn lemma_no_pending_between(games: Seq<StoredGame>, tournament_id: i64, a: i64, b: i64)
    requires
        count_pending_between(games, tournament_id, a, b) == 0,
    ensures
        forall|i: int| 0 <= i < games.len() ==> !pending_between(#[trigger] games[i], tournament_id, a, b),
    decreases games.len(),
{
    if games.len() > 0 {
        lemma_no_pending_between(games.drop_last(), tournament_id, a, b);
        assert forall|i: int| 0 <= i < games.len() implies !pending_between(
            #[trigger] games[i],
            tournament_id,
            a,
            b,
        ) by {
            if i < games.len() - 1 {
                assert(games[i] == games.drop_last()[i]);
            }
        }
    }
}

/// Recording a game that passed its flow's checks, where the store answered
/// the flow's pending-game count truly, keeps at most one pending game per
/// pair of players in each tournament, and keeps games between two different
/// players.  (A refused report writes nothing, so it keeps them too.)
pub proof fn lemma_recording_keeps_store_laws(games: Seq<StoredGame>, g: NewGameView, id: int)
    requires
        admissible_game(g),
        !g.confirmed ==> g.checks.pending_between == Some(
            count_pending_between(games, g.tournament_id, g.reporter_id, g.opponent_id) as int,
        ),
    ensures
        one_pending_per_pair(games) ==> one_pending_per_pair(games.push(stored_game(g, id))),
        no_self_games(games) ==> no_self_games(games.push(stored_game(g, id))),
{
    reveal_strlit("pending");
    reveal_strlit("confirmed");
    assert(pending_status() != confirmed_status()) by {
        assert(pending_status()[0] != confirmed_status()[0]);
    }
    let s = games.push(stored_game(g, id));
    let n = games.len() as int;
    if !g.confirmed {
        lemma_no_pending_between(games, g.tournament_id, g.reporter_id, g.opponent_id);
    }
    if one_pending_per_pair(games) {
        assert forall|i: int, j: int|
            #![trigger s[i], s[j]]
            0 <= i < j < s.len() && s[i].status == pending_status() implies !pending_between(
            s[j],
            s[i].tournament_id,
            s[i].reporter_id,
            s[i].opponent_id,
        ) by {
            if j < n {
                assert(s[i] == games[i] && s[j] == games[j]);
            } else {
                assert(s[i] == games[i]);
                if !g.confirmed && pending_between(
                    s[j],
                    s[i].tournament_id,
                    s[i].reporter_id,
                    s[i].opponent_id,
                ) {
                    assert(pending_between(games[i], g.tournament_id, g.reporter_id, g.opponent_id));
                }
            }
        }
    }
    if no_self_games(games) {
        assert forall|i: int| 0 <= i < s.len() implies (#[trigger] s[i]).reporter_id
            != s[i].opponent_id by {
            if i < n {
                assert(s[i] == games[i]);
            }
        }
    }
}

/// Moving a game out of pending (confirmed by its opponent or an admin, or
/// disputed) keeps at most one pending game per pair, and changes no players.
pub proof fn lemma_resolving_keeps_store_laws(games: Seq<StoredGame>, id: int, status: Seq<char>)
    requires
        status != pending_status(),
    ensures
        one_pending_per_pair(games) ==> one_pending_per_pair(with_status(games, id, status)),
        no_self_games(games) ==> no_self_games(with_status(games, id, status)),
{
    let s = with_status(games, id, status);
    if one_pending_per_pair(games) {
        assert forall|i: int, j: int|
            #![trigger s[i], s[j]]
            0 <= i < j < s.len() && s[i].status == pending_status() implies !pending_between(
            s[j],
            s[i].tournament_id,
            s[i].reporter_id,
            s[i].opponent_id,
        ) by {
            assert(s[i].id != id);
            assert(s[i] == games[i]);
            if games[j].id != id {
                assert(s[j] == games[j]);
            }
        }
    }
    if no_self_games(games) {
        assert forall|i: int| 0 <= i < s.len() implies (#[trigger] s[i]).reporter_id
            != s[i].opponent_id by {
            assert(games[i].reporter_id != games[i].opponent_id);
        }
    }
}

// ── Tournaments ──────────────────────────────────────────────────────────────

pub open spec fn count_active(tournaments: Seq<StoredTournament>) -> nat
    decreases tournaments.len(),
{
    if tournaments.len() == 0 {
        0
    } else {
        count_active(tournaments.drop_last()) + if tournaments.last().active {
            1nat
        } else {
            0nat
        }
    }
}

/// At most one tournament is active.
pub open spec fn one_active(tournaments: Seq<StoredTournament>) -> bool {
    forall|i: int, j: int|
        0 <= i < j < tournaments.len() ==> !((#[trigger] tournaments[i]).active
            && (#[trigger] tournaments[j]).active)
}

/// What the tournament flow opens a new tournament on: the count of active
/// tournaments it was given is not positive (see `NewTournament::active_count`).
pub open spec fn opens_tournament(active_count: int) -> bool {
    active_count <= 0
}

/// The tournaments after tournament `id` is archived.
pub open spec fn archived(tournaments: Seq<StoredTournament>, id: i64) -> Seq<StoredTournament> {
    Seq::new(
        tournaments.len(),
        |i: int|
            if tournaments[i].id == id {
                StoredTournament { active: false, ..tournaments[i] }
            } else {
                tournaments[i]
            },
    )
}

proof fn lemma_none_active(tournaments: Seq<StoredTournament>)
    requires
        count_active(tournaments) == 0,
    ensures
        forall|i: int| 0 <= i < tournaments.len() ==> !(#[trigger] tournaments[i]).active,
    decreases tournaments.len(),
{
    if tournaments.len() > 0 {
        lemma_none_active(tournaments.drop_last());
        assert forall|i: int| 0 <= i < tournaments.len() implies !(
        #[trigger] tournaments[i]).active by {
            if i < tournaments.len() - 1 {
                assert(tournaments[i] == tournaments.drop_last()[i]);
            }
        }
    }
}

/// A new tournament is opened, active, only when the store truly counts no
/// active one; so at most one tournament is ever active.  Archiving keeps it.
pub proof fn lemma_one_active_tournament(tournaments: Seq<StoredTournament>, id: i64)
    ensures
        one_active(tournaments) && opens_tournament(count_active(tournaments) as int) ==> one_active(
            tournaments.push(StoredTournament { id, active: true }),
        ),
        one_active(tournaments) ==> one_active(archived(tournaments, id)),
{
    let s = tournaments.push(StoredTournament { id, active: true });
    if one_active(tournaments) && opens_tournament(count_active(tournaments) as int) {
        lemma_none_active(tournaments);
        assert forall|i: int, j: int| 0 <= i < j < s.len() implies !((#[trigger] s[i]).active
            && (#[trigger] s[j]).active) by {
            assert(s[i] == tournaments[i]);
            if j < tournaments.len() {
                assert(s[j] == tournaments[j]);
            }
        }
    }
    let a = archived(tournaments, id);
    if one_active(tournaments) {
        assert forall|i: int, j: int| 0 <= i < j < a.len() implies !((#[trigger] a[i]).active
            && (#[trigger] a[j]).active) by {
            assert(!(tournaments[i].active && tournaments[j].active));
        }
    }
}

// ── Memberships ──────────────────────────────────────────────────────────────

/// The memberships after player `token_id` is put in tournament
/// `tournament_id` (an insert that ignores a membership already there).
pub open spec fn enrol(members: Set<(i64, i64)>, tournament_id: i64, token_id: i64) -> Set<
    (i64, i64),
> {
    members.insert((tournament_id, token_id))
}

/// Enrolment adds exactly the one membership, and enrolling again changes
/// nothing.
pub proof fn lemma_enrolment_idempotent(members: Set<(i64, i64)>, tournament_id: i64, token_id: i64)
    ensures
        enrol(members, tournament_id, token_id) == members.union(set![(tournament_id, token_id)]),
        enrol(enrol(members, tournament_id, token_id), tournament_id, token_id) == enrol(
            members,
            tournament_id,
            token_id,
        ),
        enrol(members, tournament_id, token_id).contains((tournament_id, token_id)),
{
    assert(enrol(members, tournament_id, token_id) =~= members.union(
        set![(tournament_id, token_id)],
    ));
    assert(enrol(enrol(members, tournament_id, token_id), tournament_id, token_id) =~= enrol(
        members,
        tournament_id,
        token_id,
    ));
}

} // verus!
