//! The game table and the fold of player rows into it.

use vstd::prelude::*;
use crate::QueryError;
use crate::str_eq;
use crate::attrmap::PlayerData;
use crate::team::{
    TeamData, TeamView, spec_merge_team, player_data_to_team_data, get_player_data_game_id,
    get_player_data_team, merge_player_data_into_team,
};

verus! {

/// One game: the first team seen, and the opposing team once a row for a
/// different team name arrives under the same game id.
pub type GameData = (TeamData, Option<TeamData>);

/// The mathematical shape of a game record.
pub type GameView = (TeamView, Option<TeamView>);

/// The view of an optional team record.
pub open spec fn opt_team_view(t: Option<TeamData>) -> Option<TeamView> {
    match t {
        Some(x) => Some(x@),
        None => None,
    }
}

/// The view of a game record.
pub open spec fn game_view(g: GameData) -> GameView {
    (g.0@, opt_team_view(g.1))
}

/// The view of one game-table entry.
pub open spec fn entry_view(e: (String, GameData)) -> (Seq<char>, GameView) {
    (e.0@, game_view(e.1))
}

/// The game table: game records keyed by game identifier, in order of
/// first appearance, one entry per id.
pub struct Games {
    pub entries: Vec<(String, GameData)>,
}

impl View for Games {
    type V = Seq<(Seq<char>, GameView)>;

    open spec fn view(&self) -> Seq<(Seq<char>, GameView)> {
        self.entries@.map_values(|e: (String, GameData)| entry_view(e))
    }
}

impl Games {
    /// An empty game table.
    pub fn new() -> (r: Games)
        ensures
            r@ == Seq::<(Seq<char>, GameView)>::empty(),
    {
        let r = Games { entries: Vec::new() };
        assert(r@ =~= Seq::<(Seq<char>, GameView)>::empty());
        r
    }
}

/// The entry a row opens for a game not yet in the table: its team as
/// `team_a`, no second team.
pub open spec fn spec_new_game_entry(
    gid: Seq<char>,
    team: Seq<char>,
    row: Map<Seq<char>, Seq<char>>,
) -> (Seq<char>, GameView) {
    (gid, (TeamView { name: team, data: row }, None))
}

/// A game record after one more row for its game id: a same-team row is
/// folded into `team_a`; a different-team row establishes `team_b` when
/// that slot is still empty. Once both teams are present a further
/// different-team row changes nothing: only the first row for the second
/// team is kept as its base.
pub open spec fn spec_game_after_row(
    g: GameView,
    team: Seq<char>,
    row: Map<Seq<char>, Seq<char>>,
) -> GameView {
    if g.0.name == team {
        (spec_merge_team(g.0, row), g.1)
    } else if g.1 is None {
        (g.0, Some(TeamView { name: team, data: row }))
    } else {
        g
    }
}

/// The game table after a placeable row: the first entry for the row's
/// game id absorbs it; a fresh game id opens a new entry at the end.
pub open spec fn spec_add_row_entries(
    entries: Seq<(Seq<char>, GameView)>,
    gid: Seq<char>,
    team: Seq<char>,
    row: Map<Seq<char>, Seq<char>>,
) -> Seq<(Seq<char>, GameView)>
    decreases entries.len(),
{
    if entries.len() == 0 {
        seq![spec_new_game_entry(gid, team, row)]
    } else if entries[0].0 == gid {
        seq![(gid, spec_game_after_row(entries[0].1, team, row))] + entries.drop_first()
    } else {
        seq![entries[0]] + spec_add_row_entries(entries.drop_first(), gid, team, row)
    }
}

/// The game table after a row, or `None` for a row with no `gameid` or no
/// `team` attribute, which cannot be placed.
pub open spec fn spec_add_row(
    entries: Seq<(Seq<char>, GameView)>,
    row: Map<Seq<char>, Seq<char>>,
) -> Option<Seq<(Seq<char>, GameView)>> {
    if row.contains_key("gameid"@) && row.contains_key("team"@) {
        Some(spec_add_row_entries(entries, row["gameid"@], row["team"@], row))
    } else {
        None
    }
}

/// A row with a game id the table does not hold appends a new entry.
pub proof fn lemma_add_row_fresh(
    entries: Seq<(Seq<char>, GameView)>,
    gid: Seq<char>,
    team: Seq<char>,
    row: Map<Seq<char>, Seq<char>>,
)
    requires
        forall|j: int| 0 <= j < entries.len() ==> (#[trigger] entries[j]).0 != gid,
    ensures
        spec_add_row_entries(entries, gid, team, row) == entries.push(
            spec_new_game_entry(gid, team, row),
        ),
    decreases entries.len(),
{
    if entries.len() == 0 {
        assert(spec_add_row_entries(entries, gid, team, row) =~= entries.push(
            spec_new_game_entry(gid, team, row),
        ));
    } else {
        lemma_add_row_fresh(entries.drop_first(), gid, team, row);
        assert(seq![entries[0]] + entries.drop_first().push(spec_new_game_entry(gid, team, row))
            =~= entries.push(spec_new_game_entry(gid, team, row)));
    }
}

/// A row whose game id stands at first position `i` updates that entry in
/// place and leaves every other entry as it was.
pub proof fn lemma_add_row_found(
    entries: Seq<(Seq<char>, GameView)>,
    gid: Seq<char>,
    team: Seq<char>,
    row: Map<Seq<char>, Seq<char>>,
    i: int,
)
    requires
        0 <= i < entries.len(),
        entries[i].0 == gid,
        forall|j: int| 0 <= j < i ==> (#[trigger] entries[j]).0 != gid,
    ensures
        spec_add_row_entries(entries, gid, team, row) == entries.update(
            i,
            (gid, spec_game_after_row(entries[i].1, team, row)),
        ),
    decreases entries.len(),
{
    if i == 0 {
        assert(spec_add_row_entries(entries, gid, team, row) =~= entries.update(
            0,
            (gid, spec_game_after_row(entries[0].1, team, row)),
        ));
    } else {
        lemma_add_row_found(entries.drop_first(), gid, team, row, i - 1);
        assert(seq![entries[0]] + entries.drop_first().update(
            i - 1,
            (gid, spec_game_after_row(entries[i].1, team, row)),
        ) =~= entries.update(i, (gid, spec_game_after_row(entries[i].1, team, row))));
    }
}

/// Places one player row in the game table. A row with no `gameid` or no
/// `team` attribute is a `MissingAttribute` error and leaves the table
/// unchanged.
pub fn add_player_row_to_games(games: &mut Games, player_data: PlayerData) -> (r: Result<
    (),
    QueryError,
>)
    ensures
        match r {
            Ok(()) => spec_add_row(old(games)@, player_data@) == Some(final(games)@),
            Err(e) => {
                &&& e == QueryError::MissingAttribute
                &&& spec_add_row(old(games)@, player_data@) is None
                &&& final(games)@ == old(games)@
            },
        },
{
    let game_id: String = match get_player_data_game_id(&player_data) {
        Some(v) => v.clone(),
        None => {
            return Err(QueryError::MissingAttribute);
        },
    };
    let player_team: String = match get_player_data_team(&player_data) {
        Some(v) => v.clone(),
        None => {
            return Err(QueryError::MissingAttribute);
        },
    };
    let ghost gid = game_id@;
    let ghost team = player_team@;
    let ghost row = player_data@;
    let n = games.entries.len();
    let mut i: usize = 0;
    while i < n
        invariant
            0 <= i <= n,
            n == games.entries@.len(),
            games.entries@ == old(games).entries@,
            gid == game_id@,
            team == player_team@,
            row == player_data@,
            row.contains_key("gameid"@),
            row.contains_key("team"@),
            gid == row["gameid"@],
            team == row["team"@],
            forall|j: int| 0 <= j < i ==> (#[trigger] games.entries@[j]).0@ != gid,
        decreases n - i,
    {
        if str_eq(games.entries[i].0.as_str(), game_id.as_str()) {
            proof {
                assert(forall|j: int| 0 <= j < i ==> (#[trigger] old(games)@[j]).0 != gid);
                assert(old(games)@[i as int].0 == gid);
                lemma_add_row_found(old(games)@, gid, team, row, i as int);
            }
            let (gid_stored, game) = games.entries.remove(i);
            let (mut team_a, team_b) = game;
            if team_a.name == player_team {
                merge_player_data_into_team(&mut team_a, &player_data);
                games.entries.insert(i, (gid_stored, (team_a, team_b)));
                assert(games.entries@ =~= old(games).entries@.update(
                    i as int,
                    (gid_stored, (team_a, team_b)),
                ));
                assert(games@ =~= old(games)@.update(
                    i as int,
                    (gid, spec_game_after_row(old(games)@[i as int].1, team, row)),
                ));
            } else {
                match team_b {
                    None => {
                        let team_data = match player_data_to_team_data(player_data) {
                            Ok(t) => t,
                            Err(_) => {
                                proof {
                                    assert(false);
                                }
                                return Err(QueryError::MissingAttribute);
                            },
                        };
                        games.entries.insert(i, (gid_stored, (team_a, Some(team_data))));
                        assert(games@ =~= old(games)@.update(
                            i as int,
                            (gid, spec_game_after_row(old(games)@[i as int].1, team, row)),
                        ));
                    },
                    Some(existing) => {
                        games.entries.insert(i, (gid_stored, (team_a, Some(existing))));
                        assert(games.entries@ =~= old(games).entries@);
                        assert(games@ =~= old(games)@.update(
                            i as int,
                            (gid, spec_game_after_row(old(games)@[i as int].1, team, row)),
                        ));
                    },
                }
            }
            return Ok(());
        }
        i = i + 1;
    }
    proof {
        assert(forall|j: int| 0 <= j < old(games)@.len() ==> (#[trigger] old(games)@[j]).0
            != gid);
        lemma_add_row_fresh(old(games)@, gid, team, row);
    }
    let team_data = match player_data_to_team_data(player_data) {
        Ok(t) => t,
        Err(_) => {
            proof {
                assert(false);
            }
            return Err(QueryError::MissingAttribute);
        },
    };
    games.entries.push((game_id, (team_data, None)));
    assert(games@ =~= old(games)@.push(spec_new_game_entry(gid, team, row)));
    Ok(())
}

/// Round-trip consolidation: two rows under one fresh game id with
/// different team names leave one complete game entry, with the first
/// row's team as `team_a` and the second's as `team_b`, whatever else
/// stands in the table.
pub proof fn lemma_round_trip_consolidation(
    entries: Seq<(Seq<char>, GameView)>,
    row1: Map<Seq<char>, Seq<char>>,
    row2: Map<Seq<char>, Seq<char>>,
)
    requires
        row1.contains_key("gameid"@) && row1.contains_key("team"@),
        row2.contains_key("gameid"@) && row2.contains_key("team"@),
        row1["gameid"@] == row2["gameid"@],
        row1["team"@] != row2["team"@],
        forall|j: int| 0 <= j < entries.len() ==> (#[trigger] entries[j]).0 != row1["gameid"@],
    ensures
        spec_add_row(entries, row1) is Some,
        spec_add_row(spec_add_row(entries, row1)->0, row2) == Some(
            entries.push(
                (
                    row1["gameid"@],
                    (
                        TeamView { name: row1["team"@], data: row1 },
                        Some(TeamView { name: row2["team"@], data: row2 }),
                    ),
                ),
            ),
        ),
{
    let gid = row1["gameid"@];
    let t1 = row1["team"@];
    let t2 = row2["team"@];
    lemma_add_row_fresh(entries, gid, t1, row1);
    let e1 = entries.push(spec_new_game_entry(gid, t1, row1));
    assert(e1[entries.len() as int].0 == gid);
    lemma_add_row_found(e1, gid, t2, row2, entries.len() as int);
    assert(spec_game_after_row(e1[entries.len() as int].1, t2, row2) == (
        TeamView { name: t1, data: row1 },
        Some(TeamView { name: t2, data: row2 }),
    ));
    assert(e1.update(
        entries.len() as int,
        (
            gid,
            (
                TeamView { name: t1, data: row1 },
                Some(TeamView { name: t2, data: row2 }),
            ),
        ),
    ) =~= entries.push(
        (
            gid,
            (
                TeamView { name: t1, data: row1 },
                Some(TeamView { name: t2, data: row2 }),
            ),
        ),
    ));
}

} // verus!
