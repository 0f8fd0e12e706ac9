//! The query evaluator: filters completed games' teams and aggregates the
//! requested statistics.

use vstd::prelude::*;
use crate::QueryError;
use crate::attrmap::AttrMap;
use crate::team::{TeamData, TeamView};
use crate::consolidate::{Games, GameView};
use crate::constraints::{
    Constraint, ConstraintView, constraints_view, spec_fits_constraints, fits_constraints,
};
use crate::merge::{
    spec_merge_type_of, spec_merge_attributes, get_merge_type_of_attribute, merge_attributes,
};

verus! {

/// A query-facing statistic, bound to one backing attribute name.
#[derive(Clone, Copy, Debug, PartialEq, Eq, Structural)]
pub enum Stats {
    Kills,
    Deaths,
    GoldDiff10,
    GoldDiff15,
    Barons,
    FirstBaron,
    Dragons,
    FirstDragon,
    Towers,
    FirstTower,
}

/// A query: a conjunction of constraints and the statistics to aggregate
/// over every team that satisfies them.
pub struct Query {
    pub constraints: Vec<Constraint>,
    pub stats: Vec<Stats>,
}

/// The mathematical shape of a query.
pub ghost struct QueryView {
    pub constraints: Seq<ConstraintView>,
    pub stats: Seq<Stats>,
}

impl View for Query {
    type V = QueryView;

    open spec fn view(&self) -> QueryView {
        QueryView { constraints: constraints_view(self.constraints@), stats: self.stats@ }
    }
}

/// The canonical backing attribute name of each statistic.
pub open spec fn spec_stat_attr(stat: Stats) -> Seq<char> {
    match stat {
        Stats::Barons => "barons"@,
        Stats::Deaths => "deaths"@,
        Stats::Dragons => "dragons"@,
        Stats::FirstBaron => "firstbaron"@,
        Stats::FirstDragon => "firstdragon"@,
        Stats::FirstTower => "firsttower"@,
        Stats::GoldDiff10 => "golddiffat10"@,
        Stats::GoldDiff15 => "golddiffat15"@,
        Stats::Kills => "kills"@,
        Stats::Towers => "towers"@,
    }
}

/// Resolves a statistic to its backing attribute name.
pub fn stat_to_attribute_string(stat: Stats) -> (r: &'static str)
    ensures
        r@ == spec_stat_attr(stat),
{
    match stat {
        Stats::Barons => "barons",
        Stats::Deaths => "deaths",
        Stats::Dragons => "dragons",
        Stats::FirstBaron => "firstbaron",
        Stats::FirstDragon => "firstdragon",
        Stats::FirstTower => "firsttower",
        Stats::GoldDiff10 => "golddiffat10",
        Stats::GoldDiff15 => "golddiffat15",
        Stats::Kills => "kills",
        Stats::Towers => "towers",
    }
}

/// A team's value for a requested statistic. The resolver is a whitelist:
/// only `Kills` is implemented; requesting any other statistic is an
/// `UnsupportedStatistic` error, and a matching team without the backing
/// attribute is a `MissingAttribute` error.
pub open spec fn spec_query_stat(stat: Stats, t: TeamView) -> Result<Seq<char>, QueryError> {
    match stat {
        Stats::Kills => if t.data.contains_key("kills"@) {
            Ok(t.data["kills"@])
        } else {
            Err(QueryError::MissingAttribute)
        },
        _ => Err(QueryError::UnsupportedStatistic),
    }
}

/// Reads `team`'s value of `stat`.
pub fn query_stat(stat: Stats, team: &TeamData) -> (r: Result<String, QueryError>)
    ensures
        match r {
            Ok(v) => spec_query_stat(stat, team@) == Ok::<Seq<char>, QueryError>(v@),
            Err(e) => spec_query_stat(stat, team@) == Err::<Seq<char>, QueryError>(e),
        },
{
    match stat {
        Stats::Kills => match team.data.get("kills") {
            Some(v) => Ok(v.clone()),
            None => Err(QueryError::MissingAttribute),
        },
        _ => Err(QueryError::UnsupportedStatistic),
    }
}

/// A running result's value for an attribute, seeded with `"0"` before the
/// first write.
pub open spec fn results_get_or_zero(
    results: Map<Seq<char>, Seq<char>>,
    attr: Seq<char>,
) -> Seq<char> {
    if results.contains_key(attr) {
        results[attr]
    } else {
        "0"@
    }
}

/// The running result after one matching team's requested statistics are
/// folded in, each under its attribute's registered strategy.
pub open spec fn spec_fold_stats(
    results: Map<Seq<char>, Seq<char>>,
    t: TeamView,
    stats: Seq<Stats>,
) -> Result<Map<Seq<char>, Seq<char>>, QueryError>
    decreases stats.len(),
{
    if stats.len() == 0 {
        Ok(results)
    } else {
        let attr = spec_stat_attr(stats[0]);
        let cur = results_get_or_zero(results, attr);
        match spec_query_stat(stats[0], t) {
            Err(e) => Err(e),
            Ok(v) => match spec_merge_attributes(cur, v, spec_merge_type_of(attr)) {
                None => Err(QueryError::InvalidIntegerOperand),
                Some(new) => spec_fold_stats(results.insert(attr, new), t, stats.drop_first()),
            },
        }
    }
}

/// The running result after one team: unchanged when the team fails the
/// constraints, its statistics folded in when it satisfies them.
pub open spec fn spec_fold_team(
    results: Map<Seq<char>, Seq<char>>,
    q: QueryView,
    t: TeamView,
) -> Result<Map<Seq<char>, Seq<char>>, QueryError> {
    match spec_fits_constraints(t, q.constraints) {
        Err(e) => Err(e),
        Ok(false) => Ok(results),
        Ok(true) => spec_fold_stats(results, t, q.stats),
    }
}

/// The running result after one game: an incomplete game (no second team)
/// contributes nothing; a complete one folds `team_a` then `team_b`.
pub open spec fn spec_fold_game(
    results: Map<Seq<char>, Seq<char>>,
    q: QueryView,
    g: GameView,
) -> Result<Map<Seq<char>, Seq<char>>, QueryError> {
    match g.1 {
        None => Ok(results),
        Some(team_b) => match spec_fold_team(results, q, g.0) {
            Err(e) => Err(e),
            Ok(r1) => spec_fold_team(r1, q, team_b),
        },
    }
}

/// The running result after the remaining game entries, in table order.
pub open spec fn spec_query_games_from(
    results: Map<Seq<char>, Seq<char>>,
    q: QueryView,
    entries: Seq<(Seq<char>, GameView)>,
) -> Result<Map<Seq<char>, Seq<char>>, QueryError>
    decreases entries.len(),
{
    if entries.len() == 0 {
        Ok(results)
    } else {
        match spec_fold_game(results, q, entries[0].1) {
            Err(e) => Err(e),
            Ok(r1) => spec_query_games_from(r1, q, entries.drop_first()),
        }
    }
}

/// A result mapping with every requested statistic present: one whose
/// attribute was never written reads its `"0"` seed.
pub open spec fn spec_seed_stats(
    results: Map<Seq<char>, Seq<char>>,
    stats: Seq<Stats>,
) -> Map<Seq<char>, Seq<char>>
    decreases stats.len(),
{
    if stats.len() == 0 {
        results
    } else {
        let attr = spec_stat_attr(stats[0]);
        let r1 = if results.contains_key(attr) {
            results
        } else {
            results.insert(attr, "0"@)
        };
        spec_seed_stats(r1, stats.drop_first())
    }
}

/// The full query result over a game table: the fold of every entry,
/// starting from an empty result mapping, with every requested statistic
/// seeded `"0"` when no matching team wrote it.
pub open spec fn spec_query_games(q: QueryView, entries: Seq<(Seq<char>, GameView)>) -> Result<
    Map<Seq<char>, Seq<char>>,
    QueryError,
> {
    match spec_query_games_from(Map::empty(), q, entries) {
        Err(e) => Err(e),
        Ok(m) => Ok(spec_seed_stats(m, q.stats)),
    }
}

/// Folds one team into the running result.
fn fold_team(results: &mut AttrMap, query: &Query, team: &TeamData) -> (r: Result<
    (),
    QueryError,
>)
    ensures
        match r {
            Ok(()) => spec_fold_team(old(results)@, query@, team@) == Ok::<
                Map<Seq<char>, Seq<char>>,
                QueryError,
            >(final(results)@),
            Err(e) => spec_fold_team(old(results)@, query@, team@) == Err::<
                Map<Seq<char>, Seq<char>>,
                QueryError,
            >(e),
        },
{
    match fits_constraints(team, &query.constraints) {
        Err(e) => {
            return Err(e);
        },
        Ok(false) => {
            return Ok(());
        },
        Ok(true) => {},
    }
    let ghost stats = query@.stats;
    proof {
        assert(stats.skip(0) =~= stats);
    }
    let ns = query.stats.len();
    let mut si: usize = 0;
    while si < ns
        invariant
            0 <= si <= ns,
            ns == query.stats@.len(),
            stats == query@.stats,
            spec_fold_team(old(results)@, query@, team@) == spec_fold_stats(
                old(results)@,
                team@,
                stats,
            ),
            spec_fold_stats(old(results)@, team@, stats) == spec_fold_stats(
                results@,
                team@,
                stats.skip(si as int),
            ),
        decreases ns - si,
    {
        proof {
            assert(stats.skip(si as int)[0] == stats[si as int]);
            assert(stats.skip(si as int).drop_first() =~= stats.skip(si as int + 1));
        }
        let stat = query.stats[si];
        let attr = stat_to_attribute_string(stat);
        let merge_type = get_merge_type_of_attribute(attr);
        let v = match query_stat(stat, team) {
            Ok(v) => v,
            Err(e) => {
                return Err(e);
            },
        };
        let new = {
            let current: &str = match results.get(attr) {
                Some(c) => c.as_str(),
                None => "0",
            };
            match merge_attributes(current, v.as_str(), merge_type) {
                Ok(nv) => nv,
                Err(e) => {
                    return Err(e);
                },
            }
        };
        results.insert(String::from_str(attr), new);
        si = si + 1;
    }
    proof {
        assert(stats.skip(ns as int) =~= Seq::<Stats>::empty());
    }
    Ok(())
}

/// Runs a query over a game table: every completed game's teams are
/// filtered through the constraints and the requested statistics of the
/// matching teams are aggregated, keyed by backing attribute name. Every
/// requested statistic is present in the result, with its `"0"` seed when
/// no matching team carried it.
pub fn query_games(query: Query, games: Games) -> (r: Result<AttrMap, QueryError>)
    ensures
        match r {
            Ok(m) => spec_query_games(query@, games@) == Ok::<
                Map<Seq<char>, Seq<char>>,
                QueryError,
            >(m@),
            Err(e) => spec_query_games(query@, games@) == Err::<
                Map<Seq<char>, Seq<char>>,
                QueryError,
            >(e),
        },
{
    let mut results = AttrMap::new();
    let ghost entries = games@;
    proof {
        assert(entries.skip(0) =~= entries);
    }
    let n = games.entries.len();
    let mut gi: usize = 0;
    while gi < n
        invariant
            0 <= gi <= n,
            n == games.entries@.len(),
            entries == games@,
            entries.len() == n,
            spec_query_games_from(Map::empty(), query@, entries) == spec_query_games_from(
                results@,
                query@,
                entries.skip(gi as int),
            ),
        decreases n - gi,
    {
        proof {
            assert(entries.skip(gi as int)[0] == entries[gi as int]);
            assert(entries.skip(gi as int).drop_first() =~= entries.skip(gi as int + 1));
        }
        let ghost res0 = results@;
        let game = &games.entries[gi];
        match &game.1.1 {
            None => {},
            Some(team_b) => {
                match fold_team(&mut results, &query, &game.1.0) {
                    Ok(()) => {},
                    Err(e) => {
                        return Err(e);
                    },
                }
                match fold_team(&mut results, &query, team_b) {
                    Ok(()) => {},
                    Err(e) => {
                        return Err(e);
                    },
                }
                proof {
                    assert(spec_fold_game(res0, query@, entries[gi as int].1) == Ok::<
                        Map<Seq<char>, Seq<char>>,
                        QueryError,
                    >(results@));
                }
            },
        }
        gi = gi + 1;
    }
    proof {
        assert(entries.skip(n as int) =~= Seq::<(Seq<char>, GameView)>::empty());
    }
    let ghost folded = results@;
    let ghost stats = query@.stats;
    proof {
        assert(stats.skip(0) =~= stats);
    }
    let ns = query.stats.len();
    let mut si: usize = 0;
    while si < ns
        invariant
            0 <= si <= ns,
            ns == query.stats@.len(),
            stats == query@.stats,
            entries == games@,
            spec_query_games_from(Map::empty(), query@, entries) == Ok::<
                Map<Seq<char>, Seq<char>>,
                QueryError,
            >(folded),
            spec_seed_stats(folded, stats) == spec_seed_stats(results@, stats.skip(si as int)),
        decreases ns - si,
    {
        proof {
            assert(stats.skip(si as int)[0] == stats[si as int]);
            assert(stats.skip(si as int).drop_first() =~= stats.skip(si as int + 1));
        }
        let stat = query.stats[si];
        let attr = stat_to_attribute_string(stat);
        if results.get(attr).is_none() {
            results.insert(String::from_str(attr), String::from_str("0"));
        }
        si = si + 1;
    }
    proof {
        assert(stats.skip(ns as int) =~= Seq::<Stats>::empty());
    }
    Ok(results)
}

/// No team of `e` both exists and satisfies the query's constraints.
pub open spec fn no_matching_team(q: QueryView, e: (Seq<char>, GameView)) -> bool {
    match e.1.1 {
        Some(team_b) => spec_fits_constraints(e.1.0, q.constraints) == Ok::<bool, QueryError>(
            false,
        ) && spec_fits_constraints(team_b, q.constraints) == Ok::<bool, QueryError>(false),
        None => true,
    }
}

proof fn lemma_from_no_match(
    results: Map<Seq<char>, Seq<char>>,
    q: QueryView,
    entries: Seq<(Seq<char>, GameView)>,
)
    requires
        forall|i: int| 0 <= i < entries.len() ==> no_matching_team(q, #[trigger] entries[i]),
    ensures
        spec_query_games_from(results, q, entries) == Ok::<
            Map<Seq<char>, Seq<char>>,
            QueryError,
        >(results),
    decreases entries.len(),
{
    if entries.len() > 0 {
        assert(no_matching_team(q, entries[0]));
        assert(forall|i: int| 0 <= i < entries.drop_first().len() ==> no_matching_team(
            q,
            #[trigger] entries.drop_first()[i],
        ));
        lemma_from_no_match(results, q, entries.drop_first());
    }
}

/// Seeding a result whose every value is `"0"` leaves every value `"0"`,
/// keeps every key, and makes every requested statistic's attribute
/// present.
proof fn lemma_seed_stats_all_zero(m: Map<Seq<char>, Seq<char>>, stats: Seq<Stats>)
    requires
        forall|k: Seq<char>| #[trigger] m.contains_key(k) ==> m[k] == "0"@,
    ensures
        forall|k: Seq<char>| #[trigger] spec_seed_stats(m, stats).contains_key(k)
            ==> spec_seed_stats(m, stats)[k] == "0"@,
        forall|k: Seq<char>| #[trigger] m.contains_key(k) ==> spec_seed_stats(
            m,
            stats,
        ).contains_key(k),
        forall|i: int| 0 <= i < stats.len() ==> spec_seed_stats(m, stats).contains_key(
            spec_stat_attr(#[trigger] stats[i]),
        ),
    decreases stats.len(),
{
    if stats.len() > 0 {
        let attr = spec_stat_attr(stats[0]);
        let r1 = if m.contains_key(attr) {
            m
        } else {
            m.insert(attr, "0"@)
        };
        assert(spec_seed_stats(m, stats) == spec_seed_stats(r1, stats.drop_first()));
        assert(forall|k: Seq<char>| #[trigger] r1.contains_key(k) ==> r1[k] == "0"@);
        lemma_seed_stats_all_zero(r1, stats.drop_first());
        assert forall|k: Seq<char>| #[trigger] m.contains_key(k) implies spec_seed_stats(
            m,
            stats,
        ).contains_key(k) by {
            assert(r1.contains_key(k));
        }
        assert forall|i: int| 0 <= i < stats.len() implies spec_seed_stats(
            m,
            stats,
        ).contains_key(spec_stat_attr(#[trigger] stats[i])) by {
            if i > 0 {
                assert(stats.drop_first()[i - 1] == stats[i]);
            } else {
                assert(r1.contains_key(attr));
            }
        }
    }
}

/// Idempotent default: when no completed game's team satisfies the
/// constraints, the query succeeds, and every requested statistic stands
/// in the result mapping at its `"0"` seed.
pub proof fn lemma_default_when_no_match(q: QueryView, entries: Seq<(Seq<char>, GameView)>)
    requires
        forall|i: int| 0 <= i < entries.len() ==> no_matching_team(q, #[trigger] entries[i]),
    ensures
        spec_query_games(q, entries) == Ok::<Map<Seq<char>, Seq<char>>, QueryError>(
            spec_seed_stats(Map::empty(), q.stats),
        ),
        forall|i: int| 0 <= i < q.stats.len() ==> spec_seed_stats(
            Map::empty(),
            q.stats,
        ).contains_key(spec_stat_attr(#[trigger] q.stats[i])),
        forall|i: int| 0 <= i < q.stats.len() ==> spec_seed_stats(Map::empty(), q.stats)[
            spec_stat_attr(#[trigger] q.stats[i])] == "0"@,
{
    lemma_from_no_match(Map::empty(), q, entries);
    lemma_seed_stats_all_zero(Map::empty(), q.stats);
}

proof fn lemma_from_incomplete(
    results: Map<Seq<char>, Seq<char>>,
    q: QueryView,
    entries: Seq<(Seq<char>, GameView)>,
    i: int,
)
    requires
        0 <= i < entries.len(),
        entries[i].1.1 is None,
    ensures
        spec_query_games_from(results, q, entries.remove(i)) == spec_query_games_from(
            results,
            q,
            entries,
        ),
    decreases entries.len(),
{
    if i == 0 {
        assert(spec_fold_game(results, q, entries[0].1) == Ok::<
            Map<Seq<char>, Seq<char>>,
            QueryError,
        >(results));
        assert(entries.remove(0) =~= entries.drop_first());
    } else {
        assert(entries.remove(i)[0] == entries[0]);
        match spec_fold_game(results, q, entries[0].1) {
            Err(e) => {},
            Ok(r1) => {
                assert(entries.drop_first()[i - 1].1.1 is None);
                lemma_from_incomplete(r1, q, entries.drop_first(), i - 1);
                assert(entries.remove(i).drop_first() =~= entries.drop_first().remove(i - 1));
            },
        }
    }
}

/// Incomplete-game exclusion: a game entry with only one team present
/// contributes nothing to any query result; removing it changes nothing.
pub proof fn lemma_incomplete_game_excluded(
    q: QueryView,
    entries: Seq<(Seq<char>, GameView)>,
    i: int,
)
    requires
        0 <= i < entries.len(),
        entries[i].1.1 is None,
    ensures
        spec_query_games(q, entries.remove(i)) == spec_query_games(q, entries),
{
    lemma_from_incomplete(Map::empty(), q, entries, i);
}

} // verus!
