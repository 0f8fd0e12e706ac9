use match_stats::attrmap::{AttrMap, PlayerData};
use match_stats::consolidate::{Games, add_player_row_to_games};
use match_stats::constraints::{
    Constraint, Leagues, Sides, bool_to_result_str, string_to_league, string_to_side,
    fits_constraint, fits_constraints,
};
use match_stats::query::{Query, Stats, stat_to_attribute_string, query_stat, query_games};
use match_stats::team::player_data_to_team_data;
use match_stats::QueryError;

fn row(pairs: &[(&str, &str)]) -> PlayerData {
    let mut m = AttrMap::new();
    for (k, v) in pairs {
        m.insert(k.to_string(), v.to_string());
    }
    m
}

fn sample_games() -> Games {
    let mut games = Games::new();
    add_player_row_to_games(
        &mut games,
        row(&[
            ("gameid", "G1"),
            ("team", "A"),
            ("result", "1"),
            ("league", "LCK"),
            ("side", "Blue"),
            ("kills", "10"),
            ("firstblood", "1"),
        ]),
    )
    .unwrap();
    add_player_row_to_games(
        &mut games,
        row(&[
            ("gameid", "G1"),
            ("team", "B"),
            ("result", "0"),
            ("league", "LCK"),
            ("side", "Red"),
            ("kills", "7"),
            ("firstblood", "0"),
        ]),
    )
    .unwrap();
    games
}

#[test]
fn bool_result_encoding() {
    assert_eq!(bool_to_result_str(true), "1");
    assert_eq!(bool_to_result_str(false), "0");
}

#[test]
fn league_codes_parse() {
    assert_eq!(string_to_league("CK").unwrap(), Leagues::CK);
    assert_eq!(string_to_league("LCK").unwrap(), Leagues::LCK);
    assert_eq!(string_to_league("LCS").unwrap(), Leagues::LCS);
    assert_eq!(string_to_league("LEC").unwrap(), Leagues::LEC);
    assert_eq!(string_to_league("LFL").unwrap(), Leagues::LFL);
    assert_eq!(string_to_league("LJL").unwrap(), Leagues::LJL);
    assert_eq!(string_to_league("LPL").unwrap(), Leagues::LPL);
    assert_eq!(string_to_league("VCS").unwrap(), Leagues::VCS);
    assert_eq!(
        string_to_league("NA").unwrap_err(),
        QueryError::UnrecognizedLeague
    );
}

#[test]
fn side_names_parse() {
    assert_eq!(string_to_side("Blue").unwrap(), Sides::Blue);
    assert_eq!(string_to_side("Red").unwrap(), Sides::Red);
    assert_eq!(
        string_to_side("Green").unwrap_err(),
        QueryError::UnrecognizedSide
    );
}

#[test]
fn single_constraints_evaluate() {
    let team = player_data_to_team_data(row(&[
        ("team", "A"),
        ("result", "1"),
        ("league", "LCK"),
        ("side", "Blue"),
    ]))
    .unwrap();
    assert!(fits_constraint(&team, &Constraint::Team("A".to_string())).unwrap());
    assert!(!fits_constraint(&team, &Constraint::Team("B".to_string())).unwrap());
    assert!(fits_constraint(&team, &Constraint::GameResult(true)).unwrap());
    assert!(!fits_constraint(&team, &Constraint::GameResult(false)).unwrap());
    assert!(fits_constraint(&team, &Constraint::League(Leagues::LCK)).unwrap());
    assert!(!fits_constraint(&team, &Constraint::League(Leagues::LPL)).unwrap());
    assert!(fits_constraint(&team, &Constraint::Side(Sides::Blue)).unwrap());
    assert!(!fits_constraint(&team, &Constraint::Side(Sides::Red)).unwrap());
}

#[test]
fn constraint_errors_are_fatal() {
    let bare = player_data_to_team_data(row(&[("team", "A")])).unwrap();
    assert_eq!(
        fits_constraint(&bare, &Constraint::GameResult(true)).unwrap_err(),
        QueryError::MissingAttribute
    );
    assert_eq!(
        fits_constraint(&bare, &Constraint::League(Leagues::LCK)).unwrap_err(),
        QueryError::MissingAttribute
    );
    let odd = player_data_to_team_data(row(&[
        ("team", "A"),
        ("league", "XYZ"),
        ("side", "Top"),
    ]))
    .unwrap();
    assert_eq!(
        fits_constraint(&odd, &Constraint::League(Leagues::LCK)).unwrap_err(),
        QueryError::UnrecognizedLeague
    );
    assert_eq!(
        fits_constraint(&odd, &Constraint::Side(Sides::Blue)).unwrap_err(),
        QueryError::UnrecognizedSide
    );
}

#[test]
fn constraint_conjunction() {
    let team = player_data_to_team_data(row(&[
        ("team", "A"),
        ("result", "1"),
        ("league", "LCK"),
        ("side", "Blue"),
    ]))
    .unwrap();
    // The empty list matches every team.
    assert!(fits_constraints(&team, &vec![]).unwrap());
    // The conjunction holds iff every individual constraint holds.
    let all = vec![
        Constraint::Team("A".to_string()),
        Constraint::GameResult(true),
        Constraint::League(Leagues::LCK),
        Constraint::Side(Sides::Blue),
    ];
    for c in &all {
        assert!(fits_constraint(&team, c).unwrap());
    }
    assert!(fits_constraints(&team, &all).unwrap());
    let one_off = vec![
        Constraint::Team("A".to_string()),
        Constraint::GameResult(false),
        Constraint::League(Leagues::LCK),
    ];
    assert!(!fits_constraints(&team, &one_off).unwrap());
}

#[test]
fn stat_attribute_bijection() {
    assert_eq!(stat_to_attribute_string(Stats::Barons), "barons");
    assert_eq!(stat_to_attribute_string(Stats::Deaths), "deaths");
    assert_eq!(stat_to_attribute_string(Stats::Dragons), "dragons");
    assert_eq!(stat_to_attribute_string(Stats::FirstBaron), "firstbaron");
    assert_eq!(stat_to_attribute_string(Stats::FirstDragon), "firstdragon");
    assert_eq!(stat_to_attribute_string(Stats::FirstTower), "firsttower");
    assert_eq!(stat_to_attribute_string(Stats::GoldDiff10), "golddiffat10");
    assert_eq!(stat_to_attribute_string(Stats::GoldDiff15), "golddiffat15");
    assert_eq!(stat_to_attribute_string(Stats::Kills), "kills");
    assert_eq!(stat_to_attribute_string(Stats::Towers), "towers");
}

#[test]
fn query_stat_is_a_whitelist() {
    let team = player_data_to_team_data(row(&[("team", "A"), ("kills", "10")])).unwrap();
    assert_eq!(query_stat(Stats::Kills, &team).unwrap(), "10");
    assert_eq!(
        query_stat(Stats::Deaths, &team).unwrap_err(),
        QueryError::UnsupportedStatistic
    );
    let bare = player_data_to_team_data(row(&[("team", "A")])).unwrap();
    assert_eq!(
        query_stat(Stats::Kills, &bare).unwrap_err(),
        QueryError::MissingAttribute
    );
}

#[test]
fn league_query_sums_both_teams() {
    let query = Query {
        constraints: vec![Constraint::League(Leagues::LCK)],
        stats: vec![Stats::Kills],
    };
    let results = query_games(query, sample_games()).unwrap();
    assert_eq!(results.get("kills").unwrap(), "17");
}

#[test]
fn team_query_sums_one_team() {
    let query = Query {
        constraints: vec![Constraint::Team("A".to_string())],
        stats: vec![Stats::Kills],
    };
    let results = query_games(query, sample_games()).unwrap();
    assert_eq!(results.get("kills").unwrap(), "10");
}

#[test]
fn incomplete_game_contributes_nothing() {
    // A third row under a game id that never gets a partner row: every
    // query excludes it entirely.
    let mut games = sample_games();
    add_player_row_to_games(
        &mut games,
        row(&[
            ("gameid", "G2"),
            ("team", "C"),
            ("result", "1"),
            ("league", "LCK"),
            ("side", "Blue"),
            ("kills", "100"),
        ]),
    )
    .unwrap();
    let query = Query {
        constraints: vec![Constraint::League(Leagues::LCK)],
        stats: vec![Stats::Kills],
    };
    let results = query_games(query, games).unwrap();
    assert_eq!(results.get("kills").unwrap(), "17");

    let mut lonely = Games::new();
    add_player_row_to_games(
        &mut lonely,
        row(&[("gameid", "G2"), ("team", "C"), ("kills", "100")]),
    )
    .unwrap();
    let any = Query { constraints: vec![], stats: vec![Stats::Kills] };
    let results = query_games(any, lonely).unwrap();
    // Only the seed remains: the one-sided game contributed nothing.
    assert_eq!(results.get("kills").unwrap(), "0");
}

#[test]
fn no_matching_team_yields_default() {
    // The statistic's attribute never appears on any matching team: the
    // result carries the statistic at its "0" seed.
    let query = Query {
        constraints: vec![Constraint::Team("Z".to_string())],
        stats: vec![Stats::Kills],
    };
    let results = query_games(query, sample_games()).unwrap();
    assert_eq!(results.get("kills").unwrap(), "0");
}

#[test]
fn unsupported_stat_aborts_query() {
    let query = Query {
        constraints: vec![],
        stats: vec![Stats::Kills, Stats::Towers],
    };
    assert_eq!(
        query_games(query, sample_games()).unwrap_err(),
        QueryError::UnsupportedStatistic
    );
}

#[test]
fn non_integer_kills_aborts_query() {
    let mut games = Games::new();
    add_player_row_to_games(
        &mut games,
        row(&[("gameid", "G1"), ("team", "A"), ("kills", "lots")]),
    )
    .unwrap();
    add_player_row_to_games(
        &mut games,
        row(&[("gameid", "G1"), ("team", "B"), ("kills", "7")]),
    )
    .unwrap();
    let query = Query { constraints: vec![], stats: vec![Stats::Kills] };
    assert_eq!(
        query_games(query, games).unwrap_err(),
        QueryError::InvalidIntegerOperand
    );
}

#[test]
fn missing_constraint_attribute_aborts_query() {
    let mut games = Games::new();
    add_player_row_to_games(&mut games, row(&[("gameid", "G1"), ("team", "A")])).unwrap();
    add_player_row_to_games(&mut games, row(&[("gameid", "G1"), ("team", "B")])).unwrap();
    let query = Query {
        constraints: vec![Constraint::GameResult(true)],
        stats: vec![Stats::Kills],
    };
    assert_eq!(
        query_games(query, games).unwrap_err(),
        QueryError::MissingAttribute
    );
}
