use match_stats::attrmap::{AttrMap, PlayerData};
use match_stats::consolidate::{Games, add_player_row_to_games};
use match_stats::team::{
    player_row_to_player_data, player_data_to_team_data, get_player_data_game_id,
    get_player_data_team, merge_player_data_into_team,
};
use match_stats::QueryError;

fn row(pairs: &[(&str, &str)]) -> PlayerData {
    let mut m = AttrMap::new();
    for (k, v) in pairs {
        m.insert(k.to_string(), v.to_string());
    }
    m
}

#[test]
fn attrmap_get_and_insert() {
    let mut m = AttrMap::new();
    assert!(m.get("kills").is_none());
    m.insert("kills".to_string(), "10".to_string());
    assert_eq!(m.get("kills").unwrap(), "10");
    m.insert("kills".to_string(), "12".to_string());
    assert_eq!(m.get("kills").unwrap(), "12");
    m.insert("deaths".to_string(), "3".to_string());
    assert_eq!(m.get("kills").unwrap(), "12");
    assert_eq!(m.get("deaths").unwrap(), "3");
}

#[test]
fn row_keyed_by_header() {
    let header = vec!["gameid".to_string(), "team".to_string(), "kills".to_string()];
    let values = vec!["G1".to_string(), "A".to_string(), "10".to_string()];
    let data = player_row_to_player_data(&header, &values);
    assert_eq!(data.get("gameid").unwrap(), "G1");
    assert_eq!(data.get("team").unwrap(), "A");
    assert_eq!(data.get("kills").unwrap(), "10");
    assert!(data.get("deaths").is_none());
}

#[test]
fn row_shorter_than_header_drops_missing_columns() {
    let header = vec!["gameid".to_string(), "team".to_string(), "kills".to_string()];
    let values = vec!["G1".to_string(), "A".to_string()];
    let data = player_row_to_player_data(&header, &values);
    assert_eq!(data.get("team").unwrap(), "A");
    assert!(data.get("kills").is_none());
}

#[test]
fn duplicate_header_last_column_wins() {
    let header = vec!["team".to_string(), "team".to_string()];
    let values = vec!["A".to_string(), "B".to_string()];
    let data = player_row_to_player_data(&header, &values);
    assert_eq!(data.get("team").unwrap(), "B");
}

#[test]
fn duplicate_header_out_of_range_column_drops_the_key() {
    // The last column of a name decides; when that column lies past the
    // end of the row the name is absent, even though an earlier in-range
    // column carried it.
    let header = vec!["team".to_string(), "kills".to_string(), "team".to_string()];
    let values = vec!["A".to_string(), "5".to_string()];
    let data = player_row_to_player_data(&header, &values);
    assert!(data.get("team").is_none());
    assert_eq!(data.get("kills").unwrap(), "5");
}

#[test]
fn player_data_getters() {
    let data = row(&[("gameid", "G1"), ("team", "A")]);
    assert_eq!(get_player_data_game_id(&data).unwrap(), "G1");
    assert_eq!(get_player_data_team(&data).unwrap(), "A");
    let empty = row(&[]);
    assert!(get_player_data_game_id(&empty).is_none());
    assert!(get_player_data_team(&empty).is_none());
}

#[test]
fn team_data_from_row() {
    let data = row(&[("gameid", "G1"), ("team", "A"), ("kills", "10")]);
    let team = player_data_to_team_data(data).unwrap();
    assert_eq!(team.name, "A");
    assert_eq!(team.data.get("kills").unwrap(), "10");
}

#[test]
fn team_data_requires_team_attribute() {
    let data = row(&[("gameid", "G1")]);
    assert_eq!(
        player_data_to_team_data(data).unwrap_err(),
        QueryError::MissingAttribute
    );
}

#[test]
fn firstblood_merges_by_or_only() {
    let base = row(&[("team", "A"), ("kills", "10"), ("firstblood", "0")]);
    let mut team = player_data_to_team_data(base).unwrap();
    let second = row(&[("team", "A"), ("kills", "99"), ("firstblood", "1")]);
    merge_player_data_into_team(&mut team, &second);
    // The flag is OR-combined; the first row's counted stats stay.
    assert_eq!(team.data.get("firstblood").unwrap(), "1");
    assert_eq!(team.data.get("kills").unwrap(), "10");
}

#[test]
fn round_trip_consolidation() {
    // Two rows with one game id and different teams: first seen becomes
    // team_a, the other team_b.
    let mut games = Games::new();
    add_player_row_to_games(&mut games, row(&[("gameid", "G1"), ("team", "A")])).unwrap();
    add_player_row_to_games(&mut games, row(&[("gameid", "G1"), ("team", "B")])).unwrap();
    assert_eq!(games.entries.len(), 1);
    assert_eq!(games.entries[0].0, "G1");
    assert_eq!(games.entries[0].1.0.name, "A");
    assert_eq!(games.entries[0].1.1.as_ref().unwrap().name, "B");

    let mut games2 = Games::new();
    add_player_row_to_games(&mut games2, row(&[("gameid", "G1"), ("team", "B")])).unwrap();
    add_player_row_to_games(&mut games2, row(&[("gameid", "G1"), ("team", "A")])).unwrap();
    assert_eq!(games2.entries[0].1.0.name, "B");
    assert_eq!(games2.entries[0].1.1.as_ref().unwrap().name, "A");
}

#[test]
fn same_team_second_row_folds_not_overwrites() {
    let mut games = Games::new();
    add_player_row_to_games(
        &mut games,
        row(&[("gameid", "G1"), ("team", "A"), ("kills", "10"), ("firstblood", "0")]),
    )
    .unwrap();
    add_player_row_to_games(
        &mut games,
        row(&[("gameid", "G1"), ("team", "A"), ("kills", "55"), ("firstblood", "1")]),
    )
    .unwrap();
    assert_eq!(games.entries.len(), 1);
    let team_a = &games.entries[0].1.0;
    assert_eq!(team_a.data.get("kills").unwrap(), "10");
    assert_eq!(team_a.data.get("firstblood").unwrap(), "1");
    assert!(games.entries[0].1.1.is_none());
}

#[test]
fn first_second_team_row_is_kept() {
    // Once both teams are present, a further row for the second team
    // changes nothing: its first row stays the base record.
    let mut games = Games::new();
    add_player_row_to_games(&mut games, row(&[("gameid", "G1"), ("team", "A")])).unwrap();
    add_player_row_to_games(
        &mut games,
        row(&[("gameid", "G1"), ("team", "B"), ("kills", "7"), ("firstblood", "0")]),
    )
    .unwrap();
    add_player_row_to_games(
        &mut games,
        row(&[("gameid", "G1"), ("team", "B"), ("kills", "99"), ("firstblood", "1")]),
    )
    .unwrap();
    assert_eq!(games.entries.len(), 1);
    let team_b = games.entries[0].1.1.as_ref().unwrap();
    assert_eq!(team_b.name, "B");
    assert_eq!(team_b.data.get("kills").unwrap(), "7");
    assert_eq!(team_b.data.get("firstblood").unwrap(), "0");
}

#[test]
fn rows_missing_required_attributes_are_fatal() {
    let mut games = Games::new();
    assert_eq!(
        add_player_row_to_games(&mut games, row(&[("team", "A")])).unwrap_err(),
        QueryError::MissingAttribute
    );
    assert_eq!(
        add_player_row_to_games(&mut games, row(&[("gameid", "G1")])).unwrap_err(),
        QueryError::MissingAttribute
    );
    assert_eq!(games.entries.len(), 0);
}

#[test]
fn distinct_game_ids_get_distinct_entries() {
    let mut games = Games::new();
    add_player_row_to_games(&mut games, row(&[("gameid", "G1"), ("team", "A")])).unwrap();
    add_player_row_to_games(&mut games, row(&[("gameid", "G2"), ("team", "C")])).unwrap();
    assert_eq!(games.entries.len(), 2);
    assert_eq!(games.entries[0].0, "G1");
    assert_eq!(games.entries[1].0, "G2");
}
