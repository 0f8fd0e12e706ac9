//! Team records and the fold of a raw player row into one.

use vstd::prelude::*;
use crate::QueryError;
use crate::attrmap::{AttrMap, PlayerData};
use crate::merge::{
    MergeType, spec_or_merge, spec_merge_attributes, get_merge_type_of_attribute,
    merge_attributes,
};

verus! {

/// The mathematical shape of a team record.
pub ghost struct TeamView {
    pub name: Seq<char>,
    pub data: Map<Seq<char>, Seq<char>>,
}

/// A consolidated per-team attribute set for one game.
#[derive(Debug)]
pub struct TeamData {
    pub name: String,
    pub data: AttrMap,
}

impl View for TeamData {
    type V = TeamView;

    open spec fn view(&self) -> TeamView {
        TeamView { name: self.name@, data: self.data@ }
    }
}

/// The value bound to `k`, or the empty string when `k` is unbound: how a
/// merge reads an attribute that may be absent on either side.
pub open spec fn map_get_or_empty(m: Map<Seq<char>, Seq<char>>, k: Seq<char>) -> Seq<char> {
    if m.contains_key(k) {
        m[k]
    } else {
        Seq::<char>::empty()
    }
}

/// The attribute mapping a header and a row denote over the first `n`
/// columns: for each attribute name, the value of its last column. A name
/// whose last column lies past the end of the row is absent, even when an
/// earlier column of that name is in range.
pub open spec fn spec_row_map(header: Seq<String>, row: Seq<String>, n: int) -> Map<
    Seq<char>,
    Seq<char>,
>
    decreases n,
{
    if n <= 0 {
        Map::empty()
    } else if n - 1 < row.len() {
        spec_row_map(header, row, n - 1).insert(header[n - 1]@, row[n - 1]@)
    } else {
        spec_row_map(header, row, n - 1).remove(header[n - 1]@)
    }
}

/// Keys one row of raw column values by the header's attribute names: each
/// name's last column decides, and one past the end of the row drops the
/// name.
pub fn player_row_to_player_data(header: &Vec<String>, row: &Vec<String>) -> (r: PlayerData)
    ensures
        r@ == spec_row_map(header@, row@, header@.len() as int),
{
    let n = header.len();
    let mut player_data = AttrMap::new();
    let mut i: usize = 0;
    while i < n
        invariant
            0 <= i <= n,
            n == header@.len(),
            player_data@ == spec_row_map(header@, row@, i as int),
        decreases n - i,
    {
        if i < row.len() {
            player_data.insert(header[i].clone(), row[i].clone());
        } else {
            player_data.remove(header[i].as_str());
        }
        i = i + 1;
    }
    player_data
}

/// The game identifier of a player row; `None` when the row has no
/// `gameid` attribute.
pub fn get_player_data_game_id<'a>(player_data: &'a PlayerData) -> (r: Option<&'a String>)
    ensures
        match r {
            Some(v) => player_data@.contains_key("gameid"@) && v@ == player_data@["gameid"@],
            None => !player_data@.contains_key("gameid"@),
        },
{
    player_data.get("gameid")
}

/// The team name of a player row; `None` when the row has no `team`
/// attribute.
pub fn get_player_data_team<'a>(player_data: &'a PlayerData) -> (r: Option<&'a String>)
    ensures
        match r {
            Some(v) => player_data@.contains_key("team"@) && v@ == player_data@["team"@],
            None => !player_data@.contains_key("team"@),
        },
{
    player_data.get("team")
}

/// Makes a row the base record of its team. A row with no `team` attribute
/// cannot be placed and is a `MissingAttribute` error.
pub fn player_data_to_team_data(player_data: PlayerData) -> (r: Result<TeamData, QueryError>)
    ensures
        match r {
            Ok(t) => player_data@.contains_key("team"@) && t@.name == player_data@["team"@]
                && t@.data == player_data@,
            Err(e) => e == QueryError::MissingAttribute && !player_data@.contains_key("team"@),
        },
{
    let name = match player_data.get("team") {
        Some(n) => n.clone(),
        None => {
            return Err(QueryError::MissingAttribute);
        },
    };
    Ok(TeamData { name, data: player_data })
}

/// A team record after one attribute of a row is folded in under `mt`:
/// the strategy applied to the team's current value and the row's value,
/// absent values reading as empty. `None` when the strategy rejects an
/// operand.
pub open spec fn spec_op_merge(
    t: TeamView,
    row: Map<Seq<char>, Seq<char>>,
    attr: Seq<char>,
    mt: MergeType,
) -> Option<TeamView> {
    match spec_merge_attributes(
        map_get_or_empty(t.data, attr),
        map_get_or_empty(row, attr),
        mt,
    ) {
        Some(v) => Some(TeamView { name: t.name, data: t.data.insert(attr, v) }),
        None => None,
    }
}

/// Folds `attribute` of `player_data` into `team_data` under strategy `op`.
pub fn op_merge_player_data_into_team(
    team_data: &mut TeamData,
    player_data: &PlayerData,
    attribute: &String,
    op: MergeType,
) -> (r: Result<(), QueryError>)
    ensures
        match r {
            Ok(()) => spec_op_merge(old(team_data)@, player_data@, attribute@, op) == Some(
                final(team_data)@,
            ),
            Err(e) => {
                &&& e == QueryError::InvalidIntegerOperand
                &&& spec_op_merge(old(team_data)@, player_data@, attribute@, op) is None
                &&& final(team_data)@ == old(team_data)@
            },
        },
{
    proof {
        reveal_strlit("");
        assert(""@ =~= Seq::<char>::empty());
    }
    let team_attribute: &str = match team_data.data.get(attribute.as_str()) {
        Some(v) => v.as_str(),
        None => "",
    };
    let player_attribute: &str = match player_data.get(attribute.as_str()) {
        Some(v) => v.as_str(),
        None => "",
    };
    let new = match merge_attributes(team_attribute, player_attribute, op) {
        Ok(v) => v,
        Err(e) => {
            return Err(e);
        },
    };
    team_data.data.insert(attribute.clone(), new);
    Ok(())
}

/// Folds `attribute` of `player_data` into `team_data` by logical OR,
/// which accepts every operand.
pub fn or_merge_player_data_into_team(
    team_data: &mut TeamData,
    player_data: &PlayerData,
    attribute: &String,
)
    ensures
        spec_op_merge(old(team_data)@, player_data@, attribute@, MergeType::Or) == Some(
            final(team_data)@,
        ),
{
    match op_merge_player_data_into_team(team_data, player_data, attribute, MergeType::Or) {
        Ok(()) => (),
        Err(_) => {
            proof {
                assert(false);
            }
        },
    }
}

/// Folds `attribute` of `player_data` into `team_data` by integer sum; a
/// non-integer operand is an `InvalidIntegerOperand` error.
pub fn int_sum_merge_player_data_into_team(
    team_data: &mut TeamData,
    player_data: &PlayerData,
    attribute: &String,
) -> (r: Result<(), QueryError>)
    ensures
        match r {
            Ok(()) => spec_op_merge(
                old(team_data)@,
                player_data@,
                attribute@,
                MergeType::IntSum,
            ) == Some(final(team_data)@),
            Err(e) => {
                &&& e == QueryError::InvalidIntegerOperand
                &&& spec_op_merge(
                    old(team_data)@,
                    player_data@,
                    attribute@,
                    MergeType::IntSum,
                ) is None
                &&& final(team_data)@ == old(team_data)@
            },
        },
{
    op_merge_player_data_into_team(team_data, player_data, attribute, MergeType::IntSum)
}

/// A team record after a same-team row is folded in: only `firstblood` is
/// merged (by its registered OR strategy); every other attribute of the
/// first row stays authoritative.
pub open spec fn spec_merge_team(t: TeamView, row: Map<Seq<char>, Seq<char>>) -> TeamView {
    TeamView {
        name: t.name,
        data: t.data.insert(
            "firstblood"@,
            spec_or_merge(
                map_get_or_empty(t.data, "firstblood"@),
                map_get_or_empty(row, "firstblood"@),
            ),
        ),
    }
}

/// Folds a second row for the same team into its record. The allowlist of
/// merged attributes is deliberately just `firstblood`: the counted
/// statistics already stand identically on every player row of a team, so
/// only the per-player flag needs combining.
pub fn merge_player_data_into_team(team_data: &mut TeamData, player_data: &PlayerData)
    ensures
        final(team_data)@ == spec_merge_team(old(team_data)@, player_data@),
{
    let attribute = String::from_str("firstblood");
    let merge_type = get_merge_type_of_attribute(attribute.as_str());
    assert(merge_type == MergeType::Or);
    match merge_type {
        MergeType::Or => {
            or_merge_player_data_into_team(team_data, player_data, &attribute);
        },
        _ => {
            proof {
                assert(false);
            }
        },
    }
}

} // verus!
