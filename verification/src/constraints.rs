//! Constraints and their evaluation against a team record.

use vstd::prelude::*;
use crate::QueryError;
use crate::str_eq;
use crate::team::{TeamData, TeamView};

verus! {

/// The side a team played on.
#[derive(Clone, Copy, Debug, PartialEq, Eq, Structural)]
pub enum Sides {
    Red,
    Blue,
}

/// The known league codes.
#[derive(Clone, Copy, Debug, PartialEq, Eq, Structural)]
pub enum Leagues {
    LFL,
    LCS,
    LCK,
    LPL,
    LEC,
    CK,
    VCS,
    LJL,
}

/// One filter predicate over a team record.
pub enum Constraint {
    Team(String),
    GameResult(bool),
    Side(Sides),
    League(Leagues),
}

/// The mathematical shape of a constraint.
pub ghost enum ConstraintView {
    Team(Seq<char>),
    GameResult(bool),
    Side(Sides),
    League(Leagues),
}

impl View for Constraint {
    type V = ConstraintView;

    open spec fn view(&self) -> ConstraintView {
        match self {
            Constraint::Team(n) => ConstraintView::Team(n@),
            Constraint::GameResult(w) => ConstraintView::GameResult(*w),
            Constraint::Side(s) => ConstraintView::Side(*s),
            Constraint::League(l) => ConstraintView::League(*l),
        }
    }
}

/// The views of a constraint list.
pub open spec fn constraints_view(cs: Seq<Constraint>) -> Seq<ConstraintView> {
    cs.map_values(|c: Constraint| c@)
}

/// The `"1"`/`"0"` encoding of a game result.
pub open spec fn spec_bool_str(b: bool) -> Seq<char> {
    if b {
        "1"@
    } else {
        "0"@
    }
}

/// Encodes a win/loss as the `result` attribute holds it.
pub fn bool_to_result_str(b: bool) -> (r: &'static str)
    ensures
        r@ == spec_bool_str(b),
{
    match b {
        true => "1",
        false => "0",
    }
}

/// The league a `league` attribute value names, if any.
pub open spec fn spec_league_of(s: Seq<char>) -> Option<Leagues> {
    if s == "CK"@ { Some(Leagues::CK) }
    else if s == "LCK"@ { Some(Leagues::LCK) }
    else if s == "LCS"@ { Some(Leagues::LCS) }
    else if s == "LEC"@ { Some(Leagues::LEC) }
    else if s == "LFL"@ { Some(Leagues::LFL) }
    else if s == "LJL"@ { Some(Leagues::LJL) }
    else if s == "LPL"@ { Some(Leagues::LPL) }
    else if s == "VCS"@ { Some(Leagues::VCS) }
    else { None }
}

/// The side a `side` attribute value names, if any.
pub open spec fn spec_side_of(s: Seq<char>) -> Option<Sides> {
    if s == "Blue"@ { Some(Sides::Blue) }
    else if s == "Red"@ { Some(Sides::Red) }
    else { None }
}

/// Parses a league code; any other string is an `UnrecognizedLeague`
/// error.
pub fn string_to_league(s: &str) -> (r: Result<Leagues, QueryError>)
    ensures
        match r {
            Ok(l) => spec_league_of(s@) == Some(l),
            Err(e) => e == QueryError::UnrecognizedLeague && spec_league_of(s@) is None,
        },
{
    if str_eq(s, "CK") { Ok(Leagues::CK) }
    else if str_eq(s, "LCK") { Ok(Leagues::LCK) }
    else if str_eq(s, "LCS") { Ok(Leagues::LCS) }
    else if str_eq(s, "LEC") { Ok(Leagues::LEC) }
    else if str_eq(s, "LFL") { Ok(Leagues::LFL) }
    else if str_eq(s, "LJL") { Ok(Leagues::LJL) }
    else if str_eq(s, "LPL") { Ok(Leagues::LPL) }
    else if str_eq(s, "VCS") { Ok(Leagues::VCS) }
    else { Err(QueryError::UnrecognizedLeague) }
}

/// Parses a side name; any other string is an `UnrecognizedSide` error.
pub fn string_to_side(s: &str) -> (r: Result<Sides, QueryError>)
    ensures
        match r {
            Ok(side) => spec_side_of(s@) == Some(side),
            Err(e) => e == QueryError::UnrecognizedSide && spec_side_of(s@) is None,
        },
{
    if str_eq(s, "Blue") { Ok(Sides::Blue) }
    else if str_eq(s, "Red") { Ok(Sides::Red) }
    else { Err(QueryError::UnrecognizedSide) }
}

/// Whether a team satisfies one constraint, or why the constraint cannot
/// be evaluated: a missing backing attribute or an unrecognized league or
/// side value is a fatal error.
pub open spec fn spec_fits_constraint(t: TeamView, c: ConstraintView) -> Result<
    bool,
    QueryError,
> {
    match c {
        ConstraintView::Team(name) => Ok(t.name == name),
        ConstraintView::GameResult(won) => if t.data.contains_key("result"@) {
            Ok(t.data["result"@] == spec_bool_str(won))
        } else {
            Err(QueryError::MissingAttribute)
        },
        ConstraintView::League(league) => if t.data.contains_key("league"@) {
            match spec_league_of(t.data["league"@]) {
                Some(l) => Ok(l == league),
                None => Err(QueryError::UnrecognizedLeague),
            }
        } else {
            Err(QueryError::MissingAttribute)
        },
        ConstraintView::Side(side) => if t.data.contains_key("side"@) {
            match spec_side_of(t.data["side"@]) {
                Some(s) => Ok(s == side),
                None => Err(QueryError::UnrecognizedSide),
            }
        } else {
            Err(QueryError::MissingAttribute)
        },
    }
}

/// Whether a team satisfies every constraint of a list, evaluated in
/// order: the first unevaluable constraint reached aborts, the first
/// unsatisfied one settles the answer.
pub open spec fn spec_fits_constraints(t: TeamView, cs: Seq<ConstraintView>) -> Result<
    bool,
    QueryError,
>
    decreases cs.len(),
{
    if cs.len() == 0 {
        Ok(true)
    } else {
        match spec_fits_constraint(t, cs[0]) {
            Err(e) => Err(e),
            Ok(false) => Ok(false),
            Ok(true) => spec_fits_constraints(t, cs.drop_first()),
        }
    }
}

/// Tests `team` against one constraint.
pub fn fits_constraint(team: &TeamData, constraint: &Constraint) -> (r: Result<
    bool,
    QueryError,
>)
    ensures
        r == spec_fits_constraint(team@, constraint@),
{
    match constraint {
        Constraint::GameResult(result) => {
            match team.data.get("result") {
                Some(v) => Ok(str_eq(v.as_str(), bool_to_result_str(*result))),
                None => Err(QueryError::MissingAttribute),
            }
        },
        Constraint::Team(name) => Ok(team.name == *name),
        Constraint::League(league) => {
            match team.data.get("league") {
                Some(v) => match string_to_league(v.as_str()) {
                    Ok(l) => Ok(l == *league),
                    Err(e) => Err(e),
                },
                None => Err(QueryError::MissingAttribute),
            }
        },
        Constraint::Side(side) => {
            match team.data.get("side") {
                Some(v) => match string_to_side(v.as_str()) {
                    Ok(s) => Ok(s == *side),
                    Err(e) => Err(e),
                },
                None => Err(QueryError::MissingAttribute),
            }
        },
    }
}

/// Tests `team` against the whole constraint list.
pub fn fits_constraints(team: &TeamData, constraints: &Vec<Constraint>) -> (r: Result<
    bool,
    QueryError,
>)
    ensures
        r == spec_fits_constraints(team@, constraints_view(constraints@)),
{
    let ghost cv = constraints_view(constraints@);
    let n = constraints.len();
    proof {
        assert(cv.skip(0) =~= cv);
    }
    let mut i: usize = 0;
    while i < n
        invariant
            0 <= i <= n,
            n == constraints@.len(),
            cv == constraints_view(constraints@),
            cv.len() == n,
            spec_fits_constraints(team@, cv) == spec_fits_constraints(team@, cv.skip(i as int)),
        decreases n - i,
    {
        proof {
            assert(cv.skip(i as int)[0] == cv[i as int]);
            assert(cv.skip(i as int).drop_first() =~= cv.skip(i as int + 1));
        }
        match fits_constraint(team, &constraints[i]) {
            Ok(true) => {},
            Ok(false) => {
                return Ok(false);
            },
            Err(e) => {
                return Err(e);
            },
        }
        i = i + 1;
    }
    proof {
        assert(cv.skip(n as int) =~= Seq::<ConstraintView>::empty());
    }
    Ok(true)
}

/// Constraint conjunction: a team matches a constraint list exactly when
/// it matches every individual constraint, and an empty list matches every
/// team.
pub proof fn lemma_constraint_conjunction(t: TeamView, cs: Seq<ConstraintView>)
    ensures
        cs.len() == 0 ==> spec_fits_constraints(t, cs) == Ok::<bool, QueryError>(true),
        spec_fits_constraints(t, cs) == Ok::<bool, QueryError>(true) <==> (forall|i: int|
            0 <= i < cs.len() ==> spec_fits_constraint(t, cs[i]) == Ok::<bool, QueryError>(
                true,
            )),
    decreases cs.len(),
{
    if cs.len() > 0 {
        lemma_constraint_conjunction(t, cs.drop_first());
        if spec_fits_constraint(t, cs[0]) == Ok::<bool, QueryError>(true) {
            if spec_fits_constraints(t, cs) == Ok::<bool, QueryError>(true) {
                assert forall|i: int| 0 <= i < cs.len() implies spec_fits_constraint(t, cs[i])
                    == Ok::<bool, QueryError>(true) by {
                    if i > 0 {
                        assert(cs.drop_first()[i - 1] == cs[i]);
                    }
                }
            }
            if forall|i: int| 0 <= i < cs.len() ==> spec_fits_constraint(t, cs[i]) == Ok::<
                bool,
                QueryError,
            >(true) {
                assert forall|i: int| 0 <= i < cs.drop_first().len() implies spec_fits_constraint(
                    t,
                    cs.drop_first()[i],
                ) == Ok::<bool, QueryError>(true) by {
                    assert(cs.drop_first()[i] == cs[i + 1]);
                }
            }
        }
    }
}

} // verus!
