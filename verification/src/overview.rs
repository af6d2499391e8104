//! The editor's overview lists: players, staff and teams in the order of their lowercase
//! names, each person with the name of the team that holds their contract, each team with its
//! roster and staff counts.
use vstd::prelude::*;

use crate::ordered::{ordered_by, stable_order, strs};

verus! {

/// The lowercase form of a text, as `str::to_lowercase` gives it. The mapping follows the
/// Unicode tables and depends on the text alone.
pub uninterp spec fn lowercase_of(text: Seq<char>) -> Seq<char>;

/// `str::to_lowercase`: the lowercase form of a text, which is [`lowercase_of`] of it.
#[verifier::external_body]
fn lowercase(text: &str) -> (lower: String)
    ensures
        lower@ == lowercase_of(text@),
{
    text.to_lowercase()
}

/// A player or staff member as the overview reads them: their name and the team that holds
/// their contract, if any.
#[derive(Debug, Clone, PartialEq, Eq)]
pub struct PersonRow {
    pub name: String,
    pub team_id: Option<usize>,
}

/// A person's place in the overview: which input row it is and the team name shown for it.
#[derive(Debug, Clone, PartialEq, Eq)]
pub struct PlacedPerson {
    pub source: usize,
    pub team: String,
}

/// A team's row in the overview: which input team it is, its id and name, whether it is the
/// player's team, and how many players and staff members it holds.
#[derive(Debug, Clone, PartialEq, Eq)]
pub struct TeamOverview {
    pub source: usize,
    pub id: usize,
    pub name: String,
    pub player_team: bool,
    pub roster: usize,
    pub staffs: usize,
}

/// The three lists of the overview.
#[derive(Debug, Clone, PartialEq, Eq)]
pub struct OverviewRows {
    pub players: Vec<PlacedPerson>,
    pub staffs: Vec<PlacedPerson>,
    pub teams: Vec<TeamOverview>,
}

pub open spec fn team_views(teams: Seq<(usize, String)>) -> Seq<(usize, Seq<char>)> {
    teams.map_values(|t: (usize, String)| (t.0, t.1@))
}

/// The name of the team with an id: the last team listed with it, as a map built from the list
/// keeps it.
pub open spec fn team_name_of(teams: Seq<(usize, Seq<char>)>, id: usize) -> Option<Seq<char>>
    decreases teams.len(),
{
    if teams.len() == 0 {
        None
    } else if teams.last().0 == id {
        Some(teams.last().1)
    } else {
        team_name_of(teams.drop_last(), id)
    }
}

/// The team shown for a person: the name of their contract's team, or "Free Agent" when they
/// have no contract or its team is not listed.
pub open spec fn team_label(teams: Seq<(usize, Seq<char>)>, team_id: Option<usize>) -> Seq<char> {
    match team_id {
        Some(id) => match team_name_of(teams, id) {
            Some(name) => name,
            None => "Free Agent"@,
        },
        None => "Free Agent"@,
    }
}

/// How many people are under contract with a team.
pub open spec fn count_on_team(people: Seq<PersonRow>, id: usize) -> nat
    decreases people.len(),
{
    if people.len() == 0 {
        0
    } else {
        count_on_team(people.drop_last(), id) + if people.last().team_id == Some(id) {
            1nat
        } else {
            0nat
        }
    }
}

pub open spec fn person_keys(people: Seq<PersonRow>) -> Seq<Seq<char>> {
    people.map_values(|p: PersonRow| lowercase_of(p.name@))
}

pub open spec fn team_keys(teams: Seq<(usize, String)>) -> Seq<Seq<char>> {
    teams.map_values(|t: (usize, String)| lowercase_of(t.1@))
}

pub open spec fn person_sources(rows: Seq<PlacedPerson>) -> Seq<usize> {
    rows.map_values(|r: PlacedPerson| r.source)
}

pub open spec fn team_sources(rows: Seq<TeamOverview>) -> Seq<usize> {
    rows.map_values(|r: TeamOverview| r.source)
}

/// The people listed in the order of their lowercase names, each with the team shown for it.
pub open spec fn placed_people(
    people: Seq<PersonRow>,
    teams: Seq<(usize, Seq<char>)>,
    rows: Seq<PlacedPerson>,
) -> bool {
    &&& rows.len() == people.len()
    &&& ordered_by(person_keys(people), person_sources(rows))
    &&& forall|i: int|
        0 <= i < rows.len() ==> (#[trigger] rows[i]).team@ == team_label(
            teams,
            people[rows[i].source as int].team_id,
        )
}

fn count_people(people: &[PersonRow], id: usize) -> (count: usize)
    ensures
        count == count_on_team(people@, id),
{
    let mut count: usize = 0;
    let mut i: usize = 0;
    while i < people.len()
        invariant
            i <= people@.len(),
            count == count_on_team(people@.subrange(0, i as int), id),
            count <= i,
        decreases people.len() - i,
    {
        assert(people@.subrange(0, i + 1).drop_last() =~= people@.subrange(0, i as int));
        if people[i].team_id == Some(id) {
            count = count + 1;
        }
        i = i + 1;
    }
    assert(people@.subrange(0, people@.len() as int) =~= people@);
    count
}

fn team_label_of(teams: &[(usize, String)], team_id: Option<usize>) -> (label: String)
    ensures
        label@ == team_label(team_views(teams@), team_id),
{
    let ghost views = team_views(teams@);
    if let Some(id) = team_id {
        let mut n: usize = teams.len();
        assert(views.subrange(0, n as int) =~= views);
        while n > 0
            invariant
                n <= teams@.len(),
                team_id == Some(id),
                views == team_views(teams@),
                team_name_of(views, id) == team_name_of(views.subrange(0, n as int), id),
            decreases n,
        {
            let ghost prefix = views.subrange(0, n as int);
            assert(prefix.drop_last() =~= views.subrange(0, n - 1));
            if teams[n - 1].0 == id {
                assert(prefix.last() == (teams@[n - 1].0, teams@[n - 1].1@));
                let name = teams[n - 1].1.clone();
                assert(name@ == teams@[n - 1].1@);
                return name;
            }
            n = n - 1;
        }
        assert(views.subrange(0, 0) =~= Seq::<(usize, Seq<char>)>::empty());
    }
    "Free Agent".to_owned()
}

fn place_people(people: &[PersonRow], teams: &[(usize, String)]) -> (rows: Vec<PlacedPerson>)
    ensures
        placed_people(people@, team_views(teams@), rows@),
{
    let mut keys: Vec<String> = Vec::new();
    let mut i: usize = 0;
    while i < people.len()
        invariant
            i <= people@.len(),
            strs(keys@) == person_keys(people@).subrange(0, i as int),
        decreases people.len() - i,
    {
        let ghost before = strs(keys@);
        let key = lowercase(people[i].name.as_str());
        keys.push(key);
        assert(strs(keys@) =~= before.push(key@));
        assert(person_keys(people@).subrange(0, i + 1) =~= person_keys(people@).subrange(
            0,
            i as int,
        ).push(person_keys(people@)[i as int]));
        i = i + 1;
    }
    assert(strs(keys@) =~= person_keys(people@));
    let order = stable_order(&keys);
    let mut rows: Vec<PlacedPerson> = Vec::new();
    let mut k: usize = 0;
    while k < order.len()
        invariant
            k <= order@.len() == people@.len(),
            ordered_by(person_keys(people@), order@),
            person_sources(rows@) == order@.subrange(0, k as int),
            forall|j: int|
                0 <= j < k ==> (#[trigger] rows@[j]).team@ == team_label(
                    team_views(teams@),
                    people@[rows@[j].source as int].team_id,
                ),
        decreases order.len() - k,
    {
        let source = order[k];
        assert(source < people@.len());
        let team = team_label_of(teams, people[source].team_id);
        let ghost before = person_sources(rows@);
        rows.push(PlacedPerson { source, team });
        assert(person_sources(rows@) =~= before.push(source));
        assert(order@.subrange(0, k + 1) =~= order@.subrange(0, k as int).push(source));
        k = k + 1;
    }
    assert(order@.subrange(0, order@.len() as int) =~= order@);
    rows
}

/// The overview lists. Players and staff come in the order of their lowercase names, equal names
/// in input order, each with the name of their contract's team or "Free Agent". Teams come in
/// the order of their lowercase names, each with whether it is the player's team and the number
/// of players and of staff members under contract with it.
pub fn overview_rows(
    players: &[PersonRow],
    staffs: &[PersonRow],
    teams: &[(usize, String)],
    player_team: Option<usize>,
) -> (rows: OverviewRows)
    ensures
        placed_people(players@, team_views(teams@), rows.players@),
        placed_people(staffs@, team_views(teams@), rows.staffs@),
        rows.teams@.len() == teams@.len(),
        ordered_by(team_keys(teams@), team_sources(rows.teams@)),
        forall|i: int|
            0 <= i < rows.teams@.len() ==> {
                let row = #[trigger] rows.teams@[i];
                let team = teams@[row.source as int];
                &&& row.id == team.0
                &&& row.name@ == team.1@
                &&& row.player_team == (player_team == Some(team.0))
                &&& row.roster == count_on_team(players@, team.0)
                &&& row.staffs == count_on_team(staffs@, team.0)
            },
{
    let placed_players = place_people(players, teams);
    let placed_staffs = place_people(staffs, teams);
    let mut keys: Vec<String> = Vec::new();
    let mut i: usize = 0;
    while i < teams.len()
        invariant
            i <= teams@.len(),
            strs(keys@) == team_keys(teams@).subrange(0, i as int),
        decreases teams.len() - i,
    {
        let ghost before = strs(keys@);
        let key = lowercase(teams[i].1.as_str());
        keys.push(key);
        assert(strs(keys@) =~= before.push(key@));
        assert(team_keys(teams@).subrange(0, i + 1) =~= team_keys(teams@).subrange(
            0,
            i as int,
        ).push(team_keys(teams@)[i as int]));
        i = i + 1;
    }
    assert(strs(keys@) =~= team_keys(teams@));
    let order = stable_order(&keys);
    let mut team_rows: Vec<TeamOverview> = Vec::new();
    let mut k: usize = 0;
    while k < order.len()
        invariant
            k <= order@.len() == teams@.len(),
            ordered_by(team_keys(teams@), order@),
            team_sources(team_rows@) == order@.subrange(0, k as int),
            forall|j: int|
                0 <= j < k ==> {
                    let row = #[trigger] team_rows@[j];
                    let team = teams@[row.source as int];
                    &&& row.id == team.0
                    &&& row.name@ == team.1@
                    &&& row.player_team == (player_team == Some(team.0))
                    &&& row.roster == count_on_team(players@, team.0)
                    &&& row.staffs == count_on_team(staffs@, team.0)
                },
        decreases order.len() - k,
    {
        let source = order[k];
        assert(source < teams@.len());
        let id = teams[source].0;
        let row = TeamOverview {
            source,
            id,
            name: teams[source].1.clone(),
            player_team: player_team == Some(id),
            roster: count_people(players, id),
            staffs: count_people(staffs, id),
        };
        let ghost before = team_sources(team_rows@);
        team_rows.push(row);
        assert(team_sources(team_rows@) =~= before.push(source));
        assert(order@.subrange(0, k + 1) =~= order@.subrange(0, k as int).push(source));
        k = k + 1;
    }
    assert(order@.subrange(0, order@.len() as int) =~= order@);
    OverviewRows { players: placed_players, staffs: placed_staffs, teams: team_rows }
}

} // verus!
