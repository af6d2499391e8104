//! The decisions behind a mock draft recommendation: the roles the catalog gives each
//! champion, which champions may still be recommended, how a side's lineup is projected, and
//! the notes shown beside the candidates. The scores themselves are computed elsewhere.
use vstd::prelude::*;

use crate::api::{DraftSide, DraftTeamOption};
use crate::draft::{
    analyze_role_gate, candidate_passes_role_gate, filled_roles, gate_feasible, open_roles,
    pick_sets, playable_roles, remaining_roles_from_gate, DraftPhase, DraftRoleConfidence,
};
use crate::mock_draft::{opposite, opposite_side, our_side, side_picks, DraftSetView, MockDraftState};
use crate::ordered::{chars_lt, lemma_lt_irreflexive, lemma_lt_transitive, str_lt, contains_string, sorted_of, sorted_unique, strs, lemma_sorted_of};
use crate::profile::RoleFilter;
use crate::runtime::ChampionBriefState;
use crate::text::{append_str, chars_eq, chars_of, decimal_digits, decimal_string};

verus! {

/// The positions of a champion's catalog entry; the last entry wins where an id repeats.
pub open spec fn entry_positions(catalog: Seq<ChampionBriefState>, id: Seq<char>) -> Option<
    Seq<RoleFilter>,
>
    decreases catalog.len(),
{
    if catalog.len() == 0 {
        None
    } else if catalog.last().champion_id@ == id {
        Some(catalog.last().positions@)
    } else {
        entry_positions(catalog.drop_last(), id)
    }
}

/// Whether the catalog names positions for a champion.
pub open spec fn has_positions(catalog: Seq<ChampionBriefState>, id: Seq<char>) -> bool {
    entry_positions(catalog, id) matches Some(p) && p.len() > 0
}

/// The roles a champion can play in a draft: the positions of its catalog entry, or all five
/// when the catalog names none.
pub open spec fn roles_of(catalog: Seq<ChampionBriefState>, id: Seq<char>) -> Seq<RoleFilter> {
    if has_positions(catalog, id) {
        entry_positions(catalog, id)->0
    } else {
        playable_roles()
    }
}

/// The roles of each pick, in order.
pub open spec fn roles_of_picks(catalog: Seq<ChampionBriefState>, picks: Seq<Seq<char>>) -> Seq<
    Seq<RoleFilter>,
> {
    picks.map_values(|p: Seq<char>| roles_of(catalog, p))
}

fn copy_roles(roles: &Vec<RoleFilter>) -> (copy: Vec<RoleFilter>)
    ensures
        copy@ == roles@,
{
    let mut copy: Vec<RoleFilter> = Vec::new();
    let mut i: usize = 0;
    while i < roles.len()
        invariant
            i <= roles@.len(),
            copy@ == roles@.subrange(0, i as int),
        decreases roles.len() - i,
    {
        copy.push(roles[i]);
        i = i + 1;
        assert(copy@ =~= roles@.subrange(0, i as int));
    }
    assert(roles@.subrange(0, roles@.len() as int) =~= roles@);
    copy
}

/// The positions of a champion's catalog entry, if it has one.
fn catalog_positions(champion_id: &str, catalog: &[ChampionBriefState]) -> (found: Option<
    Vec<RoleFilter>,
>)
    ensures
        match found {
            None => entry_positions(catalog@, champion_id@) is None,
            Some(p) => entry_positions(catalog@, champion_id@) == Some(p@),
        },
{
    let id = chars_of(champion_id);
    let mut n: usize = catalog.len();
    assert(catalog@.subrange(0, catalog@.len() as int) =~= catalog@);
    while n > 0
        invariant
            n <= catalog@.len(),
            id@ == champion_id@,
            entry_positions(catalog@, champion_id@) == entry_positions(
                catalog@.subrange(0, n as int),
                champion_id@,
            ),
        decreases n,
    {
        let ghost prefix = catalog@.subrange(0, n as int);
        assert(prefix.drop_last() =~= catalog@.subrange(0, n - 1));
        assert(prefix.last() == catalog@[n - 1]);
        if chars_eq(&chars_of(catalog[n - 1].champion_id.as_str()), &id) {
            return Some(copy_roles(&catalog[n - 1].positions));
        }
        n = n - 1;
    }
    assert(catalog@.subrange(0, 0) =~= Seq::<ChampionBriefState>::empty());
    None
}

/// The roles a champion can play: its catalog positions, or all five roles when the catalog
/// names none for it.
pub fn game_roles(champion_id: &str, catalog: &[ChampionBriefState]) -> (roles: Vec<RoleFilter>)
    ensures
        roles@ == roles_of(catalog@, champion_id@),
{
    match catalog_positions(champion_id, catalog) {
        Some(positions) => {
            if positions.len() > 0 {
                return positions;
            }
        },
        None => {},
    }
    let all: Vec<RoleFilter> = vec![
        RoleFilter::Top,
        RoleFilter::Jungle,
        RoleFilter::Mid,
        RoleFilter::Bot,
        RoleFilter::Support,
    ];
    assert(all@ =~= playable_roles());
    all
}

/// The roles of each of a side's picks.
pub fn role_sets(picks: &[String], catalog: &[ChampionBriefState]) -> (sets: Vec<Vec<RoleFilter>>)
    ensures
        pick_sets(sets@) == roles_of_picks(catalog@, strs(picks@)),
{
    let mut sets: Vec<Vec<RoleFilter>> = Vec::new();
    let mut i: usize = 0;
    while i < picks.len()
        invariant
            i <= picks@.len(),
            pick_sets(sets@) == roles_of_picks(catalog@, strs(picks@)).subrange(0, i as int),
        decreases picks.len() - i,
    {
        let roles = game_roles(picks[i].as_str(), catalog);
        let ghost before = sets@;
        sets.push(roles);
        assert(pick_sets(sets@) =~= pick_sets(before).push(roles@));
        assert(roles_of_picks(catalog@, strs(picks@)).subrange(0, i + 1) =~= roles_of_picks(
            catalog@,
            strs(picks@),
        ).subrange(0, i as int).push(roles_of(catalog@, picks@[i as int]@)));
        i = i + 1;
    }
    assert(roles_of_picks(catalog@, strs(picks@)).subrange(0, picks@.len() as int)
        =~= roles_of_picks(catalog@, strs(picks@)));
    sets
}

/// A champion that may still be recommended, with its roles and how sure they are.
#[derive(Debug, Clone, PartialEq, Eq)]
pub struct PoolCandidate {
    pub champion_id: String,
    pub roles: Vec<RoleFilter>,
    pub confidence: DraftRoleConfidence,
}

/// The bans and picks of both sides in a set.
pub open spec fn used_in(set: DraftSetView) -> Seq<Seq<char>> {
    set.blue_bans + set.red_bans + set.blue_picks + set.red_picks
}

/// Whether role checking keeps a champion out: checking is enabled for the phase, the side's
/// picks can be assigned roles, and with the champion added they no longer can. Picks are
/// checked against the player's side, bans against the opponent's.
pub open spec fn gated_out(
    state: MockDraftState,
    catalog: Seq<ChampionBriefState>,
    id: Seq<char>,
) -> bool {
    let set = state@.sets[state.current_set - 1];
    let ours = our_side(state@);
    let (enabled, side) = if state.last_own_phase == DraftPhase::Pick {
        (state.settings.pick_role_gate, ours)
    } else {
        (state.settings.ban_role_gate, opposite(ours))
    };
    let current = roles_of_picks(catalog, side_picks(set, side));
    enabled && gate_feasible(current) && !gate_feasible(current.push(roles_of(catalog, id)))
}

/// Whether a champion on offer may be recommended: not banned or picked in the current set,
/// not excluded for the player's side by earlier sets, and not kept out by the role gate.
pub open spec fn pool_admits(
    state: MockDraftState,
    catalog: Seq<ChampionBriefState>,
    id: Seq<char>,
) -> bool {
    let set = state@.sets[state.current_set - 1];
    let carryover = match our_side(state@) {
        DraftSide::Blue => state@.excluded_blue,
        DraftSide::Red => state@.excluded_red,
    };
    &&& !used_in(set).contains(id)
    &&& !carryover.contains(id)
    &&& !gated_out(state, catalog, id)
}

pub open spec fn confidence_of(catalog: Seq<ChampionBriefState>, id: Seq<char>) -> DraftRoleConfidence {
    if has_positions(catalog, id) {
        DraftRoleConfidence::High
    } else {
        DraftRoleConfidence::Low
    }
}

fn contains_text(list: &[String], id: &[char]) -> (found: bool)
    ensures
        found == strs(list@).contains(id@),
{
    let mut i: usize = 0;
    while i < list.len()
        invariant
            i <= list@.len(),
            forall|k: int| 0 <= k < i ==> strs(list@)[k] != id@,
        decreases list.len() - i,
    {
        if chars_eq(&chars_of(list[i].as_str()), id) {
            assert(strs(list@)[i as int] == id@);
            return true;
        }
        i = i + 1;
    }
    false
}

/// The champions that may still be recommended, in the order they are offered.
pub fn recommendation_pool(state: &MockDraftState, catalog: &[ChampionBriefState]) -> (pool: Vec<
    PoolCandidate,
>)
    requires
        1 <= state.current_set <= state.sets@.len(),
    ensures
        pool@.map_values(|c: PoolCandidate| c.champion_id@) == strs(state.available_champions@).filter(
            |id: Seq<char>| pool_admits(*state, catalog@, id),
        ),
        forall|i: int|
            0 <= i < pool@.len() ==> (#[trigger] pool@[i]).roles@ == roles_of(
                catalog@,
                pool@[i].champion_id@,
            ) && pool@[i].confidence == confidence_of(catalog@, pool@[i].champion_id@),
{
    let set = &state.sets[state.current_set - 1];
    let ghost set_view = state@.sets[state.current_set - 1];
    assert(set@ == set_view);
    let ours = state.current_our_side();
    let carryover = match ours {
        DraftSide::Blue => &state.excluded_blue,
        DraftSide::Red => &state.excluded_red,
    };
    let (enabled, gated_side) = if state.last_own_phase == DraftPhase::Pick {
        (state.settings.pick_role_gate, ours)
    } else {
        (state.settings.ban_role_gate, opposite_side(ours))
    };
    let gated_picks = match gated_side {
        DraftSide::Blue => &set.blue_picks,
        DraftSide::Red => &set.red_picks,
    };
    let current = role_sets(gated_picks.as_slice(), catalog);
    let ghost offered = strs(state.available_champions@);
    let ghost admits = |id: Seq<char>| pool_admits(*state, catalog@, id);
    let mut pool: Vec<PoolCandidate> = Vec::new();
    let mut i: usize = 0;
    while i < state.available_champions.len()
        invariant
            i <= state.available_champions@.len(),
            offered == strs(state.available_champions@),
            1 <= state.current_set <= state.sets@.len(),
            set@ == state@.sets[state.current_set - 1],
            ours == our_side(state@),
            carryover@ == match ours {
                DraftSide::Blue => state.excluded_blue@,
                DraftSide::Red => state.excluded_red@,
            },
            enabled == (if state.last_own_phase == DraftPhase::Pick {
                state.settings.pick_role_gate
            } else {
                state.settings.ban_role_gate
            }),
            gated_side == (if state.last_own_phase == DraftPhase::Pick {
                ours
            } else {
                opposite(ours)
            }),
            strs(gated_picks@) == side_picks(set@, gated_side),
            pick_sets(current@) == roles_of_picks(catalog@, side_picks(set@, gated_side)),
            admits == (|id: Seq<char>| pool_admits(*state, catalog@, id)),
            pool@.map_values(|c: PoolCandidate| c.champion_id@) == offered.subrange(0, i as int).filter(admits),
            forall|k: int|
                0 <= k < pool@.len() ==> (#[trigger] pool@[k]).roles@ == roles_of(
                    catalog@,
                    pool@[k].champion_id@,
                ) && pool@[k].confidence == confidence_of(catalog@, pool@[k].champion_id@),
        decreases state.available_champions.len() - i,
    {
        let champion = &state.available_champions[i];
        let id = chars_of(champion.as_str());
        let used = contains_text(&set.blue_bans, &id) || contains_text(&set.red_bans, &id)
            || contains_text(&set.blue_picks, &id) || contains_text(&set.red_picks, &id);
        let excluded = contains_text(carryover, &id);
        let roles = game_roles(champion.as_str(), catalog);
        let ghost before = pool@;
        proof {
            let u = used_in(set@);
            assert(u.contains(id@) <==> (set@.blue_bans.contains(id@) || set@.red_bans.contains(id@)
                || set@.blue_picks.contains(id@) || set@.red_picks.contains(id@))) by {
                if u.contains(id@) {
                    let k = choose|k: int| 0 <= k < u.len() && u[k] == id@;
                    let (a, b, c) = (set@.blue_bans.len(), set@.red_bans.len(), set@.blue_picks.len());
                    if k < a {
                        assert(set@.blue_bans[k] == id@);
                    } else if k < a + b {
                        assert(set@.red_bans[k - a] == id@);
                    } else if k < a + b + c {
                        assert(set@.blue_picks[k - a - b] == id@);
                    } else {
                        assert(set@.red_picks[k - a - b - c] == id@);
                    }
                }
                let (a, b, c) = (set@.blue_bans.len(), set@.red_bans.len(), set@.blue_picks.len());
                if set@.blue_bans.contains(id@) {
                    let k = choose|k: int| 0 <= k < a && set@.blue_bans[k] == id@;
                    assert(u[k] == id@);
                }
                if set@.red_bans.contains(id@) {
                    let k = choose|k: int| 0 <= k < b && set@.red_bans[k] == id@;
                    assert(u[a + k] == id@);
                }
                if set@.blue_picks.contains(id@) {
                    let k = choose|k: int| 0 <= k < c && set@.blue_picks[k] == id@;
                    assert(u[a + b + k] == id@);
                }
                if set@.red_picks.contains(id@) {
                    let k = choose|k: int| 0 <= k < set@.red_picks.len() && set@.red_picks[k] == id@;
                    assert(u[a + b + c + k] == id@);
                }
            }
        }
        let keep = if used || excluded {
            false
        } else if enabled {
            candidate_passes_role_gate(current.as_slice(), roles.as_slice())
        } else {
            true
        };
        proof {
            assert(keep == pool_admits(*state, catalog@, offered[i as int]));
            let prefix = offered.subrange(0, i as int);
            assert(offered.subrange(0, i + 1) =~= prefix.push(offered[i as int]));
            prefix.lemma_filter_push(offered[i as int], admits);
        }
        if keep {
            let confidence = if has_catalog_positions(champion.as_str(), catalog) {
                DraftRoleConfidence::High
            } else {
                DraftRoleConfidence::Low
            };
            pool.push(PoolCandidate { champion_id: champion.clone(), roles, confidence });
            proof {
                assert(pool@.map_values(|c: PoolCandidate| c.champion_id@) =~= before.map_values(
                    |c: PoolCandidate| c.champion_id@,
                ).push(offered[i as int]));
            }
        }
        i = i + 1;
    }
    assert(offered.subrange(0, offered.len() as int) =~= offered);
    pool
}

/// Whether the catalog names positions for a champion.
fn has_catalog_positions(champion_id: &str, catalog: &[ChampionBriefState]) -> (found: bool)
    ensures
        found == has_positions(catalog@, champion_id@),
{
    match catalog_positions(champion_id, catalog) {
        Some(positions) => positions.len() > 0,
        None => false,
    }
}

/// Whether a champion can play a role.
pub open spec fn fits(catalog: Seq<ChampionBriefState>, id: Seq<char>, role: RoleFilter) -> bool {
    roles_of(catalog, id).contains(role)
}

/// The first candidate that can play a role.
pub open spec fn first_fit(
    catalog: Seq<ChampionBriefState>,
    candidates: Seq<Seq<char>>,
    role: RoleFilter,
) -> Option<int> {
    if exists|i: int| 0 <= i < candidates.len() && fits(catalog, candidates[i], role) {
        Some(
            choose|i: int|
                0 <= i < candidates.len() && fits(catalog, candidates[i], role) && forall|k: int|
                    0 <= k < i ==> !fits(catalog, candidates[k], role),
        )
    } else {
        None
    }
}

/// Fills the open roles in order, each with the first remaining candidate that can play it,
/// until the lineup has five champions; gives the lineup and the candidates left.
pub open spec fn fill_open_roles(
    catalog: Seq<ChampionBriefState>,
    lineup: Seq<Seq<char>>,
    candidates: Seq<Seq<char>>,
    roles: Seq<RoleFilter>,
) -> (Seq<Seq<char>>, Seq<Seq<char>>)
    decreases roles.len(),
{
    if roles.len() == 0 || lineup.len() >= 5 {
        (lineup, candidates)
    } else {
        match first_fit(catalog, candidates, roles[0]) {
            None => fill_open_roles(catalog, lineup, candidates, roles.drop_first()),
            Some(i) => fill_open_roles(
                catalog,
                lineup.push(candidates[i]),
                candidates.remove(i),
                roles.drop_first(),
            ),
        }
    }
}

/// The lineup projected for a side: its picks, then a candidate for each role its picks leave
/// open, then the best remaining candidates, up to five champions. The candidates come ranked
/// best first, without the side's picks and the champions that are no longer available.
pub open spec fn projected_lineup(
    catalog: Seq<ChampionBriefState>,
    current: Seq<Seq<char>>,
    ranked: Seq<Seq<char>>,
) -> Seq<Seq<char>> {
    let sets = roles_of_picks(catalog, current);
    let open = open_roles(gate_feasible(sets), filled_roles(sets));
    let (lineup, rest) = fill_open_roles(catalog, current, ranked, open);
    if lineup.len() >= 5 {
        lineup
    } else {
        lineup + rest.take(if rest.len() < 5 - lineup.len() {
            rest.len() as int
        } else {
            5 - lineup.len()
        })
    }
}

fn plays(champion_id: &str, catalog: &[ChampionBriefState], role: RoleFilter) -> (can: bool)
    ensures
        can == fits(catalog@, champion_id@, role),
{
    let roles = game_roles(champion_id, catalog);
    let mut i: usize = 0;
    while i < roles.len()
        invariant
            i <= roles@.len(),
            roles@ == roles_of(catalog@, champion_id@),
            forall|k: int| 0 <= k < i ==> roles@[k] != role,
        decreases roles.len() - i,
    {
        if roles[i] == role {
            assert(roles@[i as int] == role);
            return true;
        }
        i = i + 1;
    }
    false
}

fn copy_strings(list: &[String]) -> (copy: Vec<String>)
    ensures
        strs(copy@) == strs(list@),
{
    let mut copy: Vec<String> = Vec::new();
    let mut i: usize = 0;
    while i < list.len()
        invariant
            i <= list@.len(),
            strs(copy@) == strs(list@).subrange(0, i as int),
        decreases list.len() - i,
    {
        let ghost before = copy@;
        copy.push(list[i].clone());
        assert(strs(copy@) =~= strs(before).push(list@[i as int]@));
        assert(strs(list@).subrange(0, i + 1) =~= strs(list@).subrange(0, i as int).push(
            strs(list@)[i as int],
        ));
        i = i + 1;
    }
    assert(strs(list@).subrange(0, list@.len() as int) =~= strs(list@));
    copy
}

/// Projects a side's lineup from its picks and the ranked candidates.
pub fn fill_lineup(current: &[String], ranked: &[String], catalog: &[ChampionBriefState]) -> (lineup: Vec<String>)
    ensures
        strs(lineup@) == projected_lineup(catalog@, strs(current@), strs(ranked@)),
{
    let mut lineup = copy_strings(current);
    let mut candidates = copy_strings(ranked);
    let gate = analyze_role_gate(role_sets(current, catalog).as_slice());
    let open = remaining_roles_from_gate(&gate);
    let ghost sets = roles_of_picks(catalog@, strs(current@));
    let ghost target = fill_open_roles(catalog@, strs(current@), strs(ranked@), open@);
    assert(open@ == open_roles(gate_feasible(sets), filled_roles(sets)));
    assert(open@.skip(0) =~= open@);
    let mut r: usize = 0;
    while r < open.len()
        invariant
            r <= open@.len(),
            fill_open_roles(catalog@, strs(lineup@), strs(candidates@), open@.skip(r as int))
                == target,
        ensures
            r <= open@.len(),
            fill_open_roles(catalog@, strs(lineup@), strs(candidates@), open@.skip(r as int))
                == target,
            r < open@.len() ==> lineup@.len() >= 5,
        decreases open.len() - r,
    {
        if lineup.len() >= 5 {
            break;
        }
        let role = open[r];
        let ghost cs = strs(candidates@);
        let mut j: usize = 0;
        while j < candidates.len() && !plays(candidates[j].as_str(), catalog, role)
            invariant
                j <= candidates@.len(),
                cs == strs(candidates@),
                forall|k: int| 0 <= k < j ==> !fits(catalog@, cs[k], role),
            decreases candidates.len() - j,
        {
            j = j + 1;
        }
        let ghost rest_roles = open@.skip(r as int);
        assert(rest_roles[0] == role);
        assert(rest_roles.drop_first() =~= open@.skip(r + 1));
        if j < candidates.len() {
            proof {
                assert(fits(catalog@, cs[j as int], role));
                let c = choose|i: int|
                    0 <= i < cs.len() && fits(catalog@, cs[i], role) && forall|k: int|
                        0 <= k < i ==> !fits(catalog@, cs[k], role);
                assert(c == j) by {
                    if c > j {
                        assert(!fits(catalog@, cs[j as int], role));
                    }
                }
            }
            let ghost before_lineup = strs(lineup@);
            let chosen = candidates.remove(j);
            lineup.push(chosen);
            proof {
                assert(strs(lineup@) =~= before_lineup.push(cs[j as int]));
                assert(strs(candidates@) =~= cs.remove(j as int));
            }
        } else {
            proof {
                assert(!exists|i: int| 0 <= i < cs.len() && fits(catalog@, cs[i], role));
            }
        }
        r = r + 1;
    }
    let ghost filled_lineup = strs(lineup@);
    let ghost rest = strs(candidates@);
    proof {
        if r < open@.len() {
            assert(lineup@.len() >= 5);
        } else {
            assert(open@.skip(r as int).len() == 0);
        }
        assert(target == (filled_lineup, rest));
    }
    let mut k: usize = 0;
    while k < candidates.len() && lineup.len() < 5
        invariant
            k <= candidates@.len(),
            rest == strs(candidates@),
            filled_lineup.len() <= lineup@.len(),
            strs(lineup@) == filled_lineup + rest.take(k as int),
            filled_lineup.len() < 5 ==> lineup@.len() == filled_lineup.len() + k,
            filled_lineup.len() >= 5 ==> k == 0 && lineup@.len() == filled_lineup.len(),
            filled_lineup.len() < 5 ==> k <= 5 - filled_lineup.len(),
        decreases candidates.len() - k,
    {
        let ghost before = strs(lineup@);
        lineup.push(candidates[k].clone());
        assert(rest.take(k + 1) =~= rest.take(k as int).push(rest[k as int]));
        assert(strs(lineup@) =~= before.push(rest[k as int]));
        k = k + 1;
    }
    proof {
        if filled_lineup.len() >= 5 {
            assert(rest.take(0) =~= Seq::<Seq<char>>::empty());
            assert(strs(lineup@) =~= filled_lineup);
        } else {
            let n = if rest.len() < 5 - filled_lineup.len() {
                rest.len() as int
            } else {
                5 - filled_lineup.len()
            };
            assert(k == n);
        }
    }
    lineup
}

/// The notes shown beside a recommendation: no history of the opponent, a side whose picks
/// cannot be assigned roles, and candidates whose roles the catalog does not know.
pub open spec fn notes_of(
    state: MockDraftState,
    catalog: Seq<ChampionBriefState>,
    opponent_history: bool,
    low_confidence_present: bool,
) -> Seq<Seq<char>> {
    let set = state@.sets[state.current_set - 1];
    let ally = side_picks(set, our_side(state@));
    let enemy = side_picks(set, opposite(our_side(state@)));
    let conflict = (!gate_feasible(roles_of_picks(catalog, ally)) && ally.len() > 0) || (
    !gate_feasible(roles_of_picks(catalog, enemy)) && enemy.len() > 0);
    let first = if opponent_history {
        Seq::empty()
    } else {
        seq!["opponent_history_unavailable"@]
    };
    let second = if conflict {
        first.push("role_assignment_conflict"@)
    } else {
        first
    };
    if low_confidence_present {
        second.push("low_role_confidence_present"@)
    } else {
        second
    }
}

/// The notes of a recommendation for the current set.
pub fn recommendation_notes(
    state: &MockDraftState,
    catalog: &[ChampionBriefState],
    opponent_history: bool,
    low_confidence_present: bool,
) -> (notes: Vec<String>)
    requires
        1 <= state.current_set <= state.sets@.len(),
    ensures
        strs(notes@) == notes_of(*state, catalog@, opponent_history, low_confidence_present),
{
    let set = &state.sets[state.current_set - 1];
    let ours = state.current_our_side();
    let (ally, enemy) = match ours {
        DraftSide::Blue => (&set.blue_picks, &set.red_picks),
        DraftSide::Red => (&set.red_picks, &set.blue_picks),
    };
    let ally_gate = analyze_role_gate(role_sets(ally.as_slice(), catalog).as_slice());
    let enemy_gate = analyze_role_gate(role_sets(enemy.as_slice(), catalog).as_slice());
    let mut notes: Vec<String> = Vec::new();
    if !opponent_history {
        notes.push("opponent_history_unavailable".to_owned());
    }
    let ghost first = strs(notes@);
    if (!ally_gate.feasible && ally.len() > 0) || (!enemy_gate.feasible && enemy.len() > 0) {
        notes.push("role_assignment_conflict".to_owned());
        assert(strs(notes@) =~= first.push("role_assignment_conflict"@));
    }
    let ghost second = strs(notes@);
    if low_confidence_present {
        notes.push("low_role_confidence_present".to_owned());
        assert(strs(notes@) =~= second.push("low_role_confidence_present"@));
    }
    proof {
        assert(set@ == state@.sets[state.current_set - 1]);
        if opponent_history {
            assert(first =~= Seq::<Seq<char>>::empty());
        } else {
            assert(first =~= seq!["opponent_history_unavailable"@]);
        }
    }
    notes
}

/// Where the tier row of a champion takes its score from.
#[derive(Debug, Clone, PartialEq, Eq)]
pub struct TierRowSource {
    pub champion_id: String,
    /// The position of the champion's scored row; `None` writes no tier.
    pub scored_at: Option<usize>,
}

/// The last position of a text in a list.
pub open spec fn last_position(list: Seq<Seq<char>>, id: Seq<char>) -> Option<int>
    decreases list.len(),
{
    if list.len() == 0 {
        None
    } else if list.last() == id {
        Some(list.len() - 1)
    } else {
        last_position(list.drop_last(), id)
    }
}

fn last_position_of(list: &[String], id: &String) -> (found: Option<usize>)
    ensures
        match last_position(strs(list@), id@) {
            None => found is None,
            Some(k) => found == Some(k as usize),
        },
{
    let mut n: usize = list.len();
    assert(strs(list@).subrange(0, list@.len() as int) =~= strs(list@));
    while n > 0
        invariant
            n <= list@.len(),
            last_position(strs(list@), id@) == last_position(strs(list@).subrange(0, n as int), id@),
        decreases n,
    {
        let ghost prefix = strs(list@).subrange(0, n as int);
        assert(prefix.drop_last() =~= strs(list@).subrange(0, n - 1));
        if list[n - 1] == *id {
            assert(prefix.last() == id@);
            return Some(n - 1);
        }
        n = n - 1;
    }
    assert(strs(list@).subrange(0, 0) =~= Seq::<Seq<char>>::empty());
    None
}

/// The tier rows written to the player's team: every champion the team record names, every
/// registered champion and every scored champion, each once, in name order. A registered
/// champion with a score takes it (the last one where a champion is scored twice); every
/// other champion is written with no tier.
pub fn tier_row_sources(existing: &[String], scored: &[String], registered: &[String]) -> (rows: Vec<TierRowSource>)
    ensures
        rows@.map_values(|r: TierRowSource| r.champion_id@) == sorted_of(
            strs(existing@).to_set() + strs(registered@).to_set() + strs(scored@).to_set(),
        ),
        forall|i: int|
            0 <= i < rows@.len() ==> (#[trigger] rows@[i]).scored_at == (if strs(
                registered@,
            ).contains(rows@[i].champion_id@) {
                match last_position(strs(scored@), rows@[i].champion_id@) {
                    Some(k) => Some(k as usize),
                    None => None::<usize>,
                }
            } else {
                None::<usize>
            }),
{
    let mut all: Vec<String> = copy_strings(existing);
    let mut i: usize = 0;
    let ghost base = strs(all@);
    while i < registered.len()
        invariant
            i <= registered@.len(),
            strs(all@) == base + strs(registered@).subrange(0, i as int),
        decreases registered.len() - i,
    {
        let ghost before = strs(all@);
        all.push(registered[i].clone());
        assert(strs(all@) =~= before.push(registered@[i as int]@));
        assert(strs(registered@).subrange(0, i + 1) =~= strs(registered@).subrange(0, i as int).push(
            registered@[i as int]@,
        ));
        i = i + 1;
    }
    let mut j: usize = 0;
    let ghost base2 = strs(all@);
    while j < scored.len()
        invariant
            j <= scored@.len(),
            strs(all@) == base2 + strs(scored@).subrange(0, j as int),
        decreases scored.len() - j,
    {
        let ghost before = strs(all@);
        all.push(scored[j].clone());
        assert(strs(all@) =~= before.push(scored@[j as int]@));
        assert(strs(scored@).subrange(0, j + 1) =~= strs(scored@).subrange(0, j as int).push(
            scored@[j as int]@,
        ));
        j = j + 1;
    }
    proof {
        assert(strs(registered@).subrange(0, registered@.len() as int) =~= strs(registered@));
        assert(strs(scored@).subrange(0, scored@.len() as int) =~= strs(scored@));
        let e = strs(existing@);
        let r = strs(registered@);
        let c = strs(scored@);
        assert(strs(all@) == e + r + c);
        assert((e + r + c).to_set() =~= e.to_set() + r.to_set() + c.to_set()) by {
            assert forall|x: Seq<char>| (e + r + c).to_set().contains(x) implies (e.to_set() + r.to_set() + c.to_set()).contains(x) by {
                let k = choose|k: int| 0 <= k < (e + r + c).len() && (e + r + c)[k] == x;
                if k < e.len() {
                    assert(e[k] == x);
                } else if k < e.len() + r.len() {
                    assert(r[k - e.len()] == x);
                } else {
                    assert(c[k - e.len() - r.len()] == x);
                }
            }
            assert forall|x: Seq<char>| (e.to_set() + r.to_set() + c.to_set()).contains(x) implies (e + r + c).to_set().contains(x) by {
                if e.to_set().contains(x) {
                    let k = choose|k: int| 0 <= k < e.len() && e[k] == x;
                    assert((e + r + c)[k] == x);
                } else if r.to_set().contains(x) {
                    let k = choose|k: int| 0 <= k < r.len() && r[k] == x;
                    assert((e + r + c)[e.len() + k] == x);
                } else {
                    let k = choose|k: int| 0 <= k < c.len() && c[k] == x;
                    assert((e + r + c)[e.len() + r.len() + k] == x);
                }
            }
        }
    }
    let ids = sorted_unique(all.as_slice());
    proof {
        lemma_sorted_of(strs(ids@));
    }
    let mut rows: Vec<TierRowSource> = Vec::new();
    let mut k: usize = 0;
    while k < ids.len()
        invariant
            k <= ids@.len(),
            rows@.map_values(|r: TierRowSource| r.champion_id@) == strs(ids@).subrange(0, k as int),
            forall|i: int|
                0 <= i < rows@.len() ==> (#[trigger] rows@[i]).scored_at == (if strs(
                    registered@,
                ).contains(rows@[i].champion_id@) {
                    match last_position(strs(scored@), rows@[i].champion_id@) {
                        Some(p) => Some(p as usize),
                        None => None::<usize>,
                    }
                } else {
                    None::<usize>
                }),
        decreases ids.len() - k,
    {
        let id = &ids[k];
        let scored_at = if contains_string(registered, id) {
            last_position_of(scored, id)
        } else {
            None
        };
        let ghost before = rows@;
        rows.push(TierRowSource { champion_id: id.clone(), scored_at });
        assert(rows@.map_values(|r: TierRowSource| r.champion_id@) =~= before.map_values(
            |r: TierRowSource| r.champion_id@,
        ).push(ids@[k as int]@));
        assert(strs(ids@).subrange(0, k + 1) =~= strs(ids@).subrange(0, k as int).push(ids@[k as int]@));
        k = k + 1;
    }
    assert(strs(ids@).subrange(0, ids@.len() as int) =~= strs(ids@));
    rows
}

/// A team of the career as the opponent list reads it: its id, its name if the record gives
/// one, and its league.
#[derive(Debug, Clone, PartialEq, Eq)]
pub struct TeamEntry {
    pub team_id: usize,
    pub name: Option<String>,
    pub league_id: Option<usize>,
}

/// An opponent option as plain values: id, shown name, whether it is the player's team,
/// whether it plays in the player's league.
pub type OptionView = (usize, Seq<char>, bool, bool);

/// The name shown for a team: its record name, or "Team" and its id.
pub open spec fn team_label(entry: TeamEntry) -> Seq<char> {
    match entry.name {
        Some(n) => n@,
        None => "Team "@ + decimal_digits(entry.team_id as nat),
    }
}

pub open spec fn option_view_of(
    entry: TeamEntry,
    player_team_id: Option<usize>,
    player_league_id: Option<usize>,
) -> OptionView {
    (
        entry.team_id,
        team_label(entry),
        Some(entry.team_id) == player_team_id,
        player_league_id is Some && entry.league_id == player_league_id,
    )
}

pub open spec fn team_option_views(
    teams: Seq<TeamEntry>,
    player_team_id: Option<usize>,
    player_league_id: Option<usize>,
) -> Seq<OptionView> {
    teams.map_values(|e: TeamEntry| option_view_of(e, player_team_id, player_league_id))
}

/// The order of the opponent list: the player's team first, then the teams of the player's
/// league, then by name and id.
pub open spec fn option_before(a: OptionView, b: OptionView) -> bool {
    if a.2 != b.2 {
        a.2
    } else if a.3 != b.3 {
        a.3
    } else if a.1 != b.1 {
        chars_lt(a.1, b.1)
    } else {
        a.0 < b.0
    }
}

pub open spec fn options_in_order(list: Seq<OptionView>) -> bool {
    forall|i: int, j: int| 0 <= i < j < list.len() ==> !option_before(list[j], list[i])
}

proof fn lemma_option_before_transitive(a: OptionView, b: OptionView, c: OptionView)
    requires
        option_before(a, b),
        option_before(b, c),
    ensures
        option_before(a, c),
{
    if a.2 == b.2 && b.2 == c.2 && a.3 == b.3 && b.3 == c.3 {
        if a.1 != b.1 && b.1 != c.1 {
            lemma_lt_transitive(a.1, b.1, c.1);
            if a.1 == c.1 {
                lemma_lt_irreflexive(a.1);
            }
        }
    }
}

pub open spec fn keyed_view(e: (DraftTeamOption, bool)) -> OptionView {
    (e.0.team_id, e.0.team_name@, e.0.player_team, e.1)
}

pub open spec fn keyed_views(list: Seq<(DraftTeamOption, bool)>) -> Seq<OptionView> {
    list.map_values(|e: (DraftTeamOption, bool)| keyed_view(e))
}

fn option_first(a: &(DraftTeamOption, bool), b: &(DraftTeamOption, bool)) -> (first: bool)
    ensures
        first == option_before(keyed_view(*a), keyed_view(*b)),
{
    if a.0.player_team != b.0.player_team {
        a.0.player_team
    } else if a.1 != b.1 {
        a.1
    } else if !chars_eq(&chars_of(a.0.team_name.as_str()), &chars_of(b.0.team_name.as_str())) {
        str_lt(a.0.team_name.as_str(), b.0.team_name.as_str())
    } else {
        a.0.team_id < b.0.team_id
    }
}

fn keyed_option(entry: &TeamEntry, player_team_id: Option<usize>, player_league_id: Option<usize>) -> (keyed: (DraftTeamOption, bool))
    ensures
        keyed_view(keyed) == option_view_of(*entry, player_team_id, player_league_id),
{
    let name = match &entry.name {
        Some(n) => n.clone(),
        None => {
            let mut text = "Team ".to_owned();
            append_str(&mut text, decimal_string(entry.team_id).as_str());
            text
        },
    };
    let same_league = player_league_id.is_some() && entry.league_id == player_league_id;
    (
        DraftTeamOption {
            team_id: entry.team_id,
            team_name: name,
            player_team: Some(entry.team_id) == player_team_id,
        },
        same_league,
    )
}

/// The options in list order, each with whether it plays in the player's league.
fn ordered_keyed_options(
    teams: &[TeamEntry],
    player_team_id: Option<usize>,
    player_league_id: Option<usize>,
) -> (sorted: Vec<(DraftTeamOption, bool)>)
    ensures
        options_in_order(keyed_views(sorted@)),
        keyed_views(sorted@).to_multiset() == team_option_views(
            teams@,
            player_team_id,
            player_league_id,
        ).to_multiset(),
{
    let ghost all = team_option_views(teams@, player_team_id, player_league_id);
    let mut sorted: Vec<(DraftTeamOption, bool)> = Vec::new();
    let mut i: usize = 0;
    assert(all.subrange(0, 0) =~= keyed_views(sorted@));
    while i < teams.len()
        invariant
            i <= teams@.len(),
            all == team_option_views(teams@, player_team_id, player_league_id),
            options_in_order(keyed_views(sorted@)),
            keyed_views(sorted@).to_multiset() == all.subrange(0, i as int).to_multiset(),
        decreases teams.len() - i,
    {
        let x = keyed_option(&teams[i], player_team_id, player_league_id);
        let ghost xv = all[i as int];
        assert(keyed_view(x) == xv);
        let ghost old_views = keyed_views(sorted@);
        let mut p: usize = 0;
        while p < sorted.len() && !option_first(&x, &sorted[p])
            invariant
                p <= sorted@.len(),
                old_views == keyed_views(sorted@),
                keyed_view(x) == xv,
                forall|k: int| 0 <= k < p ==> !option_before(xv, #[trigger] old_views[k]),
            decreases sorted.len() - p,
        {
            p = p + 1;
        }
        sorted.insert(p, x);
        proof {
            let new_views = keyed_views(sorted@);
            assert(new_views =~= old_views.insert(p as int, xv));
            assert forall|a: int, b: int| 0 <= a < b < new_views.len() implies !option_before(
                new_views[b],
                new_views[a],
            ) by {
                if a < p && b == p {
                } else if a == p && b > p {
                    assert(new_views[b] == old_views[b - 1]);
                    if option_before(old_views[b - 1], xv) {
                        assert(option_before(xv, old_views[p as int]));
                        lemma_option_before_transitive(old_views[b - 1], xv, old_views[p as int]);
                        if b - 1 == p {
                            lemma_lt_irreflexive(old_views[p as int].1);
                        }
                    }
                } else if a < p && b > p {
                    assert(new_views[a] == old_views[a]);
                    assert(new_views[b] == old_views[b - 1]);
                } else if a > p {
                    assert(new_views[a] == old_views[a - 1]);
                    assert(new_views[b] == old_views[b - 1]);
                } else {
                    assert(new_views[a] == old_views[a]);
                    assert(new_views[b] == old_views[b]);
                }
            }
            let prefix = all.subrange(0, i as int);
            assert(all.subrange(0, i + 1) =~= prefix.insert(i as int, xv));
            vstd::seq_lib::to_multiset_insert(old_views, p as int, xv);
            vstd::seq_lib::to_multiset_insert(prefix, i as int, xv);
        }
        i = i + 1;
    }
    assert(all.subrange(0, teams@.len() as int) =~= all);
    sorted
}

/// The opponent list: every team under its shown name, the player's team first, then the
/// teams of the player's league, then by name and id.
pub fn order_team_options(
    teams: &[TeamEntry],
    player_team_id: Option<usize>,
    player_league_id: Option<usize>,
) -> (options: Vec<DraftTeamOption>)
    ensures
        exists|order: Seq<OptionView>|
            #![trigger options_in_order(order)]
            order.len() == options@.len() && options_in_order(order) && order.to_multiset()
                == team_option_views(teams@, player_team_id, player_league_id).to_multiset()
                && forall|i: int|
                0 <= i < order.len() ==> (#[trigger] order[i]).0 == options@[i].team_id
                    && order[i].1 == options@[i].team_name@ && order[i].2 == options@[i].player_team,
{
    let keyed = ordered_keyed_options(teams, player_team_id, player_league_id);
    let ghost order = keyed_views(keyed@);
    let mut options: Vec<DraftTeamOption> = Vec::new();
    let mut i: usize = 0;
    while i < keyed.len()
        invariant
            i <= keyed@.len(),
            order == keyed_views(keyed@),
            options@.len() == i,
            forall|k: int|
                0 <= k < i ==> (#[trigger] order[k]).0 == options@[k].team_id && order[k].1
                    == options@[k].team_name@ && order[k].2 == options@[k].player_team,
        decreases keyed.len() - i,
    {
        let entry = &keyed[i];
        options.push(
            DraftTeamOption {
                team_id: entry.0.team_id,
                team_name: entry.0.team_name.clone(),
                player_team: entry.0.player_team,
            },
        );
        i = i + 1;
    }
    assert(options_in_order(order));
    options
}

proof fn lemma_first_fit_minimal(
    catalog: Seq<ChampionBriefState>,
    candidates: Seq<Seq<char>>,
    role: RoleFilter,
    j: int,
)
    requires
        0 <= j < candidates.len(),
        fits(catalog, candidates[j], role),
    ensures
        exists|i: int|
            0 <= i < candidates.len() && fits(catalog, candidates[i], role) && forall|k: int|
                0 <= k < i ==> !fits(catalog, candidates[k], role),
    decreases j,
{
    if exists|k: int| 0 <= k < j && fits(catalog, candidates[k], role) {
        let k = choose|k: int| 0 <= k < j && fits(catalog, candidates[k], role);
        lemma_first_fit_minimal(catalog, candidates, role, k);
    } else {
        assert(forall|k: int| 0 <= k < j ==> !fits(catalog, candidates[k], role));
    }
}

proof fn lemma_fill_keeps_lineup(
    catalog: Seq<ChampionBriefState>,
    lineup: Seq<Seq<char>>,
    candidates: Seq<Seq<char>>,
    roles: Seq<RoleFilter>,
)
    ensures
        ({
            let (filled, rest) = fill_open_roles(catalog, lineup, candidates, roles);
            &&& filled.len() >= lineup.len()
            &&& filled.subrange(0, lineup.len() as int) == lineup
            &&& filled.len() <= if lineup.len() > 5 { lineup.len() as int } else { 5 }
            &&& filled.len() + rest.len() == lineup.len() + candidates.len()
            &&& forall|k: int| lineup.len() <= k < filled.len() ==> candidates.contains(#[trigger] filled[k])
            &&& forall|k: int| 0 <= k < rest.len() ==> candidates.contains(#[trigger] rest[k])
        }),
    decreases roles.len(),
{
    if roles.len() == 0 || lineup.len() >= 5 {
        assert(lineup.subrange(0, lineup.len() as int) =~= lineup);
        assert forall|k: int| 0 <= k < candidates.len() implies candidates.contains(#[trigger] candidates[k]) by {}
    } else {
        match first_fit(catalog, candidates, roles[0]) {
            None => {
                lemma_fill_keeps_lineup(catalog, lineup, candidates, roles.drop_first());
            },
            Some(i) => {
                let w = choose|w: int| 0 <= w < candidates.len() && fits(catalog, candidates[w], roles[0]);
                lemma_first_fit_minimal(catalog, candidates, roles[0], w);
                assert(0 <= i < candidates.len() && fits(catalog, candidates[i], roles[0]));
                let next = lineup.push(candidates[i]);
                let left = candidates.remove(i);
                lemma_fill_keeps_lineup(catalog, next, left, roles.drop_first());
                let (filled, rest) = fill_open_roles(catalog, next, left, roles.drop_first());
                assert(filled.subrange(0, lineup.len() as int) =~= filled.subrange(0, next.len() as int).subrange(0, lineup.len() as int));
                assert(next.subrange(0, lineup.len() as int) =~= lineup);
                assert forall|k: int| 0 <= k < left.len() implies candidates.contains(#[trigger] left[k]) by {
                    if k < i {
                        assert(left[k] == candidates[k]);
                    } else {
                        assert(left[k] == candidates[k + 1]);
                    }
                }
                assert forall|k: int| lineup.len() <= k < filled.len() implies candidates.contains(#[trigger] filled[k]) by {
                    if k == lineup.len() {
                        assert(filled[k] == filled.subrange(0, next.len() as int)[k]);
                        assert(filled[k] == candidates[i]);
                    } else {
                        assert(left.contains(filled[k]));
                    }
                }
                assert forall|k: int| 0 <= k < rest.len() implies candidates.contains(#[trigger] rest[k]) by {
                    assert(left.contains(rest[k]));
                }
            },
        }
    }
}

/// A projected lineup keeps the side's picks in front, adds only ranked candidates, and holds
/// five champions, or the picks alone when there are already more.
pub proof fn lemma_lineup_keeps_picks(
    catalog: Seq<ChampionBriefState>,
    current: Seq<Seq<char>>,
    ranked: Seq<Seq<char>>,
)
    ensures
        projected_lineup(catalog, current, ranked).len() >= current.len(),
        projected_lineup(catalog, current, ranked).subrange(0, current.len() as int) == current,
        forall|k: int|
            current.len() <= k < projected_lineup(catalog, current, ranked).len() ==> ranked.contains(
                #[trigger] projected_lineup(catalog, current, ranked)[k],
            ),
        projected_lineup(catalog, current, ranked).len() == if current.len() >= 5 {
            current.len() as int
        } else if current.len() + ranked.len() < 5 {
            (current.len() + ranked.len()) as int
        } else {
            5
        },
{
    let sets = roles_of_picks(catalog, current);
    let open = open_roles(gate_feasible(sets), filled_roles(sets));
    lemma_fill_keeps_lineup(catalog, current, ranked, open);
    let (filled, rest) = fill_open_roles(catalog, current, ranked, open);
    let result = projected_lineup(catalog, current, ranked);
    if current.len() >= 5 {
        assert(filled.len() <= current.len());
    }
    if filled.len() < 5 {
        let n = if rest.len() < 5 - filled.len() {
            rest.len() as int
        } else {
            5 - filled.len()
        };
        assert(result == filled + rest.take(n));
        assert(result.subrange(0, current.len() as int) =~= filled.subrange(0, current.len() as int));
        assert forall|k: int| current.len() <= k < result.len() implies ranked.contains(#[trigger] result[k]) by {
            if k < filled.len() {
                assert(result[k] == filled[k]);
            } else {
                assert(result[k] == rest[k - filled.len()]);
            }
        }
    }
}

} // verus!
