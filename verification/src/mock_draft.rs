//! The manual mock draft: a five-set series of bans and picks with fearless carry-over and undo.

use vstd::prelude::*;

use crate::api::{DraftRule, DraftSide, DraftTeamOption, MockDraftAction, MockDraftContextUpdate};
use crate::draft::{DraftPhase, DraftScoreWeights, RoleGateState};
use crate::ordered::{
    contains_string, lemma_lt_irreflexive, lemma_sorted_of, sorted_of, sorted_strict, sorted_unique,
    strs,
};
use crate::profile::RoleFilter;
use crate::text::{chars_of, string_from_chars, trim, trim_chars};

verus! {

#[derive(Debug, Clone, Copy, PartialEq, Eq, Structural)]
pub enum MockDraftError {
    InvalidSet,
    InvalidPhase,
    ChampionUnavailable,
    ChampionAlreadySelected,
    ChampionFearlessExcluded,
    DraftSlotFull,
    ChampionNotSelected,
}

impl MockDraftError {
    pub fn code(self) -> (code: &'static str)
        ensures
            code@ == match self {
                MockDraftError::InvalidSet => "invalid_draft_set"@,
                MockDraftError::InvalidPhase => "invalid_draft_phase"@,
                MockDraftError::ChampionUnavailable => "champion_unavailable"@,
                MockDraftError::ChampionAlreadySelected => "champion_already_selected"@,
                MockDraftError::ChampionFearlessExcluded => "champion_fearless_excluded"@,
                MockDraftError::DraftSlotFull => "draft_slot_full"@,
                MockDraftError::ChampionNotSelected => "champion_not_selected"@,
            },
    {
        match self {
            MockDraftError::InvalidSet => "invalid_draft_set",
            MockDraftError::InvalidPhase => "invalid_draft_phase",
            MockDraftError::ChampionUnavailable => "champion_unavailable",
            MockDraftError::ChampionAlreadySelected => "champion_already_selected",
            MockDraftError::ChampionFearlessExcluded => "champion_fearless_excluded",
            MockDraftError::DraftSlotFull => "draft_slot_full",
            MockDraftError::ChampionNotSelected => "champion_not_selected",
        }
    }
}

/// One set of the series: its number, the side the player's team is on, and the four lists.
#[derive(Debug, Clone, PartialEq, Eq)]
pub struct MockDraftSet {
    pub set_number: usize,
    pub our_side: DraftSide,
    pub blue_bans: Vec<String>,
    pub red_bans: Vec<String>,
    pub blue_picks: Vec<String>,
    pub red_picks: Vec<String>,
}

pub struct DraftSetView {
    pub set_number: usize,
    pub our_side: DraftSide,
    pub blue_bans: Seq<Seq<char>>,
    pub red_bans: Seq<Seq<char>>,
    pub blue_picks: Seq<Seq<char>>,
    pub red_picks: Seq<Seq<char>>,
}

impl View for MockDraftSet {
    type V = DraftSetView;

    open spec fn view(&self) -> DraftSetView {
        DraftSetView {
            set_number: self.set_number,
            our_side: self.our_side,
            blue_bans: strs(self.blue_bans@),
            red_bans: strs(self.red_bans@),
            blue_picks: strs(self.blue_picks@),
            red_picks: strs(self.red_picks@),
        }
    }
}

pub open spec fn empty_set_view(set_number: usize, our_side: DraftSide) -> DraftSetView {
    DraftSetView {
        set_number,
        our_side,
        blue_bans: Seq::empty(),
        red_bans: Seq::empty(),
        blue_picks: Seq::empty(),
        red_picks: Seq::empty(),
    }
}

impl MockDraftSet {
    /// A set with no bans or picks, the player's team on blue.
    pub fn empty(set_number: usize) -> (set: Self)
        ensures
            set@ == empty_set_view(set_number, DraftSide::Blue),
    {
        let set = MockDraftSet {
            set_number,
            our_side: DraftSide::Blue,
            blue_bans: Vec::new(),
            red_bans: Vec::new(),
            blue_picks: Vec::new(),
            red_picks: Vec::new(),
        };
        assert(set@ == empty_set_view(set_number, DraftSide::Blue)) by {
            assert(strs(set.blue_bans@) =~= Seq::<Seq<char>>::empty());
            assert(strs(set.red_bans@) =~= Seq::<Seq<char>>::empty());
            assert(strs(set.blue_picks@) =~= Seq::<Seq<char>>::empty());
            assert(strs(set.red_picks@) =~= Seq::<Seq<char>>::empty());
        }
        set
    }
}

/// The list that a side fills in a phase.
pub open spec fn slot(set: DraftSetView, side: DraftSide, phase: DraftPhase) -> Seq<Seq<char>> {
    match (side, phase) {
        (DraftSide::Blue, DraftPhase::Ban) => set.blue_bans,
        (DraftSide::Red, DraftPhase::Ban) => set.red_bans,
        (DraftSide::Blue, _) => set.blue_picks,
        (DraftSide::Red, _) => set.red_picks,
    }
}

/// The set with the list of `side` in `phase` replaced.
pub open spec fn with_slot(
    set: DraftSetView,
    side: DraftSide,
    phase: DraftPhase,
    list: Seq<Seq<char>>,
) -> DraftSetView {
    match (side, phase) {
        (DraftSide::Blue, DraftPhase::Ban) => DraftSetView { blue_bans: list, ..set },
        (DraftSide::Red, DraftPhase::Ban) => DraftSetView { red_bans: list, ..set },
        (DraftSide::Blue, _) => DraftSetView { blue_picks: list, ..set },
        (DraftSide::Red, _) => DraftSetView { red_picks: list, ..set },
    }
}

/// Every champion banned or picked in the set.
pub open spec fn selected(set: DraftSetView) -> Seq<Seq<char>> {
    set.blue_bans + set.red_bans + set.blue_picks + set.red_picks
}

pub open spec fn phase_capacity(phase: DraftPhase) -> int {
    if phase == DraftPhase::Ban {
        3
    } else {
        5
    }
}

pub open spec fn opposite(side: DraftSide) -> DraftSide {
    match side {
        DraftSide::Blue => DraftSide::Red,
        DraftSide::Red => DraftSide::Blue,
    }
}

pub fn opposite_side(side: DraftSide) -> (other: DraftSide)
    ensures
        other == opposite(side),
{
    match side {
        DraftSide::Blue => DraftSide::Red,
        DraftSide::Red => DraftSide::Blue,
    }
}

pub struct DraftStateView {
    pub opponent_team_id: Option<usize>,
    pub rule: DraftRule,
    pub current_set: usize,
    pub sets: Seq<DraftSetView>,
    pub last_own_phase: DraftPhase,
    pub team_options: Seq<(usize, Seq<char>, bool)>,
    pub available_champions: Seq<Seq<char>>,
    pub excluded_blue: Seq<Seq<char>>,
    pub excluded_red: Seq<Seq<char>>,
    pub settings: DraftScoreWeights,
    pub blue_gate: Option<(bool, Seq<RoleFilter>, usize)>,
    pub red_gate: Option<(bool, Seq<RoleFilter>, usize)>,
}

/// The mock draft as the dashboard sees it.
#[derive(Debug, Clone, PartialEq)]
pub struct MockDraftState {
    pub opponent_team_id: Option<usize>,
    pub rule: DraftRule,
    pub current_set: usize,
    pub sets: Vec<MockDraftSet>,
    pub last_own_phase: DraftPhase,
    pub team_options: Vec<DraftTeamOption>,
    pub available_champions: Vec<String>,
    pub excluded_blue: Vec<String>,
    pub excluded_red: Vec<String>,
    pub settings: DraftScoreWeights,
    pub blue_gate: Option<RoleGateState>,
    pub red_gate: Option<RoleGateState>,
}

pub open spec fn gate_view(gate: Option<RoleGateState>) -> Option<(bool, Seq<RoleFilter>, usize)> {
    match gate {
        Some(g) => Some((g.feasible, g.definitely_filled@, g.assignment_count)),
        None => None,
    }
}

/// The state of a new series: no opponent, classic rule, set 1 current, five empty sets with
/// the player on blue, bans as the last own phase, no team options, champions or exclusions,
/// default weights and no role gates.
pub open spec fn is_initial_view(v: DraftStateView) -> bool {
    &&& v.opponent_team_id is None
    &&& v.rule == DraftRule::Classic
    &&& v.current_set == 1
    &&& v.sets == Seq::new(5, |i: int| empty_set_view((i + 1) as usize, DraftSide::Blue))
    &&& v.last_own_phase == DraftPhase::Ban
    &&& v.team_options.len() == 0
    &&& v.available_champions.len() == 0
    &&& v.excluded_blue.len() == 0
    &&& v.excluded_red.len() == 0
    &&& v.settings == DraftScoreWeights::spec_default()
    &&& v.blue_gate is None
    &&& v.red_gate is None
}

impl View for MockDraftState {
    type V = DraftStateView;

    open spec fn view(&self) -> DraftStateView {
        DraftStateView {
            opponent_team_id: self.opponent_team_id,
            rule: self.rule,
            current_set: self.current_set,
            sets: self.sets@.map_values(|s: MockDraftSet| s@),
            last_own_phase: self.last_own_phase,
            team_options: self.team_options@.map_values(
                |o: DraftTeamOption| (o.team_id, o.team_name@, o.player_team),
            ),
            available_champions: strs(self.available_champions@),
            excluded_blue: strs(self.excluded_blue@),
            excluded_red: strs(self.excluded_red@),
            settings: self.settings,
            blue_gate: gate_view(self.blue_gate),
            red_gate: gate_view(self.red_gate),
        }
    }
}

/// A state whose current set indexes one of its five sets.
pub open spec fn state_wf(state: DraftStateView) -> bool {
    state.sets.len() == 5 && 1 <= state.current_set <= 5
}

/// The side of the player's team in the set numbered `set_number` (blue when no set has it).
pub open spec fn side_in_set(sets: Seq<DraftSetView>, set_number: usize) -> DraftSide
    decreases sets.len(),
{
    if sets.len() == 0 {
        DraftSide::Blue
    } else if sets[0].set_number == set_number {
        sets[0].our_side
    } else {
        side_in_set(sets.drop_first(), set_number)
    }
}

pub open spec fn our_side(state: DraftStateView) -> DraftSide {
    side_in_set(state.sets, state.current_set)
}

pub open spec fn side_picks(set: DraftSetView, side: DraftSide) -> Seq<Seq<char>> {
    match side {
        DraftSide::Blue => set.blue_picks,
        DraftSide::Red => set.red_picks,
    }
}

/// The picks of earlier sets that `side` may no longer use: none in classic drafts; in
/// fearless drafts the earlier picks of the same team (followed across side swaps); in hard
/// fearless drafts every earlier pick of both teams.
pub open spec fn excluded(state: DraftStateView, side: DraftSide) -> Set<Seq<char>> {
    let ours = side == our_side(state);
    match state.rule {
        DraftRule::Classic => Set::empty(),
        DraftRule::Fearless => Set::new(
            |c: Seq<char>|
                exists|i: int|
                    0 <= i < state.sets.len() && #[trigger] state.sets[i].set_number
                        < state.current_set && side_picks(
                        state.sets[i],
                        if ours {
                            state.sets[i].our_side
                        } else {
                            opposite(state.sets[i].our_side)
                        },
                    ).contains(c),
        ),
        DraftRule::HardFearless => Set::new(
            |c: Seq<char>|
                exists|i: int|
                    0 <= i < state.sets.len() && #[trigger] state.sets[i].set_number
                        < state.current_set && (state.sets[i].blue_picks.contains(c)
                        || state.sets[i].red_picks.contains(c)),
        ),
    }
}

fn clone_string(s: &String) -> (r: String)
    ensures
        r@ == s@,
{
    s.clone()
}

fn clone_strings(v: &Vec<String>) -> (r: Vec<String>)
    ensures
        strs(r@) == strs(v@),
{
    let mut r: Vec<String> = Vec::new();
    let mut i: usize = 0;
    while i < v.len()
        invariant
            i <= v@.len(),
            strs(r@) == strs(v@).subrange(0, i as int),
        decreases v.len() - i,
    {
        let ghost before = r@;
        let c = clone_string(&v[i]);
        r.push(c);
        assert(strs(r@) =~= strs(before).push(v@[i as int]@));
        assert(strs(v@).subrange(0, i + 1) =~= strs(v@).subrange(0, i as int).push(v@[i as int]@));
        i = i + 1;
    }
    assert(strs(v@).subrange(0, v@.len() as int) == strs(v@));
    r
}

fn clone_set(set: &MockDraftSet) -> (r: MockDraftSet)
    ensures
        r@ == set@,
{
    MockDraftSet {
        set_number: set.set_number,
        our_side: set.our_side,
        blue_bans: clone_strings(&set.blue_bans),
        red_bans: clone_strings(&set.red_bans),
        blue_picks: clone_strings(&set.blue_picks),
        red_picks: clone_strings(&set.red_picks),
    }
}

fn clone_roles(roles: &Vec<RoleFilter>) -> (r: Vec<RoleFilter>)
    ensures
        r@ == roles@,
{
    let mut r: Vec<RoleFilter> = Vec::new();
    let mut i: usize = 0;
    while i < roles.len()
        invariant
            i <= roles@.len(),
            r@ == roles@.subrange(0, i as int),
        decreases roles.len() - i,
    {
        r.push(roles[i]);
        assert(r@ =~= roles@.subrange(0, i + 1));
        i = i + 1;
    }
    assert(roles@.subrange(0, roles@.len() as int) == roles@);
    r
}

fn clone_gate(gate: &Option<RoleGateState>) -> (r: Option<RoleGateState>)
    ensures
        gate_view(r) == gate_view(*gate),
{
    match gate {
        Some(g) => Some(
            RoleGateState {
                feasible: g.feasible,
                definitely_filled: clone_roles(&g.definitely_filled),
                assignment_count: g.assignment_count,
            },
        ),
        None => None,
    }
}

impl MockDraftState {
    /// A copy of the state.
    pub fn duplicate(&self) -> (copy: Self)
        ensures
            copy@ == self@,
    {
        let mut sets: Vec<MockDraftSet> = Vec::new();
        let mut i: usize = 0;
        while i < self.sets.len()
            invariant
                i <= self.sets@.len(),
                sets@.map_values(|s: MockDraftSet| s@) == self.sets@.map_values(
                    |s: MockDraftSet| s@,
                ).subrange(0, i as int),
            decreases self.sets.len() - i,
        {
            let ghost before = sets@;
            let set = clone_set(&self.sets[i]);
            sets.push(set);
            assert(sets@.map_values(|s: MockDraftSet| s@) =~= before.map_values(
                |s: MockDraftSet| s@,
            ).push(self.sets@[i as int]@));
            assert(self.sets@.map_values(|s: MockDraftSet| s@).subrange(0, i + 1)
                =~= self.sets@.map_values(|s: MockDraftSet| s@).subrange(0, i as int).push(
                self.sets@[i as int]@,
            ));
            i = i + 1;
        }
        let mut team_options: Vec<DraftTeamOption> = Vec::new();
        let mut j: usize = 0;
        while j < self.team_options.len()
            invariant
                j <= self.team_options@.len(),
                team_options@.map_values(
                    |o: DraftTeamOption| (o.team_id, o.team_name@, o.player_team),
                ) == self.team_options@.map_values(
                    |o: DraftTeamOption| (o.team_id, o.team_name@, o.player_team),
                ).subrange(0, j as int),
            decreases self.team_options.len() - j,
        {
            let option = &self.team_options[j];
            let ghost before = team_options@;
            team_options.push(
                DraftTeamOption {
                    team_id: option.team_id,
                    team_name: clone_string(&option.team_name),
                    player_team: option.player_team,
                },
            );
            let ghost item = (option.team_id, option.team_name@, option.player_team);
            assert(team_options@.map_values(
                |o: DraftTeamOption| (o.team_id, o.team_name@, o.player_team),
            ) =~= before.map_values(
                |o: DraftTeamOption| (o.team_id, o.team_name@, o.player_team),
            ).push(item));
            assert(self.team_options@.map_values(
                |o: DraftTeamOption| (o.team_id, o.team_name@, o.player_team),
            ).subrange(0, j + 1) =~= self.team_options@.map_values(
                |o: DraftTeamOption| (o.team_id, o.team_name@, o.player_team),
            ).subrange(0, j as int).push(item));
            j = j + 1;
        }
        let copy = MockDraftState {
            opponent_team_id: self.opponent_team_id,
            rule: self.rule,
            current_set: self.current_set,
            sets,
            last_own_phase: self.last_own_phase,
            team_options,
            available_champions: clone_strings(&self.available_champions),
            excluded_blue: clone_strings(&self.excluded_blue),
            excluded_red: clone_strings(&self.excluded_red),
            settings: self.settings,
            blue_gate: clone_gate(&self.blue_gate),
            red_gate: clone_gate(&self.red_gate),
        };
        assert(self.sets@.map_values(|s: MockDraftSet| s@).subrange(0, self.sets@.len() as int)
            == self.sets@.map_values(|s: MockDraftSet| s@));
        assert(self.team_options@.map_values(
            |o: DraftTeamOption| (o.team_id, o.team_name@, o.player_team),
        ).subrange(0, self.team_options@.len() as int) == self.team_options@.map_values(
            |o: DraftTeamOption| (o.team_id, o.team_name@, o.player_team),
        ));
        copy
    }

    /// The side of the player's team in the current set.
    pub fn current_our_side(&self) -> (side: DraftSide)
        ensures
            side == our_side(self@),
    {
        let ghost sets = self@.sets;
        let mut i: usize = 0;
        assert(sets.subrange(0, sets.len() as int) == sets);
        while i < self.sets.len()
            invariant
                i <= self.sets@.len(),
                sets == self@.sets,
                side_in_set(sets, self.current_set) == side_in_set(
                    sets.subrange(i as int, sets.len() as int),
                    self.current_set,
                ),
            decreases self.sets.len() - i,
        {
            let ghost rest = sets.subrange(i as int, sets.len() as int);
            assert(rest[0] == self.sets@[i as int]@);
            if self.sets[i].set_number == self.current_set {
                return self.sets[i].our_side;
            }
            assert(rest.drop_first() =~= sets.subrange(i + 1, sets.len() as int));
            i = i + 1;
        }
        assert(sets.subrange(i as int, sets.len() as int) =~= Seq::<DraftSetView>::empty());
        DraftSide::Blue
    }

    /// The state of a new series: classic rule, set 1 current, five empty sets, default weights.
    pub fn initial() -> (state: Self)
        ensures
            state@.opponent_team_id is None,
            state@.rule == DraftRule::Classic,
            state@.current_set == 1,
            state@.sets == Seq::new(5, |i: int| empty_set_view((i + 1) as usize, DraftSide::Blue)),
            state@.last_own_phase == DraftPhase::Ban,
            state@.team_options.len() == 0,
            state@.available_champions.len() == 0,
            state@.excluded_blue.len() == 0,
            state@.excluded_red.len() == 0,
            state@.settings == DraftScoreWeights::spec_default(),
            state@.blue_gate is None,
            state@.red_gate is None,
            state_wf(state@),
    {
        let mut sets: Vec<MockDraftSet> = Vec::new();
        let mut n: usize = 1;
        while n <= 5
            invariant
                1 <= n <= 6,
                sets@.map_values(|s: MockDraftSet| s@) == Seq::new(
                    (n - 1) as nat,
                    |i: int| empty_set_view((i + 1) as usize, DraftSide::Blue),
                ),
            decreases 6 - n,
        {
            let ghost before = sets@;
            let set = MockDraftSet::empty(n);
            sets.push(set);
            assert(sets@.map_values(|s: MockDraftSet| s@) =~= before.map_values(
                |s: MockDraftSet| s@,
            ).push(empty_set_view(n, DraftSide::Blue)));
            assert(sets@.map_values(|s: MockDraftSet| s@) =~= Seq::new(
                n as nat,
                |i: int| empty_set_view((i + 1) as usize, DraftSide::Blue),
            ));
            n = n + 1;
        }
        MockDraftState {
            opponent_team_id: None,
            rule: DraftRule::Classic,
            current_set: 1,
            sets,
            last_own_phase: DraftPhase::Ban,
            team_options: Vec::new(),
            available_champions: Vec::new(),
            excluded_blue: Vec::new(),
            excluded_red: Vec::new(),
            settings: DraftScoreWeights::default_weights(),
            blue_gate: None,
            red_gate: None,
        }
    }
}

impl Default for MockDraftState {
    fn default() -> (state: Self)
        ensures
            state@.current_set == 1,
            state@.rule == DraftRule::Classic,
            state_wf(state@),
    {
        Self::initial()
    }
}

} // verus!

verus! {

fn push_unique(list: &mut Vec<String>, s: &String)
    requires
        strs(old(list)@).no_duplicates(),
    ensures
        strs(final(list)@).no_duplicates(),
        strs(final(list)@).to_set() == strs(old(list)@).to_set().insert(s@),
{
    if contains_string(list, s) {
        assert(strs(list@).to_set().insert(s@) =~= strs(list@).to_set());
        return ;
    }
    let ghost before = list@;
    list.push(clone_string(s));
    assert(strs(list@) =~= strs(before).push(s@));
    proof {
        strs(before).lemma_push_to_set_commute(s@);
    }
}

fn push_all_unique(list: &mut Vec<String>, items: &Vec<String>)
    requires
        strs(old(list)@).no_duplicates(),
    ensures
        strs(final(list)@).no_duplicates(),
        strs(final(list)@).to_set() == strs(old(list)@).to_set().union(strs(items@).to_set()),
{
    let ghost start = strs(list@).to_set();
    let mut i: usize = 0;
    while i < items.len()
        invariant
            i <= items@.len(),
            strs(list@).no_duplicates(),
            strs(list@).to_set() == start.union(strs(items@).subrange(0, i as int).to_set()),
        decreases items.len() - i,
    {
        push_unique(list, &items[i]);
        assert(strs(items@).subrange(0, i + 1).to_set() =~= strs(items@).subrange(
            0,
            i as int,
        ).to_set().insert(items@[i as int]@)) by {
            assert(strs(items@).subrange(0, i + 1) =~= strs(items@).subrange(0, i as int).push(
                items@[i as int]@,
            ));
            strs(items@).subrange(0, i as int).lemma_push_to_set_commute(items@[i as int]@);
        }
        assert(strs(list@).to_set() =~= start.union(strs(items@).subrange(0, i + 1).to_set()));
        i = i + 1;
    }
    assert(strs(items@).subrange(0, items@.len() as int) == strs(items@));
}

/// Whether earlier set `j` of the state bars champion `c` for `side` (see `excluded`).
pub open spec fn excludes_via(state: DraftStateView, side: DraftSide, j: int, c: Seq<char>) -> bool {
    let ours = side == our_side(state);
    &&& 0 <= j < state.sets.len()
    &&& state.sets[j].set_number < state.current_set
    &&& match state.rule {
        DraftRule::Classic => false,
        DraftRule::Fearless => side_picks(
            state.sets[j],
            if ours {
                state.sets[j].our_side
            } else {
                opposite(state.sets[j].our_side)
            },
        ).contains(c),
        DraftRule::HardFearless => state.sets[j].blue_picks.contains(c)
            || state.sets[j].red_picks.contains(c),
    }
}

pub proof fn lemma_excluded_via(state: DraftStateView, side: DraftSide, c: Seq<char>)
    ensures
        excluded(state, side).contains(c) <==> exists|j: int| excludes_via(state, side, j, c),
{
    if excluded(state, side).contains(c) {
        if state.rule != DraftRule::Classic {
            let j = choose|j: int|
                0 <= j < state.sets.len() && #[trigger] state.sets[j].set_number
                    < state.current_set && match state.rule {
                    DraftRule::Fearless => side_picks(
                        state.sets[j],
                        if side == our_side(state) {
                            state.sets[j].our_side
                        } else {
                            opposite(state.sets[j].our_side)
                        },
                    ).contains(c),
                    _ => (state.sets[j].blue_picks.contains(c) || state.sets[j].red_picks.contains(
                        c,
                    )),
                };
            assert(excludes_via(state, side, j, c));
        }
    }
    if exists|j: int| excludes_via(state, side, j, c) {
        let j = choose|j: int| excludes_via(state, side, j, c);
        assert(state.sets[j].set_number < state.current_set);
    }
}

/// The champions that `side` may not use in the current set because of earlier sets, in
/// increasing order, each once.
pub fn carryover_excluded(state: &MockDraftState, side: DraftSide) -> (out: Vec<String>)
    ensures
        sorted_strict(strs(out@)),
        strs(out@) == sorted_of(excluded(state@, side)),
        strs(out@).no_duplicates(),
        strs(out@).to_set() == excluded(state@, side),
{
    let ours = side == state.current_our_side();
    let mut out: Vec<String> = Vec::new();
    let mut i: usize = 0;
    assert(strs(out@).to_set() =~= Set::<Seq<char>>::empty());
    while i < state.sets.len()
        invariant
            i <= state.sets@.len(),
            ours == (side == our_side(state@)),
            strs(out@).no_duplicates(),
            strs(out@).to_set() == Set::new(
                |c: Seq<char>| exists|j: int| j < i && excludes_via(state@, side, j, c),
            ),
        decreases state.sets.len() - i,
    {
        let set = &state.sets[i];
        let ghost before = strs(out@).to_set();
        let ghost sv = state@.sets[i as int];
        assert(sv == set@);
        if set.set_number < state.current_set {
            match state.rule {
                DraftRule::Classic => {},
                DraftRule::Fearless => {
                    let team = if ours {
                        set.our_side
                    } else {
                        opposite_side(set.our_side)
                    };
                    match team {
                        DraftSide::Blue => push_all_unique(&mut out, &set.blue_picks),
                        DraftSide::Red => push_all_unique(&mut out, &set.red_picks),
                    }
                },
                DraftRule::HardFearless => {
                    push_all_unique(&mut out, &set.blue_picks);
                    push_all_unique(&mut out, &set.red_picks);
                },
            }
        }
        proof {
            assert forall|c: Seq<char>| strs(out@).to_set().contains(c) == (exists|j: int|
                j < i + 1 && excludes_via(state@, side, j, c)) by {
                if excludes_via(state@, side, i as int, c) {
                    assert(strs(out@).to_set().contains(c)) by {
                        if state.rule == DraftRule::HardFearless {
                            if sv.blue_picks.contains(c) {
                                assert(strs(set.blue_picks@).to_set().contains(c));
                            } else {
                                assert(strs(set.red_picks@).to_set().contains(c));
                            }
                        } else {
                            assert(side_picks(
                                sv,
                                if ours {
                                    sv.our_side
                                } else {
                                    opposite(sv.our_side)
                                },
                            ).to_set().contains(c));
                        }
                    }
                }
                if strs(out@).to_set().contains(c) && !before.contains(c) {
                    assert(excludes_via(state@, side, i as int, c));
                }
            }
            assert(strs(out@).to_set() =~= Set::new(
                |c: Seq<char>| exists|j: int| j < i + 1 && excludes_via(state@, side, j, c),
            ));
        }
        i = i + 1;
    }
    proof {
        assert forall|c: Seq<char>| strs(out@).to_set().contains(c) == excluded(state@, side).contains(
            c,
        ) by {
            lemma_excluded_via(state@, side, c);
        }
        assert(strs(out@).to_set() =~= excluded(state@, side));
    }
    let sorted = sorted_unique(&out);
    proof {
        lemma_sorted_of(strs(sorted@));
        assert forall|i: int, j: int| 0 <= i < j < strs(sorted@).len() implies strs(sorted@)[i]
            != strs(sorted@)[j] by {
            lemma_lt_irreflexive(strs(sorted@)[i]);
        }
    }
    sorted
}

/// Every champion banned or picked in the set.
pub fn selected_champions(set: &MockDraftSet) -> (out: Vec<String>)
    ensures
        strs(out@).no_duplicates(),
        strs(out@).to_set() == selected(set@).to_set(),
{
    let mut out: Vec<String> = Vec::new();
    assert(strs(out@).to_set() =~= Set::<Seq<char>>::empty());
    push_all_unique(&mut out, &set.blue_bans);
    push_all_unique(&mut out, &set.red_bans);
    push_all_unique(&mut out, &set.blue_picks);
    push_all_unique(&mut out, &set.red_picks);
    proof {
        let v = set@;
        assert forall|c: Seq<char>| selected(v).to_set().contains(c) == (v.blue_bans.contains(c)
            || v.red_bans.contains(c) || v.blue_picks.contains(c) || v.red_picks.contains(c)) by {
            let s = selected(v);
            if s.contains(c) {
                let k = choose|k: int| 0 <= k < s.len() && s[k] == c;
                if k < v.blue_bans.len() {
                    assert(v.blue_bans[k] == c);
                } else if k < v.blue_bans.len() + v.red_bans.len() {
                    assert(v.red_bans[k - v.blue_bans.len()] == c);
                } else if k < v.blue_bans.len() + v.red_bans.len() + v.blue_picks.len() {
                    assert(v.blue_picks[k - v.blue_bans.len() - v.red_bans.len()] == c);
                } else {
                    assert(v.red_picks[k - v.blue_bans.len() - v.red_bans.len()
                        - v.blue_picks.len()] == c);
                }
            }
            if v.blue_bans.contains(c) {
                let k = choose|k: int| 0 <= k < v.blue_bans.len() && v.blue_bans[k] == c;
                assert(s[k] == c);
            }
            if v.red_bans.contains(c) {
                let k = choose|k: int| 0 <= k < v.red_bans.len() && v.red_bans[k] == c;
                assert(s[v.blue_bans.len() + k] == c);
            }
            if v.blue_picks.contains(c) {
                let k = choose|k: int| 0 <= k < v.blue_picks.len() && v.blue_picks[k] == c;
                assert(s[v.blue_bans.len() + v.red_bans.len() + k] == c);
            }
            if v.red_picks.contains(c) {
                let k = choose|k: int| 0 <= k < v.red_picks.len() && v.red_picks[k] == c;
                assert(s[v.blue_bans.len() + v.red_bans.len() + v.blue_picks.len() + k] == c);
            }
        }
        assert(strs(out@).to_set() =~= selected(v).to_set());
    }
    out
}

} // verus!

verus! {

/// Index of the first occurrence of `x` in `s`.
pub open spec fn first_pos(s: Seq<Seq<char>>, x: Seq<char>) -> Option<int>
    decreases s.len(),
{
    if s.len() == 0 {
        None
    } else if s[0] == x {
        Some(0)
    } else {
        match first_pos(s.drop_first(), x) {
            Some(i) => Some(i + 1),
            None => None,
        }
    }
}

/// Why a manual action is refused, in the order the checks run.
pub open spec fn apply_error(
    state: DraftStateView,
    side: DraftSide,
    phase: DraftPhase,
    id: Seq<char>,
    active: Seq<Seq<char>>,
) -> Option<MockDraftError> {
    let set = state.sets[state.current_set - 1];
    if phase == DraftPhase::Waiting {
        Some(MockDraftError::InvalidPhase)
    } else if id.len() == 0 || !active.contains(id) {
        Some(MockDraftError::ChampionUnavailable)
    } else if selected(set).contains(id) {
        Some(MockDraftError::ChampionAlreadySelected)
    } else if excluded(state, side).contains(id) {
        Some(MockDraftError::ChampionFearlessExcluded)
    } else if slot(set, side, phase).len() >= phase_capacity(phase) {
        Some(MockDraftError::DraftSlotFull)
    } else {
        None
    }
}

/// The state after a successful action: the champion joins the list of its side and phase in
/// the current set, and an action of the player's own side becomes the last own phase.
pub open spec fn applied_state(
    state: DraftStateView,
    side: DraftSide,
    phase: DraftPhase,
    id: Seq<char>,
) -> DraftStateView {
    let index = state.current_set - 1;
    let set = state.sets[index];
    let sets = state.sets.update(index, with_slot(set, side, phase, slot(set, side, phase).push(id)));
    DraftStateView {
        sets,
        last_own_phase: if side == side_in_set(sets, state.current_set) {
            phase
        } else {
            state.last_own_phase
        },
        ..state
    }
}

/// The state after removing the champion at `pos` from the list of `side` and `phase`.
pub open spec fn removed_state(
    state: DraftStateView,
    side: DraftSide,
    phase: DraftPhase,
    pos: int,
) -> DraftStateView {
    let index = state.current_set - 1;
    let set = state.sets[index];
    DraftStateView {
        sets: state.sets.update(index, with_slot(set, side, phase, slot(set, side, phase).remove(pos))),
        ..state
    }
}

/// The state after clearing the current set, keeping the side of the player's team.
pub open spec fn reset_state(state: DraftStateView) -> DraftStateView {
    let index = state.current_set - 1;
    DraftStateView {
        sets: state.sets.update(
            index,
            empty_set_view(state.current_set, state.sets[index].our_side),
        ),
        ..state
    }
}

/// The context fields of an update, applied in order; the recommendation phase is separate.
pub open spec fn context_state(state: DraftStateView, update: MockDraftContextUpdate) -> DraftStateView {
    let current_set = match update.current_set {
        Some(n) => n,
        None => state.current_set,
    };
    let sets = match update.player_side {
        Some(side) => state.sets.update(
            current_set - 1,
            DraftSetView { our_side: side, ..state.sets[current_set - 1] },
        ),
        None => state.sets,
    };
    DraftStateView {
        current_set,
        opponent_team_id: match update.opponent_team_id {
            Some(id) => Some(id),
            None => state.opponent_team_id,
        },
        sets,
        rule: match update.rule {
            Some(rule) => rule,
            None => state.rule,
        },
        ..state
    }
}

fn slot_len(set: &MockDraftSet, side: DraftSide, phase: DraftPhase) -> (len: usize)
    requires
        phase != DraftPhase::Waiting,
    ensures
        len == slot(set@, side, phase).len(),
{
    match (side, phase) {
        (DraftSide::Blue, DraftPhase::Ban) => set.blue_bans.len(),
        (DraftSide::Red, DraftPhase::Ban) => set.red_bans.len(),
        (DraftSide::Blue, _) => set.blue_picks.len(),
        (DraftSide::Red, _) => set.red_picks.len(),
    }
}

fn push_to_slot(set: &mut MockDraftSet, side: DraftSide, phase: DraftPhase, id: String)
    requires
        phase != DraftPhase::Waiting,
    ensures
        final(set)@ == with_slot(old(set)@, side, phase, slot(old(set)@, side, phase).push(id@)),
{
    let ghost before = set@;
    let ghost value = id@;
    match (side, phase) {
        (DraftSide::Blue, DraftPhase::Ban) => {
            set.blue_bans.push(id);
            assert(set@.blue_bans =~= before.blue_bans.push(value));
        },
        (DraftSide::Red, DraftPhase::Ban) => {
            set.red_bans.push(id);
            assert(set@.red_bans =~= before.red_bans.push(value));
        },
        (DraftSide::Blue, _) => {
            set.blue_picks.push(id);
            assert(set@.blue_picks =~= before.blue_picks.push(value));
        },
        (DraftSide::Red, _) => {
            set.red_picks.push(id);
            assert(set@.red_picks =~= before.red_picks.push(value));
        },
    }
}

fn position_in_slot(set: &MockDraftSet, side: DraftSide, phase: DraftPhase, id: &String) -> (pos:
    Option<usize>)
    requires
        phase != DraftPhase::Waiting,
    ensures
        pos matches Some(p) ==> first_pos(slot(set@, side, phase), id@) == Some(p as int),
        pos is None ==> first_pos(slot(set@, side, phase), id@) is None,
{
    let list = match (side, phase) {
        (DraftSide::Blue, DraftPhase::Ban) => &set.blue_bans,
        (DraftSide::Red, DraftPhase::Ban) => &set.red_bans,
        (DraftSide::Blue, _) => &set.blue_picks,
        (DraftSide::Red, _) => &set.red_picks,
    };
    let ghost s = strs(list@);
    assert(s == slot(set@, side, phase));
    let mut i: usize = 0;
    assert(s.subrange(0, s.len() as int) == s);
    while i < list.len()
        invariant
            i <= list@.len(),
            s == strs(list@),
            s == slot(set@, side, phase),
            first_pos(s, id@) == match first_pos(s.subrange(i as int, s.len() as int), id@) {
                Some(k) => Some(k + i),
                None => None,
            },
        decreases list.len() - i,
    {
        let ghost rest = s.subrange(i as int, s.len() as int);
        assert(rest[0] == list@[i as int]@);
        if list[i] == *id {
            return Some(i);
        }
        assert(rest.drop_first() =~= s.subrange(i + 1, s.len() as int));
        i = i + 1;
    }
    assert(s.subrange(i as int, s.len() as int) =~= Seq::<Seq<char>>::empty());
    None
}

fn remove_from_slot(set: &mut MockDraftSet, side: DraftSide, phase: DraftPhase, pos: usize)
    requires
        phase != DraftPhase::Waiting,
        pos < slot(old(set)@, side, phase).len(),
    ensures
        final(set)@ == with_slot(old(set)@, side, phase, slot(old(set)@, side, phase).remove(
            pos as int,
        )),
{
    let ghost before = *set;
    match (side, phase) {
        (DraftSide::Blue, DraftPhase::Ban) => {
            set.blue_bans.remove(pos);
        },
        (DraftSide::Red, DraftPhase::Ban) => {
            set.red_bans.remove(pos);
        },
        (DraftSide::Blue, _) => {
            set.blue_picks.remove(pos);
        },
        (DraftSide::Red, _) => {
            set.red_picks.remove(pos);
        },
    }
    assert(strs(before.blue_bans@).remove(pos as int) =~= strs(before.blue_bans@.remove(
        pos as int,
    )) || pos >= before.blue_bans@.len());
    assert(pos >= before.red_bans@.len() || strs(before.red_bans@).remove(pos as int) =~= strs(
        before.red_bans@.remove(pos as int),
    ));
    assert(pos >= before.blue_picks@.len() || strs(before.blue_picks@).remove(pos as int) =~= strs(
        before.blue_picks@.remove(pos as int),
    ));
    assert(pos >= before.red_picks@.len() || strs(before.red_picks@).remove(pos as int) =~= strs(
        before.red_picks@.remove(pos as int),
    ));
}

/// A mock draft with its undo history. Each successful change saves the previous state.
pub struct MockDraftSession {
    state: MockDraftState,
    history: Vec<MockDraftState>,
}

impl MockDraftSession {
    pub closed spec fn current(&self) -> MockDraftState {
        self.state
    }

    pub closed spec fn past(&self) -> Seq<MockDraftState> {
        self.history@
    }

    /// Every saved state is well formed, so that an undo leaves a usable state.
    pub open spec fn history_wf(&self) -> bool {
        forall|i: int| 0 <= i < self.past().len() ==> state_wf(#[trigger] self.past()[i]@)
    }

    /// `after` is `before` with one change made and the state before it saved.
    pub open spec fn saved_change(before: &Self, after: &Self) -> bool {
        after.past() == before.past().push(before.current())
    }

    /// `after` is `before` with its most recently saved state restored.
    pub open spec fn undo_step(before: &Self, after: &Self) -> bool {
        &&& before.past().len() > 0
        &&& after.current() == before.past().last()
        &&& after.past() == before.past().drop_last()
    }

    /// A fresh series with no history.
    pub fn new() -> (session: Self)
        ensures
            session.current()@.current_set == 1,
            session.current()@.rule == DraftRule::Classic,
            session.current()@.sets == Seq::new(
                5,
                |i: int| empty_set_view((i + 1) as usize, DraftSide::Blue),
            ),
            is_initial_view(session.current()@),
            state_wf(session.current()@),
            session.past().len() == 0,
            session.history_wf(),
    {
        MockDraftSession { state: MockDraftState::initial(), history: Vec::new() }
    }

    pub fn state(&self) -> (state: &MockDraftState)
        ensures
            *state == self.current(),
    {
        &self.state
    }

    /// The current state, to change in place; the undo history stays as it is.
    pub fn state_mut(&mut self) -> (state: &mut MockDraftState)
        ensures
            *state == old(self).current(),
            final(self).current() == *final(state),
            final(self).past() == old(self).past(),
    {
        &mut self.state
    }

    /// Applies context changes in order: set, opponent, side of the player's team, rule and
    /// recommendation phase. A set outside 1..=5 is refused before any change; a waiting phase is
    /// refused after the earlier fields were applied. The history is not touched.
    pub fn set_context(&mut self, update: MockDraftContextUpdate) -> (result: Result<(), MockDraftError>)
        requires
            state_wf(old(self).current()@),
        ensures
            state_wf(final(self).current()@),
            final(self).past() == old(self).past(),
            (update.current_set matches Some(n) && !(1 <= n <= 5)) ==> result == Err::<
                (),
                MockDraftError,
            >(MockDraftError::InvalidSet) && final(self).current() == old(self).current(),
            !(update.current_set matches Some(n) && !(1 <= n <= 5)) ==> {
                let ctx = context_state(old(self).current()@, update);
                match update.recommendation_phase {
                    Some(DraftPhase::Waiting) => result == Err::<(), MockDraftError>(
                        MockDraftError::InvalidPhase,
                    ) && final(self).current()@ == ctx,
                    Some(phase) => result is Ok && final(self).current()@ == DraftStateView {
                        last_own_phase: phase,
                        ..ctx
                    },
                    None => result is Ok && final(self).current()@ == ctx,
                }
            },
    {
        if let Some(current_set) = update.current_set {
            if current_set < 1 || current_set > 5 {
                return Err(MockDraftError::InvalidSet);
            }
            self.state.current_set = current_set;
        }
        if let Some(opponent_team_id) = update.opponent_team_id {
            self.state.opponent_team_id = Some(opponent_team_id);
        }
        if let Some(player_side) = update.player_side {
            let index = self.state.current_set - 1;
            let mut set = clone_set(&self.state.sets[index]);
            set.our_side = player_side;
            let ghost before = self.state;
            self.state.sets.set(index, set);
            assert(self.state@.sets =~= before@.sets.update(
                index as int,
                DraftSetView { our_side: player_side, ..before@.sets[index as int] },
            ));
        }
        if let Some(rule) = update.rule {
            self.state.rule = rule;
        }
        if let Some(phase) = update.recommendation_phase {
            if phase == DraftPhase::Waiting {
                return Err(MockDraftError::InvalidPhase);
            }
            self.state.last_own_phase = phase;
        }
        Ok(())
    }

    /// Bans or picks a champion in the current set after trimming its id. The champion must be
    /// active, not yet banned or picked in this set, not barred by the fearless rule, and the
    /// list must have room (three bans, five picks). On success the previous state is saved.
    pub fn apply(&mut self, action: MockDraftAction, active_champions: &[String]) -> (result: Result<
        (),
        MockDraftError,
    >)
        requires
            state_wf(old(self).current()@),
        ensures
            state_wf(final(self).current()@),
            match result {
                Err(e) => apply_error(
                    old(self).current()@,
                    action.side,
                    action.phase,
                    trim(action.champion_id@),
                    strs(active_champions@),
                ) == Some(e) && final(self).current() == old(self).current() && final(self).past()
                    == old(self).past(),
                Ok(()) => apply_error(
                    old(self).current()@,
                    action.side,
                    action.phase,
                    trim(action.champion_id@),
                    strs(active_champions@),
                ) is None && final(self).current()@ == applied_state(
                    old(self).current()@,
                    action.side,
                    action.phase,
                    trim(action.champion_id@),
                ) && Self::saved_change(old(self), final(self)),
            },
            old(self).history_wf() ==> final(self).history_wf(),
    {
        let ghost before = *self;
        let id_chars = trim_chars(&chars_of(action.champion_id.as_str()));
        let id = string_from_chars(&id_chars);
        if action.phase == DraftPhase::Waiting {
            return Err(MockDraftError::InvalidPhase);
        }
        if id_chars.len() == 0 || !contains_string(active_champions, &id) {
            return Err(MockDraftError::ChampionUnavailable);
        }
        let index = self.state.current_set - 1;
        assert(self.state@.sets[index as int] == self.state.sets@[index as int]@);
        let chosen = selected_champions(&self.state.sets[index]);
        let found = contains_string(&chosen, &id);
        assert(found == selected(self.state@.sets[index as int]).contains(id@)) by {
            assert(strs(chosen@).contains(id@) == strs(chosen@).to_set().contains(id@));
            assert(selected(self.state@.sets[index as int]).contains(id@) == selected(
                self.state@.sets[index as int],
            ).to_set().contains(id@));
        }
        if found {
            return Err(MockDraftError::ChampionAlreadySelected);
        }
        let barred = carryover_excluded(&self.state, action.side);
        let found = contains_string(&barred, &id);
        assert(found == excluded(self.state@, action.side).contains(id@)) by {
            assert(strs(barred@).contains(id@) == strs(barred@).to_set().contains(id@));
        }
        if found {
            return Err(MockDraftError::ChampionFearlessExcluded);
        }
        let capacity: usize = if action.phase == DraftPhase::Ban {
            3
        } else {
            5
        };
        if slot_len(&self.state.sets[index], action.side, action.phase) >= capacity {
            return Err(MockDraftError::DraftSlotFull);
        }
        let mut next = self.state.duplicate();
        let mut set = clone_set(&next.sets[index]);
        push_to_slot(&mut set, action.side, action.phase, id);
        let ghost dup = next;
        next.sets.set(index, set);
        assert(next@.sets =~= dup@.sets.update(index as int, set@));
        if action.side == next.current_our_side() {
            next.last_own_phase = action.phase;
        }
        std::mem::swap(&mut self.state, &mut next);
        self.history.push(next);
        proof {
            if before.history_wf() {
                lemma_saved_history_wf(&before, self);
            }
        }
        Ok(())
    }

    /// Removes the first occurrence of the champion from the list of the action's side and phase
    /// in the current set. On success the previous state is saved.
    pub fn remove(&mut self, action: &MockDraftAction) -> (result: Result<(), MockDraftError>)
        requires
            state_wf(old(self).current()@),
        ensures
            state_wf(final(self).current()@),
            action.phase == DraftPhase::Waiting ==> result == Err::<(), MockDraftError>(
                MockDraftError::InvalidPhase,
            ),
            action.phase != DraftPhase::Waiting ==> match first_pos(
                slot(
                    old(self).current()@.sets[old(self).current()@.current_set - 1],
                    action.side,
                    action.phase,
                ),
                action.champion_id@,
            ) {
                None => result == Err::<(), MockDraftError>(MockDraftError::ChampionNotSelected),
                Some(pos) => result is Ok && final(self).current()@ == removed_state(
                    old(self).current()@,
                    action.side,
                    action.phase,
                    pos,
                ) && Self::saved_change(old(self), final(self)),
            },
            result is Err ==> final(self).current() == old(self).current() && final(self).past()
                == old(self).past(),
            old(self).history_wf() ==> final(self).history_wf(),
    {
        let ghost before = *self;
        if action.phase == DraftPhase::Waiting {
            return Err(MockDraftError::InvalidPhase);
        }
        let index = self.state.current_set - 1;
        let pos = match position_in_slot(
            &self.state.sets[index],
            action.side,
            action.phase,
            &action.champion_id,
        ) {
            Some(pos) => pos,
            None => {
                return Err(MockDraftError::ChampionNotSelected);
            },
        };
        proof {
            lemma_first_pos_bound(
                slot(self.state@.sets[index as int], action.side, action.phase),
                action.champion_id@,
            );
        }
        let mut next = self.state.duplicate();
        let mut set = clone_set(&next.sets[index]);
        remove_from_slot(&mut set, action.side, action.phase, pos);
        let ghost dup = next;
        next.sets.set(index, set);
        assert(next@.sets =~= dup@.sets.update(index as int, set@));
        std::mem::swap(&mut self.state, &mut next);
        self.history.push(next);
        proof {
            if before.history_wf() {
                lemma_saved_history_wf(&before, self);
            }
        }
        Ok(())
    }

    /// Restores the most recently saved state; false when there is none.
    pub fn undo(&mut self) -> (undone: bool)
        ensures
            undone == (old(self).past().len() > 0),
            undone ==> Self::undo_step(old(self), final(self)),
            !undone ==> final(self).current() == old(self).current() && final(self).past()
                == old(self).past(),
            old(self).history_wf() ==> final(self).history_wf(),
            old(self).history_wf() && undone ==> state_wf(final(self).current()@),
    {
        match self.history.pop() {
            Some(previous) => {
                self.state = previous;
                true
            },
            None => false,
        }
    }

    /// Clears the bans and picks of the current set, keeping the side of the player's team;
    /// false, with nothing saved, when the set is already empty.
    pub fn reset_current_set(&mut self) -> (reset: bool)
        requires
            state_wf(old(self).current()@),
        ensures
            state_wf(final(self).current()@),
            reset == (selected(old(self).current()@.sets[old(self).current()@.current_set - 1]).len()
                > 0),
            reset ==> final(self).current()@ == reset_state(old(self).current()@)
                && Self::saved_change(old(self), final(self)),
            !reset ==> final(self).current() == old(self).current()
                && final(self).past() == old(self).past(),
            old(self).history_wf() ==> final(self).history_wf(),
    {
        let ghost before = *self;
        let index = self.state.current_set - 1;
        let set = &self.state.sets[index];
        if set.blue_bans.len() == 0 && set.red_bans.len() == 0 && set.blue_picks.len() == 0
            && set.red_picks.len() == 0 {
            return false;
        }
        let our_side = set.our_side;
        let mut next = self.state.duplicate();
        let mut fresh = MockDraftSet::empty(next.current_set);
        fresh.our_side = our_side;
        let ghost dup = next;
        next.sets.set(index, fresh);
        assert(next@.sets =~= dup@.sets.update(
            index as int,
            empty_set_view(dup.current_set, our_side),
        ));
        std::mem::swap(&mut self.state, &mut next);
        self.history.push(next);
        proof {
            if before.history_wf() {
                lemma_saved_history_wf(&before, self);
            }
        }
        true
    }
}

pub proof fn lemma_first_pos_bound(s: Seq<Seq<char>>, x: Seq<char>)
    ensures
        first_pos(s, x) matches Some(p) ==> 0 <= p < s.len() && s[p] == x,
    decreases s.len(),
{
    if s.len() > 0 && s[0] != x {
        lemma_first_pos_bound(s.drop_first(), x);
    }
}

/// Undoing right after a saved change gives back the session exactly as it was before the
/// change: the same state and the same history.
pub proof fn lemma_undo_reverts_change(
    before: &MockDraftSession,
    changed: &MockDraftSession,
    undone: &MockDraftSession,
)
    requires
        MockDraftSession::saved_change(before, changed),
        MockDraftSession::undo_step(changed, undone),
    ensures
        undone.current() == before.current(),
        undone.past() == before.past(),
{
    assert(undone.past() =~= before.past());
}

proof fn lemma_push_fresh(a: Seq<Seq<char>>, b: Seq<Seq<char>>, x: Seq<char>)
    requires
        (a + b).no_duplicates(),
        !(a + b).contains(x),
    ensures
        (a.push(x) + b).no_duplicates(),
{
    let s = a + b;
    let t = a.push(x) + b;
    assert forall|i: int, j: int| 0 <= i < t.len() && 0 <= j < t.len() && i != j implies t[i]
        != t[j] by {
        let si = if i < a.len() {
            i
        } else {
            i - 1
        };
        let sj = if j < a.len() {
            j
        } else {
            j - 1
        };
        if i == a.len() {
            assert(t[j] == s[sj]);
        } else if j == a.len() {
            assert(t[i] == s[si]);
        } else {
            assert(t[i] == s[si]);
            assert(t[j] == s[sj]);
        }
    }
}

/// An accepted action never selects a champion twice in a set: when the bans and picks of
/// the current set hold each champion once, they still do after the action.
pub proof fn lemma_accepted_action_keeps_set_unique(
    state: DraftStateView,
    side: DraftSide,
    phase: DraftPhase,
    id: Seq<char>,
    active: Seq<Seq<char>>,
)
    requires
        state_wf(state),
        apply_error(state, side, phase, id, active) is None,
        selected(state.sets[state.current_set - 1]).no_duplicates(),
    ensures
        selected(applied_state(state, side, phase, id).sets[state.current_set - 1]).no_duplicates(),
{
    let set = state.sets[state.current_set - 1];
    let after = applied_state(state, side, phase, id).sets[state.current_set - 1];
    let (bb, rb, bp, rp) = (set.blue_bans, set.red_bans, set.blue_picks, set.red_picks);
    match (side, phase) {
        (DraftSide::Blue, DraftPhase::Ban) => {
            assert(selected(set) =~= bb + (rb + bp + rp));
            assert(selected(after) =~= bb.push(id) + (rb + bp + rp));
            lemma_push_fresh(bb, rb + bp + rp, id);
        },
        (DraftSide::Red, DraftPhase::Ban) => {
            assert(selected(set) =~= (bb + rb) + (bp + rp));
            assert(selected(after) =~= (bb + rb).push(id) + (bp + rp));
            lemma_push_fresh(bb + rb, bp + rp, id);
        },
        (DraftSide::Blue, _) => {
            assert(selected(set) =~= (bb + rb + bp) + rp);
            assert(selected(after) =~= (bb + rb + bp).push(id) + rp);
            lemma_push_fresh(bb + rb + bp, rp, id);
        },
        (DraftSide::Red, _) => {
            assert(selected(set) =~= (bb + rb + bp + rp) + Seq::empty());
            assert(selected(after) =~= (bb + rb + bp + rp).push(id) + Seq::empty());
            lemma_push_fresh(bb + rb + bp + rp, Seq::empty(), id);
        },
    }
}

/// An accepted action keeps its list within three bans or five picks, changes no other list
/// of the set and no other set.
pub proof fn lemma_accepted_action_within_capacity(
    state: DraftStateView,
    side: DraftSide,
    phase: DraftPhase,
    id: Seq<char>,
    active: Seq<Seq<char>>,
)
    requires
        state_wf(state),
        apply_error(state, side, phase, id, active) is None,
    ensures
        ({
            let after = applied_state(state, side, phase, id);
            let set = state.sets[state.current_set - 1];
            &&& slot(after.sets[state.current_set - 1], side, phase).len() <= phase_capacity(phase)
            &&& slot(after.sets[state.current_set - 1], side, phase) == slot(set, side, phase).push(
                id,
            )
            &&& after.sets[state.current_set - 1] == with_slot(
                set,
                side,
                phase,
                slot(set, side, phase).push(id),
            )
            &&& forall|i: int|
                0 <= i < 5 && i != state.current_set - 1 ==> after.sets[i] == state.sets[i]
        }),
{
}

/// Clearing the current set empties its bans and picks, keeps the side of the player's team
/// in it, and leaves every other set as it was.
pub proof fn lemma_reset_keeps_player_side(state: DraftStateView)
    requires
        state_wf(state),
    ensures
        ({
            let after = reset_state(state);
            let index = state.current_set - 1;
            &&& selected(after.sets[index]).len() == 0
            &&& after.sets[index].our_side == state.sets[index].our_side
            &&& after.sets[index].set_number == state.current_set
            &&& forall|i: int| 0 <= i < 5 && i != index ==> after.sets[i] == state.sets[i]
        }),
{
}

/// Moving the player's team to the other side keeps the physical blue and red lists of the
/// set where they were; only the recorded side changes.
pub proof fn lemma_side_change_keeps_slots(state: DraftStateView, side: DraftSide)
    requires
        state_wf(state),
    ensures
        ({
            let update = MockDraftContextUpdate {
                current_set: None,
                opponent_team_id: None,
                player_side: Some(side),
                rule: None,
                recommendation_phase: None,
            };
            let after = context_state(state, update);
            let index = state.current_set - 1;
            &&& after.sets[index].our_side == side
            &&& after.sets[index].blue_bans == state.sets[index].blue_bans
            &&& after.sets[index].red_bans == state.sets[index].red_bans
            &&& after.sets[index].blue_picks == state.sets[index].blue_picks
            &&& after.sets[index].red_picks == state.sets[index].red_picks
            &&& forall|i: int| 0 <= i < 5 && i != index ==> after.sets[i] == state.sets[i]
        }),
{
}

proof fn lemma_saved_history_wf(before: &MockDraftSession, after: &MockDraftSession)
    requires
        state_wf(before.current()@),
        before.history_wf(),
        MockDraftSession::saved_change(before, after),
    ensures
        after.history_wf(),
{
    assert forall|i: int| 0 <= i < after.past().len() implies state_wf(
        #[trigger] after.past()[i]@,
    ) by {
        if i < before.past().len() {
            assert(after.past()[i] == before.past()[i]);
        }
    }
}

impl Default for MockDraftSession {
    fn default() -> (session: Self)
        ensures
            is_initial_view(session.current()@),
            state_wf(session.current()@),
            session.past().len() == 0,
            session.history_wf(),
    {
        Self::new()
    }
}

} // verus!
