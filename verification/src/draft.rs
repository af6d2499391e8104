//! Draft phases, the role gate that keeps a lineup fillable, and draft weight settings.

use vstd::prelude::*;

use crate::profile::RoleFilter;

verus! {

#[derive(Debug, Clone, Copy, PartialEq, Eq, Structural)]
pub enum DraftPhase {
    Ban,
    Pick,
    Waiting,
}

#[derive(Debug, Clone, Copy, PartialEq, Eq, Structural)]
pub enum DraftRoleConfidence {
    High,
    Medium,
    Low,
}

/// Result of the role gate over the picks of one side.
#[derive(Debug, Clone, PartialEq, Eq)]
pub struct RoleGateState {
    pub feasible: bool,
    pub definitely_filled: Vec<RoleFilter>,
    pub assignment_count: usize,
}

/// The five playable roles, in lineup order.
pub open spec fn playable_roles() -> Seq<RoleFilter> {
    seq![RoleFilter::Top, RoleFilter::Jungle, RoleFilter::Mid, RoleFilter::Bot, RoleFilter::Support]
}

/// Position of a role in lineup order; `All` comes after the five playable roles.
pub open spec fn role_rank(role: RoleFilter) -> int {
    match role {
        RoleFilter::Top => 0,
        RoleFilter::Jungle => 1,
        RoleFilter::Mid => 2,
        RoleFilter::Bot => 3,
        RoleFilter::Support => 4,
        RoleFilter::All => 5,
    }
}

pub fn role_order(role: RoleFilter) -> (rank: usize)
    ensures
        rank == role_rank(role),
{
    match role {
        RoleFilter::Top => 0,
        RoleFilter::Jungle => 1,
        RoleFilter::Mid => 2,
        RoleFilter::Bot => 3,
        RoleFilter::Support => 4,
        RoleFilter::All => 5,
    }
}

fn playable_role(k: usize) -> (role: RoleFilter)
    requires
        k < 5,
    ensures
        role == playable_roles()[k as int],
        role_rank(role) == k,
{
    match k {
        0 => RoleFilter::Top,
        1 => RoleFilter::Jungle,
        2 => RoleFilter::Mid,
        3 => RoleFilter::Bot,
        _ => RoleFilter::Support,
    }
}

/// The role sets of the picks, as mathematical sequences.
pub open spec fn pick_sets(picks: Seq<Vec<RoleFilter>>) -> Seq<Seq<RoleFilter>> {
    picks.map_values(|v: Vec<RoleFilter>| v@)
}

/// A role assignment gives each pick a distinct playable role among those it can play.
pub open spec fn is_assignment(sets: Seq<Seq<RoleFilter>>, a: Seq<RoleFilter>) -> bool {
    &&& a.len() == sets.len()
    &&& a.no_duplicates()
    &&& forall|i: int|
        0 <= i < a.len() ==> #[trigger] a[i] != RoleFilter::All && sets[i].contains(a[i])
}

pub open spec fn assignments(sets: Seq<Seq<RoleFilter>>) -> Set<Seq<RoleFilter>> {
    Set::new(|a: Seq<RoleFilter>| is_assignment(sets, a))
}

/// The picks can all be placed in distinct roles.
pub open spec fn gate_feasible(sets: Seq<Seq<RoleFilter>>) -> bool {
    exists|a: Seq<RoleFilter>| is_assignment(sets, a)
}

/// A role that every assignment of a feasible lineup uses.
pub open spec fn always_filled(sets: Seq<Seq<RoleFilter>>, role: RoleFilter) -> bool {
    gate_feasible(sets) && forall|a: Seq<RoleFilter>| is_assignment(sets, a) ==> a.contains(role)
}

/// The always-filled roles among the first `k` playable roles, in lineup order.
pub open spec fn filled_roles_upto(sets: Seq<Seq<RoleFilter>>, k: int) -> Seq<RoleFilter>
    decreases k,
{
    if k <= 0 {
        Seq::empty()
    } else {
        let prev = filled_roles_upto(sets, k - 1);
        if always_filled(sets, playable_roles()[k - 1]) {
            prev.push(playable_roles()[k - 1])
        } else {
            prev
        }
    }
}

pub open spec fn filled_roles(sets: Seq<Seq<RoleFilter>>) -> Seq<RoleFilter> {
    filled_roles_upto(sets, 5)
}

pub open spec fn extends(a: Seq<RoleFilter>, prefix: Seq<RoleFilter>) -> bool {
    prefix.len() <= a.len() && a.subrange(0, prefix.len() as int) == prefix
}

pub open spec fn is_partial(sets: Seq<Seq<RoleFilter>>, current: Seq<RoleFilter>) -> bool {
    &&& current.len() <= sets.len()
    &&& current.no_duplicates()
    &&& forall|i: int|
        0 <= i < current.len() ==> #[trigger] current[i] != RoleFilter::All && sets[i].contains(
            current[i],
        )
}

pub open spec fn views(out: Seq<Vec<RoleFilter>>) -> Seq<Seq<RoleFilter>> {
    out.map_values(|v: Vec<RoleFilter>| v@)
}

fn role_in(roles: &Vec<RoleFilter>, role: RoleFilter) -> (found: bool)
    ensures
        found == roles@.contains(role),
{
    let mut i: usize = 0;
    while i < roles.len()
        invariant
            i <= roles@.len(),
            forall|k: int| 0 <= k < i ==> roles@[k] != role,
        decreases roles.len() - i,
    {
        if roles[i] == role {
            assert(roles@[i as int] == role);
            return true;
        }
        i = i + 1;
    }
    false
}

fn copy_roles(roles: &Vec<RoleFilter>) -> (copy: Vec<RoleFilter>)
    ensures
        copy@ == roles@,
{
    let mut copy: Vec<RoleFilter> = Vec::new();
    let mut i: usize = 0;
    while i < roles.len()
        invariant
            i <= roles@.len(),
            copy@ == roles@.subrange(0, i as int),
        decreases roles.len() - i,
    {
        copy.push(roles[i]);
        assert(roles@.subrange(0, i + 1) == roles@.subrange(0, i as int).push(roles@[i as int]));
        i = i + 1;
    }
    assert(roles@.subrange(0, roles@.len() as int) == roles@);
    copy
}

proof fn lemma_concat_contains(s: Seq<Seq<RoleFilter>>, t: Seq<Seq<RoleFilter>>, x: Seq<RoleFilter>)
    ensures
        (s + t).contains(x) <==> s.contains(x) || t.contains(x),
{
    if (s + t).contains(x) {
        let i = choose|i: int| 0 <= i < (s + t).len() && (s + t)[i] == x;
        if i >= s.len() {
            assert(t[i - s.len()] == x);
        }
    }
    if s.contains(x) {
        let i = choose|i: int| 0 <= i < s.len() && s[i] == x;
        assert((s + t)[i] == x);
    }
    if t.contains(x) {
        let i = choose|i: int| 0 <= i < t.len() && t[i] == x;
        assert((s + t)[s.len() + i] == x);
    }
}

proof fn lemma_no_dup_concat(s: Seq<Seq<RoleFilter>>, t: Seq<Seq<RoleFilter>>)
    requires
        s.no_duplicates(),
        t.no_duplicates(),
        forall|x: Seq<RoleFilter>| s.contains(x) ==> !t.contains(x),
    ensures
        (s + t).no_duplicates(),
{
    assert forall|i: int, j: int|
        0 <= i < (s + t).len() && 0 <= j < (s + t).len() && i != j implies (s + t)[i] != (s
        + t)[j] by {
        if i < s.len() && j >= s.len() {
            assert(s.contains((s + t)[i]));
            assert(t.contains((s + t)[j]));
        } else if j < s.len() && i >= s.len() {
            assert(s.contains((s + t)[j]));
            assert(t.contains((s + t)[i]));
        }
    }
}

/// Appends to `output` every role assignment of `picks` that extends `current`, each once.
fn extend_assignments(
    picks: &[Vec<RoleFilter>],
    current: &mut Vec<RoleFilter>,
    output: &mut Vec<Vec<RoleFilter>>,
)
    requires
        is_partial(pick_sets(picks@), old(current)@),
    ensures
        final(current)@ == old(current)@,
        final(output)@.len() >= old(output)@.len(),
        final(output)@.subrange(0, old(output)@.len() as int) == old(output)@,
        views(final(output)@.subrange(old(output)@.len() as int, final(output)@.len() as int))
            .no_duplicates(),
        forall|a: Seq<RoleFilter>|
            views(
                final(output)@.subrange(old(output)@.len() as int, final(output)@.len() as int),
            ).contains(a) <==> is_assignment(pick_sets(picks@), a) && extends(a, old(current)@),
    decreases picks@.len() - old(current)@.len(),
{
    let ghost sets = pick_sets(picks@);
    let ghost start = output@.len();
    let ghost cur = current@;
    if current.len() == picks.len() {
        let done = copy_roles(current);
        output.push(done);
        proof {
            let added = views(output@.subrange(start as int, output@.len() as int));
            assert(added =~= seq![cur]);
            assert(cur.len() == sets.len());
            assert(is_assignment(sets, cur));
            assert(cur.subrange(0, cur.len() as int) =~= cur);
            assert(extends(cur, cur));
            assert forall|a: Seq<RoleFilter>| added.contains(a) <==> is_assignment(sets, a)
                && extends(a, cur) by {
                if extends(a, cur) && a.len() == cur.len() {
                    assert(a.subrange(0, cur.len() as int) == a);
                }
                if added.contains(a) {
                    assert(added[0] == cur);
                }
            }
            assert(output@.subrange(0, start as int) =~= old(output)@);
        }
        return ;
    }
    let index = current.len();
    let mut k: usize = 0;
    assert(output@.subrange(start as int, output@.len() as int) =~= Seq::<Vec<RoleFilter>>::empty());
    while k < 5
        invariant
            k <= 5,
            sets == pick_sets(picks@),
            cur == old(current)@,
            cur.len() == index < picks@.len(),
            is_partial(sets, cur),
            current@ == cur,
            output@.len() >= start,
            output@.subrange(0, start as int) == old(output)@,
            views(output@.subrange(start as int, output@.len() as int)).no_duplicates(),
            forall|a: Seq<RoleFilter>|
                views(output@.subrange(start as int, output@.len() as int)).contains(a) <==> (
                is_assignment(sets, a) && extends(a, cur) && role_rank(a[index as int]) < k),
        decreases 5 - k,
    {
        let role = playable_role(k);
        let ghost before = output@;
        if role_in(&picks[index], role) && !role_in(current, role) {
            current.push(role);
            proof {
                let next = cur.push(role);
                assert(next.no_duplicates()) by {
                    assert forall|i: int, j: int|
                        0 <= i < next.len() && 0 <= j < next.len() && i != j implies next[i]
                        != next[j] by {
                        if i == cur.len() as int {
                            assert(cur.contains(next[j]));
                        } else if j == cur.len() as int {
                            assert(cur.contains(next[i]));
                        }
                    }
                }
                assert(is_partial(sets, next));
            }
            extend_assignments(picks, current, output);
            current.pop();
            proof {
                let next = cur.push(role);
                let old_added = views(before.subrange(start as int, before.len() as int));
                let new_added = views(output@.subrange(before.len() as int, output@.len() as int));
                let all_added = views(output@.subrange(start as int, output@.len() as int));
                assert(output@.subrange(start as int, output@.len() as int) =~= before.subrange(
                    start as int,
                    before.len() as int,
                ) + output@.subrange(before.len() as int, output@.len() as int));
                assert(all_added =~= old_added + new_added);
                assert forall|x: Seq<RoleFilter>| old_added.contains(x) implies !new_added.contains(
                    x,
                ) by {
                    if new_added.contains(x) {
                        assert(extends(x, next));
                        assert(x.subrange(0, next.len() as int) == next);
                        assert(x[index as int] == next[index as int]);
                    }
                }
                lemma_no_dup_concat(old_added, new_added);
                assert forall|a: Seq<RoleFilter>| all_added.contains(a) <==> (is_assignment(sets, a)
                    && extends(a, cur) && role_rank(a[index as int]) < k + 1) by {
                    lemma_concat_contains(old_added, new_added, a);
                    if new_added.contains(a) {
                        assert(extends(a, next));
                        assert(a.subrange(0, next.len() as int) == next);
                        assert(a.subrange(0, next.len() as int)[index as int] == a[index as int]);
                        assert(a[index as int] == role);
                        assert(a.subrange(0, cur.len() as int) =~= next.subrange(0, cur.len() as int));
                        assert(next.subrange(0, cur.len() as int) =~= cur);
                        assert(extends(a, cur));
                    }
                    if is_assignment(sets, a) && extends(a, cur) && role_rank(a[index as int]) == k {
                        assert(a[index as int] == role);
                        assert(a.subrange(0, next.len() as int) =~= next);
                        assert(extends(a, next));
                        assert(new_added.contains(a));
                    }
                }
                assert(output@.subrange(0, start as int) =~= before.subrange(0, start as int));
            }
        } else {
            proof {
                assert forall|a: Seq<RoleFilter>| is_assignment(sets, a) && extends(a, cur)
                    implies role_rank(a[index as int]) != k by {
                    if role_rank(a[index as int]) == k {
                        assert(a[index as int] == role);
                        assert(sets[index as int] == picks@[index as int]@);
                        assert(sets[index as int].contains(role));
                        let j = choose|j: int| 0 <= j < cur.len() && cur[j] == role;
                        if current@.contains(role) {
                            assert(a.subrange(0, cur.len() as int)[j] == a[j]);
                            assert(a[j] == a[index as int]);
                        }
                    }
                }
            }
        }
        k = k + 1;
    }
    proof {
        assert forall|a: Seq<RoleFilter>| is_assignment(sets, a) && extends(a, cur) implies role_rank(
            a[index as int],
        ) < 5 by {
            assert(a[index as int] != RoleFilter::All);
        }
    }
}

/// Every role assignment of the picks, each exactly once.
pub fn role_assignments(picks: &[Vec<RoleFilter>]) -> (out: Vec<Vec<RoleFilter>>)
    ensures
        views(out@).no_duplicates(),
        views(out@).to_set() == assignments(pick_sets(picks@)),
{
    let mut out: Vec<Vec<RoleFilter>> = Vec::new();
    let mut current: Vec<RoleFilter> = Vec::new();
    extend_assignments(picks, &mut current, &mut out);
    proof {
        assert(out@.subrange(0, out@.len() as int) == out@);
        assert forall|a: Seq<RoleFilter>| is_assignment(pick_sets(picks@), a) implies extends(
            a,
            Seq::<RoleFilter>::empty(),
        ) by {
            assert(a.subrange(0, 0) =~= Seq::<RoleFilter>::empty());
        }
        assert(views(out@).to_set() =~= assignments(pick_sets(picks@)));
    }
    out
}

} // verus!

verus! {

fn all_contain(out: &Vec<Vec<RoleFilter>>, role: RoleFilter) -> (r: bool)
    ensures
        r == forall|i: int| 0 <= i < out@.len() ==> #[trigger] views(out@)[i].contains(role),
{
    let mut i: usize = 0;
    while i < out.len()
        invariant
            i <= out@.len(),
            forall|k: int| 0 <= k < i ==> #[trigger] views(out@)[k].contains(role),
        decreases out.len() - i,
    {
        if !role_in(&out[i], role) {
            assert(!views(out@)[i as int].contains(role));
            return false;
        }
        i = i + 1;
    }
    true
}

/// Enumerates the role assignments of a side's picks: whether one exists, which roles every
/// assignment fills, and how many there are.
pub fn analyze_role_gate(picks: &[Vec<RoleFilter>]) -> (gate: RoleGateState)
    ensures
        gate.feasible == gate_feasible(pick_sets(picks@)),
        gate.definitely_filled@ == filled_roles(pick_sets(picks@)),
        gate.assignment_count == assignments(pick_sets(picks@)).len(),
{
    let ghost sets = pick_sets(picks@);
    let out = role_assignments(picks);
    let feasible = out.len() > 0;
    proof {
        if feasible {
            assert(views(out@).contains(views(out@)[0]));
            assert(views(out@).to_set().contains(views(out@)[0]));
            assert(assignments(sets).contains(views(out@)[0]));
            assert(is_assignment(sets, views(out@)[0]));
        }
        if gate_feasible(sets) {
            let a = choose|a: Seq<RoleFilter>| is_assignment(sets, a);
            assert(assignments(sets).contains(a));
            assert(views(out@).to_set().contains(a));
        }
    }
    let mut definitely_filled: Vec<RoleFilter> = Vec::new();
    let mut k: usize = 0;
    while k < 5
        invariant
            k <= 5,
            sets == pick_sets(picks@),
            feasible == gate_feasible(sets),
            views(out@).to_set() == assignments(sets),
            views(out@).no_duplicates(),
            definitely_filled@ == filled_roles_upto(sets, k as int),
        decreases 5 - k,
    {
        let role = playable_role(k);
        let every = feasible && all_contain(&out, role);
        proof {
            if every {
                assert forall|a: Seq<RoleFilter>| is_assignment(sets, a) implies a.contains(role) by {
                    assert(views(out@).to_set().contains(a));
                    let i = choose|i: int| 0 <= i < views(out@).len() && views(out@)[i] == a;
                    assert(views(out@)[i].contains(role));
                }
            }
            if always_filled(sets, role) {
                assert forall|i: int| 0 <= i < out@.len() implies #[trigger] views(
                    out@,
                )[i].contains(role) by {
                    assert(views(out@).to_set().contains(views(out@)[i]));
                }
            }
        }
        if every {
            definitely_filled.push(role);
        }
        k = k + 1;
    }
    proof {
        views(out@).unique_seq_to_set();
    }
    RoleGateState { feasible, definitely_filled, assignment_count: out.len() }
}

fn copy_picks(picks: &[Vec<RoleFilter>]) -> (copy: Vec<Vec<RoleFilter>>)
    ensures
        pick_sets(copy@) == pick_sets(picks@),
{
    let mut copy: Vec<Vec<RoleFilter>> = Vec::new();
    let mut i: usize = 0;
    while i < picks.len()
        invariant
            i <= picks@.len(),
            pick_sets(copy@) == pick_sets(picks@).subrange(0, i as int),
        decreases picks.len() - i,
    {
        copy.push(copy_roles(&picks[i]));
        assert(pick_sets(picks@).subrange(0, i + 1) =~= pick_sets(picks@).subrange(0, i as int).push(
            picks@[i as int]@,
        ));
        assert(pick_sets(copy@) =~= pick_sets(picks@).subrange(0, i as int).push(picks@[i as int]@));
        i = i + 1;
    }
    assert(pick_sets(picks@).subrange(0, picks@.len() as int) == pick_sets(picks@));
    copy
}

/// Whether a champion may still be picked: yes when the side's picks already have no valid
/// role assignment, and otherwise only when adding its roles still leaves one.
pub fn candidate_passes_role_gate(current_picks: &[Vec<RoleFilter>], candidate_roles: &[RoleFilter]) -> (passes: bool)
    ensures
        passes == (!gate_feasible(pick_sets(current_picks@)) || gate_feasible(
            pick_sets(current_picks@).push(candidate_roles@),
        )),
{
    if !analyze_role_gate(current_picks).feasible {
        return true;
    }
    let mut augmented = copy_picks(current_picks);
    let mut candidate: Vec<RoleFilter> = Vec::new();
    let mut i: usize = 0;
    while i < candidate_roles.len()
        invariant
            i <= candidate_roles@.len(),
            candidate@ == candidate_roles@.subrange(0, i as int),
        decreases candidate_roles.len() - i,
    {
        candidate.push(candidate_roles[i]);
        assert(candidate_roles@.subrange(0, i + 1) == candidate_roles@.subrange(0, i as int).push(
            candidate_roles@[i as int],
        ));
        i = i + 1;
    }
    assert(candidate_roles@.subrange(0, candidate_roles@.len() as int) == candidate_roles@);
    let ghost before = augmented@;
    augmented.push(candidate);
    assert(pick_sets(augmented@) =~= pick_sets(before).push(candidate_roles@));
    analyze_role_gate(&augmented).feasible
}

/// Adding a pick never makes an unfillable lineup fillable.
pub proof fn lemma_gate_infeasible_stays_infeasible(
    sets: Seq<Seq<RoleFilter>>,
    extra: Seq<RoleFilter>,
)
    requires
        !gate_feasible(sets),
    ensures
        !gate_feasible(sets.push(extra)),
{
    if gate_feasible(sets.push(extra)) {
        let a = choose|a: Seq<RoleFilter>| is_assignment(sets.push(extra), a);
        let b = a.drop_last();
        assert(is_assignment(sets, b)) by {
            assert forall|i: int| 0 <= i < b.len() implies #[trigger] b[i] != RoleFilter::All
                && sets[i].contains(b[i]) by {
                assert(b[i] == a[i]);
                assert(sets.push(extra)[i] == sets[i]);
            }
        }
    }
}

/// Any assignment of a lineup that grows by one pick, restricted to the earlier picks, is an
/// assignment of the earlier lineup: so every role it certainly fills stays certainly filled.
pub proof fn lemma_filled_roles_persist(
    sets: Seq<Seq<RoleFilter>>,
    extra: Seq<RoleFilter>,
    role: RoleFilter,
)
    requires
        always_filled(sets, role),
        gate_feasible(sets.push(extra)),
    ensures
        always_filled(sets.push(extra), role),
{
    assert forall|a: Seq<RoleFilter>| is_assignment(sets.push(extra), a) implies a.contains(role) by {
        let b = a.drop_last();
        assert(is_assignment(sets, b)) by {
            assert forall|i: int| 0 <= i < b.len() implies #[trigger] b[i] != RoleFilter::All
                && sets[i].contains(b[i]) by {
                assert(b[i] == a[i]);
                assert(sets.push(extra)[i] == sets[i]);
            }
        }
        assert(b.contains(role));
        let j = choose|j: int| 0 <= j < b.len() && b[j] == role;
        assert(a[j] == role);
    }
}

} // verus!

verus! {

#[derive(Debug, Clone, Copy, PartialEq, Eq, Structural)]
pub enum DraftSettingsError {
    PickWeightsAreZero,
    BanWeightsAreZero,
    WeightOutOfRange,
}

impl DraftSettingsError {
    /// The human-readable explanation of the error.
    pub fn message(&self) -> (message: &'static str)
        ensures
            message@ == match *self {
                DraftSettingsError::PickWeightsAreZero =>
                    "at least one pick weight must be greater than zero"@,
                DraftSettingsError::BanWeightsAreZero =>
                    "at least one enabled ban weight must be greater than zero"@,
                DraftSettingsError::WeightOutOfRange => "draft weights must be in the 0-100 range"@,
            },
    {
        match self {
            DraftSettingsError::PickWeightsAreZero =>
                "at least one pick weight must be greater than zero",
            DraftSettingsError::BanWeightsAreZero =>
                "at least one enabled ban weight must be greater than zero",
            DraftSettingsError::WeightOutOfRange => "draft weights must be in the 0-100 range",
        }
    }
}

/// The user's weights for pick and ban recommendations.
#[derive(Debug, Clone, Copy, PartialEq, Eq, Structural)]
pub struct DraftScoreWeights {
    pub pick_op: u8,
    pub pick_matchup: u8,
    pub pick_synergy: u8,
    pub pick_composition: u8,
    pub pick_denial: u8,
    pub pick_role_gate: bool,
    pub ban_preference: u8,
    pub ban_op: u8,
    pub ban_threat_enabled: bool,
    pub ban_threat: u8,
    pub ban_synergy_enabled: bool,
    pub ban_synergy: u8,
    pub ban_composition_enabled: bool,
    pub ban_composition: u8,
    pub ban_role_gate: bool,
}

impl DraftScoreWeights {
    /// Sum of the five pick weights.
    pub open spec fn spec_pick_total(self) -> int {
        self.pick_op + self.pick_matchup + self.pick_synergy + self.pick_composition
            + self.pick_denial
    }

    /// Sum of the ban weights, a disabled extension counting as zero.
    pub open spec fn spec_ban_total(self) -> int {
        self.ban_preference + self.ban_op + (if self.ban_threat_enabled {
            self.ban_threat as int
        } else {
            0
        }) + (if self.ban_synergy_enabled {
            self.ban_synergy as int
        } else {
            0
        }) + (if self.ban_composition_enabled {
            self.ban_composition as int
        } else {
            0
        })
    }

    pub open spec fn any_weight_above_100(self) -> bool {
        ||| self.pick_op > 100
        ||| self.pick_matchup > 100
        ||| self.pick_synergy > 100
        ||| self.pick_composition > 100
        ||| self.pick_denial > 100
        ||| self.ban_preference > 100
        ||| self.ban_op > 100
        ||| self.ban_threat > 100
        ||| self.ban_synergy > 100
        ||| self.ban_composition > 100
    }

    pub open spec fn settings_error(self) -> Option<DraftSettingsError> {
        if self.any_weight_above_100() {
            Some(DraftSettingsError::WeightOutOfRange)
        } else if self.spec_pick_total() == 0 {
            Some(DraftSettingsError::PickWeightsAreZero)
        } else if self.spec_ban_total() == 0 {
            Some(DraftSettingsError::BanWeightsAreZero)
        } else {
            None
        }
    }

    /// The approved defaults: picks 40/20/20/10/10 with the role gate, bans 40/60 with the
    /// extensions off.
    pub open spec fn spec_default() -> Self {
        DraftScoreWeights {
                pick_op: 40,
                pick_matchup: 20,
                pick_synergy: 20,
                pick_composition: 10,
                pick_denial: 10,
                pick_role_gate: true,
                ban_preference: 40,
                ban_op: 60,
                ban_threat_enabled: false,
                ban_threat: 10,
                ban_synergy_enabled: false,
                ban_synergy: 10,
                ban_composition_enabled: false,
                ban_composition: 10,
                ban_role_gate: false,
            }
    }

    pub fn default_weights() -> (weights: Self)
        ensures
            weights == Self::spec_default(),
    {
        DraftScoreWeights {
            pick_op: 40,
            pick_matchup: 20,
            pick_synergy: 20,
            pick_composition: 10,
            pick_denial: 10,
            pick_role_gate: true,
            ban_preference: 40,
            ban_op: 60,
            ban_threat_enabled: false,
            ban_threat: 10,
            ban_synergy_enabled: false,
            ban_synergy: 10,
            ban_composition_enabled: false,
            ban_composition: 10,
            ban_role_gate: false,
        }
    }

    pub fn pick_total(&self) -> (total: u32)
        ensures
            total == self.spec_pick_total(),
    {
        self.pick_op as u32 + self.pick_matchup as u32 + self.pick_synergy as u32
            + self.pick_composition as u32 + self.pick_denial as u32
    }

    pub fn ban_total(&self) -> (total: u32)
        ensures
            total == self.spec_ban_total(),
    {
        let threat: u32 = if self.ban_threat_enabled {
            self.ban_threat as u32
        } else {
            0
        };
        let synergy: u32 = if self.ban_synergy_enabled {
            self.ban_synergy as u32
        } else {
            0
        };
        let composition: u32 = if self.ban_composition_enabled {
            self.ban_composition as u32
        } else {
            0
        };
        self.ban_preference as u32 + self.ban_op as u32 + threat + synergy + composition
    }

    /// Rejects a weight above 100, all-zero pick weights and all-zero enabled ban weights.
    pub fn validate(&self) -> (result: Result<(), DraftSettingsError>)
        ensures
            result matches Err(e) ==> self.settings_error() == Some(e),
            result is Ok ==> self.settings_error() is None,
    {
        if self.pick_op > 100 || self.pick_matchup > 100 || self.pick_synergy > 100
            || self.pick_composition > 100 || self.pick_denial > 100 || self.ban_preference > 100
            || self.ban_op > 100 || self.ban_threat > 100 || self.ban_synergy > 100
            || self.ban_composition > 100 {
            return Err(DraftSettingsError::WeightOutOfRange);
        }
        if self.pick_total() == 0 {
            return Err(DraftSettingsError::PickWeightsAreZero);
        }
        if self.ban_total() == 0 {
            return Err(DraftSettingsError::BanWeightsAreZero);
        }
        Ok(())
    }

    /// The role a candidate is recommended for: the first remaining role it can play, else its
    /// first usable role.
    pub open spec fn recommended_role(usable: Seq<RoleFilter>, remaining: Seq<RoleFilter>) -> Option<
        RoleFilter,
    > {
        if exists|i: int| 0 <= i < remaining.len() && usable.contains(#[trigger] remaining[i]) {
            let i = choose|i: int|
                0 <= i < remaining.len() && usable.contains(#[trigger] remaining[i]) && forall|
                    j: int,
                | 0 <= j < i ==> !usable.contains(#[trigger] remaining[j]);
            Some(remaining[i])
        } else if usable.len() > 0 {
            Some(usable[0])
        } else {
            None
        }
    }

    /// Whether the role check of the phase drops a champion: the check is on, its roles are
    /// known with some confidence, and it can play none of the remaining roles.
    pub open spec fn gate_excludes(
        self,
        phase: DraftPhase,
        usable: Seq<RoleFilter>,
        confidence: DraftRoleConfidence,
        remaining: Seq<RoleFilter>,
    ) -> bool {
        let enabled = if phase == DraftPhase::Pick {
            self.pick_role_gate
        } else {
            self.ban_role_gate
        };
        enabled && confidence != DraftRoleConfidence::Low && remaining.len() > 0 && !exists|i: int|
            0 <= i < remaining.len() && usable.contains(#[trigger] remaining[i])
    }

    /// Decides whether a candidate is scored at all in this phase and for which role: `None`
    /// while waiting or when the role gate drops it, else `Some` of the recommended role.
    pub fn gate_candidate(
        &self,
        phase: DraftPhase,
        usable_roles: &Vec<RoleFilter>,
        confidence: DraftRoleConfidence,
        remaining_roles: &Vec<RoleFilter>,
    ) -> (decision: Option<Option<RoleFilter>>)
        ensures
            phase == DraftPhase::Waiting ==> decision is None,
            phase != DraftPhase::Waiting ==> (decision is None <==> self.gate_excludes(
                phase,
                usable_roles@,
                confidence,
                remaining_roles@,
            )),
            decision matches Some(role) ==> role == Self::recommended_role(
                usable_roles@,
                remaining_roles@,
            ),
    {
        let gate_enabled = match phase {
            DraftPhase::Pick => self.pick_role_gate,
            DraftPhase::Ban => self.ban_role_gate,
            DraftPhase::Waiting => {
                return None;
            },
        };
        let found_index = first_usable_index(usable_roles, remaining_roles);
        let found: Option<RoleFilter> = match found_index {
            Some(i) => Some(remaining_roles[i]),
            None => None,
        };
        proof {
            if let Some(i) = found_index {
                let c = choose|c: int|
                    0 <= c < remaining_roles@.len() && usable_roles@.contains(
                        #[trigger] remaining_roles@[c],
                    ) && forall|j: int| 0 <= j < c ==> !usable_roles@.contains(
                        #[trigger] remaining_roles@[j],
                    );
                assert(c == i) by {
                    if c < i {
                        assert(!usable_roles@.contains(remaining_roles@[c]));
                    }
                    if c > i {
                        assert(!usable_roles@.contains(remaining_roles@[i as int]));
                    }
                }
            }
        }
        let recommended = match found {
            Some(role) => Some(role),
            None => if usable_roles.len() > 0 {
                Some(usable_roles[0])
            } else {
                None
            },
        };
        if gate_enabled && confidence != DraftRoleConfidence::Low && remaining_roles.len() > 0
            && found.is_none() {
            return None;
        }
        Some(recommended)
    }
}

/// Index of the first remaining role that the candidate can play.
fn first_usable_index(usable_roles: &Vec<RoleFilter>, remaining_roles: &Vec<RoleFilter>) -> (index:
    Option<usize>)
    ensures
        index matches Some(i) ==> i < remaining_roles@.len() && usable_roles@.contains(
            remaining_roles@[i as int],
        ) && forall|j: int| 0 <= j < i ==> !usable_roles@.contains(#[trigger] remaining_roles@[j]),
        index is None ==> !exists|j: int|
            0 <= j < remaining_roles@.len() && usable_roles@.contains(#[trigger] remaining_roles@[j]),
{
    let mut i: usize = 0;
    while i < remaining_roles.len()
        invariant
            i <= remaining_roles@.len(),
            forall|j: int| 0 <= j < i ==> !usable_roles@.contains(#[trigger] remaining_roles@[j]),
        decreases remaining_roles.len() - i,
    {
        if role_in(usable_roles, remaining_roles[i]) {
            return Some(i);
        }
        i = i + 1;
    }
    None
}

impl Default for DraftScoreWeights {
    fn default() -> (weights: Self)
        ensures
            weights == Self::spec_default(),
    {
        Self::default_weights()
    }
}

/// The playable roles, in lineup order, that the role gate does not count as certainly filled; all
/// five when the picks cannot be assigned at all.
pub open spec fn open_roles(feasible: bool, filled: Seq<RoleFilter>) -> Seq<RoleFilter> {
    if !feasible {
        playable_roles()
    } else {
        playable_roles().filter(|r: RoleFilter| !filled.contains(r))
    }
}

/// The roles a side still has to fill according to its role gate.
pub fn remaining_roles_from_gate(gate: &RoleGateState) -> (roles: Vec<RoleFilter>)
    ensures
        roles@ == open_roles(gate.feasible, gate.definitely_filled@),
{
    let all: Vec<RoleFilter> = vec![
        RoleFilter::Top,
        RoleFilter::Jungle,
        RoleFilter::Mid,
        RoleFilter::Bot,
        RoleFilter::Support,
    ];
    assert(all@ =~= playable_roles());
    if !gate.feasible {
        return all;
    }
    let ghost filled = gate.definitely_filled@;
    let mut roles: Vec<RoleFilter> = Vec::new();
    let mut i: usize = 0;
    while i < all.len()
        invariant
            i <= all@.len(),
            all@ == playable_roles(),
            filled == gate.definitely_filled@,
            roles@ == all@.subrange(0, i as int).filter(|r: RoleFilter| !filled.contains(r)),
        decreases all.len() - i,
    {
        let role = all[i];
        let mut found = false;
        let mut j: usize = 0;
        while j < gate.definitely_filled.len()
            invariant
                j <= filled.len(),
                filled == gate.definitely_filled@,
                found == (exists|k: int| 0 <= k < j && filled[k] == role),
            decreases gate.definitely_filled.len() - j,
        {
            if gate.definitely_filled[j] == role {
                found = true;
            }
            j = j + 1;
        }
        assert(found == filled.contains(role));
        proof {
            let before = all@.subrange(0, i as int);
            assert(all@.subrange(0, i + 1) =~= before.push(role));
            before.lemma_filter_push(role, |r: RoleFilter| !filled.contains(r));
        }
        if !found {
            roles.push(role);
        }
        i = i + 1;
    }
    assert(all@.subrange(0, 5) =~= all@);
    roles
}

/// The recommended role of a candidate that can play one of the side's remaining roles is the
/// first remaining role it can play, in the remaining roles' order: never a role the side has
/// already filled, nor a later remaining role.
pub proof fn lemma_recommends_first_playable_remaining_role(
    usable: Seq<RoleFilter>,
    remaining: Seq<RoleFilter>,
    k: int,
)
    requires
        0 <= k < remaining.len(),
        usable.contains(remaining[k]),
        forall|j: int| 0 <= j < k ==> !usable.contains(remaining[j]),
    ensures
        DraftScoreWeights::recommended_role(usable, remaining) == Some(remaining[k]),
        remaining.contains(remaining[k]) && usable.contains(remaining[k]),
{
    assert(usable.contains(remaining[k]));
    let i = choose|i: int|
        0 <= i < remaining.len() && usable.contains(#[trigger] remaining[i]) && forall|j: int|
            0 <= j < i ==> !usable.contains(#[trigger] remaining[j]);
    assert(0 <= i < remaining.len() && usable.contains(remaining[i]) && forall|j: int|
        0 <= j < i ==> !usable.contains(#[trigger] remaining[j]));
    if i < k {
        assert(!usable.contains(remaining[i]));
    } else if k < i {
        assert(!usable.contains(remaining[k]));
    }
    assert(i == k);
}

} // verus!
