//! The preflight of the community record shapes: every path the editor reads must be present
//! in the first athlete, staff and team record, and hold the kind of JSON value it reads.
use vstd::prelude::*;

use crate::runtime::Diagnostic;
use crate::text::{append_str, decimal_digits, decimal_string, push_char};

verus! {

/// The three community records that are checked.
#[derive(Debug, Clone, Copy, PartialEq, Eq, Structural)]
pub enum CommunityRecord {
    Athlete,
    Staff,
    Team,
}

/// What a path must hold: anything, a number, an object or a string.
#[derive(Debug, Clone, Copy, PartialEq, Eq, Structural)]
pub enum ShapeRule {
    Present,
    Number,
    Object,
    Text,
}

/// The kind of a JSON value.
#[derive(Debug, Clone, Copy, PartialEq, Eq, Structural)]
pub enum JsonKind {
    Null,
    Bool,
    Number,
    String,
    Array,
    Object,
}

/// One path of one record and what it must hold.
#[derive(Debug, Clone, Copy, PartialEq, Eq)]
pub struct ShapeCheck {
    pub record: CommunityRecord,
    pub path: &'static str,
    pub rule: ShapeRule,
}

pub open spec fn record_label(record: CommunityRecord) -> Seq<char> {
    match record {
        CommunityRecord::Athlete => "Athlete"@,
        CommunityRecord::Staff => "Staff"@,
        CommunityRecord::Team => "Team"@,
    }
}

/// Whether what a path holds (`None`: nothing) breaks the rule. A rule on a kind only applies
/// where the path is present.
pub open spec fn breaks_rule(rule: ShapeRule, found: Option<JsonKind>) -> bool {
    match rule {
        ShapeRule::Present => found is None,
        ShapeRule::Number => found matches Some(k) && k != JsonKind::Number,
        ShapeRule::Object => found matches Some(k) && k != JsonKind::Object,
        ShapeRule::Text => found matches Some(k) && k != JsonKind::String,
    }
}

/// A JSON pointer without its leading slashes.
pub open spec fn without_leading_slashes(path: Seq<char>) -> Seq<char>
    decreases path.len(),
{
    if path.len() > 0 && path[0] == '/' {
        without_leading_slashes(path.drop_first())
    } else {
        path
    }
}

/// A JSON pointer written as a dotted field path: "/stat/mid" reads "stat.mid".
pub open spec fn dotted(path: Seq<char>) -> Seq<char> {
    without_leading_slashes(path).map_values(|c: char| if c == '/' { '.' } else { c })
}

pub open spec fn rule_suffix(rule: ShapeRule) -> Seq<char> {
    match rule {
        ShapeRule::Present => ""@,
        ShapeRule::Number => " (expected number)"@,
        ShapeRule::Object => " (expected object)"@,
        ShapeRule::Text => " (expected string)"@,
    }
}

/// The failure reported for a check: "Team.salary_budget", or with the expected kind,
/// "Athlete.stat.last_hit (expected number)".
pub open spec fn failure_text(check: ShapeCheck) -> Seq<char> {
    record_label(check.record) + "."@ + dotted(check.path@) + rule_suffix(check.rule)
}

/// The failures of the first `n` checks, in order.
pub open spec fn failures_upto(
    checks: Seq<ShapeCheck>,
    found: Seq<Option<JsonKind>>,
    n: int,
) -> Seq<Seq<char>>
    decreases n,
{
    if n <= 0 {
        Seq::empty()
    } else if breaks_rule(checks[n - 1].rule, found[n - 1]) {
        failures_upto(checks, found, n - 1).push(failure_text(checks[n - 1]))
    } else {
        failures_upto(checks, found, n - 1)
    }
}

fn label_of(record: CommunityRecord) -> (label: &'static str)
    ensures
        label@ == record_label(record),
{
    match record {
        CommunityRecord::Athlete => "Athlete",
        CommunityRecord::Staff => "Staff",
        CommunityRecord::Team => "Team",
    }
}

fn suffix_of(rule: ShapeRule) -> (suffix: &'static str)
    ensures
        suffix@ == rule_suffix(rule),
{
    match rule {
        ShapeRule::Present => "",
        ShapeRule::Number => " (expected number)",
        ShapeRule::Object => " (expected object)",
        ShapeRule::Text => " (expected string)",
    }
}

/// Whether what was found at a path breaks its rule.
pub fn rule_broken(rule: ShapeRule, found: Option<JsonKind>) -> (broken: bool)
    ensures
        broken == breaks_rule(rule, found),
{
    match (rule, found) {
        (ShapeRule::Present, None) => true,
        (ShapeRule::Number, Some(kind)) => kind != JsonKind::Number,
        (ShapeRule::Object, Some(kind)) => kind != JsonKind::Object,
        (ShapeRule::Text, Some(kind)) => kind != JsonKind::String,
        _ => false,
    }
}

proof fn lemma_strip_step(path: Seq<char>, i: int)
    requires
        0 <= i < path.len(),
        forall|k: int| 0 <= k < i ==> path[k] == '/',
    ensures
        without_leading_slashes(path) == without_leading_slashes(path.subrange(i, path.len() as int)),
    decreases i,
{
    if i > 0 {
        assert(path.drop_first() =~= path.subrange(1, path.len() as int));
        lemma_strip_step(path.drop_first(), i - 1);
        assert(path.drop_first().subrange(i - 1, path.drop_first().len() as int) =~= path.subrange(i, path.len() as int));
    } else {
        assert(path.subrange(0, path.len() as int) =~= path);
    }
}

/// The failure text of a check.
pub fn failure_message(check: &ShapeCheck) -> (text: String)
    ensures
        text@ == failure_text(*check),
{
    let mut text = label_of(check.record).to_owned();
    append_str(&mut text, ".");
    let chars = crate::text::chars_of(check.path);
    let mut start: usize = 0;
    while start < chars.len() && chars[start] == '/'
        invariant
            start <= chars@.len(),
            chars@ == check.path@,
            forall|k: int| 0 <= k < start ==> chars@[k] == '/',
        decreases chars.len() - start,
    {
        start = start + 1;
    }
    let ghost rest = chars@.subrange(start as int, chars@.len() as int);
    proof {
        if start < chars@.len() {
            lemma_strip_step(chars@, start as int);
            assert(rest[0] != '/');
        } else {
            lemma_strip_all(chars@);
            assert(rest =~= Seq::<char>::empty());
        }
    }
    let ghost head = text@;
    let mut i: usize = start;
    while i < chars.len()
        invariant
            start <= i <= chars@.len(),
            text@ == head + rest.subrange(0, i - start).map_values(
                |c: char| if c == '/' { '.' } else { c },
            ),
            rest == chars@.subrange(start as int, chars@.len() as int),
        decreases chars.len() - i,
    {
        let c = chars[i];
        let ghost before = text@;
        if c == '/' {
            push_char(&mut text, '.');
        } else {
            push_char(&mut text, c);
        }
        assert(rest.subrange(0, i + 1 - start) =~= rest.subrange(0, i - start).push(rest[i - start]));
        i = i + 1;
        assert(text@ =~= head + rest.subrange(0, i - start).map_values(
            |c: char| if c == '/' { '.' } else { c },
        ));
    }
    assert(rest.subrange(0, rest.len() as int) =~= rest);
    append_str(&mut text, suffix_of(check.rule));
    text
}

proof fn lemma_strip_all(path: Seq<char>)
    requires
        forall|k: int| 0 <= k < path.len() ==> path[k] == '/',
    ensures
        without_leading_slashes(path).len() == 0,
    decreases path.len(),
{
    if path.len() > 0 {
        lemma_strip_all(path.drop_first());
    }
}

/// The failures of a list of checks, given what each check's path holds.
pub fn shape_failures(checks: &[ShapeCheck], found: &[Option<JsonKind>]) -> (failures: Vec<String>)
    requires
        found@.len() == checks@.len(),
    ensures
        failures@.map_values(|s: String| s@) == failures_upto(checks@, found@, checks@.len() as int),
{
    let mut failures: Vec<String> = Vec::new();
    let mut i: usize = 0;
    while i < checks.len()
        invariant
            i <= checks@.len(),
            found@.len() == checks@.len(),
            failures@.map_values(|s: String| s@) == failures_upto(checks@, found@, i as int),
        decreases checks.len() - i,
    {
        if rule_broken(checks[i].rule, found[i]) {
            let ghost before = failures@;
            let message = failure_message(&checks[i]);
            failures.push(message);
            assert(failures@.map_values(|s: String| s@) =~= before.map_values(|s: String| s@).push(message@));
        }
        i = i + 1;
    }
    failures
}

/// Every check of the community records, in the order the preflight reports failures.
pub open spec fn community_table() -> Seq<ShapeCheck> {
    seq![
        ShapeCheck { record: CommunityRecord::Athlete, path: "/id", rule: ShapeRule::Present },
        ShapeCheck { record: CommunityRecord::Athlete, path: "/name", rule: ShapeRule::Present },
        ShapeCheck { record: CommunityRecord::Athlete, path: "/age", rule: ShapeRule::Present },
        ShapeCheck { record: CommunityRecord::Athlete, path: "/stat/last_hit", rule: ShapeRule::Present },
        ShapeCheck { record: CommunityRecord::Athlete, path: "/stat/skill_avoid", rule: ShapeRule::Present },
        ShapeCheck { record: CommunityRecord::Athlete, path: "/stat/skill_hit", rule: ShapeRule::Present },
        ShapeCheck { record: CommunityRecord::Athlete, path: "/stat/control_speed", rule: ShapeRule::Present },
        ShapeCheck { record: CommunityRecord::Athlete, path: "/stat/positioning", rule: ShapeRule::Present },
        ShapeCheck { record: CommunityRecord::Athlete, path: "/stat/judgement", rule: ShapeRule::Present },
        ShapeCheck { record: CommunityRecord::Athlete, path: "/stat/mental", rule: ShapeRule::Present },
        ShapeCheck { record: CommunityRecord::Athlete, path: "/stat/concentration", rule: ShapeRule::Present },
        ShapeCheck { record: CommunityRecord::Athlete, path: "/stat/order", rule: ShapeRule::Present },
        ShapeCheck { record: CommunityRecord::Athlete, path: "/stat/roaming", rule: ShapeRule::Present },
        ShapeCheck { record: CommunityRecord::Athlete, path: "/stat/aggressive", rule: ShapeRule::Present },
        ShapeCheck { record: CommunityRecord::Athlete, path: "/stat/ego", rule: ShapeRule::Present },
        ShapeCheck { record: CommunityRecord::Athlete, path: "/stat/top", rule: ShapeRule::Present },
        ShapeCheck { record: CommunityRecord::Athlete, path: "/stat/jungle", rule: ShapeRule::Present },
        ShapeCheck { record: CommunityRecord::Athlete, path: "/stat/mid", rule: ShapeRule::Present },
        ShapeCheck { record: CommunityRecord::Athlete, path: "/stat/bottom", rule: ShapeRule::Present },
        ShapeCheck { record: CommunityRecord::Athlete, path: "/stat/support", rule: ShapeRule::Present },
        ShapeCheck { record: CommunityRecord::Athlete, path: "/stat/language", rule: ShapeRule::Present },
        ShapeCheck { record: CommunityRecord::Athlete, path: "/hidden/potential", rule: ShapeRule::Present },
        ShapeCheck { record: CommunityRecord::Athlete, path: "/contract", rule: ShapeRule::Present },
        ShapeCheck { record: CommunityRecord::Athlete, path: "/champion_proficiency", rule: ShapeRule::Present },
        ShapeCheck { record: CommunityRecord::Athlete, path: "/management/stamina", rule: ShapeRule::Present },
        ShapeCheck { record: CommunityRecord::Athlete, path: "/management/stress", rule: ShapeRule::Present },
        ShapeCheck { record: CommunityRecord::Athlete, path: "/management/condition", rule: ShapeRule::Present },
        ShapeCheck { record: CommunityRecord::Athlete, path: "/training_exp/language_by_region", rule: ShapeRule::Present },
        ShapeCheck { record: CommunityRecord::Staff, path: "/id", rule: ShapeRule::Present },
        ShapeCheck { record: CommunityRecord::Staff, path: "/name", rule: ShapeRule::Present },
        ShapeCheck { record: CommunityRecord::Staff, path: "/age", rule: ShapeRule::Present },
        ShapeCheck { record: CommunityRecord::Staff, path: "/role", rule: ShapeRule::Present },
        ShapeCheck { record: CommunityRecord::Staff, path: "/stat/banpick", rule: ShapeRule::Present },
        ShapeCheck { record: CommunityRecord::Staff, path: "/stat/strategy", rule: ShapeRule::Present },
        ShapeCheck { record: CommunityRecord::Staff, path: "/stat/negotiation", rule: ShapeRule::Present },
        ShapeCheck { record: CommunityRecord::Staff, path: "/stat/judge_ability", rule: ShapeRule::Present },
        ShapeCheck { record: CommunityRecord::Staff, path: "/stat/judge_potential", rule: ShapeRule::Present },
        ShapeCheck { record: CommunityRecord::Staff, path: "/stat/feedback", rule: ShapeRule::Present },
        ShapeCheck { record: CommunityRecord::Staff, path: "/stat/power_analysis", rule: ShapeRule::Present },
        ShapeCheck { record: CommunityRecord::Staff, path: "/stat/control_coaching", rule: ShapeRule::Present },
        ShapeCheck { record: CommunityRecord::Staff, path: "/stat/judgment_coaching", rule: ShapeRule::Present },
        ShapeCheck { record: CommunityRecord::Staff, path: "/stat/mental_coaching", rule: ShapeRule::Present },
        ShapeCheck { record: CommunityRecord::Staff, path: "/language", rule: ShapeRule::Present },
        ShapeCheck { record: CommunityRecord::Staff, path: "/contract", rule: ShapeRule::Present },
        ShapeCheck { record: CommunityRecord::Team, path: "/id", rule: ShapeRule::Present },
        ShapeCheck { record: CommunityRecord::Team, path: "/manager_name", rule: ShapeRule::Present },
        ShapeCheck { record: CommunityRecord::Team, path: "/league_id", rule: ShapeRule::Present },
        ShapeCheck { record: CommunityRecord::Team, path: "/champion_tiers", rule: ShapeRule::Present },
        ShapeCheck { record: CommunityRecord::Team, path: "/total_balance", rule: ShapeRule::Present },
        ShapeCheck { record: CommunityRecord::Team, path: "/transfer_budget", rule: ShapeRule::Present },
        ShapeCheck { record: CommunityRecord::Team, path: "/salary_budget", rule: ShapeRule::Present },
        ShapeCheck { record: CommunityRecord::Team, path: "/training_facility_grade", rule: ShapeRule::Present },
        ShapeCheck { record: CommunityRecord::Team, path: "/merchandise_facility_grade", rule: ShapeRule::Present },
        ShapeCheck { record: CommunityRecord::Team, path: "/stadium/grade", rule: ShapeRule::Present },
        ShapeCheck { record: CommunityRecord::Athlete, path: "/id", rule: ShapeRule::Number },
        ShapeCheck { record: CommunityRecord::Athlete, path: "/age", rule: ShapeRule::Number },
        ShapeCheck { record: CommunityRecord::Athlete, path: "/stat/last_hit", rule: ShapeRule::Number },
        ShapeCheck { record: CommunityRecord::Athlete, path: "/stat/skill_avoid", rule: ShapeRule::Number },
        ShapeCheck { record: CommunityRecord::Athlete, path: "/stat/skill_hit", rule: ShapeRule::Number },
        ShapeCheck { record: CommunityRecord::Athlete, path: "/stat/control_speed", rule: ShapeRule::Number },
        ShapeCheck { record: CommunityRecord::Athlete, path: "/stat/positioning", rule: ShapeRule::Number },
        ShapeCheck { record: CommunityRecord::Athlete, path: "/stat/judgement", rule: ShapeRule::Number },
        ShapeCheck { record: CommunityRecord::Athlete, path: "/stat/mental", rule: ShapeRule::Number },
        ShapeCheck { record: CommunityRecord::Athlete, path: "/stat/concentration", rule: ShapeRule::Number },
        ShapeCheck { record: CommunityRecord::Athlete, path: "/stat/order", rule: ShapeRule::Number },
        ShapeCheck { record: CommunityRecord::Athlete, path: "/stat/roaming", rule: ShapeRule::Number },
        ShapeCheck { record: CommunityRecord::Athlete, path: "/stat/aggressive", rule: ShapeRule::Number },
        ShapeCheck { record: CommunityRecord::Athlete, path: "/stat/ego", rule: ShapeRule::Number },
        ShapeCheck { record: CommunityRecord::Athlete, path: "/stat/top", rule: ShapeRule::Number },
        ShapeCheck { record: CommunityRecord::Athlete, path: "/stat/jungle", rule: ShapeRule::Number },
        ShapeCheck { record: CommunityRecord::Athlete, path: "/stat/mid", rule: ShapeRule::Number },
        ShapeCheck { record: CommunityRecord::Athlete, path: "/stat/bottom", rule: ShapeRule::Number },
        ShapeCheck { record: CommunityRecord::Athlete, path: "/stat/support", rule: ShapeRule::Number },
        ShapeCheck { record: CommunityRecord::Athlete, path: "/hidden/potential", rule: ShapeRule::Number },
        ShapeCheck { record: CommunityRecord::Athlete, path: "/management/stamina", rule: ShapeRule::Number },
        ShapeCheck { record: CommunityRecord::Athlete, path: "/management/stress", rule: ShapeRule::Number },
        ShapeCheck { record: CommunityRecord::Athlete, path: "/management/condition", rule: ShapeRule::Number },
        ShapeCheck { record: CommunityRecord::Staff, path: "/id", rule: ShapeRule::Number },
        ShapeCheck { record: CommunityRecord::Staff, path: "/age", rule: ShapeRule::Number },
        ShapeCheck { record: CommunityRecord::Staff, path: "/stat/banpick", rule: ShapeRule::Number },
        ShapeCheck { record: CommunityRecord::Staff, path: "/stat/strategy", rule: ShapeRule::Number },
        ShapeCheck { record: CommunityRecord::Staff, path: "/stat/negotiation", rule: ShapeRule::Number },
        ShapeCheck { record: CommunityRecord::Staff, path: "/stat/judge_ability", rule: ShapeRule::Number },
        ShapeCheck { record: CommunityRecord::Staff, path: "/stat/judge_potential", rule: ShapeRule::Number },
        ShapeCheck { record: CommunityRecord::Staff, path: "/stat/feedback", rule: ShapeRule::Number },
        ShapeCheck { record: CommunityRecord::Staff, path: "/stat/power_analysis", rule: ShapeRule::Number },
        ShapeCheck { record: CommunityRecord::Staff, path: "/stat/control_coaching", rule: ShapeRule::Number },
        ShapeCheck { record: CommunityRecord::Staff, path: "/stat/judgment_coaching", rule: ShapeRule::Number },
        ShapeCheck { record: CommunityRecord::Staff, path: "/stat/mental_coaching", rule: ShapeRule::Number },
        ShapeCheck { record: CommunityRecord::Team, path: "/id", rule: ShapeRule::Number },
        ShapeCheck { record: CommunityRecord::Team, path: "/league_id", rule: ShapeRule::Number },
        ShapeCheck { record: CommunityRecord::Team, path: "/total_balance", rule: ShapeRule::Number },
        ShapeCheck { record: CommunityRecord::Team, path: "/transfer_budget", rule: ShapeRule::Number },
        ShapeCheck { record: CommunityRecord::Team, path: "/salary_budget", rule: ShapeRule::Number },
        ShapeCheck { record: CommunityRecord::Athlete, path: "/stat/language", rule: ShapeRule::Object },
        ShapeCheck { record: CommunityRecord::Athlete, path: "/contract", rule: ShapeRule::Object },
        ShapeCheck { record: CommunityRecord::Athlete, path: "/champion_proficiency", rule: ShapeRule::Object },
        ShapeCheck { record: CommunityRecord::Athlete, path: "/training_exp/language_by_region", rule: ShapeRule::Object },
        ShapeCheck { record: CommunityRecord::Staff, path: "/language", rule: ShapeRule::Object },
        ShapeCheck { record: CommunityRecord::Staff, path: "/contract", rule: ShapeRule::Object },
        ShapeCheck { record: CommunityRecord::Team, path: "/champion_tiers", rule: ShapeRule::Object },
        ShapeCheck { record: CommunityRecord::Athlete, path: "/name", rule: ShapeRule::Text },
        ShapeCheck { record: CommunityRecord::Staff, path: "/name", rule: ShapeRule::Text },
        ShapeCheck { record: CommunityRecord::Staff, path: "/role", rule: ShapeRule::Text },
        ShapeCheck { record: CommunityRecord::Team, path: "/manager_name", rule: ShapeRule::Text },
        ShapeCheck { record: CommunityRecord::Team, path: "/training_facility_grade", rule: ShapeRule::Text },
        ShapeCheck { record: CommunityRecord::Team, path: "/merchandise_facility_grade", rule: ShapeRule::Text },
        ShapeCheck { record: CommunityRecord::Team, path: "/stadium/grade", rule: ShapeRule::Text },
    ]
}

/// Every check of the community records, in the order the preflight reports failures: missing
/// paths first, then numbers, objects and strings of the wrong kind.
pub fn community_checks() -> (checks: Vec<ShapeCheck>)
    ensures
        checks@ == community_table(),
{
    vec![
        ShapeCheck { record: CommunityRecord::Athlete, path: "/id", rule: ShapeRule::Present },
        ShapeCheck { record: CommunityRecord::Athlete, path: "/name", rule: ShapeRule::Present },
        ShapeCheck { record: CommunityRecord::Athlete, path: "/age", rule: ShapeRule::Present },
        ShapeCheck { record: CommunityRecord::Athlete, path: "/stat/last_hit", rule: ShapeRule::Present },
        ShapeCheck { record: CommunityRecord::Athlete, path: "/stat/skill_avoid", rule: ShapeRule::Present },
        ShapeCheck { record: CommunityRecord::Athlete, path: "/stat/skill_hit", rule: ShapeRule::Present },
        ShapeCheck { record: CommunityRecord::Athlete, path: "/stat/control_speed", rule: ShapeRule::Present },
        ShapeCheck { record: CommunityRecord::Athlete, path: "/stat/positioning", rule: ShapeRule::Present },
        ShapeCheck { record: CommunityRecord::Athlete, path: "/stat/judgement", rule: ShapeRule::Present },
        ShapeCheck { record: CommunityRecord::Athlete, path: "/stat/mental", rule: ShapeRule::Present },
        ShapeCheck { record: CommunityRecord::Athlete, path: "/stat/concentration", rule: ShapeRule::Present },
        ShapeCheck { record: CommunityRecord::Athlete, path: "/stat/order", rule: ShapeRule::Present },
        ShapeCheck { record: CommunityRecord::Athlete, path: "/stat/roaming", rule: ShapeRule::Present },
        ShapeCheck { record: CommunityRecord::Athlete, path: "/stat/aggressive", rule: ShapeRule::Present },
        ShapeCheck { record: CommunityRecord::Athlete, path: "/stat/ego", rule: ShapeRule::Present },
        ShapeCheck { record: CommunityRecord::Athlete, path: "/stat/top", rule: ShapeRule::Present },
        ShapeCheck { record: CommunityRecord::Athlete, path: "/stat/jungle", rule: ShapeRule::Present },
        ShapeCheck { record: CommunityRecord::Athlete, path: "/stat/mid", rule: ShapeRule::Present },
        ShapeCheck { record: CommunityRecord::Athlete, path: "/stat/bottom", rule: ShapeRule::Present },
        ShapeCheck { record: CommunityRecord::Athlete, path: "/stat/support", rule: ShapeRule::Present },
        ShapeCheck { record: CommunityRecord::Athlete, path: "/stat/language", rule: ShapeRule::Present },
        ShapeCheck { record: CommunityRecord::Athlete, path: "/hidden/potential", rule: ShapeRule::Present },
        ShapeCheck { record: CommunityRecord::Athlete, path: "/contract", rule: ShapeRule::Present },
        ShapeCheck { record: CommunityRecord::Athlete, path: "/champion_proficiency", rule: ShapeRule::Present },
        ShapeCheck { record: CommunityRecord::Athlete, path: "/management/stamina", rule: ShapeRule::Present },
        ShapeCheck { record: CommunityRecord::Athlete, path: "/management/stress", rule: ShapeRule::Present },
        ShapeCheck { record: CommunityRecord::Athlete, path: "/management/condition", rule: ShapeRule::Present },
        ShapeCheck { record: CommunityRecord::Athlete, path: "/training_exp/language_by_region", rule: ShapeRule::Present },
        ShapeCheck { record: CommunityRecord::Staff, path: "/id", rule: ShapeRule::Present },
        ShapeCheck { record: CommunityRecord::Staff, path: "/name", rule: ShapeRule::Present },
        ShapeCheck { record: CommunityRecord::Staff, path: "/age", rule: ShapeRule::Present },
        ShapeCheck { record: CommunityRecord::Staff, path: "/role", rule: ShapeRule::Present },
        ShapeCheck { record: CommunityRecord::Staff, path: "/stat/banpick", rule: ShapeRule::Present },
        ShapeCheck { record: CommunityRecord::Staff, path: "/stat/strategy", rule: ShapeRule::Present },
        ShapeCheck { record: CommunityRecord::Staff, path: "/stat/negotiation", rule: ShapeRule::Present },
        ShapeCheck { record: CommunityRecord::Staff, path: "/stat/judge_ability", rule: ShapeRule::Present },
        ShapeCheck { record: CommunityRecord::Staff, path: "/stat/judge_potential", rule: ShapeRule::Present },
        ShapeCheck { record: CommunityRecord::Staff, path: "/stat/feedback", rule: ShapeRule::Present },
        ShapeCheck { record: CommunityRecord::Staff, path: "/stat/power_analysis", rule: ShapeRule::Present },
        ShapeCheck { record: CommunityRecord::Staff, path: "/stat/control_coaching", rule: ShapeRule::Present },
        ShapeCheck { record: CommunityRecord::Staff, path: "/stat/judgment_coaching", rule: ShapeRule::Present },
        ShapeCheck { record: CommunityRecord::Staff, path: "/stat/mental_coaching", rule: ShapeRule::Present },
        ShapeCheck { record: CommunityRecord::Staff, path: "/language", rule: ShapeRule::Present },
        ShapeCheck { record: CommunityRecord::Staff, path: "/contract", rule: ShapeRule::Present },
        ShapeCheck { record: CommunityRecord::Team, path: "/id", rule: ShapeRule::Present },
        ShapeCheck { record: CommunityRecord::Team, path: "/manager_name", rule: ShapeRule::Present },
        ShapeCheck { record: CommunityRecord::Team, path: "/league_id", rule: ShapeRule::Present },
        ShapeCheck { record: CommunityRecord::Team, path: "/champion_tiers", rule: ShapeRule::Present },
        ShapeCheck { record: CommunityRecord::Team, path: "/total_balance", rule: ShapeRule::Present },
        ShapeCheck { record: CommunityRecord::Team, path: "/transfer_budget", rule: ShapeRule::Present },
        ShapeCheck { record: CommunityRecord::Team, path: "/salary_budget", rule: ShapeRule::Present },
        ShapeCheck { record: CommunityRecord::Team, path: "/training_facility_grade", rule: ShapeRule::Present },
        ShapeCheck { record: CommunityRecord::Team, path: "/merchandise_facility_grade", rule: ShapeRule::Present },
        ShapeCheck { record: CommunityRecord::Team, path: "/stadium/grade", rule: ShapeRule::Present },
        ShapeCheck { record: CommunityRecord::Athlete, path: "/id", rule: ShapeRule::Number },
        ShapeCheck { record: CommunityRecord::Athlete, path: "/age", rule: ShapeRule::Number },
        ShapeCheck { record: CommunityRecord::Athlete, path: "/stat/last_hit", rule: ShapeRule::Number },
        ShapeCheck { record: CommunityRecord::Athlete, path: "/stat/skill_avoid", rule: ShapeRule::Number },
        ShapeCheck { record: CommunityRecord::Athlete, path: "/stat/skill_hit", rule: ShapeRule::Number },
        ShapeCheck { record: CommunityRecord::Athlete, path: "/stat/control_speed", rule: ShapeRule::Number },
        ShapeCheck { record: CommunityRecord::Athlete, path: "/stat/positioning", rule: ShapeRule::Number },
        ShapeCheck { record: CommunityRecord::Athlete, path: "/stat/judgement", rule: ShapeRule::Number },
        ShapeCheck { record: CommunityRecord::Athlete, path: "/stat/mental", rule: ShapeRule::Number },
        ShapeCheck { record: CommunityRecord::Athlete, path: "/stat/concentration", rule: ShapeRule::Number },
        ShapeCheck { record: CommunityRecord::Athlete, path: "/stat/order", rule: ShapeRule::Number },
        ShapeCheck { record: CommunityRecord::Athlete, path: "/stat/roaming", rule: ShapeRule::Number },
        ShapeCheck { record: CommunityRecord::Athlete, path: "/stat/aggressive", rule: ShapeRule::Number },
        ShapeCheck { record: CommunityRecord::Athlete, path: "/stat/ego", rule: ShapeRule::Number },
        ShapeCheck { record: CommunityRecord::Athlete, path: "/stat/top", rule: ShapeRule::Number },
        ShapeCheck { record: CommunityRecord::Athlete, path: "/stat/jungle", rule: ShapeRule::Number },
        ShapeCheck { record: CommunityRecord::Athlete, path: "/stat/mid", rule: ShapeRule::Number },
        ShapeCheck { record: CommunityRecord::Athlete, path: "/stat/bottom", rule: ShapeRule::Number },
        ShapeCheck { record: CommunityRecord::Athlete, path: "/stat/support", rule: ShapeRule::Number },
        ShapeCheck { record: CommunityRecord::Athlete, path: "/hidden/potential", rule: ShapeRule::Number },
        ShapeCheck { record: CommunityRecord::Athlete, path: "/management/stamina", rule: ShapeRule::Number },
        ShapeCheck { record: CommunityRecord::Athlete, path: "/management/stress", rule: ShapeRule::Number },
        ShapeCheck { record: CommunityRecord::Athlete, path: "/management/condition", rule: ShapeRule::Number },
        ShapeCheck { record: CommunityRecord::Staff, path: "/id", rule: ShapeRule::Number },
        ShapeCheck { record: CommunityRecord::Staff, path: "/age", rule: ShapeRule::Number },
        ShapeCheck { record: CommunityRecord::Staff, path: "/stat/banpick", rule: ShapeRule::Number },
        ShapeCheck { record: CommunityRecord::Staff, path: "/stat/strategy", rule: ShapeRule::Number },
        ShapeCheck { record: CommunityRecord::Staff, path: "/stat/negotiation", rule: ShapeRule::Number },
        ShapeCheck { record: CommunityRecord::Staff, path: "/stat/judge_ability", rule: ShapeRule::Number },
        ShapeCheck { record: CommunityRecord::Staff, path: "/stat/judge_potential", rule: ShapeRule::Number },
        ShapeCheck { record: CommunityRecord::Staff, path: "/stat/feedback", rule: ShapeRule::Number },
        ShapeCheck { record: CommunityRecord::Staff, path: "/stat/power_analysis", rule: ShapeRule::Number },
        ShapeCheck { record: CommunityRecord::Staff, path: "/stat/control_coaching", rule: ShapeRule::Number },
        ShapeCheck { record: CommunityRecord::Staff, path: "/stat/judgment_coaching", rule: ShapeRule::Number },
        ShapeCheck { record: CommunityRecord::Staff, path: "/stat/mental_coaching", rule: ShapeRule::Number },
        ShapeCheck { record: CommunityRecord::Team, path: "/id", rule: ShapeRule::Number },
        ShapeCheck { record: CommunityRecord::Team, path: "/league_id", rule: ShapeRule::Number },
        ShapeCheck { record: CommunityRecord::Team, path: "/total_balance", rule: ShapeRule::Number },
        ShapeCheck { record: CommunityRecord::Team, path: "/transfer_budget", rule: ShapeRule::Number },
        ShapeCheck { record: CommunityRecord::Team, path: "/salary_budget", rule: ShapeRule::Number },
        ShapeCheck { record: CommunityRecord::Athlete, path: "/stat/language", rule: ShapeRule::Object },
        ShapeCheck { record: CommunityRecord::Athlete, path: "/contract", rule: ShapeRule::Object },
        ShapeCheck { record: CommunityRecord::Athlete, path: "/champion_proficiency", rule: ShapeRule::Object },
        ShapeCheck { record: CommunityRecord::Athlete, path: "/training_exp/language_by_region", rule: ShapeRule::Object },
        ShapeCheck { record: CommunityRecord::Staff, path: "/language", rule: ShapeRule::Object },
        ShapeCheck { record: CommunityRecord::Staff, path: "/contract", rule: ShapeRule::Object },
        ShapeCheck { record: CommunityRecord::Team, path: "/champion_tiers", rule: ShapeRule::Object },
        ShapeCheck { record: CommunityRecord::Athlete, path: "/name", rule: ShapeRule::Text },
        ShapeCheck { record: CommunityRecord::Staff, path: "/name", rule: ShapeRule::Text },
        ShapeCheck { record: CommunityRecord::Staff, path: "/role", rule: ShapeRule::Text },
        ShapeCheck { record: CommunityRecord::Team, path: "/manager_name", rule: ShapeRule::Text },
        ShapeCheck { record: CommunityRecord::Team, path: "/training_facility_grade", rule: ShapeRule::Text },
        ShapeCheck { record: CommunityRecord::Team, path: "/merchandise_facility_grade", rule: ShapeRule::Text },
        ShapeCheck { record: CommunityRecord::Team, path: "/stadium/grade", rule: ShapeRule::Text },
    ]
}

/// What `serde_json::Value::pointer` finds in a JSON value at a pointer, told by its kind
/// (`None`: nothing there). The lookup depends on the value and the pointer alone.
pub uninterp spec fn json_kind_at(value: serde_json::Value, pointer: Seq<char>) -> Option<JsonKind>;

/// `serde_json::Value::pointer`: the kind of what a JSON pointer finds in a value, which is the
/// named lookup [`json_kind_at`] of the value and the pointer. What a document holds is opaque
/// here, so nothing more is stated of it.
#[verifier::external_body]
fn kind_at(value: &serde_json::Value, pointer: &str) -> (kind: Option<JsonKind>)
    ensures
        kind == json_kind_at(*value, pointer@),
{
    match value.pointer(pointer) {
        None => None,
        Some(serde_json::Value::Null) => Some(JsonKind::Null),
        Some(serde_json::Value::Bool(_)) => Some(JsonKind::Bool),
        Some(serde_json::Value::Number(_)) => Some(JsonKind::Number),
        Some(serde_json::Value::String(_)) => Some(JsonKind::String),
        Some(serde_json::Value::Array(_)) => Some(JsonKind::Array),
        Some(serde_json::Value::Object(_)) => Some(JsonKind::Object),
    }
}

/// The record a check reads.
pub open spec fn record_of(
    record: CommunityRecord,
    athlete: serde_json::Value,
    staff: serde_json::Value,
    team: serde_json::Value,
) -> serde_json::Value {
    match record {
        CommunityRecord::Athlete => athlete,
        CommunityRecord::Staff => staff,
        CommunityRecord::Team => team,
    }
}

/// What each check of the table finds: its path looked up in its own record.
pub open spec fn community_kinds(
    athlete: serde_json::Value,
    staff: serde_json::Value,
    team: serde_json::Value,
) -> Seq<Option<JsonKind>> {
    Seq::new(
        community_table().len(),
        |i: int|
            json_kind_at(
                record_of(community_table()[i].record, athlete, staff, team),
                community_table()[i].path@,
            ),
    )
}

/// The failures of the community checks on three records, in table order.
pub open spec fn community_failures(
    athlete: serde_json::Value,
    staff: serde_json::Value,
    team: serde_json::Value,
) -> Seq<Seq<char>> {
    failures_upto(
        community_table(),
        community_kinds(athlete, staff, team),
        community_table().len() as int,
    )
}

/// Checks the first athlete, staff and team record against every path the editor reads, each
/// path in its own record: `Ok` when no check fails, else every failure in the order of
/// [`community_checks`], a missing path as "Label.dotted.path" and a value of the wrong kind with
/// the expected kind after it.
pub fn validate_community_shapes(
    athlete: &serde_json::Value,
    staff: &serde_json::Value,
    team: &serde_json::Value,
) -> (result: Result<(), Vec<String>>)
    ensures
        match result {
            Ok(()) => community_failures(*athlete, *staff, *team).len() == 0,
            Err(failures) => failures@.len() > 0 && failures@.map_values(|s: String| s@)
                == community_failures(*athlete, *staff, *team),
        },
{
    let checks = community_checks();
    let mut found: Vec<Option<JsonKind>> = Vec::new();
    let mut i: usize = 0;
    while i < checks.len()
        invariant
            i <= checks@.len(),
            checks@ == community_table(),
            found@.len() == i,
            forall|k: int|
                0 <= k < i ==> #[trigger] found@[k] == community_kinds(*athlete, *staff, *team)[k],
        decreases checks.len() - i,
    {
        let value = match checks[i].record {
            CommunityRecord::Athlete => athlete,
            CommunityRecord::Staff => staff,
            CommunityRecord::Team => team,
        };
        found.push(kind_at(value, checks[i].path));
        i = i + 1;
    }
    let failures = shape_failures(checks.as_slice(), found.as_slice());
    assert(found@ =~= community_kinds(*athlete, *staff, *team));
    if failures.len() == 0 {
        assert(failures@.map_values(|s: String| s@) =~= Seq::<Seq<char>>::empty());
        Ok(())
    } else {
        Err(failures)
    }
}

/// How reading the first record of a table went: the table was empty, the record could not be
/// read, it was not JSON, or it was read and each required top-level key was present or not.
#[derive(Debug, Clone, PartialEq, Eq)]
pub enum FirstRecordRead {
    Empty,
    Unreadable { id: usize },
    InvalidJson { id: usize },
    Read { id: usize, present: Vec<bool> },
}

/// The fatal diagnostics of a first-record check, as (code, message) pairs.
pub open spec fn first_record_failures(
    label: Seq<char>,
    paths: Seq<&str>,
    read: FirstRecordRead,
) -> Seq<(Seq<char>, Seq<char>)> {
    match read {
        FirstRecordRead::Empty => seq![("record_table_empty"@, label + " record table is empty"@)],
        FirstRecordRead::Unreadable { id } => seq![
            (
                "record_read_failed"@,
                "Could not read "@ + label + " record "@ + decimal_digits(id as nat),
            ),
        ],
        FirstRecordRead::InvalidJson { id } => seq![
            (
                "record_json_invalid"@,
                label + " record "@ + decimal_digits(id as nat) + " is not valid JSON"@,
            ),
        ],
        FirstRecordRead::Read { id, present } => Seq::new(paths.len(), |i: int| i).filter(
            |i: int| !present@[i],
        ).map_values(
            |i: int| (
                "record_path_missing"@,
                label + "."@ + paths[i]@ + " is unavailable in 0.5.5 record JSON"@,
            ),
        ),
    }
}

pub open spec fn diagnostic_views(list: Seq<Diagnostic>) -> Seq<(Seq<char>, Seq<char>)> {
    list.map_values(|d: Diagnostic| (d.code@, d.message@))
}

/// The diagnostics of the first-record check of one table; every one is fatal.
pub fn first_record_diagnostics(label: &str, paths: &[&str], read: &FirstRecordRead) -> (failures: Vec<Diagnostic>)
    requires
        read matches FirstRecordRead::Read { present, .. } ==> present@.len() == paths@.len(),
    ensures
        diagnostic_views(failures@) == first_record_failures(label@, paths@, *read),
        forall|i: int| 0 <= i < failures@.len() ==> (#[trigger] failures@[i]).fatal,
{
    let mut failures: Vec<Diagnostic> = Vec::new();
    match read {
        FirstRecordRead::Empty => {
            let mut message = label.to_owned();
            append_str(&mut message, " record table is empty");
            failures.push(Diagnostic::new("record_table_empty", message.as_str(), true));
            assert(diagnostic_views(failures@) =~= first_record_failures(label@, paths@, *read));
        },
        FirstRecordRead::Unreadable { id } => {
            let mut message = "Could not read ".to_owned();
            append_str(&mut message, label);
            append_str(&mut message, " record ");
            append_str(&mut message, decimal_string(*id).as_str());
            failures.push(Diagnostic::new("record_read_failed", message.as_str(), true));
            assert(diagnostic_views(failures@) =~= first_record_failures(label@, paths@, *read));
        },
        FirstRecordRead::InvalidJson { id } => {
            let mut message = label.to_owned();
            append_str(&mut message, " record ");
            append_str(&mut message, decimal_string(*id).as_str());
            append_str(&mut message, " is not valid JSON");
            failures.push(Diagnostic::new("record_json_invalid", message.as_str(), true));
            assert(diagnostic_views(failures@) =~= first_record_failures(label@, paths@, *read));
        },
        FirstRecordRead::Read { id, present } => {
            let ghost indices = Seq::new(paths@.len(), |i: int| i);
            let ghost missing = |i: int| !present@[i];
            let ghost text = |i: int| (
                "record_path_missing"@,
                label@ + "."@ + paths@[i]@ + " is unavailable in 0.5.5 record JSON"@,
            );
            let mut i: usize = 0;
            while i < paths.len()
                invariant
                    i <= paths@.len(),
                    present@.len() == paths@.len(),
                    indices == Seq::new(paths@.len(), |i: int| i),
                    missing == (|i: int| !present@[i]),
                    text == (|i: int| (
                        "record_path_missing"@,
                        label@ + "."@ + paths@[i]@ + " is unavailable in 0.5.5 record JSON"@,
                    )),
                    diagnostic_views(failures@) == indices.subrange(0, i as int).filter(missing).map_values(text),
                    forall|k: int| 0 <= k < failures@.len() ==> (#[trigger] failures@[k]).fatal,
                decreases paths.len() - i,
            {
                let ghost prefix = indices.subrange(0, i as int);
                assert(indices.subrange(0, i + 1) =~= prefix.push(i as int));
                proof {
                    prefix.lemma_filter_push(i as int, missing);
                }
                if !present[i] {
                    let mut message = label.to_owned();
                    append_str(&mut message, ".");
                    append_str(&mut message, paths[i]);
                    append_str(&mut message, " is unavailable in 0.5.5 record JSON");
                    let ghost before = failures@;
                    failures.push(Diagnostic::new("record_path_missing", message.as_str(), true));
                    assert(diagnostic_views(failures@) =~= diagnostic_views(before).push(text(i as int)));
                }
                i = i + 1;
            }
            assert(indices.subrange(0, paths@.len() as int) =~= indices);
        },
    }
    failures
}

/// The diagnostics the schema preflight adds: one fatal diagnostic for each community shape
/// failure after the record failures; with no failure at all, a single note that the schema
/// is ready. The flag says whether it is.
pub fn schema_outcome(failures: Vec<Diagnostic>, shape_failures: &[String]) -> (outcome: (bool, Vec<Diagnostic>))
    ensures
        outcome.0 == (failures@.len() == 0 && shape_failures@.len() == 0),
        outcome.0 ==> diagnostic_views(outcome.1@) == seq![
            (
                "schema_0_5_5_ready"@,
                "Required Team/Athlete/Staff record paths are available"@,
            ),
        ] && !outcome.1@[0].fatal,
        !outcome.0 ==> diagnostic_views(outcome.1@) == diagnostic_views(failures@)
            + shape_failures@.map_values(
            |p: String| (
                "community_schema_invalid"@,
                "Required 0.5.5 Community field is missing or invalid: "@ + p@,
            ),
        ),
{
    if failures.len() == 0 && shape_failures.len() == 0 {
        let mut ready: Vec<Diagnostic> = Vec::new();
        ready.push(
            Diagnostic::new(
                "schema_0_5_5_ready",
                "Required Team/Athlete/Staff record paths are available",
                false,
            ),
        );
        assert(diagnostic_views(ready@) =~= seq![
            (
                "schema_0_5_5_ready"@,
                "Required Team/Athlete/Staff record paths are available"@,
            ),
        ]);
        return (true, ready);
    }
    let mut all = failures;
    let ghost base = diagnostic_views(all@);
    let ghost texts = shape_failures@.map_values(
        |p: String| (
            "community_schema_invalid"@,
            "Required 0.5.5 Community field is missing or invalid: "@ + p@,
        ),
    );
    let mut i: usize = 0;
    while i < shape_failures.len()
        invariant
            i <= shape_failures@.len(),
            texts == shape_failures@.map_values(
                |p: String| (
                    "community_schema_invalid"@,
                    "Required 0.5.5 Community field is missing or invalid: "@ + p@,
                ),
            ),
            diagnostic_views(all@) == base + texts.subrange(0, i as int),
        decreases shape_failures.len() - i,
    {
        let mut message = "Required 0.5.5 Community field is missing or invalid: ".to_owned();
        append_str(&mut message, shape_failures[i].as_str());
        let ghost before = all@;
        all.push(Diagnostic::new("community_schema_invalid", message.as_str(), true));
        assert(diagnostic_views(all@) =~= diagnostic_views(before).push(texts[i as int]));
        assert(texts.subrange(0, i + 1) =~= texts.subrange(0, i as int).push(texts[i as int]));
        i = i + 1;
    }
    assert(texts.subrange(0, shape_failures@.len() as int) =~= texts);
    (false, all)
}

} // verus!
