//! The checks the editor makes on edit requests before it writes a record.
use std::collections::BTreeMap;

use vstd::prelude::*;
use vstd::utf8::*;

use crate::api::MasteryEdit;
use crate::ordered::{chars_lt, str_lt};
use crate::text::{append_str, chars_of, trim, trim_chars};
use vstd::std_specs::btree::spec_btree_map_iter;
use vstd::std_specs::iter::IteratorSpec;

verus! {

/// `char::is_control`: the Unicode control characters, U+0000 to U+001F and U+007F to U+009F.
pub open spec fn is_control(c: char) -> bool {
    (c as u32) <= 0x1F || (0x7F <= (c as u32) && (c as u32) <= 0x9F)
}

/// A name is acceptable when, trimmed, it is not empty, has at most 100 characters and holds
/// no control character.
pub open spec fn name_acceptable(name: Seq<char>) -> bool {
    let t = trim(name);
    &&& t.len() > 0
    &&& t.len() <= 100
    &&& forall|i: int| 0 <= i < t.len() ==> !is_control(#[trigger] t[i])
}

/// Checks an optional new name.
pub fn validate_optional_name(name: Option<&str>) -> (checked: Result<(), String>)
    ensures
        checked is Ok <==> (name is None || name_acceptable(name->0@)),
        checked matches Err(e) ==> e@ == "INVALID_NAME"@,
{
    if let Some(text) = name {
        let t = trim_chars(&chars_of(text));
        if t.len() == 0 || t.len() > 100 {
            return Err("INVALID_NAME".to_owned());
        }
        let mut i: usize = 0;
        while i < t.len()
            invariant
                i <= t@.len(),
                t@ == trim(text@),
                name == Some(text),
                forall|k: int| 0 <= k < i ==> !is_control(#[trigger] t@[k]),
            decreases t.len() - i,
        {
            let c = t[i];
            let v = c as u32;
            if v <= 0x1F || (0x7F <= v && v <= 0x9F) {
                assert(is_control(t@[i as int]));
                assert(!name_acceptable(text@));
                return Err("INVALID_NAME".to_owned());
            }
            i = i + 1;
        }
    }
    Ok(())
}

pub open spec fn allowed_names(allowed: Seq<&str>) -> Seq<Seq<char>> {
    allowed.map_values(|a: &str| a@)
}

/// Every key of the map is one of the allowed stat names.
pub open spec fn keys_allowed(values: Seq<(String, i64)>, allowed: Seq<&str>) -> bool {
    forall|i: int| 0 <= i < values.len() ==> allowed_names(allowed).contains(#[trigger] values[i].0@)
}

/// Every value of the map lies in `min..=max`.
pub open spec fn values_in_range(values: Seq<(String, i64)>, min: i64, max: i64) -> bool {
    forall|i: int| 0 <= i < values.len() ==> min <= #[trigger] values[i].1 <= max
}

fn name_allowed(name: &String, allowed: &[&str]) -> (found: bool)
    ensures
        found == allowed_names(allowed@).contains(name@),
{
    let mut i: usize = 0;
    while i < allowed.len()
        invariant
            i <= allowed@.len(),
            forall|k: int| 0 <= k < i ==> allowed@[k]@ != name@,
        decreases allowed.len() - i,
    {
        let candidate = chars_of(allowed[i]);
        let own = chars_of(name.as_str());
        if crate::text::chars_eq(&candidate, &own) {
            assert(allowed_names(allowed@)[i as int] == name@);
            return true;
        }
        i = i + 1;
    }
    assert(!allowed_names(allowed@).contains(name@)) by {
        if allowed_names(allowed@).contains(name@) {
            let k = choose|k: int| 0 <= k < allowed@.len() && allowed_names(allowed@)[k] == name@;
            assert(allowed@[k]@ == name@);
        }
    }
    false
}

/// Checks a stat map: every key must be an allowed name, then every value must lie in
/// `min..=max`.
pub fn validate_exact_stat_map(values: &[(String, i64)], allowed: &[&str], min: i64, max: i64) -> (checked: Result<(), String>)
    ensures
        !keys_allowed(values@, allowed@) ==> (checked matches Err(e) && e@ == "UNKNOWN_STAT"@),
        keys_allowed(values@, allowed@) && !values_in_range(values@, min, max) ==> (checked matches Err(
            e,
        ) && e@ == "STAT_OUT_OF_RANGE"@),
        keys_allowed(values@, allowed@) && values_in_range(values@, min, max) ==> checked is Ok,
{
    let mut i: usize = 0;
    while i < values.len()
        invariant
            i <= values@.len(),
            forall|k: int|
                0 <= k < i ==> allowed_names(allowed@).contains(#[trigger] values@[k].0@),
        decreases values.len() - i,
    {
        if !name_allowed(&values[i].0, allowed) {
            return Err("UNKNOWN_STAT".to_owned());
        }
        i = i + 1;
    }
    let mut j: usize = 0;
    while j < values.len()
        invariant
            j <= values@.len(),
            keys_allowed(values@, allowed@),
            forall|k: int| 0 <= k < j ==> min <= #[trigger] values@[k].1 <= max,
        decreases values.len() - j,
    {
        let value = values[j].1;
        if value < min || value > max {
            return Err("STAT_OUT_OF_RANGE".to_owned());
        }
        j = j + 1;
    }
    Ok(())
}

/// Every region of the communication map is at most 5 and every value lies in `0..=100`.
pub open spec fn communication_ok(values: Map<usize, i64>) -> bool {
    forall|region: usize|
        values.contains_key(region) ==> region <= 5 && 0 <= #[trigger] values[region] <= 100
}

/// Checks the optional communication map of a player or staff member.
pub fn validate_communication(values: Option<&BTreeMap<usize, i64>>) -> (checked: Result<
    (),
    String,
>)
    ensures
        checked is Ok <==> (values is None || communication_ok(values->0@)),
        checked matches Err(e) ==> e@ == "COMMUNICATION_OUT_OF_RANGE"@,
{
    broadcast use vstd::laws_cmp::group_laws_cmp, vstd::std_specs::btree::group_btree_axioms;

    if let Some(map) = values {
        let ghost entries = spec_btree_map_iter(map).remaining();
        for entry in it: map.iter()
            invariant
                it.seq() == entries,
                values == Some(map),
                entries == spec_btree_map_iter(map).remaining(),
                forall|k: int|
                    0 <= k < it.index() ==> #[trigger] (*entries[k].0) <= 5 && 0 <= *entries[k].1
                        <= 100,
        {
            let (region, value) = entry;
            if *region > 5 || *value < 0 || *value > 100 {
                assert(entries[it.index()] == entry);
                assert(map@.contains_key(*region) && map@[*region] == *value);
                assert(!communication_ok(map@));
                return Err("COMMUNICATION_OUT_OF_RANGE".to_owned());
            }
        }
        assert(forall|k: int|
            0 <= k < entries.len() ==> #[trigger] (*entries[k].0) <= 5 && 0 <= *entries[k].1
                <= 100);
        assert(communication_ok(map@)) by {
            assert forall|region: usize| map@.contains_key(region) implies region <= 5 && 0
                <= #[trigger] map@[region] <= 100 by {
                assert(entries.contains((&region, &map@[region])));
                let k = choose|k: int|
                    0 <= k < entries.len() && entries[k] == (&region, &map@[region]);
                assert(*entries[k].0 == region);
            }
        }
    }
    Ok(())
}

proof fn lemma_encode_utf8_append(a: Seq<char>, b: Seq<char>)
    ensures
        encode_utf8(a + b) == encode_utf8(a) + encode_utf8(b),
    decreases a.len(),
{
    if a.len() == 0 {
        assert(a + b =~= b);
        assert(encode_utf8(a) + encode_utf8(b) =~= encode_utf8(b));
    } else {
        lemma_encode_utf8_append(a.drop_first(), b);
        assert((a + b).drop_first() =~= a.drop_first() + b);
        assert((a + b)[0] == a[0]);
        assert(encode_utf8(a + b) =~= encode_utf8(a) + encode_utf8(b));
    }
}

/// A date with the time of day kept from the current value: when the current value is longer
/// than a ten-byte date, its rest follows the new date; otherwise the fallback time does.
pub fn with_time(date: &str, current: &str, fallback: &str) -> (stamped: String)
    requires
        encode_utf8(current@).len() > 10 ==> is_char_boundary(
            encode_utf8(current@),
            10,
        ),
    ensures
        encode_utf8(current@).len() > 10 ==> encode_utf8(stamped@) == encode_utf8(date@)
            + encode_utf8(current@).subrange(10, encode_utf8(current@).len() as int),
        encode_utf8(current@).len() <= 10 ==> stamped@ == date@ + fallback@,
{
    let mut stamped = date.to_owned();
    if current.as_bytes().len() > 10 {
        let (_, rest) = current.split_at(10);
        assert(encode_utf8(rest@) == encode_utf8(current@).subrange(
            10,
            encode_utf8(current@).len() as int,
        ));
        append_str(&mut stamped, rest);
        assert(stamped@ == date@ + rest@);
        proof {
            lemma_encode_utf8_append(date@, rest@);
        }
        assert(encode_utf8(stamped@) == encode_utf8(date@) + encode_utf8(rest@));
        assert(encode_utf8(stamped@) == encode_utf8(date@) + encode_utf8(current@).subrange(
            10,
            encode_utf8(current@).len() as int,
        ));
    } else {
        append_str(&mut stamped, fallback);
    }
    stamped
}

/// The player stats an edit may set.
pub open spec fn player_stat_list() -> Seq<&'static str> {
    seq![
        "last_hit",
        "skill_avoid",
        "skill_hit",
        "control_speed",
        "positioning",
        "judgement",
        "mental",
        "concentration",
        "order",
        "roaming",
        "aggressive",
        "ego",
    ]
}

/// The staff stats an edit may set.
pub open spec fn staff_stat_list() -> Seq<&'static str> {
    seq![
        "banpick",
        "strategy",
        "negotiation",
        "judge_ability",
        "judge_potential",
        "feedback",
        "power_analysis",
        "control_coaching",
        "judgment_coaching",
        "mental_coaching",
    ]
}

/// The positions whose proficiency an edit may set.
pub open spec fn position_list() -> Seq<&'static str> {
    seq!["top", "jungle", "mid", "bottom", "support"]
}

/// What the checks read of a contract edit: its dates, and whether its salary and fee are
/// non-negative.
#[derive(Debug, Clone, PartialEq, Eq)]
pub struct ContractDates {
    pub start_date: String,
    pub end_date: String,
    pub values_nonnegative: bool,
}

/// The error of a contract edit: an end before the start, then a negative value.
pub open spec fn contract_error(c: ContractDates) -> Option<Seq<char>> {
    if chars_lt(c.end_date@, c.start_date@) {
        Some("CONTRACT_END_BEFORE_START"@)
    } else if !c.values_nonnegative {
        Some("CONTRACT_VALUE_OUT_OF_RANGE"@)
    } else {
        None
    }
}

/// Checks a contract edit.
pub fn validate_contract_values(contract: &ContractDates) -> (checked: Result<(), String>)
    ensures
        match contract_error(*contract) {
            None => checked is Ok,
            Some(e) => checked matches Err(m) && m@ == e,
        },
{
    if str_lt(contract.end_date.as_str(), contract.start_date.as_str()) {
        return Err("CONTRACT_END_BEFORE_START".to_owned());
    }
    if !contract.values_nonnegative {
        return Err("CONTRACT_VALUE_OUT_OF_RANGE".to_owned());
    }
    Ok(())
}

/// What the checks read of a player edit; the salary and the contract amounts are checked
/// where they are read, and come here as the outcome of that check.
#[derive(Debug, Clone, PartialEq, Eq)]
pub struct PlayerEditValues {
    pub name: Option<String>,
    pub age: Option<i64>,
    pub stats: Vec<(String, i64)>,
    pub positions: Vec<(String, i64)>,
    pub potential: Option<i64>,
    pub stamina: Option<i64>,
    pub stress: Option<i64>,
    pub condition: Option<i64>,
    pub salary_in_range: bool,
    pub communication: Option<BTreeMap<usize, i64>>,
    pub mastery: Vec<MasteryEdit>,
    pub contract: Option<ContractDates>,
}

/// What the checks read of a staff edit.
#[derive(Debug, Clone, PartialEq, Eq)]
pub struct StaffEditValues {
    pub name: Option<String>,
    pub age: Option<i64>,
    pub stats: Vec<(String, i64)>,
    pub salary_in_range: bool,
    pub communication: Option<BTreeMap<usize, i64>>,
    pub contract: Option<ContractDates>,
}

pub open spec fn optional_name(name: Option<String>) -> bool {
    name is None || name_acceptable(name->0@)
}

pub open spec fn optional_in(value: Option<i64>, min: i64, max: i64) -> bool {
    value is None || min <= value->0 <= max
}

/// The number of positions set above zero.
pub open spec fn positive_count(values: Seq<(String, i64)>) -> nat
    decreases values.len(),
{
    if values.len() == 0 {
        0
    } else {
        positive_count(values.drop_last()) + if values.last().1 > 0 {
            1nat
        } else {
            0nat
        }
    }
}

/// A mastery value names a champion and lies in 0..=100.
pub open spec fn mastery_ok(m: MasteryEdit) -> bool {
    trim(m.champion_id@).len() > 0 && 0 <= m.value <= 100
}

pub open spec fn stat_map_error(values: Seq<(String, i64)>, allowed: Seq<&str>, min: i64, max: i64) -> Option<Seq<char>> {
    if !keys_allowed(values, allowed) {
        Some("UNKNOWN_STAT"@)
    } else if !values_in_range(values, min, max) {
        Some("STAT_OUT_OF_RANGE"@)
    } else {
        None
    }
}

pub open spec fn communication_checks(values: Option<BTreeMap<usize, i64>>) -> bool {
    values is None || communication_ok(values->0@)
}

/// The first error of a player edit, in the order the editor checks: name, age, stats,
/// positions, the number of positions, potential, condition values, salary, communication,
/// mastery, contract.
pub open spec fn player_edit_error(e: PlayerEditValues) -> Option<Seq<char>> {
    if !optional_name(e.name) {
        Some("INVALID_NAME"@)
    } else if !optional_in(e.age, 16, 100) {
        Some("AGE_OUT_OF_RANGE"@)
    } else if stat_map_error(e.stats@, player_stat_list(), 1, 100) is Some {
        stat_map_error(e.stats@, player_stat_list(), 1, 100)
    } else if stat_map_error(e.positions@, position_list(), 0, 100) is Some {
        stat_map_error(e.positions@, position_list(), 0, 100)
    } else if positive_count(e.positions@) > 3 {
        Some("TOO_MANY_POSITIONS"@)
    } else if !optional_in(e.potential, 1, 100) {
        Some("POTENTIAL_OUT_OF_RANGE"@)
    } else if !(optional_in(e.stamina, 0, 100) && optional_in(e.stress, 0, 100) && optional_in(
        e.condition,
        0,
        100,
    )) {
        Some("CONDITION_OUT_OF_RANGE"@)
    } else if !e.salary_in_range {
        Some("SALARY_OUT_OF_RANGE"@)
    } else if !communication_checks(e.communication) {
        Some("COMMUNICATION_OUT_OF_RANGE"@)
    } else if !(forall|i: int| 0 <= i < e.mastery@.len() ==> mastery_ok(#[trigger] e.mastery@[i])) {
        Some("INVALID_MASTERY"@)
    } else if e.contract is Some {
        contract_error(e.contract->0)
    } else {
        None
    }
}

/// The first error of a staff edit: name, age, stats, salary, communication, contract.
pub open spec fn staff_edit_error(e: StaffEditValues) -> Option<Seq<char>> {
    if !optional_name(e.name) {
        Some("INVALID_NAME"@)
    } else if !optional_in(e.age, 16, 100) {
        Some("AGE_OUT_OF_RANGE"@)
    } else if stat_map_error(e.stats@, staff_stat_list(), 1, 100) is Some {
        stat_map_error(e.stats@, staff_stat_list(), 1, 100)
    } else if !e.salary_in_range {
        Some("SALARY_OUT_OF_RANGE"@)
    } else if !communication_checks(e.communication) {
        Some("COMMUNICATION_OUT_OF_RANGE"@)
    } else if e.contract is Some {
        contract_error(e.contract->0)
    } else {
        None
    }
}

fn name_option(name: &Option<String>) -> (out: Option<&str>)
    ensures
        match name {
            None => out is None,
            Some(n) => out matches Some(o) && o@ == n@,
        },
{
    match name {
        None => None,
        Some(n) => Some(n.as_str()),
    }
}

fn stat_map_check(values: &[(String, i64)], allowed: &[&str], min: i64, max: i64) -> (checked: Result<(), String>)
    ensures
        match stat_map_error(values@, allowed@, min, max) {
            None => checked is Ok,
            Some(e) => checked matches Err(m) && m@ == e,
        },
{
    validate_exact_stat_map(values, allowed, min, max)
}

fn count_positive(values: &[(String, i64)]) -> (count: usize)
    ensures
        count == positive_count(values@),
{
    let mut count: usize = 0;
    let mut i: usize = 0;
    while i < values.len()
        invariant
            i <= values@.len(),
            count == positive_count(values@.subrange(0, i as int)),
            count <= i,
        decreases values.len() - i,
    {
        assert(values@.subrange(0, i + 1).drop_last() =~= values@.subrange(0, i as int));
        if values[i].1 > 0 {
            count = count + 1;
        }
        i = i + 1;
    }
    assert(values@.subrange(0, values@.len() as int) =~= values@);
    count
}

fn in_range(value: Option<i64>, min: i64, max: i64) -> (ok: bool)
    ensures
        ok == optional_in(value, min, max),
{
    match value {
        None => true,
        Some(v) => min <= v && v <= max,
    }
}

/// Checks a player edit; the error names the first rule it breaks.
pub fn validate_player_edit(edit: &PlayerEditValues) -> (checked: Result<(), String>)
    ensures
        match player_edit_error(*edit) {
            None => checked is Ok,
            Some(e) => checked matches Err(m) && m@ == e,
        },
{
    match validate_optional_name(name_option(&edit.name)) {
        Err(e) => return Err(e),
        Ok(()) => {},
    }
    if !in_range(edit.age, 16, 100) {
        return Err("AGE_OUT_OF_RANGE".to_owned());
    }
    let stats: Vec<&str> = vec![
        "last_hit",
        "skill_avoid",
        "skill_hit",
        "control_speed",
        "positioning",
        "judgement",
        "mental",
        "concentration",
        "order",
        "roaming",
        "aggressive",
        "ego",
    ];
    assert(stats@ == player_stat_list());
    match stat_map_check(edit.stats.as_slice(), stats.as_slice(), 1, 100) {
        Err(e) => return Err(e),
        Ok(()) => {},
    }
    let positions: Vec<&str> = vec!["top", "jungle", "mid", "bottom", "support"];
    assert(positions@ == position_list());
    match stat_map_check(edit.positions.as_slice(), positions.as_slice(), 0, 100) {
        Err(e) => return Err(e),
        Ok(()) => {},
    }
    if count_positive(edit.positions.as_slice()) > 3 {
        return Err("TOO_MANY_POSITIONS".to_owned());
    }
    if !in_range(edit.potential, 1, 100) {
        return Err("POTENTIAL_OUT_OF_RANGE".to_owned());
    }
    if !(in_range(edit.stamina, 0, 100) && in_range(edit.stress, 0, 100) && in_range(
        edit.condition,
        0,
        100,
    )) {
        return Err("CONDITION_OUT_OF_RANGE".to_owned());
    }
    if !edit.salary_in_range {
        return Err("SALARY_OUT_OF_RANGE".to_owned());
    }
    let communication = match &edit.communication {
        None => None,
        Some(map) => Some(map),
    };
    match validate_communication(communication) {
        Err(e) => return Err(e),
        Ok(()) => {},
    }
    let mut i: usize = 0;
    while i < edit.mastery.len()
        invariant
            i <= edit.mastery@.len(),
            forall|k: int| 0 <= k < i ==> mastery_ok(#[trigger] edit.mastery@[k]),
            optional_name(edit.name),
            optional_in(edit.age, 16, 100),
            stat_map_error(edit.stats@, player_stat_list(), 1, 100) is None,
            stat_map_error(edit.positions@, position_list(), 0, 100) is None,
            positive_count(edit.positions@) <= 3,
            optional_in(edit.potential, 1, 100),
            optional_in(edit.stamina, 0, 100) && optional_in(edit.stress, 0, 100) && optional_in(
                edit.condition,
                0,
                100,
            ),
            edit.salary_in_range,
            communication_checks(edit.communication),
        decreases edit.mastery.len() - i,
    {
        let m = &edit.mastery[i];
        if trim_chars(&chars_of(m.champion_id.as_str())).len() == 0 || m.value < 0 || m.value > 100 {
            assert(!mastery_ok(edit.mastery@[i as int]));
            return Err("INVALID_MASTERY".to_owned());
        }
        i = i + 1;
    }
    match &edit.contract {
        None => Ok(()),
        Some(contract) => validate_contract_values(contract),
    }
}

/// Checks a staff edit; the error names the first rule it breaks.
pub fn validate_staff_edit(edit: &StaffEditValues) -> (checked: Result<(), String>)
    ensures
        match staff_edit_error(*edit) {
            None => checked is Ok,
            Some(e) => checked matches Err(m) && m@ == e,
        },
{
    match validate_optional_name(name_option(&edit.name)) {
        Err(e) => return Err(e),
        Ok(()) => {},
    }
    if !in_range(edit.age, 16, 100) {
        return Err("AGE_OUT_OF_RANGE".to_owned());
    }
    let stats: Vec<&str> = vec![
        "banpick",
        "strategy",
        "negotiation",
        "judge_ability",
        "judge_potential",
        "feedback",
        "power_analysis",
        "control_coaching",
        "judgment_coaching",
        "mental_coaching",
    ];
    assert(stats@ == staff_stat_list());
    match stat_map_check(edit.stats.as_slice(), stats.as_slice(), 1, 100) {
        Err(e) => return Err(e),
        Ok(()) => {},
    }
    if !edit.salary_in_range {
        return Err("SALARY_OUT_OF_RANGE".to_owned());
    }
    let communication = match &edit.communication {
        None => None,
        Some(map) => Some(map),
    };
    match validate_communication(communication) {
        Err(e) => return Err(e),
        Ok(()) => {},
    }
    match &edit.contract {
        None => Ok(()),
        Some(contract) => validate_contract_values(contract),
    }
}

/// What the recruitment overrides read of one transfer or recruit request.
#[derive(Debug, Clone, Copy, PartialEq, Eq, Structural)]
pub struct RecruitmentRequestView {
    /// The team that made the request, when the record gives one.
    pub team_id: Option<u64>,
    /// The request has a last attempt date.
    pub has_last_date: bool,
    /// Its cooldown already ends on that date.
    pub cooldown_is_last_date: bool,
    /// Whether its last negotiation paper is already accepted; `None` when it has no paper.
    pub last_paper_accepted: Option<bool>,
}

/// The changes the overrides make to one request.
#[derive(Debug, Clone, Copy, PartialEq, Eq, Structural)]
pub struct RecruitmentPatch {
    /// The cooldown is set to end on the last attempt date, so the team may retry at once.
    pub end_cooldown: bool,
    /// The last negotiation paper is marked accepted.
    pub accept_last_paper: bool,
}

/// Only the player's own requests change: an instant retry ends a cooldown that does not end
/// on the last attempt date yet, and a forced success accepts a last paper not yet accepted.
pub open spec fn recruitment_changes(
    request: RecruitmentRequestView,
    player_team_id: usize,
    force_success: bool,
    instant_retry: bool,
) -> RecruitmentPatch {
    if request.team_id != Some(player_team_id as u64) {
        RecruitmentPatch { end_cooldown: false, accept_last_paper: false }
    } else {
        RecruitmentPatch {
            end_cooldown: instant_retry && request.has_last_date && !request.cooldown_is_last_date,
            accept_last_paper: force_success && request.last_paper_accepted == Some(false),
        }
    }
}

pub fn recruitment_patch(
    request: RecruitmentRequestView,
    player_team_id: usize,
    force_success: bool,
    instant_retry: bool,
) -> (patch: RecruitmentPatch)
    ensures
        patch == recruitment_changes(request, player_team_id, force_success, instant_retry),
{
    if request.team_id != Some(player_team_id as u64) {
        return RecruitmentPatch { end_cooldown: false, accept_last_paper: false };
    }
    RecruitmentPatch {
        end_cooldown: instant_retry && request.has_last_date && !request.cooldown_is_last_date,
        accept_last_paper: force_success && request.last_paper_accepted == Some(false),
    }
}

/// A staff edit that sets an age outside 16 to 100 is refused; with an acceptable name (or
/// none) the refusal is AGE_OUT_OF_RANGE.
pub proof fn lemma_staff_age_out_of_range_refused(e: StaffEditValues)
    requires
        e.age matches Some(age) && (age < 16 || age > 100),
    ensures
        staff_edit_error(e) is Some,
        e.name is None || name_acceptable(e.name->0@) ==> staff_edit_error(e) == Some(
            "AGE_OUT_OF_RANGE"@,
        ),
{
}

/// A player edit that sets stamina, stress or condition outside 0 to 100 is refused; when
/// every check before those values passes, the refusal is CONDITION_OUT_OF_RANGE.
pub proof fn lemma_player_condition_out_of_range_refused(e: PlayerEditValues)
    requires
        (e.stamina matches Some(v) && (v < 0 || v > 100)) || (e.stress matches Some(v) && (v < 0
            || v > 100)) || (e.condition matches Some(v) && (v < 0 || v > 100)),
    ensures
        player_edit_error(e) is Some,
        (e.name is None || name_acceptable(e.name->0@)) && (e.age is None || 16 <= e.age->0
            <= 100) && stat_map_error(e.stats@, player_stat_list(), 1, 100) is None
            && stat_map_error(e.positions@, position_list(), 0, 100) is None && positive_count(
            e.positions@,
        ) <= 3 && (e.potential is None || 1 <= e.potential->0 <= 100) ==> player_edit_error(e)
            == Some("CONDITION_OUT_OF_RANGE"@),
{
}

} // verus!
