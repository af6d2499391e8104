//! Lock groups and the shape and key rules that a lock must satisfy.

use vstd::prelude::*;

use crate::profile::ValidationError;
use crate::text::{
    all_ascii_digits, chars_eq, chars_of, has_prefix, is_blank, starts_with, str_is_blank,
    strip_prefix, strip_prefix_chars,
};

verus! {

#[derive(Debug, Clone, Copy, PartialEq, Eq, PartialOrd, Ord, Structural)]
pub enum LockGroup {
    PlayerStats,
    ChampionMastery,
    StaffStats,
    PlayerProfile,
    StaffProfile,
}

#[derive(Debug, Clone, Copy, PartialEq, Eq, Structural)]
pub enum LockStatus {
    Active,
    Error,
}

/// How many values a lock of each group may hold.
pub open spec fn group_accepts_len(group: LockGroup, len: int) -> bool {
    match group {
        LockGroup::PlayerStats => len == 12,
        LockGroup::ChampionMastery => 1 <= len <= 512,
        LockGroup::StaffStats => len == 10,
        LockGroup::PlayerProfile => 22 <= len <= 1050,
        LockGroup::StaffProfile => 11 <= len <= 522,
    }
}

impl LockGroup {
    pub fn accepts_len(self, len: usize) -> (ok: bool)
        ensures
            ok == group_accepts_len(self, len as int),
    {
        match self {
            LockGroup::PlayerStats => len == 12,
            LockGroup::ChampionMastery => 1 <= len && len <= 512,
            LockGroup::StaffStats => len == 10,
            LockGroup::PlayerProfile => 22 <= len && len <= 1050,
            LockGroup::StaffProfile => 11 <= len && len <= 522,
        }
    }
}

pub open spec fn key_views(keys: Seq<String>) -> Seq<Seq<char>> {
    keys.map_values(|k: String| k@)
}

/// `prefix` followed by a non-empty run of ASCII digits.
pub open spec fn is_indexed_key(key: Seq<char>, prefix: Seq<char>) -> bool {
    strip_prefix(key, prefix) matches Some(suffix) && suffix.len() > 0 && all_ascii_digits(suffix)
}

pub open spec fn is_champion_id_char(c: char) -> bool {
    ('0' <= c <= '9') || ('a' <= c <= 'z') || ('A' <= c <= 'Z') || c == '_'
}

/// `champion_proficiency.` followed by a non-empty champion id of ASCII letters, digits and `_`.
pub open spec fn is_champion_key(key: Seq<char>) -> bool {
    strip_prefix(key, "champion_proficiency."@) matches Some(champion) && champion.len() > 0
        && forall|i: int| 0 <= i < champion.len() ==> is_champion_id_char(#[trigger] champion[i])
}

pub fn valid_indexed_key(key: &str, prefix: &str) -> (ok: bool)
    ensures
        ok == is_indexed_key(key@, prefix@),
{
    let key_chars = chars_of(key);
    let prefix_chars = chars_of(prefix);
    match strip_prefix_chars(&key_chars, &prefix_chars) {
        None => false,
        Some(suffix) => {
            if suffix.len() == 0 {
                return false;
            }
            let mut i: usize = 0;
            while i < suffix.len()
                invariant
                    i <= suffix@.len(),
                    strip_prefix(key@, prefix@) == Some(suffix@),
                    forall|k: int| 0 <= k < i ==> '0' <= #[trigger] suffix@[k] <= '9',
                decreases suffix.len() - i,
            {
                if !('0' <= suffix[i] && suffix[i] <= '9') {
                    assert(!all_ascii_digits(suffix@)) by {
                        assert(!crate::text::is_ascii_digit(suffix@[i as int]));
                    }
                    return false;
                }
                i = i + 1;
            }
            true
        },
    }
}

pub fn valid_champion_key(key: &str) -> (ok: bool)
    ensures
        ok == is_champion_key(key@),
{
    let key_chars = chars_of(key);
    let prefix_chars = chars_of("champion_proficiency.");
    match strip_prefix_chars(&key_chars, &prefix_chars) {
        None => false,
        Some(champion) => {
            if champion.len() == 0 {
                return false;
            }
            let mut i: usize = 0;
            while i < champion.len()
                invariant
                    i <= champion@.len(),
                    strip_prefix(key@, "champion_proficiency."@) == Some(champion@),
                    forall|k: int| 0 <= k < i ==> is_champion_id_char(#[trigger] champion@[k]),
                decreases champion.len() - i,
            {
                let c = champion[i];
                if !(('0' <= c && c <= '9') || ('a' <= c && c <= 'z') || ('A' <= c && c <= 'Z')
                    || c == '_') {
                    assert(!is_champion_id_char(champion@[i as int]));
                    return false;
                }
                i = i + 1;
            }
            true
        },
    }
}

pub open spec fn player_required_keys() -> Seq<Seq<char>> {
    seq![
        "stat.last_hit"@,
        "stat.skill_avoid"@,
        "stat.skill_hit"@,
        "stat.control_speed"@,
        "stat.positioning"@,
        "stat.judgement"@,
        "stat.mental"@,
        "stat.concentration"@,
        "stat.order"@,
        "stat.roaming"@,
        "stat.aggressive"@,
        "stat.ego"@,
        "stat.top"@,
        "stat.jungle"@,
        "stat.mid"@,
        "stat.bottom"@,
        "stat.support"@,
        "hidden.potential"@,
        "management.stamina"@,
        "management.stress"@,
        "management.condition"@,
        "age"@,
    ]
}

pub open spec fn staff_required_keys() -> Seq<Seq<char>> {
    seq![
        "stat.banpick"@,
        "stat.strategy"@,
        "stat.negotiation"@,
        "stat.judge_ability"@,
        "stat.judge_potential"@,
        "stat.feedback"@,
        "stat.power_analysis"@,
        "stat.control_coaching"@,
        "stat.judgment_coaching"@,
        "stat.mental_coaching"@,
        "age"@,
    ]
}

fn player_required_key_chars() -> (keys: Vec<Vec<char>>)
    ensures
        keys@.map_values(|k: Vec<char>| k@) == player_required_keys(),
{
    let mut keys: Vec<Vec<char>> = Vec::new();
    keys.push(chars_of("stat.last_hit"));
    keys.push(chars_of("stat.skill_avoid"));
    keys.push(chars_of("stat.skill_hit"));
    keys.push(chars_of("stat.control_speed"));
    keys.push(chars_of("stat.positioning"));
    keys.push(chars_of("stat.judgement"));
    keys.push(chars_of("stat.mental"));
    keys.push(chars_of("stat.concentration"));
    keys.push(chars_of("stat.order"));
    keys.push(chars_of("stat.roaming"));
    keys.push(chars_of("stat.aggressive"));
    keys.push(chars_of("stat.ego"));
    keys.push(chars_of("stat.top"));
    keys.push(chars_of("stat.jungle"));
    keys.push(chars_of("stat.mid"));
    keys.push(chars_of("stat.bottom"));
    keys.push(chars_of("stat.support"));
    keys.push(chars_of("hidden.potential"));
    keys.push(chars_of("management.stamina"));
    keys.push(chars_of("management.stress"));
    keys.push(chars_of("management.condition"));
    keys.push(chars_of("age"));
    assert(keys@.map_values(|k: Vec<char>| k@) =~= player_required_keys());
    keys
}

fn staff_required_key_chars() -> (keys: Vec<Vec<char>>)
    ensures
        keys@.map_values(|k: Vec<char>| k@) == staff_required_keys(),
{
    let mut keys: Vec<Vec<char>> = Vec::new();
    keys.push(chars_of("stat.banpick"));
    keys.push(chars_of("stat.strategy"));
    keys.push(chars_of("stat.negotiation"));
    keys.push(chars_of("stat.judge_ability"));
    keys.push(chars_of("stat.judge_potential"));
    keys.push(chars_of("stat.feedback"));
    keys.push(chars_of("stat.power_analysis"));
    keys.push(chars_of("stat.control_coaching"));
    keys.push(chars_of("stat.judgment_coaching"));
    keys.push(chars_of("stat.mental_coaching"));
    keys.push(chars_of("age"));
    assert(keys@.map_values(|k: Vec<char>| k@) =~= staff_required_keys());
    keys
}

/// Whether the character sequence `key` occurs in `list`.
fn contains_chars(list: &Vec<Vec<char>>, key: &Vec<char>) -> (found: bool)
    ensures
        found == list@.map_values(|k: Vec<char>| k@).contains(key@),
{
    let ghost views = list@.map_values(|k: Vec<char>| k@);
    let mut i: usize = 0;
    while i < list.len()
        invariant
            i <= list@.len(),
            views == list@.map_values(|k: Vec<char>| k@),
            forall|k: int| 0 <= k < i ==> views[k] != key@,
        decreases list.len() - i,
    {
        if chars_eq(&list[i], key) {
            assert(views[i as int] == key@);
            return true;
        }
        i = i + 1;
    }
    false
}

/// The fixed header rules of a lock: a non-blank target name and a value count that the group
/// accepts.
pub open spec fn lock_header_error(
    target_name: Seq<char>,
    group: LockGroup,
    value_count: int,
) -> Option<ValidationError> {
    if is_blank(target_name) {
        Some(ValidationError::MissingIdentity)
    } else if !group_accepts_len(group, value_count) {
        Some(ValidationError::InvalidGroupSize)
    } else {
        None
    }
}

pub fn validate_lock_header(target_name: &str, group: LockGroup, value_count: usize) -> (result:
    Result<(), ValidationError>)
    ensures
        result matches Err(e) ==> lock_header_error(target_name@, group, value_count as int)
            == Some(e),
        result is Ok ==> lock_header_error(target_name@, group, value_count as int) is None,
{
    if str_is_blank(target_name) {
        return Err(ValidationError::MissingIdentity);
    }
    if !group.accepts_len(value_count) {
        return Err(ValidationError::InvalidGroupSize);
    }
    Ok(())
}

/// Keyed locks pair every value with a distinct non-blank key.
pub open spec fn keyed_shape_ok(keys: Seq<Seq<char>>, value_count: int) -> bool {
    &&& keys.len() == value_count
    &&& forall|i: int| 0 <= i < keys.len() ==> !is_blank(#[trigger] keys[i])
    &&& keys.no_duplicates()
}

/// The key set of a player profile lock: every required key, at least one mastery key, and
/// otherwise only communication and mastery keys.
pub open spec fn player_keys_ok(keys: Seq<Seq<char>>) -> bool {
    &&& forall|i: int|
        0 <= i < player_required_keys().len() ==> keys.contains(
            #[trigger] player_required_keys()[i],
        )
    &&& exists|i: int|
        0 <= i < keys.len() && has_prefix(#[trigger] keys[i], "champion_proficiency."@)
    &&& forall|i: int|
        0 <= i < keys.len() ==> player_required_keys().contains(#[trigger] keys[i])
            || is_indexed_key(keys[i], "stat.language."@) || is_champion_key(keys[i])
}

/// The key set of a staff profile lock: every required key, otherwise only communication keys.
pub open spec fn staff_keys_ok(keys: Seq<Seq<char>>) -> bool {
    &&& forall|i: int|
        0 <= i < staff_required_keys().len() ==> keys.contains(#[trigger] staff_required_keys()[i])
    &&& forall|i: int|
        0 <= i < keys.len() ==> staff_required_keys().contains(#[trigger] keys[i])
            || is_indexed_key(keys[i], "language."@)
}

/// The key rules of each group, checked after the header and before the value ranges.
pub open spec fn lock_keys_error(group: LockGroup, keys: Seq<Seq<char>>, value_count: int) -> Option<
    ValidationError,
> {
    match group {
        LockGroup::ChampionMastery => {
            if keys.len() != value_count || exists|i: int|
                0 <= i < keys.len() && is_blank(#[trigger] keys[i]) {
                Some(ValidationError::InvalidGroupSize)
            } else {
                None
            }
        },
        LockGroup::PlayerStats | LockGroup::StaffStats => {
            if keys.len() != 0 {
                Some(ValidationError::InvalidGroupSize)
            } else {
                None
            }
        },
        LockGroup::PlayerProfile => {
            if !keyed_shape_ok(keys, value_count) {
                Some(ValidationError::InvalidGroupSize)
            } else if !player_keys_ok(keys) {
                Some(ValidationError::InvalidValueKey)
            } else {
                None
            }
        },
        LockGroup::StaffProfile => {
            if !keyed_shape_ok(keys, value_count) {
                Some(ValidationError::InvalidGroupSize)
            } else if !staff_keys_ok(keys) {
                Some(ValidationError::InvalidValueKey)
            } else {
                None
            }
        },
    }
}

fn keys_as_chars(keys: &Vec<String>) -> (out: Vec<Vec<char>>)
    ensures
        out@.map_values(|k: Vec<char>| k@) == key_views(keys@),
{
    let mut out: Vec<Vec<char>> = Vec::new();
    let mut i: usize = 0;
    while i < keys.len()
        invariant
            i <= keys@.len(),
            out@.map_values(|k: Vec<char>| k@) == key_views(keys@).subrange(0, i as int),
        decreases keys.len() - i,
    {
        out.push(chars_of(keys[i].as_str()));
        assert(key_views(keys@).subrange(0, i + 1) == key_views(keys@).subrange(0, i as int).push(
            keys@[i as int]@,
        ));
        i = i + 1;
    }
    assert(key_views(keys@).subrange(0, keys@.len() as int) == key_views(keys@));
    out
}

fn any_blank(keys: &Vec<String>) -> (found: bool)
    ensures
        found == exists|i: int| 0 <= i < keys@.len() && is_blank(#[trigger] key_views(keys@)[i]),
{
    let mut i: usize = 0;
    while i < keys.len()
        invariant
            i <= keys@.len(),
            forall|k: int| 0 <= k < i ==> !is_blank(#[trigger] key_views(keys@)[k]),
        decreases keys.len() - i,
    {
        if str_is_blank(keys[i].as_str()) {
            assert(is_blank(key_views(keys@)[i as int]));
            return true;
        }
        i = i + 1;
    }
    false
}

fn has_duplicate(keys: &Vec<Vec<char>>) -> (found: bool)
    ensures
        found == !keys@.map_values(|k: Vec<char>| k@).no_duplicates(),
{
    let ghost views = keys@.map_values(|k: Vec<char>| k@);
    let mut i: usize = 0;
    while i < keys.len()
        invariant
            i <= keys@.len(),
            views == keys@.map_values(|k: Vec<char>| k@),
            forall|a: int, b: int| 0 <= a < i && 0 <= b < views.len() && a != b ==> views[a]
                != views[b],
        decreases keys.len() - i,
    {
        let mut j: usize = 0;
        while j < keys.len()
            invariant
                i < keys@.len(),
                j <= keys@.len(),
                views == keys@.map_values(|k: Vec<char>| k@),
                forall|a: int, b: int| 0 <= a < i && 0 <= b < views.len() && a != b ==> views[a]
                    != views[b],
                forall|b: int| 0 <= b < j && b != i ==> views[i as int] != views[b],
            decreases keys.len() - j,
        {
            if j != i && chars_eq(&keys[i], &keys[j]) {
                assert(views[i as int] == views[j as int]);
                return true;
            }
            j = j + 1;
        }
        i = i + 1;
    }
    false
}

fn player_keys_valid(keys: &Vec<Vec<char>>) -> (ok: bool)
    ensures
        ok == player_keys_ok(keys@.map_values(|k: Vec<char>| k@)),
{
    let ghost views = keys@.map_values(|k: Vec<char>| k@);
    let required = player_required_key_chars();
    let mut r: usize = 0;
    while r < required.len()
        invariant
            r <= required@.len(),
            required@.map_values(|k: Vec<char>| k@) == player_required_keys(),
            views == keys@.map_values(|k: Vec<char>| k@),
            forall|i: int| 0 <= i < r ==> views.contains(#[trigger] player_required_keys()[i]),
        decreases required.len() - r,
    {
        if !contains_chars(keys, &required[r]) {
            assert(!views.contains(player_required_keys()[r as int]));
            return false;
        }
        r = r + 1;
    }
    let mastery_prefix = chars_of("champion_proficiency.");
    let language_prefix = chars_of("stat.language.");
    let mut any_mastery = false;
    let mut i: usize = 0;
    while i < keys.len()
        invariant
            i <= keys@.len(),
            views == keys@.map_values(|k: Vec<char>| k@),
            mastery_prefix@ == "champion_proficiency."@,
            language_prefix@ == "stat.language."@,
            required@.map_values(|k: Vec<char>| k@) == player_required_keys(),
            any_mastery == exists|k: int|
                0 <= k < i && has_prefix(#[trigger] views[k], "champion_proficiency."@),
            forall|k: int|
                0 <= k < i ==> player_required_keys().contains(#[trigger] views[k])
                    || is_indexed_key(views[k], "stat.language."@) || is_champion_key(views[k]),
        decreases keys.len() - i,
    {
        let key = &keys[i];
        if starts_with(key, &mastery_prefix) {
            any_mastery = true;
            assert(has_prefix(views[i as int], "champion_proficiency."@));
        }
        let key_string = crate::text::string_from_chars(key);
        if !contains_chars(&required, key) && !valid_indexed_key(
            key_string.as_str(),
            "stat.language.",
        ) && !valid_champion_key(key_string.as_str()) {
            assert(!(player_required_keys().contains(views[i as int]) || is_indexed_key(
                views[i as int],
                "stat.language."@,
            ) || is_champion_key(views[i as int])));
            return false;
        }
        i = i + 1;
    }
    any_mastery
}

fn staff_keys_valid(keys: &Vec<Vec<char>>) -> (ok: bool)
    ensures
        ok == staff_keys_ok(keys@.map_values(|k: Vec<char>| k@)),
{
    let ghost views = keys@.map_values(|k: Vec<char>| k@);
    let required = staff_required_key_chars();
    let mut r: usize = 0;
    while r < required.len()
        invariant
            r <= required@.len(),
            required@.map_values(|k: Vec<char>| k@) == staff_required_keys(),
            views == keys@.map_values(|k: Vec<char>| k@),
            forall|i: int| 0 <= i < r ==> views.contains(#[trigger] staff_required_keys()[i]),
        decreases required.len() - r,
    {
        if !contains_chars(keys, &required[r]) {
            assert(!views.contains(staff_required_keys()[r as int]));
            return false;
        }
        r = r + 1;
    }
    let mut i: usize = 0;
    while i < keys.len()
        invariant
            i <= keys@.len(),
            views == keys@.map_values(|k: Vec<char>| k@),
            required@.map_values(|k: Vec<char>| k@) == staff_required_keys(),
            forall|k: int|
                0 <= k < i ==> staff_required_keys().contains(#[trigger] views[k])
                    || is_indexed_key(views[k], "language."@),
        decreases keys.len() - i,
    {
        let key = &keys[i];
        let key_string = crate::text::string_from_chars(key);
        if !contains_chars(&required, key) && !valid_indexed_key(key_string.as_str(), "language.") {
            assert(!(staff_required_keys().contains(views[i as int]) || is_indexed_key(
                views[i as int],
                "language."@,
            )));
            return false;
        }
        i = i + 1;
    }
    true
}

/// Checks the keys of a lock against the rules of its group.
pub fn validate_lock_keys(group: LockGroup, value_keys: &Vec<String>, value_count: usize) -> (result:
    Result<(), ValidationError>)
    ensures
        result matches Err(e) ==> lock_keys_error(group, key_views(value_keys@), value_count as int)
            == Some(e),
        result is Ok ==> lock_keys_error(group, key_views(value_keys@), value_count as int) is None,
{
    match group {
        LockGroup::ChampionMastery => {
            if value_keys.len() != value_count || any_blank(value_keys) {
                return Err(ValidationError::InvalidGroupSize);
            }
            Ok(())
        },
        LockGroup::PlayerStats | LockGroup::StaffStats => {
            if value_keys.len() != 0 {
                return Err(ValidationError::InvalidGroupSize);
            }
            Ok(())
        },
        LockGroup::PlayerProfile | LockGroup::StaffProfile => {
            let keys = keys_as_chars(value_keys);
            if value_keys.len() != value_count || any_blank(value_keys) || has_duplicate(&keys) {
                return Err(ValidationError::InvalidGroupSize);
            }
            let ok = if group == LockGroup::PlayerProfile {
                player_keys_valid(&keys)
            } else {
                staff_keys_valid(&keys)
            };
            if !ok {
                return Err(ValidationError::InvalidValueKey);
            }
            Ok(())
        },
    }
}

/// The range a value of a profile lock must lie in, by its key: age 16 to 100; languages,
/// mastery, position proficiencies and condition values 0 to 100; every other stat 1 to 100.
pub open spec fn profile_value_range(group: LockGroup, key: Seq<char>) -> (u8, u8) {
    if key == "age"@ {
        (16, 100)
    } else if group == LockGroup::PlayerProfile && (has_prefix(key, "stat.language."@) || has_prefix(
        key,
        "champion_proficiency."@,
    ) || key == "stat.top"@ || key == "stat.jungle"@ || key == "stat.mid"@ || key
        == "stat.bottom"@ || key == "stat.support"@ || key == "management.stamina"@ || key
        == "management.stress"@ || key == "management.condition"@) {
        (0, 100)
    } else if group == LockGroup::StaffProfile && has_prefix(key, "language."@) {
        (0, 100)
    } else {
        (1, 100)
    }
}

fn key_is(key: &Vec<char>, name: &str) -> (same: bool)
    ensures
        same == (key@ == name@),
{
    chars_eq(key, &chars_of(name))
}

/// The range of a profile lock value with the given key.
pub fn value_range(group: LockGroup, key: &str) -> (range: (u8, u8))
    ensures
        range == profile_value_range(group, key@),
{
    let k = chars_of(key);
    if key_is(&k, "age") {
        return (16, 100);
    }
    if group == LockGroup::PlayerProfile {
        if starts_with(&k, &chars_of("stat.language.")) || starts_with(
            &k,
            &chars_of("champion_proficiency."),
        ) || key_is(&k, "stat.top") || key_is(&k, "stat.jungle") || key_is(&k, "stat.mid")
            || key_is(&k, "stat.bottom") || key_is(&k, "stat.support") || key_is(
            &k,
            "management.stamina",
        ) || key_is(&k, "management.stress") || key_is(&k, "management.condition") {
            return (0, 100);
        }
    }
    if group == LockGroup::StaffProfile && starts_with(&k, &chars_of("language.")) {
        return (0, 100);
    }
    (1, 100)
}

/// A player profile lock may set a position proficiency to zero (a player who cannot play the
/// position at all), and so may it set stamina, stress and condition; each of these values lies
/// in 0 to 100, while the age lies in 16 to 100 in either profile.
pub proof fn lemma_player_proficiency_ranges_start_at_zero()
    ensures
        profile_value_range(LockGroup::PlayerProfile, "stat.top"@) == (0u8, 100u8),
        profile_value_range(LockGroup::PlayerProfile, "stat.jungle"@) == (0u8, 100u8),
        profile_value_range(LockGroup::PlayerProfile, "stat.mid"@) == (0u8, 100u8),
        profile_value_range(LockGroup::PlayerProfile, "stat.bottom"@) == (0u8, 100u8),
        profile_value_range(LockGroup::PlayerProfile, "stat.support"@) == (0u8, 100u8),
        profile_value_range(LockGroup::PlayerProfile, "management.stamina"@) == (0u8, 100u8),
        profile_value_range(LockGroup::PlayerProfile, "management.stress"@) == (0u8, 100u8),
        profile_value_range(LockGroup::PlayerProfile, "management.condition"@) == (0u8, 100u8),
        profile_value_range(LockGroup::PlayerProfile, "age"@) == (16u8, 100u8),
        profile_value_range(LockGroup::StaffProfile, "age"@) == (16u8, 100u8),
{
    reveal_strlit("age");
    reveal_strlit("stat.top");
    reveal_strlit("stat.jungle");
    reveal_strlit("stat.mid");
    reveal_strlit("stat.bottom");
    reveal_strlit("stat.support");
    reveal_strlit("management.stamina");
    reveal_strlit("management.stress");
    reveal_strlit("management.condition");
    assert("stat.top"@.len() != "age"@.len());
    assert("stat.jungle"@.len() != "age"@.len());
    assert(profile_value_range(LockGroup::PlayerProfile, "stat.top"@) == (0u8, 100u8));
    assert(profile_value_range(LockGroup::PlayerProfile, "stat.jungle"@) == (0u8, 100u8));
}

} // verus!
