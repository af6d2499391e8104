//! A player's champion mastery as the editor lists it: the career's active champions first,
//! then the champions the record holds that the career no longer has, each list by name.
use vstd::prelude::*;

use crate::ordered::{
    chars_lt, contains_string, lemma_lt_irreflexive, lemma_lt_transitive, str_lt, strs,
};
use crate::runtime::{readable_champion_name, readable_name, ChampionBriefState, ChampionMasteryState, ChampionMasteryValue};
use crate::text::{chars_eq, chars_of, is_blank, str_is_blank};

verus! {

/// What an athlete record holds for one champion: the raw mastery value and floor, zero
/// where the record gives none.
#[derive(Debug, Clone, PartialEq, Eq)]
pub struct RecordedMastery {
    pub champion_id: String,
    pub value: i64,
    pub floor: i64,
}

/// A listed mastery value as plain values: id, name, value, floor, active.
pub type MasteryView = (Seq<char>, Seq<char>, i64, i64, bool);

pub open spec fn mastery_view(v: ChampionMasteryValue) -> MasteryView {
    (v.champion_id@, v.display_name@, v.value, v.floor, v.active)
}

pub open spec fn mastery_views(list: Seq<ChampionMasteryValue>) -> Seq<MasteryView> {
    list.map_values(|v: ChampionMasteryValue| mastery_view(v))
}

/// The listing order: by name, then by id.
pub open spec fn listed_before(a: MasteryView, b: MasteryView) -> bool {
    chars_lt(a.1, b.1) || (a.1 == b.1 && chars_lt(a.0, b.0))
}

pub open spec fn listed_in_order(list: Seq<MasteryView>) -> bool {
    forall|i: int, j: int| 0 <= i < j < list.len() ==> !listed_before(list[j], list[i])
}

proof fn lemma_listed_before_transitive(a: MasteryView, b: MasteryView, c: MasteryView)
    requires
        listed_before(a, b),
        listed_before(b, c),
    ensures
        listed_before(a, c),
{
    if chars_lt(a.1, b.1) && chars_lt(b.1, c.1) {
        lemma_lt_transitive(a.1, b.1, c.1);
    } else if a.1 == b.1 && b.1 == c.1 {
        lemma_lt_transitive(a.0, b.0, c.0);
    }
}

/// A raw mastery value as the editor shows it: a tenth, rounded toward zero.
pub open spec fn shown(raw: i64) -> i64 {
    if raw >= 0 {
        (raw / 10) as i64
    } else {
        (-((-raw) / 10)) as i64
    }
}

/// The display name of a champion: its catalog name (the last entry wins where an id
/// repeats), or a readable form of its id.
pub open spec fn catalog_name(catalog: Seq<ChampionBriefState>, id: Seq<char>) -> Seq<char>
    decreases catalog.len(),
{
    if catalog.len() == 0 {
        readable_name(id)
    } else if catalog.last().champion_id@ == id {
        catalog.last().display_name@
    } else {
        catalog_name(catalog.drop_last(), id)
    }
}

/// What the record holds for a champion: the first entry with its id, or zeros.
pub open spec fn recorded_of(recorded: Seq<RecordedMastery>, id: Seq<char>) -> (i64, i64)
    decreases recorded.len(),
{
    if recorded.len() == 0 {
        (0, 0)
    } else if recorded[0].champion_id@ == id {
        (recorded[0].value, recorded[0].floor)
    } else {
        recorded_of(recorded.drop_first(), id)
    }
}

pub open spec fn mastery_item(
    catalog: Seq<ChampionBriefState>,
    recorded: Seq<RecordedMastery>,
    id: Seq<char>,
    active: bool,
) -> MasteryView {
    let (value, floor) = recorded_of(recorded, id);
    (id, catalog_name(catalog, id), shown(value), shown(floor), active)
}

pub open spec fn in_catalog(catalog: Seq<ChampionBriefState>, id: Seq<char>) -> bool {
    exists|i: int| 0 <= i < catalog.len() && catalog[i].champion_id@ == id
}

/// The active champions' values, one per catalog entry.
pub open spec fn active_items(catalog: Seq<ChampionBriefState>, recorded: Seq<RecordedMastery>) -> Seq<MasteryView> {
    catalog.map_values(|c: ChampionBriefState| mastery_item(catalog, recorded, c.champion_id@, true))
}

/// The values the record holds for champions outside the catalog, in the record's order.
pub open spec fn inactive_items(catalog: Seq<ChampionBriefState>, recorded: Seq<RecordedMastery>) -> Seq<MasteryView> {
    recorded.filter(|r: RecordedMastery| !in_catalog(catalog, r.champion_id@)).map_values(
        |r: RecordedMastery| mastery_item(catalog, recorded, r.champion_id@, false),
    )
}

fn name_of(catalog: &[ChampionBriefState], id: &str) -> (name: String)
    ensures
        name@ == catalog_name(catalog@, id@),
{
    let key = chars_of(id);
    let mut n: usize = catalog.len();
    assert(catalog@.subrange(0, catalog@.len() as int) =~= catalog@);
    while n > 0
        invariant
            n <= catalog@.len(),
            key@ == id@,
            catalog_name(catalog@, id@) == catalog_name(catalog@.subrange(0, n as int), id@),
        decreases n,
    {
        let ghost prefix = catalog@.subrange(0, n as int);
        assert(prefix.drop_last() =~= catalog@.subrange(0, n - 1));
        if chars_eq(&chars_of(catalog[n - 1].champion_id.as_str()), &key) {
            assert(prefix.last() == catalog@[n - 1]);
            return catalog[n - 1].display_name.clone();
        }
        n = n - 1;
    }
    assert(catalog@.subrange(0, 0) =~= Seq::<ChampionBriefState>::empty());
    readable_champion_name(id)
}

fn recorded_values(recorded: &[RecordedMastery], id: &str) -> (values: (i64, i64))
    ensures
        values == recorded_of(recorded@, id@),
{
    let key = chars_of(id);
    let mut i: usize = 0;
    assert(recorded@.subrange(0, recorded@.len() as int) =~= recorded@);
    while i < recorded.len()
        invariant
            i <= recorded@.len(),
            key@ == id@,
            recorded_of(recorded@, id@) == recorded_of(
                recorded@.subrange(i as int, recorded@.len() as int),
                id@,
            ),
        decreases recorded.len() - i,
    {
        let ghost rest = recorded@.subrange(i as int, recorded@.len() as int);
        assert(rest[0] == recorded@[i as int]);
        if chars_eq(&chars_of(recorded[i].champion_id.as_str()), &key) {
            return (recorded[i].value, recorded[i].floor);
        }
        assert(rest.drop_first() =~= recorded@.subrange(i + 1, recorded@.len() as int));
        i = i + 1;
    }
    assert(recorded@.subrange(i as int, recorded@.len() as int) =~= Seq::<RecordedMastery>::empty());
    (0, 0)
}

fn listed_value(
    catalog: &[ChampionBriefState],
    recorded: &[RecordedMastery],
    id: &String,
    active: bool,
) -> (item: ChampionMasteryValue)
    ensures
        mastery_view(item) == mastery_item(catalog@, recorded@, id@, active),
{
    let (value, floor) = recorded_values(recorded, id.as_str());
    ChampionMasteryValue {
        champion_id: id.clone(),
        display_name: name_of(catalog, id.as_str()),
        value: value / 10,
        floor: floor / 10,
        active,
    }
}

fn copy_value(v: &ChampionMasteryValue) -> (copy: ChampionMasteryValue)
    ensures
        mastery_view(copy) == mastery_view(*v),
{
    ChampionMasteryValue {
        champion_id: v.champion_id.clone(),
        display_name: v.display_name.clone(),
        value: v.value,
        floor: v.floor,
        active: v.active,
    }
}

fn before(a: &ChampionMasteryValue, b: &ChampionMasteryValue) -> (first: bool)
    ensures
        first == listed_before(mastery_view(*a), mastery_view(*b)),
{
    if str_lt(a.display_name.as_str(), b.display_name.as_str()) {
        true
    } else if chars_eq(&chars_of(a.display_name.as_str()), &chars_of(b.display_name.as_str())) {
        str_lt(a.champion_id.as_str(), b.champion_id.as_str())
    } else {
        false
    }
}

/// Sorts values into the listing order, keeping the order of values that list alike.
pub fn sort_for_listing(items: Vec<ChampionMasteryValue>) -> (sorted: Vec<ChampionMasteryValue>)
    ensures
        listed_in_order(mastery_views(sorted@)),
        mastery_views(sorted@).to_multiset() == mastery_views(items@).to_multiset(),
{
    let mut sorted: Vec<ChampionMasteryValue> = Vec::new();
    let mut i: usize = 0;
    assert(mastery_views(items@).subrange(0, 0) =~= mastery_views(sorted@));
    while i < items.len()
        invariant
            i <= items@.len(),
            listed_in_order(mastery_views(sorted@)),
            mastery_views(sorted@).to_multiset() == mastery_views(items@).subrange(0, i as int).to_multiset(),
        decreases items.len() - i,
    {
        let x = copy_value(&items[i]);
        let ghost xv = mastery_views(items@)[i as int];
        assert(mastery_view(x) == xv);
        let ghost old_views = mastery_views(sorted@);
        let mut p: usize = 0;
        while p < sorted.len() && !before(&x, &sorted[p])
            invariant
                p <= sorted@.len(),
                old_views == mastery_views(sorted@),
                mastery_view(x) == xv,
                forall|k: int| 0 <= k < p ==> !listed_before(xv, #[trigger] old_views[k]),
            decreases sorted.len() - p,
        {
            p = p + 1;
        }
        sorted.insert(p, x);
        proof {
            let new_views = mastery_views(sorted@);
            assert(new_views =~= old_views.insert(p as int, xv));
            assert forall|a: int, b: int| 0 <= a < b < new_views.len() implies !listed_before(
                new_views[b],
                new_views[a],
            ) by {
                if a < p && b == p {
                } else if a == p && b > p {
                    assert(new_views[b] == old_views[b - 1]);
                    if listed_before(old_views[b - 1], xv) {
                        if p < old_views.len() {
                            assert(listed_before(xv, old_views[p as int]));
                            lemma_listed_before_transitive(old_views[b - 1], xv, old_views[p as int]);
                            if b - 1 > p {
                                assert(!listed_before(old_views[b - 1], old_views[p as int]));
                            } else {
                                let v = old_views[p as int];
                                lemma_lt_irreflexive(v.1);
                                lemma_lt_irreflexive(v.0);
                            }
                        }
                    }
                } else if a < p && b > p {
                    assert(new_views[a] == old_views[a]);
                    assert(new_views[b] == old_views[b - 1]);
                } else if a > p {
                    assert(new_views[a] == old_views[a - 1]);
                    assert(new_views[b] == old_views[b - 1]);
                } else {
                    assert(new_views[a] == old_views[a]);
                    assert(new_views[b] == old_views[b]);
                }
            }
            let prefix = mastery_views(items@).subrange(0, i as int);
            assert(mastery_views(items@).subrange(0, i + 1) =~= prefix.insert(i as int, xv));
            vstd::seq_lib::to_multiset_insert(old_views, p as int, xv);
            vstd::seq_lib::to_multiset_insert(prefix, i as int, xv);
        }
        i = i + 1;
    }
    assert(mastery_views(items@).subrange(0, items@.len() as int) =~= mastery_views(items@));
    sorted
}

fn catalog_has(catalog: &[ChampionBriefState], id: &String) -> (found: bool)
    ensures
        found == in_catalog(catalog@, id@),
{
    let key = chars_of(id.as_str());
    let mut i: usize = 0;
    while i < catalog.len()
        invariant
            i <= catalog@.len(),
            key@ == id@,
            forall|k: int| 0 <= k < i ==> catalog@[k].champion_id@ != id@,
        decreases catalog.len() - i,
    {
        if chars_eq(&chars_of(catalog[i].champion_id.as_str()), &key) {
            assert(catalog@[i as int].champion_id@ == id@);
            return true;
        }
        i = i + 1;
    }
    false
}

/// The mastery listing of an athlete: a value for each active champion, then for each
/// champion the record holds outside the catalog, each list by name and id.
pub fn mastery_state(
    athlete_id: usize,
    catalog: &[ChampionBriefState],
    recorded: &[RecordedMastery],
) -> (state: ChampionMasteryState)
    ensures
        state.athlete_id == athlete_id,
        listed_in_order(mastery_views(state.active@)),
        mastery_views(state.active@).to_multiset() == active_items(catalog@, recorded@).to_multiset(),
        listed_in_order(mastery_views(state.inactive@)),
        mastery_views(state.inactive@).to_multiset() == inactive_items(catalog@, recorded@).to_multiset(),
{
    let mut active: Vec<ChampionMasteryValue> = Vec::new();
    let mut i: usize = 0;
    while i < catalog.len()
        invariant
            i <= catalog@.len(),
            mastery_views(active@) == active_items(catalog@, recorded@).subrange(0, i as int),
        decreases catalog.len() - i,
    {
        let item = listed_value(catalog, recorded, &catalog[i].champion_id, true);
        let ghost before = active@;
        active.push(item);
        assert(mastery_views(active@) =~= mastery_views(before).push(mastery_view(item)));
        assert(active_items(catalog@, recorded@).subrange(0, i + 1) =~= active_items(
            catalog@,
            recorded@,
        ).subrange(0, i as int).push(mastery_view(item)));
        i = i + 1;
    }
    assert(active_items(catalog@, recorded@).subrange(0, catalog@.len() as int) =~= active_items(
        catalog@,
        recorded@,
    ));
    let ghost outside = |r: RecordedMastery| !in_catalog(catalog@, r.champion_id@);
    let mut inactive: Vec<ChampionMasteryValue> = Vec::new();
    let mut j: usize = 0;
    while j < recorded.len()
        invariant
            j <= recorded@.len(),
            outside == (|r: RecordedMastery| !in_catalog(catalog@, r.champion_id@)),
            mastery_views(inactive@) == recorded@.subrange(0, j as int).filter(outside).map_values(
                |r: RecordedMastery| mastery_item(catalog@, recorded@, r.champion_id@, false),
            ),
        decreases recorded.len() - j,
    {
        let ghost prefix = recorded@.subrange(0, j as int);
        assert(recorded@.subrange(0, j + 1) =~= prefix.push(recorded@[j as int]));
        proof {
            prefix.lemma_filter_push(recorded@[j as int], outside);
        }
        if !catalog_has(catalog, &recorded[j].champion_id) {
            let item = listed_value(catalog, recorded, &recorded[j].champion_id, false);
            let ghost before = inactive@;
            inactive.push(item);
            assert(mastery_views(inactive@) =~= mastery_views(before).push(mastery_view(item)));
        }
        j = j + 1;
    }
    assert(recorded@.subrange(0, recorded@.len() as int) =~= recorded@);
    ChampionMasteryState {
        athlete_id,
        active: sort_for_listing(active),
        inactive: sort_for_listing(inactive),
    }
}

/// No champion is listed both as active and as inactive: the inactive list holds only the
/// champions outside the catalog.
pub proof fn lemma_mastery_lists_disjoint(
    catalog: Seq<ChampionBriefState>,
    recorded: Seq<RecordedMastery>,
    a: int,
    b: int,
)
    requires
        0 <= a < active_items(catalog, recorded).len(),
        0 <= b < inactive_items(catalog, recorded).len(),
    ensures
        active_items(catalog, recorded)[a].0 != inactive_items(catalog, recorded)[b].0,
        active_items(catalog, recorded)[a].4,
        !inactive_items(catalog, recorded)[b].4,
{
    let outside = |r: RecordedMastery| !in_catalog(catalog, r.champion_id@);
    let kept = recorded.filter(outside);
    recorded.lemma_filter_pred(outside, b);
    assert(inactive_items(catalog, recorded)[b].0 == kept[b].champion_id@);
    assert(active_items(catalog, recorded)[a].0 == catalog[a].champion_id@);
}

/// The mastery values a request sets, as (champion id, value) pairs.
pub open spec fn mastery_pairs(values: Seq<(String, i64)>) -> Seq<(Seq<char>, i64)> {
    values.map_values(|p: (String, i64)| (p.0@, p.1))
}

/// Why mastery values sent to be set are refused, if they are: there must be 1 to 512 of them,
/// each from 0 to 100, and each champion id must be non-blank and appear once.
pub open spec fn mastery_values_error(values: Seq<(Seq<char>, i64)>) -> Option<Seq<char>> {
    if values.len() == 0 || values.len() > 512 || exists|i: int|
        0 <= i < values.len() && !(0 <= #[trigger] values[i].1 <= 100) {
        Some("Mastery values must contain 1-512 entries in the 0-100 range"@)
    } else if exists|i: int|
        0 <= i < values.len() && (is_blank(#[trigger] values[i].0) || exists|j: int|
            0 <= j < i && values[j].0 == values[i].0) {
        Some("Champion ids must be non-empty and unique"@)
    } else {
        None
    }
}

/// Checks mastery values sent to be set, with the message the refusal carries.
pub fn check_mastery_values(values: &[(String, i64)]) -> (checked: Result<(), String>)
    ensures
        match mastery_values_error(mastery_pairs(values@)) {
            None => checked is Ok,
            Some(message) => checked matches Err(e) && e@ == message,
        },
{
    let ghost pairs = mastery_pairs(values@);
    let n = values.len();
    if n == 0 || n > 512 {
        return Err("Mastery values must contain 1-512 entries in the 0-100 range".to_owned());
    }
    let mut i: usize = 0;
    while i < n
        invariant
            i <= n == values@.len(),
            pairs == mastery_pairs(values@),
            forall|k: int| 0 <= k < i ==> 0 <= #[trigger] pairs[k].1 <= 100,
        decreases n - i,
    {
        if values[i].1 < 0 || values[i].1 > 100 {
            assert(!(0 <= pairs[i as int].1 <= 100));
            return Err("Mastery values must contain 1-512 entries in the 0-100 range".to_owned());
        }
        i = i + 1;
    }
    let mut seen: Vec<String> = Vec::new();
    let mut i: usize = 0;
    while i < n
        invariant
            i <= n == values@.len(),
            0 < n <= 512,
            pairs == mastery_pairs(values@),
            forall|k: int| 0 <= k < n ==> 0 <= #[trigger] pairs[k].1 <= 100,
            seen@.len() == i,
            forall|k: int| 0 <= k < i ==> (#[trigger] seen@[k])@ == pairs[k].0,
            forall|k: int|
                0 <= k < i ==> !is_blank(#[trigger] pairs[k].0) && !(exists|j: int|
                    0 <= j < k && pairs[j].0 == pairs[k].0),
        decreases n - i,
    {
        let id = &values[i].0;
        if str_is_blank(id.as_str()) || contains_string(&seen, id) {
            proof {
                if !is_blank(pairs[i as int].0) {
                    let j = choose|j: int| 0 <= j < seen@.len() && strs(seen@)[j] == id@;
                    assert(pairs[j].0 == pairs[i as int].0);
                }
                assert(is_blank(pairs[i as int].0) || exists|j: int|
                    0 <= j < i && pairs[j].0 == pairs[i as int].0);
            }
            return Err("Champion ids must be non-empty and unique".to_owned());
        }
        proof {
            assert forall|j: int| 0 <= j < i implies pairs[j].0 != pairs[i as int].0 by {
                assert(strs(seen@)[j] == seen@[j]@);
            }
        }
        seen.push(id.clone());
        i = i + 1;
    }
    Ok(())
}

} // verus!
