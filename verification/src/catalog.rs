//! The active champion catalog the in-game client sends to the companion, as the companion
//! reads it.
use vstd::prelude::*;
use vstd::utf8::*;

use crate::ordered::{chars_lt, lemma_lt_total, lemma_lt_transitive, sorted_strict, str_lt};
use crate::profile::RoleFilter;
use crate::text::{
    string_from_utf8,
    chars_eq, chars_of, free_of, is_blank, join, lemma_first_index_at, lemma_split_join, split,
    split_chars, split_once, split_once_chars, str_is_blank, string_from_chars,
};
use crate::wire::{
    catalog_entry, catalog_text, hex_digit, hex_of_bytes, position_label, position_labels,
    positions_in,
};

verus! {

/// How reading a text ends: it panics, it is refused, or it gives a value.
pub enum Outcome<T> {
    Panics,
    Fails(Seq<char>),
    Gives(T),
}

/// The value of an ASCII hexadecimal digit byte of either case.
pub open spec fn hex_byte_value(b: u8) -> Option<int> {
    if 48 <= b <= 57 {
        Some(b - 48)
    } else if 97 <= b <= 102 {
        Some(b - 87)
    } else if 65 <= b <= 70 {
        Some(b - 55)
    } else {
        None
    }
}

/// `u8::from_str_radix` on two bytes in base 16: two digits, or a plus sign and one digit.
pub open spec fn radix_pair(high: u8, low: u8) -> Option<u8> {
    match (hex_byte_value(high), hex_byte_value(low)) {
        (Some(h), Some(l)) => Some((h * 16 + l) as u8),
        (None, Some(l)) => if high == 43 {
            Some(l as u8)
        } else {
            None
        },
        _ => None,
    }
}

/// Reading the byte pairs from pair `k` on: slicing a pair that does not start and end on a
/// character boundary panics; the first pair that is not a number stops the reading.
pub open spec fn radix_pairs(bytes: Seq<u8>, k: nat) -> Outcome<Seq<u8>>
    decreases bytes.len() + 1 - 2 * k,
{
    if 2 * k >= bytes.len() {
        Outcome::Gives(Seq::empty())
    } else if !is_char_boundary(bytes, (2 * k) as int) || !is_char_boundary(
        bytes,
        (2 * k + 2) as int,
    ) {
        Outcome::Panics
    } else {
        match radix_pair(bytes[(2 * k) as int], bytes[(2 * k + 1) as int]) {
            None => Outcome::Fails("INVALID_HEX"@),
            Some(v) => match radix_pairs(bytes, k + 1) {
                Outcome::Gives(rest) => Outcome::Gives(seq![v] + rest),
                other => other,
            },
        }
    }
}

/// Reading a hexadecimal champion id as the companion does: an odd number of bytes is refused,
/// then the pairs are read, and the bytes must be valid UTF-8.
pub open spec fn radix_decode(text: Seq<char>) -> Outcome<Seq<char>> {
    let bytes = encode_utf8(text);
    if bytes.len() % 2 != 0 {
        Outcome::Fails("INVALID_HEX"@)
    } else {
        match radix_pairs(bytes, 0) {
            Outcome::Panics => Outcome::Panics,
            Outcome::Fails(e) => Outcome::Fails(e),
            Outcome::Gives(decoded) => if valid_utf8(decoded) {
                Outcome::Gives(decode_utf8(decoded))
            } else {
                Outcome::Fails("INVALID_HEX"@)
            },
        }
    }
}

fn hex_byte_value_of(b: u8) -> (v: Option<u8>)
    ensures
        v matches Some(x) ==> hex_byte_value(b) == Some(x as int),
        v is None ==> hex_byte_value(b) is None,
{
    if 48 <= b && b <= 57 {
        Some(b - 48)
    } else if 97 <= b && b <= 102 {
        Some(b - 87)
    } else if 65 <= b && b <= 70 {
        Some(b - 55)
    } else {
        None
    }
}

fn radix_pair_of(high: u8, low: u8) -> (v: Option<u8>)
    ensures
        v == radix_pair(high, low),
{
    match (hex_byte_value_of(high), hex_byte_value_of(low)) {
        (Some(h), Some(l)) => Some(h * 16 + l),
        (None, Some(l)) => if high == 43 {
            Some(l)
        } else {
            None
        },
        _ => None,
    }
}

/// Reads a hexadecimal champion id; where slicing would panic in the byte-pair reading, the
/// input is excluded.
pub fn hex_decode(value: &str) -> (decoded: Result<String, &'static str>)
    requires
        !(radix_decode(value@) is Panics),
    ensures
        match radix_decode(value@) {
            Outcome::Gives(text) => decoded matches Ok(s) && s@ == text,
            Outcome::Fails(m) => decoded matches Err(e) && e@ == m && m == "INVALID_HEX"@,
            Outcome::Panics => false,
        },
{
    let bytes = value.as_bytes();
    if bytes.len() % 2 != 0 {
        return Err("INVALID_HEX");
    }
    let mut out: Vec<u8> = Vec::new();
    let mut k: usize = 0;
    while 2 * k < bytes.len()
        invariant
            bytes@ == encode_utf8(value@),
            bytes@.len() % 2 == 0,
            2 * k <= bytes@.len(),
            !(radix_decode(value@) is Panics),
            radix_pairs(bytes@, 0) == match radix_pairs(bytes@, k as nat) {
                Outcome::Gives(rest) => Outcome::Gives(out@ + rest),
                other => other,
            },
        decreases bytes.len() - 2 * k,
    {
        let start = 2 * k;
        if !value.is_char_boundary(start) || !value.is_char_boundary(start + 2) {
            assert(radix_pairs(bytes@, k as nat) is Panics);
            assert(false);
            return Err("INVALID_HEX");
        }
        match radix_pair_of(bytes[start], bytes[start + 1]) {
            None => {
                return Err("INVALID_HEX");
            },
            Some(v) => {
                let ghost before = out@;
                out.push(v);
                proof {
                    match radix_pairs(bytes@, (k + 1) as nat) {
                        Outcome::Gives(rest) => {
                            assert(before + (seq![v] + rest) =~= out@ + rest);
                        },
                        _ => {},
                    }
                }
            },
        }
        k = k + 1;
    }
    assert(out@ + Seq::<u8>::empty() =~= out@);
    match string_from_utf8(out) {
        Some(text) => Ok(text),
        None => Err("INVALID_HEX"),
    }
}

/// Whether reading a hexadecimal champion id would panic, as the companion's byte-pair reading
/// does where a pair does not start and end on a character boundary; a caller tests this
/// before [`hex_decode`].
pub fn hex_decode_panics(value: &str) -> (panics: bool)
    ensures
        panics == (radix_decode(value@) is Panics),
{
    let bytes = value.as_bytes();
    if bytes.len() % 2 != 0 {
        return false;
    }
    let mut k: usize = 0;
    while 2 * k < bytes.len()
        invariant
            bytes@ == encode_utf8(value@),
            bytes@.len() % 2 == 0,
            2 * k <= bytes@.len(),
            (radix_pairs(bytes@, 0) is Panics) == (radix_pairs(bytes@, k as nat) is Panics),
        decreases bytes.len() - 2 * k,
    {
        let start = 2 * k;
        if !value.is_char_boundary(start) || !value.is_char_boundary(start + 2) {
            assert(radix_pairs(bytes@, k as nat) is Panics);
            return true;
        }
        if radix_pair_of(bytes[start], bytes[start + 1]).is_none() {
            assert(radix_pairs(bytes@, k as nat) is Fails);
            return false;
        }
        k = k + 1;
    }
    false
}

/// The role a position name of the catalog line stands for.
pub open spec fn position_role(name: Seq<char>) -> Option<RoleFilter> {
    if name == "Top"@ {
        Some(RoleFilter::Top)
    } else if name == "Jungle"@ {
        Some(RoleFilter::Jungle)
    } else if name == "Mid"@ {
        Some(RoleFilter::Mid)
    } else if name == "Bottom"@ {
        Some(RoleFilter::Bot)
    } else if name == "Support"@ {
        Some(RoleFilter::Support)
    } else {
        None
    }
}

/// Reading position names in order: empty names are skipped, an unknown name is refused, each
/// role is kept once, and reading stops as soon as two roles are kept.
pub open spec fn read_positions(names: Seq<Seq<char>>) -> Option<Seq<RoleFilter>>
    decreases names.len(),
{
    if names.len() == 0 {
        Some(Seq::empty())
    } else {
        match read_positions(names.drop_last()) {
            None => None,
            Some(roles) => if roles.len() >= 2 || names.last().len() == 0 {
                Some(roles)
            } else {
                match position_role(names.last()) {
                    None => None,
                    Some(role) => if roles.contains(role) {
                        Some(roles)
                    } else {
                        Some(roles.push(role))
                    },
                }
            },
        }
    }
}

/// One entry of the catalog line: a hexadecimal id, then optionally a comma and position
/// names joined by `+`.
pub open spec fn read_entry(entry: Seq<char>) -> Outcome<(Seq<char>, Seq<RoleFilter>)> {
    let (id_text, positions) = match split_once(entry, ',') {
        Some(pair) => pair,
        None => (entry, Seq::empty()),
    };
    match radix_decode(id_text) {
        Outcome::Panics => Outcome::Panics,
        Outcome::Fails(e) => Outcome::Fails(e),
        Outcome::Gives(id) => match read_positions(split(positions, '+')) {
            None => Outcome::Fails("INVALID_CHAMPION_POSITION"@),
            Some(roles) => Outcome::Gives((id, roles)),
        },
    }
}

/// The non-empty entries of the line in order; the first entry that panics or is refused
/// decides the outcome.
pub open spec fn read_entries(entries: Seq<Seq<char>>) -> Outcome<
    Seq<(Seq<char>, Seq<RoleFilter>)>,
>
    decreases entries.len(),
{
    if entries.len() == 0 {
        Outcome::Gives(Seq::empty())
    } else {
        match read_entries(entries.drop_last()) {
            Outcome::Gives(done) => if entries.last().len() == 0 {
                Outcome::Gives(done)
            } else {
                match read_entry(entries.last()) {
                    Outcome::Panics => Outcome::Panics,
                    Outcome::Fails(e) => Outcome::Fails(e),
                    Outcome::Gives(x) => Outcome::Gives(done.push(x)),
                }
            },
            other => other,
        }
    }
}

/// The ids that are not blank.
pub open spec fn listed_ids(list: Seq<(Seq<char>, Seq<RoleFilter>)>) -> Set<Seq<char>> {
    Set::new(|id: Seq<char>| exists|i: int| 0 <= i < list.len() && list[i].0 == id && !is_blank(id))
}

/// The roles of the first entry with the id.
pub open spec fn first_roles(list: Seq<(Seq<char>, Seq<RoleFilter>)>, id: Seq<char>) -> Seq<
    RoleFilter,
>
    decreases list.len(),
{
    if list.len() == 0 {
        Seq::empty()
    } else if list[0].0 == id {
        list[0].1
    } else {
        first_roles(list.drop_first(), id)
    }
}

/// A champion of the career's active catalog with the positions the game lists for it.
#[derive(Debug, Clone, PartialEq, Eq)]
pub struct ActiveChampionCatalogEntry {
    pub champion_id: String,
    pub positions: Vec<RoleFilter>,
}

pub open spec fn entry_ids(entries: Seq<ActiveChampionCatalogEntry>) -> Seq<Seq<char>> {
    entries.map_values(|e: ActiveChampionCatalogEntry| e.champion_id@)
}

proof fn lemma_entries_stop(entries: Seq<Seq<char>>, k: int)
    requires
        0 <= k <= entries.len(),
        !(read_entries(entries.subrange(0, k)) is Gives),
    ensures
        read_entries(entries) == read_entries(entries.subrange(0, k)),
    decreases entries.len() - k,
{
    if k == entries.len() {
        assert(entries.subrange(0, k) =~= entries);
    } else {
        assert(entries.subrange(0, k + 1).drop_last() =~= entries.subrange(0, k));
        lemma_entries_stop(entries, k + 1);
    }
}

proof fn lemma_first_roles_push(
    list: Seq<(Seq<char>, Seq<RoleFilter>)>,
    x: (Seq<char>, Seq<RoleFilter>),
    id: Seq<char>,
)
    ensures
        first_roles(list.push(x), id) == if (exists|i: int| 0 <= i < list.len() && list[i].0 == id) {
            first_roles(list, id)
        } else if x.0 == id {
            x.1
        } else {
            Seq::empty()
        },
    decreases list.len(),
{
    let longer = list.push(x);
    let found = exists|i: int| 0 <= i < list.len() && list[i].0 == id;
    if list.len() == 0 {
        assert(longer[0] == x);
        assert(longer.drop_first() =~= Seq::<(Seq<char>, Seq<RoleFilter>)>::empty());
        assert(!found);
        assert(first_roles(longer.drop_first(), id) == Seq::<RoleFilter>::empty());
        if x.0 == id {
            assert(first_roles(longer, id) == x.1);
        } else {
            assert(first_roles(longer, id) == Seq::<RoleFilter>::empty());
        }
    } else {
        assert(longer[0] == list[0]);
        assert(longer.drop_first() =~= list.drop_first().push(x));
        if list[0].0 == id {
            assert(found);
            assert(first_roles(longer, id) == list[0].1);
            assert(first_roles(list, id) == list[0].1);
        } else {
            let rest = list.drop_first();
            lemma_first_roles_push(rest, x, id);
            let found_rest = exists|i: int| 0 <= i < rest.len() && rest[i].0 == id;
            if found {
                let i = choose|i: int| 0 <= i < list.len() && list[i].0 == id;
                assert(rest[i - 1].0 == id);
                assert(found_rest);
            }
            if found_rest {
                let i = choose|i: int| 0 <= i < rest.len() && rest[i].0 == id;
                assert(list[i + 1].0 == id);
                assert(found);
            }
            assert(first_roles(longer, id) == first_roles(longer.drop_first(), id));
            assert(first_roles(list, id) == first_roles(rest, id));
        }
    }
}

fn position_role_of(name: &[char]) -> (role: Option<RoleFilter>)
    ensures
        role == position_role(name@),
{
    if chars_eq(name, &chars_of("Top")) {
        Some(RoleFilter::Top)
    } else if chars_eq(name, &chars_of("Jungle")) {
        Some(RoleFilter::Jungle)
    } else if chars_eq(name, &chars_of("Mid")) {
        Some(RoleFilter::Mid)
    } else if chars_eq(name, &chars_of("Bottom")) {
        Some(RoleFilter::Bot)
    } else if chars_eq(name, &chars_of("Support")) {
        Some(RoleFilter::Support)
    } else {
        None
    }
}

fn read_positions_of(text: &[char]) -> (roles: Option<Vec<RoleFilter>>)
    ensures
        match read_positions(split(text@, '+')) {
            Some(r) => roles matches Some(v) && v@ == r,
            None => roles is None,
        },
{
    let names = split_chars(text, '+');
    let ghost views = names@.map_values(|p: Vec<char>| p@);
    let mut roles: Vec<RoleFilter> = Vec::new();
    let mut i: usize = 0;
    assert(views.subrange(0, 0) =~= Seq::<Seq<char>>::empty());
    while i < names.len()
        invariant
            i <= names@.len(),
            views == names@.map_values(|p: Vec<char>| p@),
            views == split(text@, '+'),
            read_positions(views.subrange(0, i as int)) == Some(roles@),
        decreases names.len() - i,
    {
        let ghost prefix = views.subrange(0, i + 1);
        assert(prefix.drop_last() =~= views.subrange(0, i as int));
        assert(prefix.last() == names@[i as int]@);
        if roles.len() < 2 && names[i].len() > 0 {
            match position_role_of(&names[i]) {
                None => {
                    proof {
                        lemma_positions_stop(views, i + 1);
                    }
                    return None;
                },
                Some(role) => {
                    let mut present = false;
                    let mut j: usize = 0;
                    while j < roles.len()
                        invariant
                            j <= roles@.len(),
                            present == (exists|k: int| 0 <= k < j && roles@[k] == role),
                        decreases roles.len() - j,
                    {
                        if roles[j] == role {
                            present = true;
                        }
                        j = j + 1;
                    }
                    assert(present == roles@.contains(role));
                    if !present {
                        roles.push(role);
                    }
                },
            }
        }
        i = i + 1;
    }
    assert(views.subrange(0, names@.len() as int) =~= views);
    Some(roles)
}

proof fn lemma_positions_stop(names: Seq<Seq<char>>, k: int)
    requires
        0 <= k <= names.len(),
        read_positions(names.subrange(0, k)) is None,
    ensures
        read_positions(names) is None,
    decreases names.len() - k,
{
    if k == names.len() {
        assert(names.subrange(0, k) =~= names);
    } else {
        assert(names.subrange(0, k + 1).drop_last() =~= names.subrange(0, k));
        lemma_positions_stop(names, k + 1);
    }
}

fn read_entry_of(entry: &Vec<char>) -> (read: Result<ActiveChampionCatalogEntry, &'static str>)
    requires
        !(read_entry(entry@) is Panics),
    ensures
        match read_entry(entry@) {
            Outcome::Gives(x) => read matches Ok(e) && e.champion_id@ == x.0 && e.positions@
                == x.1,
            Outcome::Fails(m) => read matches Err(e) && e@ == m,
            Outcome::Panics => false,
        },
{
    let (id_chars, positions) = match split_once_chars(entry, ',') {
        Some(pair) => pair,
        None => (entry.clone(), Vec::new()),
    };
    let id_text = string_from_chars(&id_chars);
    let champion_id = match hex_decode(id_text.as_str()) {
        Ok(id) => id,
        Err(e) => {
            return Err(e);
        },
    };
    match read_positions_of(&positions) {
        Some(roles) => Ok(ActiveChampionCatalogEntry { champion_id, positions: roles }),
        None => Err("INVALID_CHAMPION_POSITION"),
    }
}

/// Puts an entry into a list kept in increasing id order, unless its id is already there.
fn insert_first(list: &mut Vec<ActiveChampionCatalogEntry>, entry: ActiveChampionCatalogEntry)
    requires
        sorted_strict(entry_ids(old(list)@)),
    ensures
        sorted_strict(entry_ids(final(list)@)),
        entry_ids(final(list)@).to_set() == entry_ids(old(list)@).to_set().insert(
            entry.champion_id@,
        ),
        forall|i: int|
            0 <= i < final(list)@.len() ==> (entry_ids(old(list)@).contains(
                #[trigger] final(list)@[i].champion_id@,
            ) && exists|j: int|
                0 <= j < old(list)@.len() && old(list)@[j] == final(list)@[i]) || (
            !entry_ids(old(list)@).contains(final(list)@[i].champion_id@)
                && final(list)@[i] == entry),
{
    let ghost before = list@;
    let ghost keys = entry_ids(before);
    let mut p: usize = 0;
    while p < list.len() && str_lt(list[p].champion_id.as_str(), entry.champion_id.as_str())
        invariant
            p <= list@.len(),
            before == list@,
            keys == entry_ids(before),
            forall|k: int| 0 <= k < p ==> chars_lt(#[trigger] keys[k], entry.champion_id@),
        decreases list.len() - p,
    {
        p = p + 1;
    }
    if p < list.len() && list[p].champion_id == entry.champion_id {
        assert(keys.to_set() =~= keys.to_set().insert(entry.champion_id@)) by {
            assert(keys[p as int] == entry.champion_id@);
        }
        assert forall|i: int| 0 <= i < list@.len() implies entry_ids(before).contains(
            #[trigger] list@[i].champion_id@,
        ) by {
            assert(keys[i] == list@[i].champion_id@);
        }
        return;
    }
    if p < list.len() {
        proof {
            lemma_lt_total(entry.champion_id@, keys[p as int]);
        }
    }
    let ghost id = entry.champion_id@;
    let ghost e = entry;
    assert(!keys.contains(id)) by {
        if keys.contains(id) {
            let k = choose|k: int| 0 <= k < keys.len() && keys[k] == id;
            if k < p {
                crate::ordered::lemma_lt_irreflexive(id);
            } else if k > p {
                assert(chars_lt(keys[p as int], keys[k]));
                crate::ordered::lemma_lt_asymmetric(id, keys[p as int]);
                lemma_lt_transitive(id, keys[p as int], keys[k]);
                crate::ordered::lemma_lt_irreflexive(id);
            }
        }
    }
    list.insert(p, entry);
    let ghost after = entry_ids(list@);
    assert(list@ =~= before.insert(p as int, e));
    assert(after =~= keys.insert(p as int, id));
    assert forall|i: int, j: int| 0 <= i < j < after.len() implies chars_lt(
        #[trigger] after[i],
        #[trigger] after[j],
    ) by {
        if j < p {
        } else if j == p {
        } else if i < p {
            lemma_lt_transitive(after[i], id, after[p + 1]);
            if j > p + 1 {
                lemma_lt_transitive(after[i], after[p + 1], after[j]);
            }
        } else if i == p {
            if j > p + 1 {
                lemma_lt_transitive(id, after[p + 1], after[j]);
            }
        }
    }
    assert(after.to_set() =~= keys.to_set().insert(id)) by {
        assert forall|x: Seq<char>| after.to_set().contains(x) implies keys.to_set().insert(
            id,
        ).contains(x) by {
            let k = choose|k: int| 0 <= k < after.len() && after[k] == x;
            if k < p {
                assert(keys[k] == x);
            } else if k > p {
                assert(keys[k - 1] == x);
            }
        }
        assert forall|x: Seq<char>| keys.to_set().insert(id).contains(x) implies after.to_set().contains(
            x,
        ) by {
            if x == id {
                assert(after[p as int] == x);
            } else {
                let k = choose|k: int| 0 <= k < keys.len() && keys[k] == x;
                if k < p {
                    assert(after[k] == x);
                } else {
                    assert(after[k + 1] == x);
                }
            }
        }
    }
    assert forall|i: int| 0 <= i < list@.len() implies (entry_ids(before).contains(
        #[trigger] list@[i].champion_id@,
    ) && exists|j: int| 0 <= j < before.len() && before[j] == list@[i]) || (!entry_ids(
        before,
    ).contains(list@[i].champion_id@) && list@[i] == e) by {
        if i < p {
            assert(list@[i] == before[i]);
            assert(keys[i] == list@[i].champion_id@);
        } else if i > p {
            assert(list@[i] == before[i - 1]);
            assert(keys[i - 1] == list@[i].champion_id@);
        }
    }
}

/// What the companion reads from an active catalog line: its non-empty entries, in order.
pub open spec fn active_payload(payload: Seq<char>) -> Outcome<Seq<(Seq<char>, Seq<RoleFilter>)>> {
    read_entries(split(payload, ';'))
}

pub open spec fn entry_pairs(entries: Seq<ActiveChampionCatalogEntry>) -> Seq<
    (Seq<char>, Seq<RoleFilter>),
> {
    entries.map_values(|e: ActiveChampionCatalogEntry| (e.champion_id@, e.positions@))
}

fn copy_entry(entry: &ActiveChampionCatalogEntry) -> (copy: ActiveChampionCatalogEntry)
    ensures
        copy.champion_id@ == entry.champion_id@,
        copy.positions@ == entry.positions@,
{
    let mut positions: Vec<RoleFilter> = Vec::new();
    let mut i: usize = 0;
    while i < entry.positions.len()
        invariant
            i <= entry.positions@.len(),
            positions@ == entry.positions@.subrange(0, i as int),
        decreases entry.positions.len() - i,
    {
        positions.push(entry.positions[i]);
        assert(entry.positions@.subrange(0, i + 1) =~= entry.positions@.subrange(0, i as int).push(
            entry.positions@[i as int],
        ));
        i = i + 1;
    }
    assert(entry.positions@.subrange(0, entry.positions@.len() as int) =~= entry.positions@);
    ActiveChampionCatalogEntry { champion_id: entry.champion_id.clone(), positions }
}

fn read_entry_panics(entry: &Vec<char>) -> (panics: bool)
    ensures
        panics == (read_entry(entry@) is Panics),
{
    let id_chars = match split_once_chars(entry, ',') {
        Some(pair) => pair.0,
        None => entry.clone(),
    };
    let id_text = string_from_chars(&id_chars);
    hex_decode_panics(id_text.as_str())
}

/// Whether reading an active catalog line would panic: the first non-empty entry that is not
/// read cleanly has an id whose byte pairs cut a character. A caller tests this before
/// [`parse_active_champion_payload`].
pub fn active_payload_panics(payload: &str) -> (panics: bool)
    ensures
        panics == (active_payload(payload@) is Panics),
{
    let chars = chars_of(payload);
    let pieces = split_chars(&chars, ';');
    let ghost views = pieces@.map_values(|p: Vec<char>| p@);
    let mut i: usize = 0;
    assert(views.subrange(0, 0) =~= Seq::<Seq<char>>::empty());
    while i < pieces.len()
        invariant
            i <= pieces@.len(),
            views == pieces@.map_values(|p: Vec<char>| p@),
            views == split(payload@, ';'),
            read_entries(views.subrange(0, i as int)) is Gives,
        decreases pieces.len() - i,
    {
        let ghost prefix = views.subrange(0, i + 1);
        assert(prefix.drop_last() =~= views.subrange(0, i as int));
        assert(prefix.last() == pieces@[i as int]@);
        if pieces[i].len() > 0 {
            if read_entry_panics(&pieces[i]) {
                proof {
                    lemma_entries_stop(views, i + 1);
                }
                return true;
            }
            match read_entry_of(&pieces[i]) {
                Err(_) => {
                    proof {
                        lemma_entries_stop(views, i + 1);
                    }
                    return false;
                },
                Ok(_) => {},
            }
        }
        i = i + 1;
    }
    assert(views.subrange(0, pieces@.len() as int) =~= views);
    false
}

/// Reads the active catalog line the in-game client sends: every non-empty entry must decode
/// and name known positions; the result holds each non-blank champion id once, in increasing
/// order, with the positions of its first entry.
pub fn parse_active_champion_payload(payload: &str) -> (parsed: Result<
    Vec<ActiveChampionCatalogEntry>,
    &'static str,
>)
    requires
        !(active_payload(payload@) is Panics),
    ensures
        match active_payload(payload@) {
            Outcome::Gives(list) => parsed matches Ok(entries) && sorted_strict(
                entry_ids(entries@),
            ) && entry_ids(entries@).to_set() == listed_ids(list) && forall|i: int|
                0 <= i < entries@.len() ==> (#[trigger] entries@[i]).positions@ == first_roles(
                    list,
                    entries@[i].champion_id@,
                ),
            Outcome::Fails(m) => parsed matches Err(e) && e@ == m,
            Outcome::Panics => false,
        },
{
    let chars = chars_of(payload);
    let pieces = split_chars(&chars, ';');
    let ghost views = pieces@.map_values(|p: Vec<char>| p@);
    let mut read: Vec<ActiveChampionCatalogEntry> = Vec::new();
    let mut i: usize = 0;
    assert(views.subrange(0, 0) =~= Seq::<Seq<char>>::empty());
    assert(entry_pairs(read@) =~= Seq::<(Seq<char>, Seq<RoleFilter>)>::empty());
    while i < pieces.len()
        invariant
            i <= pieces@.len(),
            views == pieces@.map_values(|p: Vec<char>| p@),
            views == split(payload@, ';'),
            !(read_entries(views) is Panics),
            read_entries(views.subrange(0, i as int)) == Outcome::Gives(entry_pairs(read@)),
        decreases pieces.len() - i,
    {
        let ghost prefix = views.subrange(0, i + 1);
        assert(prefix.drop_last() =~= views.subrange(0, i as int));
        assert(prefix.last() == pieces@[i as int]@);
        if pieces[i].len() > 0 {
            proof {
                if read_entry(pieces@[i as int]@) is Panics {
                    lemma_entries_stop(views, i + 1);
                    assert(false);
                }
            }
            match read_entry_of(&pieces[i]) {
                Err(e) => {
                    proof {
                        lemma_entries_stop(views, i + 1);
                    }
                    return Err(e);
                },
                Ok(entry) => {
                    let ghost before = entry_pairs(read@);
                    read.push(entry);
                    assert(entry_pairs(read@) =~= before.push(
                        (entry.champion_id@, entry.positions@),
                    ));
                },
            }
        }
        i = i + 1;
    }
    assert(views.subrange(0, pieces@.len() as int) =~= views);
    let ghost list = entry_pairs(read@);
    let mut out: Vec<ActiveChampionCatalogEntry> = Vec::new();
    let mut j: usize = 0;
    assert(entry_ids(out@).to_set() =~= listed_ids(list.subrange(0, 0)));
    while j < read.len()
        invariant
            j <= read@.len(),
            list == entry_pairs(read@),
            sorted_strict(entry_ids(out@)),
            entry_ids(out@).to_set() == listed_ids(list.subrange(0, j as int)),
            forall|k: int|
                0 <= k < out@.len() ==> (#[trigger] out@[k]).positions@ == first_roles(
                    list.subrange(0, j as int),
                    out@[k].champion_id@,
                ),
        decreases read.len() - j,
    {
        let ghost prefix = list.subrange(0, j as int);
        let ghost x = list[j as int];
        assert(list.subrange(0, j + 1) =~= prefix.push(x));
        assert(x == (read@[j as int].champion_id@, read@[j as int].positions@));
        let ghost old_out = out@;
        proof {
            assert forall|k: int| 0 <= k < old_out.len() implies first_roles(
                prefix.push(x),
                (#[trigger] old_out[k]).champion_id@,
            ) == first_roles(prefix, old_out[k].champion_id@) by {
                let id = old_out[k].champion_id@;
                assert(entry_ids(old_out)[k] == id);
                assert(entry_ids(old_out).to_set().contains(id));
                assert(listed_ids(prefix).contains(id));
                lemma_first_roles_push(prefix, x, id);
            }
        }
        if !str_is_blank(read[j].champion_id.as_str()) {
            let entry = copy_entry(&read[j]);
            let ghost id = x.0;
            insert_first(&mut out, entry);
            proof {
                assert(!entry_ids(old_out).contains(id) ==> !(exists|i: int|
                    0 <= i < prefix.len() && prefix[i].0 == id)) by {
                    if exists|i: int| 0 <= i < prefix.len() && prefix[i].0 == id {
                        assert(listed_ids(prefix).contains(id));
                        assert(entry_ids(old_out).to_set().contains(id));
                    }
                }
                lemma_first_roles_push(prefix, x, id);
                assert forall|k: int| 0 <= k < out@.len() implies (#[trigger] out@[k]).positions@
                    == first_roles(prefix.push(x), out@[k].champion_id@) by {
                    if entry_ids(old_out).contains(out@[k].champion_id@) {
                        let m = choose|m: int| 0 <= m < old_out.len() && old_out[m] == out@[k];
                        assert(old_out[m].positions@ == first_roles(
                            prefix.push(x),
                            old_out[m].champion_id@,
                        ));
                    }
                }
                assert(listed_ids(prefix.push(x)) =~= listed_ids(prefix).insert(id)) by {
                    assert forall|y: Seq<char>| listed_ids(prefix.push(x)).contains(y) implies listed_ids(
                        prefix,
                    ).insert(id).contains(y) by {
                        let i = choose|i: int|
                            0 <= i < prefix.push(x).len() && prefix.push(x)[i].0 == y && !is_blank(y);
                        if i < prefix.len() {
                            assert(prefix[i].0 == y);
                        }
                    }
                    assert forall|y: Seq<char>| listed_ids(prefix).insert(id).contains(y) implies listed_ids(
                        prefix.push(x),
                    ).contains(y) by {
                        if y == id {
                            assert(prefix.push(x)[prefix.len() as int].0 == y);
                        } else {
                            let i = choose|i: int|
                                0 <= i < prefix.len() && prefix[i].0 == y && !is_blank(y);
                            assert(prefix.push(x)[i].0 == y);
                        }
                    }
                }
            }
        } else {
            proof {
                assert(listed_ids(prefix.push(x)) =~= listed_ids(prefix)) by {
                    assert forall|y: Seq<char>| listed_ids(prefix.push(x)).contains(y) implies listed_ids(
                        prefix,
                    ).contains(y) by {
                        let i = choose|i: int|
                            0 <= i < prefix.push(x).len() && prefix.push(x)[i].0 == y && !is_blank(y);
                        if i < prefix.len() {
                            assert(prefix[i].0 == y);
                        }
                    }
                    assert forall|y: Seq<char>| listed_ids(prefix).contains(y) implies listed_ids(
                        prefix.push(x),
                    ).contains(y) by {
                        let i = choose|i: int|
                            0 <= i < prefix.len() && prefix[i].0 == y && !is_blank(y);
                        assert(prefix.push(x)[i].0 == y);
                    }
                }
            }
        }
        j = j + 1;
    }
    assert(list.subrange(0, read@.len() as int) =~= list);
    Ok(out)
}

/// Position names as the in-game client writes them: at most two, each a known name, none
/// twice.
pub open spec fn labels_ok(labels: Seq<Seq<char>>) -> bool {
    &&& labels.len() <= 2
    &&& labels.no_duplicates()
    &&& forall|i: int| 0 <= i < labels.len() ==> (#[trigger] position_role(labels[i])) is Some
}

pub open spec fn roles_of(labels: Seq<Seq<char>>) -> Seq<RoleFilter> {
    Seq::new(labels.len(), |i: int| position_role(labels[i])->0)
}

proof fn lemma_ascii_bytes(bytes: Seq<u8>)
    requires
        forall|i: int| 0 <= i < bytes.len() ==> bytes[i] < 128,
    ensures
        valid_utf8(bytes),
        forall|i: int| 0 <= i <= bytes.len() ==> #[trigger] is_char_boundary(bytes, i),
    decreases bytes.len(),
{
    if bytes.len() > 0 {
        let rest = bytes.drop_first();
        lemma_ascii_bytes(rest);
        let b = bytes[0];
        assert(b & 0x7f == b) by (bit_vector)
            requires
                b < 128,
        ;
        assert(pop_first_scalar(bytes) =~= rest);
        assert forall|i: int| 0 <= i <= bytes.len() implies #[trigger] is_char_boundary(
            bytes,
            i,
        ) by {
            if i > 0 {
                assert(is_char_boundary(rest, i - 1));
            }
        }
    }
}

proof fn lemma_hex_digit_byte(n: int)
    requires
        0 <= n < 16,
    ensures
        hex_byte_value(hex_digit(n) as u8) == Some(n),
        (hex_digit(n) as u8) < 128,
        hex_digit(n) != ',' && hex_digit(n) != ';' && hex_digit(n) != '+',
{
}

proof fn lemma_radix_of_hex(bytes: Seq<u8>, k: nat)
    requires
        k <= bytes.len(),
    ensures
        radix_pairs(encode_utf8(hex_of_bytes(bytes)), k) == Outcome::Gives(
            bytes.subrange(k as int, bytes.len() as int),
        ),
    decreases bytes.len() - k,
{
    let hex = hex_of_bytes(bytes);
    assert(is_ascii_chars(hex)) by {
        assert forall|i: int| 0 <= i < hex.len() implies '\0' <= #[trigger] hex[i] <= '\u{7f}' by {
            if i % 2 == 0 {
                lemma_hex_digit_byte((bytes[i / 2] / 16) as int);
            } else {
                lemma_hex_digit_byte((bytes[i / 2] % 16) as int);
            }
        }
    }
    is_ascii_chars_encode_utf8(hex);
    let e = encode_utf8(hex);
    assert forall|i: int| 0 <= i < e.len() implies e[i] < 128 by {
        assert(e[i] == hex[i] as u8);
    }
    lemma_ascii_bytes(e);
    if k == bytes.len() {
        assert(bytes.subrange(k as int, bytes.len() as int) =~= Seq::<u8>::empty());
    } else {
        lemma_radix_of_hex(bytes, k + 1);
        let ki = k as int;
        let b = bytes[ki];
        lemma_hex_digit_byte((b / 16) as int);
        lemma_hex_digit_byte((b % 16) as int);
        assert(e[2 * ki] == hex[2 * ki] as u8);
        assert(e[2 * ki + 1] == hex[2 * ki + 1] as u8);
        assert(hex[2 * ki] == hex_digit((b / 16) as int));
        assert(hex[2 * ki + 1] == hex_digit((b % 16) as int));
        assert(is_char_boundary(e, 2 * ki));
        assert(is_char_boundary(e, 2 * ki + 2));
        assert(((b / 16) * 16 + b % 16) as u8 == b);
        assert(radix_pair(e[2 * ki], e[2 * ki + 1]) == Some(b));
        assert(seq![b] + bytes.subrange(ki + 1, bytes.len() as int) =~= bytes.subrange(
            ki,
            bytes.len() as int,
        ));
    }
}

proof fn lemma_radix_decode_hex(id: Seq<char>)
    ensures
        radix_decode(hex_of_bytes(encode_utf8(id))) == Outcome::Gives(id),
{
    broadcast use {encode_utf8_valid_utf8, encode_utf8_decode_utf8};

    let bytes = encode_utf8(id);
    lemma_radix_of_hex(bytes, 0);
    assert(bytes.subrange(0, bytes.len() as int) =~= bytes);
    let hex = hex_of_bytes(bytes);
    assert(is_ascii_chars(hex)) by {
        assert forall|i: int| 0 <= i < hex.len() implies '\0' <= #[trigger] hex[i] <= '\u{7f}' by {
            if i % 2 == 0 {
                lemma_hex_digit_byte((bytes[i / 2] / 16) as int);
            } else {
                lemma_hex_digit_byte((bytes[i / 2] % 16) as int);
            }
        }
    }
    is_ascii_chars_encode_utf8(hex);
}

proof fn lemma_label_facts(label: Seq<char>)
    requires
        position_role(label) is Some,
    ensures
        label.len() > 0,
        free_of(label, '+'),
        free_of(label, ';'),
{
    reveal_strlit("Top");
    reveal_strlit("Jungle");
    reveal_strlit("Mid");
    reveal_strlit("Bottom");
    reveal_strlit("Support");
}

proof fn lemma_read_labels(labels: Seq<Seq<char>>)
    requires
        labels_ok(labels),
    ensures
        read_positions(labels) == Some(roles_of(labels)),
    decreases labels.len(),
{
    if labels.len() > 0 {
        let init = labels.drop_last();
        assert forall|i: int| 0 <= i < init.len() implies (#[trigger] position_role(
            init[i],
        )) is Some by {
            assert(init[i] == labels[i]);
        }
        assert(init.no_duplicates()) by {
            assert forall|i: int, j: int| 0 <= i < init.len() && 0 <= j < init.len() && i != j implies init[i]
                != init[j] by {
                assert(init[i] == labels[i] && init[j] == labels[j]);
            }
        }
        lemma_read_labels(init);
        let last = labels.last();
        assert(position_role(labels[labels.len() - 1]) is Some);
        lemma_label_facts(last);
        let role = position_role(last)->0;
        assert(!roles_of(init).contains(role)) by {
            if roles_of(init).contains(role) {
                let i = choose|i: int| 0 <= i < roles_of(init).len() && roles_of(init)[i] == role;
                assert(position_role(init[i]) is Some);
                assert(position_role(init[i])->0 == role);
                reveal_strlit("Top");
                reveal_strlit("Jungle");
                reveal_strlit("Mid");
                reveal_strlit("Bottom");
                reveal_strlit("Support");
                assert(init[i] == last);
                assert(labels[i] == labels[labels.len() - 1]);
            }
        }
        assert(roles_of(init).push(role) =~= roles_of(labels));
    }
}

proof fn lemma_read_joined_labels(labels: Seq<Seq<char>>)
    requires
        labels_ok(labels),
    ensures
        read_positions(split(join(labels, '+'), '+')) == Some(roles_of(labels)),
{
    if labels.len() == 0 {
        assert(split(join(labels, '+'), '+') =~= seq![Seq::<char>::empty()]);
        let one = seq![Seq::<char>::empty()];
        assert(one.drop_last() =~= Seq::<Seq<char>>::empty());
        assert(read_positions(one.drop_last()) == Some(Seq::<RoleFilter>::empty()));
        assert(read_positions(one) == Some(Seq::<RoleFilter>::empty()));
        assert(roles_of(labels) =~= Seq::<RoleFilter>::empty());
    } else {
        assert forall|i: int| 0 <= i < labels.len() implies free_of(#[trigger] labels[i], '+') by {
            lemma_label_facts(labels[i]);
        }
        lemma_split_join(labels, '+');
        lemma_read_labels(labels);
    }
}

proof fn lemma_join_free(parts: Seq<Seq<char>>, sep: char, c: char)
    requires
        sep != c,
        forall|i: int| 0 <= i < parts.len() ==> free_of(#[trigger] parts[i], c),
    ensures
        free_of(join(parts, sep), c),
    decreases parts.len(),
{
    if parts.len() > 1 {
        let init = parts.drop_last();
        assert forall|i: int| 0 <= i < init.len() implies free_of(#[trigger] init[i], c) by {
            assert(init[i] == parts[i]);
        }
        lemma_join_free(init, sep, c);
        assert(free_of(parts.last(), c));
        let j = join(init, sep).push(sep) + parts.last();
        assert forall|i: int| 0 <= i < j.len() implies j[i] != c by {
            if i > join(init, sep).len() {
                assert(j[i] == parts.last()[i - join(init, sep).len() - 1]);
            }
        }
    } else if parts.len() == 1 {
        assert(free_of(parts[0], c));
    }
}

proof fn lemma_read_catalog_entry(id: Seq<char>, table: Seq<(Seq<char>, Seq<Seq<char>>)>)
    requires
        labels_ok(positions_in(table, id)),
    ensures
        read_entry(catalog_entry(id, table)) == Outcome::Gives((id, roles_of(positions_in(table, id)))),
        catalog_entry(id, table).len() > 0,
        free_of(catalog_entry(id, table), ';'),
{
    let labels = positions_in(table, id);
    let hex = hex_of_bytes(encode_utf8(id));
    let joined = join(labels, '+');
    let entry = catalog_entry(id, table);
    assert forall|i: int| 0 <= i < hex.len() implies hex[i] != ',' && hex[i] != ';' by {
        if i % 2 == 0 {
            lemma_hex_digit_byte((encode_utf8(id)[i / 2] / 16) as int);
        } else {
            lemma_hex_digit_byte((encode_utf8(id)[i / 2] % 16) as int);
        }
    }
    assert(entry[hex.len() as int] == ',');
    lemma_first_index_at(entry, ',', hex.len() as int);
    assert(entry.subrange(0, hex.len() as int) =~= hex);
    assert(entry.subrange(hex.len() as int + 1, entry.len() as int) =~= joined);
    lemma_radix_decode_hex(id);
    lemma_read_joined_labels(labels);
    assert forall|i: int| 0 <= i < labels.len() implies free_of(#[trigger] labels[i], ';') by {
        lemma_label_facts(labels[i]);
    }
    lemma_join_free(labels, '+', ';');
    assert forall|i: int| 0 <= i < entry.len() implies entry[i] != ';' by {
        if i > hex.len() {
            assert(entry[i] == joined[i - hex.len() - 1]);
        }
    }
}

pub open spec fn expected_entries(order: Seq<Seq<char>>, table: Seq<(Seq<char>, Seq<Seq<char>>)>) -> Seq<
    (Seq<char>, Seq<RoleFilter>),
> {
    Seq::new(order.len(), |i: int| (order[i], roles_of(positions_in(table, order[i]))))
}

proof fn lemma_read_catalog_entries(order: Seq<Seq<char>>, table: Seq<(Seq<char>, Seq<Seq<char>>)>)
    requires
        forall|i: int| 0 <= i < order.len() ==> labels_ok(positions_in(table, #[trigger] order[i])),
    ensures
        read_entries(Seq::new(order.len(), |i: int| catalog_entry(order[i], table)))
            == Outcome::Gives(expected_entries(order, table)),
    decreases order.len(),
{
    let texts = Seq::new(order.len(), |i: int| catalog_entry(order[i], table));
    if order.len() == 0 {
        assert(texts =~= Seq::<Seq<char>>::empty());
        assert(expected_entries(order, table) =~= Seq::<(Seq<char>, Seq<RoleFilter>)>::empty());
    } else {
        let init = order.drop_last();
        assert forall|i: int| 0 <= i < init.len() implies labels_ok(
            positions_in(table, #[trigger] init[i]),
        ) by {
            assert(init[i] == order[i]);
        }
        lemma_read_catalog_entries(init, table);
        assert(texts.drop_last() =~= Seq::new(init.len(), |i: int| catalog_entry(init[i], table)));
        let last = order.last();
        assert(labels_ok(positions_in(table, order[order.len() - 1])));
        lemma_read_catalog_entry(last, table);
        assert(texts.last() == catalog_entry(last, table));
        assert(expected_entries(init, table).push((last, roles_of(positions_in(table, last))))
            =~= expected_entries(order, table));
    }
}

/// What the in-game client sends, the companion reads back: for champions listed in any
/// order with position names as the client writes them, every entry comes back in that order
/// with its roles.
pub proof fn lemma_active_catalog_round_trip(
    order: Seq<Seq<char>>,
    table: Seq<(Seq<char>, Seq<Seq<char>>)>,
)
    requires
        order.len() > 0,
        forall|i: int| 0 <= i < order.len() ==> labels_ok(positions_in(table, #[trigger] order[i])),
    ensures
        active_payload(catalog_text(order, table)) == Outcome::Gives(expected_entries(order, table)),
{
    let texts = Seq::new(order.len(), |i: int| catalog_entry(order[i], table));
    assert forall|i: int| 0 <= i < texts.len() implies free_of(#[trigger] texts[i], ';') by {
        assert(labels_ok(positions_in(table, order[i])));
        lemma_read_catalog_entry(order[i], table);
    }
    lemma_split_join(texts, ';');
    lemma_read_catalog_entries(order, table);
}

/// The position names the client derives from the game's position indices are always ones
/// the companion reads: at most two known names, none twice.
pub proof fn lemma_game_positions_readable(positions: Seq<usize>)
    ensures
        labels_ok(position_labels(positions)),
    decreases positions.len(),
{
    reveal_strlit("Top");
    reveal_strlit("Jungle");
    reveal_strlit("Mid");
    reveal_strlit("Bottom");
    reveal_strlit("Support");
    if positions.len() > 0 {
        lemma_game_positions_readable(positions.drop_last());
        let before = position_labels(positions.drop_last());
        match position_label(positions.last()) {
            Some(label) => {
                if before.len() < 2 && !before.contains(label) {
                    let after = before.push(label);
                    assert forall|i: int| 0 <= i < after.len() implies (#[trigger] position_role(
                        after[i],
                    )) is Some by {
                        if i < before.len() {
                            assert(after[i] == before[i]);
                        }
                    }
                    assert(after.no_duplicates()) by {
                        assert forall|i: int, j: int|
                            0 <= i < after.len() && 0 <= j < after.len() && i != j implies after[i]
                            != after[j] by {
                            if i < before.len() && j < before.len() {
                                assert(after[i] == before[i] && after[j] == before[j]);
                            } else if i < before.len() {
                                assert(after[i] == before[i]);
                            } else {
                                assert(after[j] == before[j]);
                            }
                        }
                    }
                }
            },
            None => {},
        }
    }
}

} // verus!
