//! The text encodings shared by the in-game client and the companion: champion ids as
//! lowercase hexadecimal UTF-8, the tier sync line and the active catalog line.
use vstd::prelude::*;
use vstd::utf8::*;

use crate::ordered::{
    chars_lt, contains_string, lemma_lt_total, lemma_lt_transitive, lemma_sorted_of, sorted_of,
    sorted_strict, sorted_unique, str_lt, strs,
};
use crate::text::{
    string_from_utf8,
    append_str, chars_eq, chars_of, decimal_digits, decimal_string, join, join_strings,
    free_of, is_white_space, lemma_first_index_at, lemma_parse_decimal_digits,
    lemma_decimal_digits_value, lemma_split_join, leading_ws, trailing_ws, is_blank,
    parse_usize, parse_usize_chars, push_char, split, split_chars, split_once, split_once_chars,
    string_from_chars, sub_chars, trim, trim_chars,
};

verus! {

/// The lowercase hexadecimal digit for a value below sixteen.
pub open spec fn hex_digit(n: int) -> char {
    if n < 10 {
        (48 + n) as char
    } else {
        (87 + n) as char
    }
}

/// Two lowercase hexadecimal digits per byte, high nibble first.
pub open spec fn hex_of_bytes(bytes: Seq<u8>) -> Seq<char> {
    Seq::new(
        2 * bytes.len(),
        |i: int|
            if i % 2 == 0 {
                hex_digit((bytes[i / 2] / 16) as int)
            } else {
                hex_digit((bytes[i / 2] % 16) as int)
            },
    )
}

/// The value of a hexadecimal digit of either case.
pub open spec fn hex_value(c: char) -> Option<int> {
    if '0' <= c <= '9' {
        Some(c as int - 48)
    } else if 'a' <= c <= 'f' {
        Some(c as int - 87)
    } else if 'A' <= c <= 'F' {
        Some(c as int - 55)
    } else {
        None
    }
}

pub open spec fn all_hex(s: Seq<char>) -> bool {
    forall|i: int| 0 <= i < s.len() ==> (#[trigger] hex_value(s[i])) is Some
}

/// The bytes spelled by pairs of hexadecimal digits.
pub open spec fn bytes_of_hex(s: Seq<char>) -> Seq<u8> {
    Seq::new(
        s.len() / 2,
        |i: int| (hex_value(s[2 * i])->0 * 16 + hex_value(s[2 * i + 1])->0) as u8,
    )
}

/// The text spelled in hexadecimal UTF-8: none when the length is odd, a character is not a
/// hexadecimal digit, or the bytes are not valid UTF-8.
pub open spec fn decode_hex(s: Seq<char>) -> Option<Seq<char>> {
    if s.len() % 2 == 0 && all_hex(s) && valid_utf8(bytes_of_hex(s)) {
        Some(decode_utf8(bytes_of_hex(s)))
    } else {
        None
    }
}

fn hex_digit_char(n: u8) -> (c: char)
    requires
        n < 16,
    ensures
        c == hex_digit(n as int),
{
    if n < 10 {
        (48u8 + n) as char
    } else {
        (87u8 + n) as char
    }
}

fn hex_value_of(c: char) -> (v: Option<u8>)
    ensures
        v matches Some(x) ==> hex_value(c) == Some(x as int) && x < 16,
        v is None ==> hex_value(c) is None,
{
    if '0' <= c && c <= '9' {
        Some((c as u32 - 48) as u8)
    } else if 'a' <= c && c <= 'f' {
        Some((c as u32 - 87) as u8)
    } else if 'A' <= c && c <= 'F' {
        Some((c as u32 - 55) as u8)
    } else {
        None
    }
}

/// The UTF-8 bytes of `value`, each written as two lowercase hexadecimal digits.
pub fn hex_encode(value: &str) -> (encoded: String)
    ensures
        encoded@ == hex_of_bytes(encode_utf8(value@)),
{
    let bytes = value.as_bytes();
    let mut encoded = String::new();
    let mut i: usize = 0;
    while i < bytes.len()
        invariant
            i <= bytes@.len(),
            bytes@ == encode_utf8(value@),
            encoded@ == hex_of_bytes(bytes@.subrange(0, i as int)),
        decreases bytes.len() - i,
    {
        let byte = bytes[i];
        let ghost before = encoded@;
        push_char(&mut encoded, hex_digit_char(byte / 16));
        push_char(&mut encoded, hex_digit_char(byte % 16));
        assert(hex_of_bytes(bytes@.subrange(0, i + 1)) =~= before.push(
            hex_digit((byte / 16) as int),
        ).push(hex_digit((byte % 16) as int)));
        i = i + 1;
    }
    assert(bytes@.subrange(0, bytes@.len() as int) =~= bytes@);
    encoded
}

/// Reads text written by [`hex_encode`]; digits of either case are accepted.
pub fn hex_decode(encoded: &str) -> (decoded: Result<String, &'static str>)
    ensures
        match decoded {
            Ok(text) => decode_hex(encoded@) == Some(text@),
            Err(e) => decode_hex(encoded@) is None && e@ == "INVALID_CHAMPION_ENCODING"@,
        },
{
    let chars = chars_of(encoded);
    if chars.len() % 2 != 0 {
        return Err("INVALID_CHAMPION_ENCODING");
    }
    let mut bytes: Vec<u8> = Vec::new();
    let mut i: usize = 0;
    while i < chars.len()
        invariant
            chars@ == encoded@,
            chars@.len() % 2 == 0,
            i % 2 == 0,
            i <= chars@.len(),
            bytes@.len() == i / 2,
            all_hex(chars@.subrange(0, i as int)),
            forall|k: int|
                0 <= k < i / 2 ==> #[trigger] bytes@[k] == (hex_value(chars@[2 * k])->0 * 16
                    + hex_value(chars@[2 * k + 1])->0) as u8,
        decreases chars.len() - i,
    {
        let high = match hex_value_of(chars[i]) {
            Some(v) => v,
            None => {
                assert(!all_hex(chars@)) by {
                    assert(hex_value(chars@[i as int]) is None);
                }
                return Err("INVALID_CHAMPION_ENCODING");
            },
        };
        let low = match hex_value_of(chars[i + 1]) {
            Some(v) => v,
            None => {
                assert(!all_hex(chars@)) by {
                    assert(hex_value(chars@[i + 1]) is None);
                }
                return Err("INVALID_CHAMPION_ENCODING");
            },
        };
        let ghost prefix = chars@.subrange(0, i as int);
        bytes.push(high * 16 + low);
        assert forall|k: int| 0 <= k < i + 2 implies (#[trigger] hex_value(
            chars@.subrange(0, i + 2)[k],
        )) is Some by {
            if k < i {
                assert(chars@.subrange(0, i + 2)[k] == prefix[k]);
                assert(hex_value(prefix[k]) is Some);
            }
        }
        i = i + 2;
    }
    assert(chars@.subrange(0, i as int) =~= chars@);
    assert(bytes@ =~= bytes_of_hex(encoded@));
    match string_from_utf8(bytes) {
        Some(text) => Ok(text),
        None => Err("INVALID_CHAMPION_ENCODING"),
    }
}

proof fn lemma_hex_digit_value(n: int)
    requires
        0 <= n < 16,
    ensures
        hex_value(hex_digit(n)) == Some(n),
{
}

/// Decoding what [`hex_encode`] wrote gives back the original text, for every text.
pub proof fn lemma_hex_round_trip(text: Seq<char>)
    ensures
        decode_hex(hex_of_bytes(encode_utf8(text))) == Some(text),
{
    broadcast use {encode_utf8_valid_utf8, encode_utf8_decode_utf8};

    let bytes = encode_utf8(text);
    let hex = hex_of_bytes(bytes);
    assert forall|i: int| 0 <= i < hex.len() implies (#[trigger] hex_value(hex[i])) is Some by {
        if i % 2 == 0 {
            lemma_hex_digit_value((bytes[i / 2] / 16) as int);
        } else {
            lemma_hex_digit_value((bytes[i / 2] % 16) as int);
        }
    }
    assert forall|i: int| 0 <= i < bytes.len() implies #[trigger] bytes_of_hex(hex)[i]
        == bytes[i] by {
        lemma_hex_digit_value((bytes[i] / 16) as int);
        lemma_hex_digit_value((bytes[i] % 16) as int);
        assert(hex[2 * i] == hex_digit((bytes[i] / 16) as int));
        assert(hex[2 * i + 1] == hex_digit((bytes[i] % 16) as int));
    }
    assert(bytes_of_hex(hex) =~= bytes);
}

/// The text with trailing carriage returns and line feeds removed.
pub open spec fn trim_line_end(s: Seq<char>) -> Seq<char>
    decreases s.len(),
{
    if s.len() > 0 && (s.last() == '\r' || s.last() == '\n') {
        trim_line_end(s.drop_last())
    } else {
        s
    }
}

/// Whether the companion acknowledged an active catalog line.
pub fn active_catalog_sync_acknowledged(response: &str) -> (acknowledged: bool)
    ensures
        acknowledged == (trim_line_end(response@) == "OK|SYNC_ACTIVE_CHAMPIONS"@),
{
    let chars = chars_of(response);
    let mut end: usize = chars.len();
    assert(chars@.subrange(0, end as int) =~= chars@);
    while end > 0 && (chars[end - 1] == '\r' || chars[end - 1] == '\n')
        invariant
            end <= chars@.len(),
            trim_line_end(chars@) == trim_line_end(chars@.subrange(0, end as int)),
        decreases end,
    {
        assert(chars@.subrange(0, end - 1) =~= chars@.subrange(0, end as int).drop_last());
        end = end - 1;
    }
    let body = sub_chars(&chars, 0, end);
    let expected = chars_of("OK|SYNC_ACTIVE_CHAMPIONS");
    chars_eq(&body, &expected)
}

/// The game's name of a position index (top, jungle, middle, bottom, support).
pub open spec fn position_label(index: usize) -> Option<Seq<char>> {
    if index == 0 {
        Some("Top"@)
    } else if index == 1 {
        Some("Jungle"@)
    } else if index == 2 {
        Some("Mid"@)
    } else if index == 3 {
        Some("Bottom"@)
    } else if index == 4 {
        Some("Support"@)
    } else {
        None
    }
}

/// The names of the first two distinct known positions, in order; unknown indices are
/// skipped.
pub open spec fn position_labels(positions: Seq<usize>) -> Seq<Seq<char>>
    decreases positions.len(),
{
    if positions.len() == 0 {
        Seq::empty()
    } else {
        let before = position_labels(positions.drop_last());
        if before.len() >= 2 {
            before
        } else {
            match position_label(positions.last()) {
                None => before,
                Some(label) => if before.contains(label) {
                    before
                } else {
                    before.push(label)
                },
            }
        }
    }
}

fn position_label_of(index: usize) -> (label: Option<&'static str>)
    ensures
        label matches Some(l) ==> position_label(index) == Some(l@),
        label is None ==> position_label(index) is None,
{
    if index == 0 {
        Some("Top")
    } else if index == 1 {
        Some("Jungle")
    } else if index == 2 {
        Some("Mid")
    } else if index == 3 {
        Some("Bottom")
    } else if index == 4 {
        Some("Support")
    } else {
        None
    }
}

/// The position names the companion receives for a champion's game position indices.
pub fn game_positions_from_indices(positions: &[usize]) -> (labels: Vec<String>)
    ensures
        strs(labels@) == position_labels(positions@),
{
    let mut labels: Vec<String> = Vec::new();
    let mut i: usize = 0;
    while i < positions.len()
        invariant
            i <= positions@.len(),
            strs(labels@) == position_labels(positions@.subrange(0, i as int)),
        decreases positions.len() - i,
    {
        assert(positions@.subrange(0, i + 1).drop_last() =~= positions@.subrange(0, i as int));
        if labels.len() < 2 {
            if let Some(label) = position_label_of(positions[i]) {
                let text = label.to_owned();
                if !contains_string(&labels, &text) {
                    labels.push(text);
                    assert(strs(labels@) =~= position_labels(positions@.subrange(0, i as int)).push(
                        label@,
                    ));
                }
            }
        }
        i = i + 1;
    }
    assert(positions@.subrange(0, positions@.len() as int) =~= positions@);
    labels
}

/// The position names of a champion in a table of champion ids and names; none when the
/// champion is not in the table.
pub open spec fn positions_in(table: Seq<(Seq<char>, Seq<Seq<char>>)>, id: Seq<char>) -> Seq<
    Seq<char>,
>
    decreases table.len(),
{
    if table.len() == 0 {
        Seq::empty()
    } else if table[0].0 == id {
        table[0].1
    } else {
        positions_in(table.drop_first(), id)
    }
}

pub open spec fn position_table(table: Seq<(String, Vec<String>)>) -> Seq<
    (Seq<char>, Seq<Seq<char>>),
> {
    table.map_values(|e: (String, Vec<String>)| (e.0@, strs(e.1@)))
}

/// One entry of the active catalog line: the hexadecimal id, a comma and the position names
/// joined by `+`.
pub open spec fn catalog_entry(id: Seq<char>, table: Seq<(Seq<char>, Seq<Seq<char>>)>) -> Seq<
    char,
> {
    hex_of_bytes(encode_utf8(id)) + seq![','] + join(positions_in(table, id), '+')
}

/// The active catalog line for champions in the given order, entries separated by `;`.
pub open spec fn catalog_text(order: Seq<Seq<char>>, table: Seq<(Seq<char>, Seq<Seq<char>>)>) -> Seq<
    char,
> {
    join(Seq::new(order.len(), |i: int| catalog_entry(order[i], table)), ';')
}

fn positions_for(table: &[(String, Vec<String>)], id: &String) -> (names: Vec<String>)
    ensures
        strs(names@) == positions_in(position_table(table@), id@),
{
    let ghost view = position_table(table@);
    let mut i: usize = 0;
    assert(view.subrange(0, view.len() as int) =~= view);
    while i < table.len()
        invariant
            i <= table@.len(),
            view == position_table(table@),
            positions_in(view, id@) == positions_in(view.subrange(i as int, view.len() as int), id@),
        decreases table.len() - i,
    {
        let ghost rest = view.subrange(i as int, view.len() as int);
        assert(rest[0] == (table@[i as int].0@, strs(table@[i as int].1@)));
        if table[i].0 == *id {
            return table[i].1.clone();
        }
        assert(rest.drop_first() =~= view.subrange(i + 1, view.len() as int));
        i = i + 1;
    }
    Vec::new()
}

/// The active catalog line sent to the companion: the distinct champion ids in increasing
/// order, each with its position names; none when there is no champion.
pub fn active_catalog_payload(champion_ids: Vec<String>, positions: &[(String, Vec<String>)]) -> (payload: Option<String>)
    ensures
        payload is None <==> champion_ids@.len() == 0,
        payload matches Some(p) ==> p@ == catalog_text(
            sorted_of(strs(champion_ids@).to_set()),
            position_table(positions@),
        ),
{
    let ids = sorted_unique(&champion_ids);
    proof {
        lemma_sorted_of(strs(ids@));
    }
    if ids.len() == 0 {
        if champion_ids.len() > 0 {
            let ghost first = champion_ids@[0]@;
            assert(strs(champion_ids@)[0] == first);
            assert(strs(champion_ids@).contains(first));
            assert(strs(ids@).to_set().contains(first));
        }
        return None;
    }
    proof {
        let first = strs(ids@)[0];
        assert(strs(ids@).contains(first));
        assert(strs(champion_ids@).to_set().contains(first));
    }
    let ghost order = strs(ids@);
    let ghost table = position_table(positions@);
    let ghost entries = Seq::new(order.len(), |i: int| catalog_entry(order[i], table));
    let mut out = String::new();
    let mut i: usize = 0;
    while i < ids.len()
        invariant
            i <= ids@.len(),
            order == strs(ids@),
            table == position_table(positions@),
            entries == Seq::new(order.len(), |i: int| catalog_entry(order[i], table)),
            out@ == join(entries.subrange(0, i as int), ';'),
        decreases ids.len() - i,
    {
        let ghost done = out@;
        if i > 0 {
            push_char(&mut out, ';');
        }
        let hex = hex_encode(ids[i].as_str());
        append_str(&mut out, hex.as_str());
        push_char(&mut out, ',');
        let names = positions_for(positions, &ids[i]);
        let roles = join_strings(&names, '+');
        append_str(&mut out, roles.as_str());
        assert(entries.subrange(0, i + 1).drop_last() =~= entries.subrange(0, i as int));
        assert(entries[i as int] == catalog_entry(order[i as int], table));
        if i == 0 {
            assert(out@ =~= entries.subrange(0, 1)[0]);
        } else {
            assert(out@ =~= done.push(';') + entries[i as int]);
        }
        i = i + 1;
    }
    assert(entries.subrange(0, ids@.len() as int) =~= entries);
    Some(out)
}

/// The tier names a tier sync entry may carry.
pub open spec fn is_tier_label(t: Seq<char>) -> bool {
    ||| t == "S"@
    ||| t == "A"@
    ||| t == "B"@
    ||| t == "C"@
    ||| t == "D"@
    ||| t == "NoTier"@
}

fn tier_label_ok(t: &[char]) -> (ok: bool)
    ensures
        ok == is_tier_label(t@),
{
    chars_eq(t, &chars_of("S")) || chars_eq(t, &chars_of("A")) || chars_eq(t, &chars_of("B"))
        || chars_eq(t, &chars_of("C")) || chars_eq(t, &chars_of("D")) || chars_eq(
        t,
        &chars_of("NoTier"),
    )
}

pub open spec fn pair_views(v: Seq<(String, String)>) -> Seq<(Seq<char>, Seq<char>)> {
    v.map_values(|e: (String, String)| (e.0@, e.1@))
}

/// The entries of a tier sync payload, in order; empty entries are skipped and the first bad
/// entry decides the error.
pub open spec fn parse_tier_entries(entries: Seq<Seq<char>>) -> Result<
    Seq<(Seq<char>, Seq<char>)>,
    Seq<char>,
>
    decreases entries.len(),
{
    if entries.len() == 0 {
        Ok(Seq::empty())
    } else {
        match parse_tier_entries(entries.drop_last()) {
            Err(e) => Err(e),
            Ok(done) => {
                let entry = entries.last();
                if entry.len() == 0 {
                    Ok(done)
                } else {
                    match split_once(entry, ':') {
                        None => Err("INVALID_TIER_SYNC_ENTRY"@),
                        Some(pair) => if !is_tier_label(pair.1) {
                            Err("INVALID_TIER_SYNC_TIER"@)
                        } else {
                            match decode_hex(pair.0) {
                                None => Err("INVALID_CHAMPION_ENCODING"@),
                                Some(id) => Ok(done.push((id, pair.1))),
                            }
                        },
                    }
                }
            },
        }
    }
}

/// A tier sync line: `OK|TIER_SYNC|<team>|<entries>` after trimming, where an empty team means
/// that no profile is applied; fields after the fourth are ignored.
pub open spec fn parse_tier_sync(response: Seq<char>) -> Result<
    Option<(usize, Seq<(Seq<char>, Seq<char>)>)>,
    Seq<char>,
> {
    let parts = split(trim(response), '|');
    if parts.len() < 2 || parts[0] != "OK"@ || parts[1] != "TIER_SYNC"@ {
        Err("INVALID_TIER_SYNC_RESPONSE"@)
    } else {
        let team = if parts.len() > 2 {
            parts[2]
        } else {
            Seq::empty()
        };
        let payload = if parts.len() > 3 {
            parts[3]
        } else {
            Seq::empty()
        };
        if team.len() == 0 {
            Ok(None)
        } else {
            match parse_usize(team) {
                None => Err("INVALID_TIER_SYNC_TEAM"@),
                Some(team_id) => match parse_tier_entries(split(payload, ';')) {
                    Err(e) => Err(e),
                    Ok(tiers) => Ok(Some((team_id, tiers))),
                },
            }
        }
    }
}

proof fn lemma_entries_error_persists(entries: Seq<Seq<char>>, k: int)
    requires
        0 <= k <= entries.len(),
        parse_tier_entries(entries.subrange(0, k)) is Err,
    ensures
        parse_tier_entries(entries) == parse_tier_entries(entries.subrange(0, k)),
    decreases entries.len() - k,
{
    if k == entries.len() {
        assert(entries.subrange(0, k) =~= entries);
    } else {
        assert(entries.subrange(0, k + 1).drop_last() =~= entries.subrange(0, k));
        lemma_entries_error_persists(entries, k + 1);
    }
}

/// The tiers the companion asks the client to apply to a team.
#[derive(Debug, Clone, PartialEq, Eq)]
pub struct TierSyncState {
    pub team_id: usize,
    pub tiers: Vec<(String, String)>,
}

/// Reads the companion's answer to a tier sync request.
pub fn parse_tier_sync_response(response: &str) -> (parsed: Result<Option<TierSyncState>, &'static str>)
    ensures
        match parsed {
            Ok(None) => parse_tier_sync(response@) == Ok::<
                Option<(usize, Seq<(Seq<char>, Seq<char>)>)>,
                Seq<char>,
            >(None),
            Ok(Some(state)) => parse_tier_sync(response@) == Ok::<
                Option<(usize, Seq<(Seq<char>, Seq<char>)>)>,
                Seq<char>,
            >(Some((state.team_id, pair_views(state.tiers@)))),
            Err(e) => parse_tier_sync(response@) == Err::<
                Option<(usize, Seq<(Seq<char>, Seq<char>)>)>,
                Seq<char>,
            >(e@),
        },
{
    let chars = chars_of(response);
    let trimmed = trim_chars(&chars);
    let parts = split_chars(&trimmed, '|');
    let ghost views = parts@.map_values(|p: Vec<char>| p@);
    assert(views == split(trim(response@), '|'));
    if parts.len() < 2 || !chars_eq(&parts[0], &chars_of("OK")) || !chars_eq(
        &parts[1],
        &chars_of("TIER_SYNC"),
    ) {
        return Err("INVALID_TIER_SYNC_RESPONSE");
    }
    assert(views[0] == parts@[0]@ && views[1] == parts@[1]@);
    let empty: Vec<char> = Vec::new();
    let team = if parts.len() > 2 {
        &parts[2]
    } else {
        &empty
    };
    let payload = if parts.len() > 3 {
        &parts[3]
    } else {
        &empty
    };
    assert(team@ == (if views.len() > 2 {
        views[2]
    } else {
        Seq::empty()
    }));
    assert(payload@ == (if views.len() > 3 {
        views[3]
    } else {
        Seq::empty()
    }));
    if team.len() == 0 {
        return Ok(None);
    }
    let team_id = match parse_usize_chars(team) {
        Some(t) => t,
        None => {
            return Err("INVALID_TIER_SYNC_TEAM");
        },
    };
    let entries = split_chars(payload, ';');
    let ghost entry_views = entries@.map_values(|p: Vec<char>| p@);
    let mut tiers: Vec<(String, String)> = Vec::new();
    let mut i: usize = 0;
    assert(entry_views.subrange(0, 0) =~= Seq::<Seq<char>>::empty());
    assert(pair_views(tiers@) =~= Seq::<(Seq<char>, Seq<char>)>::empty());
    let ghost whole = match parse_tier_entries(entry_views) {
        Err(e) => Err(e),
        Ok(t) => Ok(Some((team_id, t))),
    };
    assert(parse_tier_sync(response@) == whole);
    while i < entries.len()
        invariant
            i <= entries@.len(),
            entry_views == entries@.map_values(|p: Vec<char>| p@),
            parse_tier_sync(response@) == whole,
            whole == match parse_tier_entries(entry_views) {
                Err(e) => Err(e),
                Ok(t) => Ok(Some((team_id, t))),
            },
            parse_tier_entries(entry_views.subrange(0, i as int)) == Ok::<
                Seq<(Seq<char>, Seq<char>)>,
                Seq<char>,
            >(pair_views(tiers@)),
        decreases entries.len() - i,
    {
        let ghost prefix = entry_views.subrange(0, i + 1);
        assert(prefix.drop_last() =~= entry_views.subrange(0, i as int));
        assert(prefix.last() == entries@[i as int]@);
        let entry = &entries[i];
        if entry.len() > 0 {
            let (id, tier) = match split_once_chars(entry, ':') {
                Some(pair) => pair,
                None => {
                    proof {
                        lemma_entries_error_persists(entry_views, i + 1);
                    }
                    assert(entry_views =~= entries@.map_values(|p: Vec<char>| p@));
                    return Err("INVALID_TIER_SYNC_ENTRY");
                },
            };
            if !tier_label_ok(&tier) {
                proof {
                    lemma_entries_error_persists(entry_views, i + 1);
                }
                return Err("INVALID_TIER_SYNC_TIER");
            }
            let id_text = string_from_chars(&id);
            match hex_decode(id_text.as_str()) {
                Ok(name) => {
                    let ghost before = pair_views(tiers@);
                    tiers.push((name, string_from_chars(&tier)));
                    assert(pair_views(tiers@) =~= before.push((name@, tier@)));
                },
                Err(_) => {
                    proof {
                        lemma_entries_error_persists(entry_views, i + 1);
                    }
                    return Err("INVALID_CHAMPION_ENCODING");
                },
            }
        }
        i = i + 1;
    }
    assert(entry_views.subrange(0, entries@.len() as int) =~= entry_views);
    Ok(Some(TierSyncState { team_id, tiers }))
}

pub open spec fn keys_of(entries: Seq<(Seq<char>, Seq<char>)>) -> Seq<Seq<char>> {
    entries.map_values(|e: (Seq<char>, Seq<char>)| e.0)
}

/// How many of the leading keys sort before `id`: where `id` belongs in a sorted list.
pub open spec fn lower_bound(keys: Seq<Seq<char>>, id: Seq<char>) -> int
    decreases keys.len(),
{
    if keys.len() > 0 && chars_lt(keys[0], id) {
        1 + lower_bound(keys.drop_first(), id)
    } else {
        0
    }
}

/// Champion tiers keyed by champion id, in increasing id order, each id once.
pub struct TierTable {
    entries: Vec<(String, String)>,
}

impl View for TierTable {
    type V = Seq<(Seq<char>, Seq<char>)>;

    closed spec fn view(&self) -> Seq<(Seq<char>, Seq<char>)> {
        pair_views(self.entries@)
    }
}

impl TierTable {
    pub open spec fn wf(&self) -> bool {
        sorted_strict(keys_of(self@))
    }

    pub fn new() -> (table: Self)
        ensures
            table.wf(),
            table@ == Seq::<(Seq<char>, Seq<char>)>::empty(),
    {
        let table = TierTable { entries: Vec::new() };
        assert(table@ =~= Seq::<(Seq<char>, Seq<char>)>::empty());
        assert(keys_of(table@) =~= Seq::<Seq<char>>::empty());
        table
    }

    pub fn len(&self) -> (n: usize)
        ensures
            n == self@.len(),
    {
        self.entries.len()
    }

    /// The entries in increasing id order.
    pub fn entries(&self) -> (entries: &Vec<(String, String)>)
        ensures
            pair_views(entries@) == self@,
    {
        &self.entries
    }

    /// Sets the tier of a champion, replacing an earlier tier of the same id.
    pub fn insert(&mut self, champion_id: String, tier: String)
        requires
            old(self).wf(),
        ensures
            final(self).wf(),
            ({
                let p = lower_bound(keys_of(old(self)@), champion_id@);
                if p < old(self)@.len() && old(self)@[p].0 == champion_id@ {
                    final(self)@ == old(self)@.update(p, (champion_id@, tier@))
                } else {
                    final(self)@ == old(self)@.insert(p, (champion_id@, tier@))
                }
            }),
    {
        let ghost before = self@;
        let ghost keys = keys_of(before);
        let mut p: usize = 0;
        assert(keys.subrange(0, keys.len() as int) =~= keys);
        while p < self.entries.len() && str_lt(self.entries[p].0.as_str(), champion_id.as_str())
            invariant
                p <= self.entries@.len(),
                before == self@,
                keys == keys_of(before),
                self@.len() == self.entries@.len(),
                forall|k: int| 0 <= k < p ==> chars_lt(#[trigger] keys[k], champion_id@),
                lower_bound(keys, champion_id@) == p + lower_bound(
                    keys.subrange(p as int, keys.len() as int),
                    champion_id@,
                ),
            decreases self.entries.len() - p,
        {
            let ghost rest = keys.subrange(p as int, keys.len() as int);
            assert(rest[0] == self.entries@[p as int].0@);
            assert(rest.drop_first() =~= keys.subrange(p + 1, keys.len() as int));
            p = p + 1;
        }
        assert(lower_bound(keys, champion_id@) == p);
        if p < self.entries.len() && self.entries[p].0 == champion_id {
            self.entries.set(p, (champion_id, tier));
            assert(self@ =~= before.update(p as int, (champion_id@, tier@)));
            assert(keys_of(self@) =~= keys);
            return;
        }
        if p < self.entries.len() {
            proof {
                lemma_lt_total(champion_id@, keys[p as int]);
            }
        }
        let ghost id = champion_id@;
        self.entries.insert(p, (champion_id, tier));
        assert(self@ =~= before.insert(p as int, (id, tier@)));
        let ghost after = keys_of(self@);
        assert(after =~= keys.insert(p as int, id));
        assert forall|i: int, j: int| 0 <= i < j < after.len() implies chars_lt(
            #[trigger] after[i],
            #[trigger] after[j],
        ) by {
            if j < p {
            } else if j == p {
            } else if i < p {
                lemma_lt_transitive(after[i], id, after[p + 1]);
                if j > p + 1 {
                    lemma_lt_transitive(after[i], after[p + 1], after[j]);
                }
            } else if i == p {
                if j > p + 1 {
                    lemma_lt_transitive(id, after[p + 1], after[j]);
                }
            }
        }
    }
}

/// One tier sync entry: the hexadecimal id, a colon and the tier.
pub open spec fn tier_entry_text(entry: (Seq<char>, Seq<char>)) -> Seq<char> {
    hex_of_bytes(encode_utf8(entry.0)) + seq![':'] + entry.1
}

pub open spec fn tier_entry_texts(entries: Seq<(Seq<char>, Seq<char>)>) -> Seq<Seq<char>> {
    Seq::new(entries.len(), |i: int| tier_entry_text(entries[i]))
}

/// The tier sync line the companion answers with: with no team, only the empty fields.
pub open spec fn tier_sync_text(team_id: Option<usize>, entries: Seq<(Seq<char>, Seq<char>)>) -> Seq<
    char,
> {
    match team_id {
        None => "OK|TIER_SYNC||"@,
        Some(team) => "OK|TIER_SYNC|"@ + decimal_digits(team as nat) + seq!['|'] + join(
            tier_entry_texts(entries),
            ';',
        ),
    }
}

/// The companion's answer to a tier sync request for a team's tiers, or for no team.
pub fn tier_sync_response(team_id: Option<usize>, tiers: &TierTable) -> (line: String)
    ensures
        line@ == tier_sync_text(team_id, tiers@),
{
    let team = match team_id {
        None => {
            return "OK|TIER_SYNC||".to_owned();
        },
        Some(team) => team,
    };
    let mut line = "OK|TIER_SYNC|".to_owned();
    let digits = decimal_string(team);
    append_str(&mut line, digits.as_str());
    push_char(&mut line, '|');
    let ghost head = line@;
    let ghost texts = tier_entry_texts(tiers@);
    let mut i: usize = 0;
    while i < tiers.entries.len()
        invariant
            i <= tiers@.len(),
            tiers@.len() == tiers.entries@.len(),
            texts == tier_entry_texts(tiers@),
            line@ == head + join(texts.subrange(0, i as int), ';'),
        decreases tiers.entries.len() - i,
    {
        let ghost done = line@;
        if i > 0 {
            push_char(&mut line, ';');
        }
        let hex = hex_encode(tiers.entries[i].0.as_str());
        append_str(&mut line, hex.as_str());
        push_char(&mut line, ':');
        append_str(&mut line, tiers.entries[i].1.as_str());
        assert(tiers@[i as int] == (tiers.entries@[i as int].0@, tiers.entries@[i as int].1@));
        assert(texts.subrange(0, i + 1).drop_last() =~= texts.subrange(0, i as int));
        if i == 0 {
            assert(line@ =~= head + texts.subrange(0, 1)[0]);
        } else {
            assert(line@ =~= head + (join(texts.subrange(0, i as int), ';').push(';') + texts[i as int]));
        }
        i = i + 1;
    }
    assert(texts.subrange(0, tiers@.len() as int) =~= texts);
    line
}

proof fn lemma_tier_label_facts(t: Seq<char>)
    requires
        is_tier_label(t),
    ensures
        t.len() > 0,
        !is_white_space(t.last()),
        free_of(t, '|'),
        free_of(t, ';'),
        free_of(t, ':'),
{
    reveal_strlit("S");
    reveal_strlit("A");
    reveal_strlit("B");
    reveal_strlit("C");
    reveal_strlit("D");
    reveal_strlit("NoTier");
}

proof fn lemma_hex_free_of(bytes: Seq<u8>, c: char)
    requires
        c == '|' || c == ';' || c == ':',
    ensures
        free_of(hex_of_bytes(bytes), c),
{
}

proof fn lemma_entry_split(entry: (Seq<char>, Seq<char>))
    requires
        is_tier_label(entry.1),
    ensures
        split_once(tier_entry_text(entry), ':') == Some((hex_of_bytes(encode_utf8(entry.0)), entry.1)),
        tier_entry_text(entry).len() > 0,
        free_of(tier_entry_text(entry), '|'),
        free_of(tier_entry_text(entry), ';'),
        !is_white_space(tier_entry_text(entry).last()),
{
    let hex = hex_of_bytes(encode_utf8(entry.0));
    let text = tier_entry_text(entry);
    lemma_tier_label_facts(entry.1);
    lemma_hex_free_of(encode_utf8(entry.0), ':');
    lemma_hex_free_of(encode_utf8(entry.0), '|');
    lemma_hex_free_of(encode_utf8(entry.0), ';');
    assert(text[hex.len() as int] == ':');
    lemma_first_index_at(text, ':', hex.len() as int);
    assert(text.subrange(0, hex.len() as int) =~= hex);
    assert(text.subrange(hex.len() as int + 1, text.len() as int) =~= entry.1);
    assert(text.last() == entry.1.last());
}

proof fn lemma_entries_round_trip(entries: Seq<(Seq<char>, Seq<char>)>)
    requires
        forall|i: int| 0 <= i < entries.len() ==> is_tier_label(#[trigger] entries[i].1),
    ensures
        parse_tier_entries(tier_entry_texts(entries)) == Ok::<
            Seq<(Seq<char>, Seq<char>)>,
            Seq<char>,
        >(entries),
    decreases entries.len(),
{
    let texts = tier_entry_texts(entries);
    if entries.len() == 0 {
        assert(texts =~= Seq::<Seq<char>>::empty());
        assert(entries =~= Seq::<(Seq<char>, Seq<char>)>::empty());
    } else {
        let init = entries.drop_last();
        assert forall|i: int| 0 <= i < init.len() implies is_tier_label(#[trigger] init[i].1) by {
            assert(init[i] == entries[i]);
        }
        lemma_entries_round_trip(init);
        assert(texts.drop_last() =~= tier_entry_texts(init));
        let last = entries.last();
        assert(is_tier_label(entries[entries.len() - 1].1));
        lemma_entry_split(last);
        lemma_hex_round_trip(last.0);
        assert(texts.last() == tier_entry_text(last));
        assert(parse_tier_entries(texts.drop_last()) == Ok::<
            Seq<(Seq<char>, Seq<char>)>,
            Seq<char>,
        >(init));
        assert(decode_hex(hex_of_bytes(encode_utf8(last.0))) == Some(last.0));
        assert(parse_tier_entries(texts) == Ok::<Seq<(Seq<char>, Seq<char>)>, Seq<char>>(
            init.push((last.0, last.1)),
        ));
        assert((last.0, last.1) == last);
        assert(init.push(last) =~= entries);
    }
}

proof fn lemma_join_free_of(parts: Seq<Seq<char>>, sep: char, c: char)
    requires
        sep != c,
        forall|i: int| 0 <= i < parts.len() ==> free_of(#[trigger] parts[i], c),
    ensures
        free_of(join(parts, sep), c),
    decreases parts.len(),
{
    if parts.len() > 1 {
        let init = parts.drop_last();
        assert forall|i: int| 0 <= i < init.len() implies free_of(#[trigger] init[i], c) by {
            assert(init[i] == parts[i]);
        }
        lemma_join_free_of(init, sep, c);
        assert(free_of(parts.last(), c));
        let j = join(init, sep).push(sep) + parts.last();
        assert forall|i: int| 0 <= i < j.len() implies j[i] != c by {
            if i < join(init, sep).len() {
            } else if i > join(init, sep).len() {
                assert(j[i] == parts.last()[i - join(init, sep).len() - 1]);
            }
        }
    } else if parts.len() == 1 {
        assert(free_of(parts[0], c));
    }
}

proof fn lemma_join_four(parts: Seq<Seq<char>>, sep: char)
    requires
        parts.len() == 4,
    ensures
        join(parts, sep) == parts[0] + seq![sep] + parts[1] + seq![sep] + parts[2] + seq![sep]
            + parts[3],
{
    let p3 = parts.drop_last();
    let p2 = p3.drop_last();
    let p1 = p2.drop_last();
    assert(join(p1, sep) == parts[0]);
    assert(join(p2, sep) == join(p1, sep).push(sep) + parts[1]);
    assert(join(p3, sep) == join(p2, sep).push(sep) + parts[2]);
    assert(join(parts, sep) == join(p3, sep).push(sep) + parts[3]);
    assert(join(parts, sep) =~= parts[0] + seq![sep] + parts[1] + seq![sep] + parts[2] + seq![sep]
        + parts[3]);
}

proof fn lemma_join_last(parts: Seq<Seq<char>>, sep: char)
    requires
        parts.len() > 0,
        parts.last().len() > 0,
    ensures
        join(parts, sep).len() > 0,
        join(parts, sep).last() == parts.last().last(),
{
}

proof fn lemma_trim_unchanged(s: Seq<char>)
    requires
        s.len() > 0,
        !is_white_space(s[0]),
        !is_white_space(s.last()),
    ensures
        trim(s) == s,
{
    assert(!is_blank(s));
    assert(leading_ws(s) == 0);
    assert(trailing_ws(s) == 0);
    assert(s.subrange(0, s.len() as int) =~= s);
}

proof fn lemma_payload_facts(entries: Seq<(Seq<char>, Seq<char>)>)
    requires
        forall|i: int| 0 <= i < entries.len() ==> is_tier_label(#[trigger] entries[i].1),
    ensures
        free_of(join(tier_entry_texts(entries), ';'), '|'),
        entries.len() > 0 ==> join(tier_entry_texts(entries), ';').len() > 0 && !is_white_space(
            join(tier_entry_texts(entries), ';').last(),
        ),
        parse_tier_entries(split(join(tier_entry_texts(entries), ';'), ';')) == Ok::<
            Seq<(Seq<char>, Seq<char>)>,
            Seq<char>,
        >(entries),
{
    let texts = tier_entry_texts(entries);
    let payload = join(texts, ';');
    assert forall|i: int| 0 <= i < texts.len() implies free_of(#[trigger] texts[i], '|') && free_of(
        texts[i],
        ';',
    ) && texts[i].len() > 0 by {
        lemma_entry_split(entries[i]);
    }
    lemma_join_free_of(texts, ';', '|');
    lemma_entries_round_trip(entries);
    if entries.len() > 0 {
        lemma_entry_split(entries.last());
        assert(texts.last() == tier_entry_text(entries.last()));
        lemma_join_last(texts, ';');
        lemma_split_join(texts, ';');
    } else {
        assert(texts =~= Seq::<Seq<char>>::empty());
        assert(split(payload, ';') =~= seq![Seq::<char>::empty()]);
        assert(seq![Seq::<char>::empty()].drop_last() =~= Seq::<Seq<char>>::empty());
    }
}

proof fn lemma_tier_sync_join(team_id: usize, entries: Seq<(Seq<char>, Seq<char>)>)
    ensures
        tier_sync_text(Some(team_id), entries) == join(
            seq![
                "OK"@,
                "TIER_SYNC"@,
                decimal_digits(team_id as nat),
                join(tier_entry_texts(entries), ';'),
            ],
            '|',
        ),
{
    reveal_strlit("OK|TIER_SYNC|");
    reveal_strlit("OK");
    reveal_strlit("TIER_SYNC");
    let parts = seq![
        "OK"@,
        "TIER_SYNC"@,
        decimal_digits(team_id as nat),
        join(tier_entry_texts(entries), ';'),
    ];
    lemma_join_four(parts, '|');
    assert(tier_sync_text(Some(team_id), entries) =~= join(parts, '|'));
}

#[verifier::spinoff_prover]
proof fn lemma_tier_sync_parts(team_id: usize, entries: Seq<(Seq<char>, Seq<char>)>)
    requires
        forall|i: int| 0 <= i < entries.len() ==> is_tier_label(#[trigger] entries[i].1),
    ensures
        split(trim(tier_sync_text(Some(team_id), entries)), '|') == seq![
            "OK"@,
            "TIER_SYNC"@,
            decimal_digits(team_id as nat),
            join(tier_entry_texts(entries), ';'),
        ],
{
    reveal_strlit("OK");
    reveal_strlit("TIER_SYNC");
    let digits = decimal_digits(team_id as nat);
    let payload = join(tier_entry_texts(entries), ';');
    let text = tier_sync_text(Some(team_id), entries);
    let parts = seq!["OK"@, "TIER_SYNC"@, digits, payload];
    lemma_tier_sync_join(team_id, entries);
    assert(split(text, '|') == parts) by {
        lemma_payload_facts(entries);
        lemma_decimal_digits_value(team_id as nat);
        assert forall|i: int| 0 <= i < parts.len() implies free_of(#[trigger] parts[i], '|') by {
            if i == 2 {
                assert forall|k: int| 0 <= k < digits.len() implies digits[k] != '|' by {
                    assert('0' <= digits[k] <= '9');
                }
            }
        }
        lemma_split_join(parts, '|');
    }
    assert(trim(text) == text) by {
        lemma_payload_facts(entries);
        lemma_join_four(parts, '|');
        assert(text.len() > 0 && !is_white_space(text[0]) && !is_white_space(text.last())) by {
            assert(text[0] == 'O');
            if payload.len() == 0 {
                assert(text.last() == '|');
            } else {
                assert(text.last() == payload.last());
            }
        }
        lemma_trim_unchanged(text);
    }
}

/// The client reads back exactly what the companion wrote: the team and every entry, in
/// order, whenever each tier is one of the tier names; with no team it reads no profile.
pub proof fn lemma_tier_sync_round_trip(team_id: usize, entries: Seq<(Seq<char>, Seq<char>)>)
    requires
        forall|i: int| 0 <= i < entries.len() ==> is_tier_label(#[trigger] entries[i].1),
    ensures
        parse_tier_sync(tier_sync_text(Some(team_id), entries)) == Ok::<
            Option<(usize, Seq<(Seq<char>, Seq<char>)>)>,
            Seq<char>,
        >(Some((team_id, entries))),
        parse_tier_sync(tier_sync_text(None, entries)) == Ok::<
            Option<(usize, Seq<(Seq<char>, Seq<char>)>)>,
            Seq<char>,
        >(None),
{
    lemma_tier_sync_parts(team_id, entries);
    lemma_payload_facts(entries);
    lemma_parse_decimal_digits(team_id);
    lemma_decimal_digits_value(team_id as nat);
    lemma_tier_sync_empty();
}

proof fn lemma_tier_sync_empty()
    ensures
        split(trim("OK|TIER_SYNC||"@), '|') == seq![
            "OK"@,
            "TIER_SYNC"@,
            Seq::<char>::empty(),
            Seq::<char>::empty(),
        ],
{
    reveal_strlit("OK|TIER_SYNC||");
    reveal_strlit("OK");
    reveal_strlit("TIER_SYNC");
    let text = "OK|TIER_SYNC||"@;
    let parts = seq!["OK"@, "TIER_SYNC"@, Seq::<char>::empty(), Seq::<char>::empty()];
    lemma_join_four(parts, '|');
    assert(text =~= join(parts, '|'));
    lemma_split_join(parts, '|');
    lemma_trim_unchanged(text);
}

/// The tier names the game's team record accepts.
pub open spec fn is_game_tier_label(label: Seq<char>) -> bool {
    label == "S"@ || label == "A"@ || label == "B"@ || label == "C"@ || label == "D"@ || label
        == "NoTier"@
}

/// How many of the synced tiers the game accepts.
pub open spec fn applied_count(tiers: Seq<(Seq<char>, Seq<char>)>) -> nat
    decreases tiers.len(),
{
    if tiers.len() == 0 {
        0
    } else {
        applied_count(tiers.drop_last()) + if is_game_tier_label(tiers.last().1) {
            1nat
        } else {
            0nat
        }
    }
}

fn game_accepts(label: &str) -> (accepted: bool)
    ensures
        accepted == is_game_tier_label(label@),
{
    let text = chars_of(label);
    chars_eq(&text, &chars_of("S")) || chars_eq(&text, &chars_of("A")) || chars_eq(
        &text,
        &chars_of("B"),
    ) || chars_eq(&text, &chars_of("C")) || chars_eq(&text, &chars_of("D")) || chars_eq(
        &text,
        &chars_of("NoTier"),
    )
}

/// The number of synced tiers the client can write to the team record.
pub fn applied_tier_count(tiers: &TierTable) -> (count: usize)
    ensures
        count == applied_count(tiers@),
{
    let entries = tiers.entries();
    let mut count: usize = 0;
    let mut i: usize = 0;
    while i < entries.len()
        invariant
            i <= entries@.len(),
            pair_views(entries@) == tiers@,
            count == applied_count(tiers@.subrange(0, i as int)),
            count <= i,
        decreases entries.len() - i,
    {
        assert(tiers@.subrange(0, i + 1).drop_last() =~= tiers@.subrange(0, i as int));
        assert(tiers@[i as int].1 == entries@[i as int].1@);
        if game_accepts(entries[i].1.as_str()) {
            count = count + 1;
        }
        i = i + 1;
    }
    assert(tiers@.subrange(0, tiers@.len() as int) =~= tiers@);
    count
}

/// The line with which the client reports how many tiers it wrote to the team.
pub open spec fn tier_status_text(team_id: usize, applied: usize, expected: usize) -> Seq<char> {
    "SYNC_TIER_STATUS|"@ + decimal_digits(team_id as nat) + "|"@ + decimal_digits(applied as nat)
        + "|"@ + decimal_digits(expected as nat)
}

pub fn tier_status_line(team_id: usize, applied: usize, expected: usize) -> (line: String)
    ensures
        line@ == tier_status_text(team_id, applied, expected),
{
    let mut line = "SYNC_TIER_STATUS|".to_owned();
    append_str(&mut line, decimal_string(team_id).as_str());
    append_str(&mut line, "|");
    append_str(&mut line, decimal_string(applied).as_str());
    append_str(&mut line, "|");
    append_str(&mut line, decimal_string(expected).as_str());
    line
}

/// Each synced tier labelled with one of the game's own tiers (S, A, B, C, D or NoTier) is one
/// more tier the client applies, whatever came before it.
pub proof fn lemma_game_label_adds_one(
    tiers: Seq<(Seq<char>, Seq<char>)>,
    champion_id: Seq<char>,
    label: Seq<char>,
)
    requires
        label == "S"@ || label == "A"@ || label == "B"@ || label == "C"@ || label == "D"@ || label
            == "NoTier"@,
    ensures
        applied_count(tiers.push((champion_id, label))) == applied_count(tiers) + 1,
{
    assert(tiers.push((champion_id, label)).drop_last() =~= tiers);
}

/// A table whose every tier is one of the game's own labels is applied in full: the count is the
/// number of entries.
pub proof fn lemma_game_labels_all_apply(tiers: Seq<(Seq<char>, Seq<char>)>)
    requires
        forall|i: int|
            0 <= i < tiers.len() ==> {
                let label = (#[trigger] tiers[i]).1;
                label == "S"@ || label == "A"@ || label == "B"@ || label == "C"@ || label == "D"@
                    || label == "NoTier"@
            },
    ensures
        applied_count(tiers) == tiers.len(),
    decreases tiers.len(),
{
    if tiers.len() > 0 {
        let rest = tiers.drop_last();
        assert forall|i: int| 0 <= i < rest.len() implies {
            let label = (#[trigger] rest[i]).1;
            label == "S"@ || label == "A"@ || label == "B"@ || label == "C"@ || label == "D"@
                || label == "NoTier"@
        } by {
            assert(rest[i] == tiers[i]);
        }
        lemma_game_labels_all_apply(rest);
        let last = tiers[tiers.len() - 1];
        assert(last == tiers.last());
        lemma_game_label_adds_one(rest, last.0, last.1);
        assert(rest.push(last) =~= tiers);
    }
}

} // verus!
