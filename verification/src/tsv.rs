//! Tiers, their labels, and the text layout of the tier TSV exchange format.
use vstd::prelude::*;

use crate::ordered::{contains_string, strs};
use crate::profile::ValidationError;
use crate::text::{
    append_chars, append_str, chars_eq, chars_of, decimal_digits, decimal_string, is_blank,
    split, split_chars, str_is_blank, string_from_chars, trim, trim_chars,
};

verus! {

#[derive(Debug, Clone, Copy, PartialEq, Eq, PartialOrd, Ord, Hash, Structural)]
pub enum Tier {
    Op,
    One,
    Two,
    Three,
    Four,
    NoTier,
}

/// `char::to_ascii_uppercase`: small ASCII letters become capitals; every other character
/// stays.
pub open spec fn ascii_upper(c: char) -> char {
    if 'a' <= c <= 'z' {
        ((c as u32) - 32) as char
    } else {
        c
    }
}

pub open spec fn ascii_uppercase(s: Seq<char>) -> Seq<char> {
    Seq::new(s.len(), |i: int| ascii_upper(s[i]))
}

fn uppercase_chars(s: &[char]) -> (upper: Vec<char>)
    ensures
        upper@ == ascii_uppercase(s@),
{
    let mut upper: Vec<char> = Vec::new();
    let mut i: usize = 0;
    while i < s.len()
        invariant
            i <= s@.len(),
            upper@ == ascii_uppercase(s@.subrange(0, i as int)),
        decreases s.len() - i,
    {
        let c = s[i];
        let u = if 'a' <= c && c <= 'z' {
            ((c as u32) - 32) as u8 as char
        } else {
            c
        };
        assert(u == ascii_upper(c));
        upper.push(u);
        assert(ascii_uppercase(s@.subrange(0, i + 1)) =~= ascii_uppercase(
            s@.subrange(0, i as int),
        ).push(ascii_upper(c)));
        i = i + 1;
    }
    assert(s@.subrange(0, s@.len() as int) =~= s@);
    upper
}

/// The tier a label names, ignoring surrounding white space and ASCII case: OP or S, 1 or A,
/// 2 or B, 3 or C, 4 or D, and "-", NO_TIER or NOTIER for no tier.
pub open spec fn tier_named(label: Seq<char>) -> Option<Tier> {
    let up = ascii_uppercase(trim(label));
    if up == "OP"@ || up == "S"@ {
        Some(Tier::Op)
    } else if up == "1"@ || up == "A"@ {
        Some(Tier::One)
    } else if up == "2"@ || up == "B"@ {
        Some(Tier::Two)
    } else if up == "3"@ || up == "C"@ {
        Some(Tier::Three)
    } else if up == "4"@ || up == "D"@ {
        Some(Tier::Four)
    } else if up == "-"@ || up == "NO_TIER"@ || up == "NOTIER"@ {
        Some(Tier::NoTier)
    } else {
        None
    }
}

impl Tier {
    pub open spec fn label_text(self) -> Seq<char> {
        match self {
            Tier::Op => "OP"@,
            Tier::One => "1"@,
            Tier::Two => "2"@,
            Tier::Three => "3"@,
            Tier::Four => "4"@,
            Tier::NoTier => "-"@,
        }
    }

    /// The label written for the tier.
    pub fn label(&self) -> (label: &'static str)
        ensures
            label@ == self.label_text(),
    {
        match self {
            Tier::Op => "OP",
            Tier::One => "1",
            Tier::Two => "2",
            Tier::Three => "3",
            Tier::Four => "4",
            Tier::NoTier => "-",
        }
    }

    /// Reads a tier label; an unknown label is refused with its text.
    pub fn parse(value: &str) -> (tier: Result<Tier, String>)
        ensures
            match tier_named(value@) {
                Some(t) => tier matches Ok(parsed) && parsed == t,
                None => tier matches Err(reason) && reason@ == "unknown tier: "@ + value@,
            },
    {
        let chars = chars_of(value);
        let up = uppercase_chars(&trim_chars(&chars));
        if chars_eq(&up, &chars_of("OP")) || chars_eq(&up, &chars_of("S")) {
            Ok(Tier::Op)
        } else if chars_eq(&up, &chars_of("1")) || chars_eq(&up, &chars_of("A")) {
            Ok(Tier::One)
        } else if chars_eq(&up, &chars_of("2")) || chars_eq(&up, &chars_of("B")) {
            Ok(Tier::Two)
        } else if chars_eq(&up, &chars_of("3")) || chars_eq(&up, &chars_of("C")) {
            Ok(Tier::Three)
        } else if chars_eq(&up, &chars_of("4")) || chars_eq(&up, &chars_of("D")) {
            Ok(Tier::Four)
        } else if chars_eq(&up, &chars_of("-")) || chars_eq(&up, &chars_of("NO_TIER")) || chars_eq(
            &up,
            &chars_of("NOTIER"),
        ) {
            Ok(Tier::NoTier)
        } else {
            let mut reason = "unknown tier: ".to_owned();
            append_str(&mut reason, value);
            Err(reason)
        }
    }
}

/// The tier label the game itself stores for a team's champion tiers.
pub open spec fn game_tier_text(tier: Tier) -> Seq<char> {
    match tier {
        Tier::Op => "S"@,
        Tier::One => "A"@,
        Tier::Two => "B"@,
        Tier::Three => "C"@,
        Tier::Four => "D"@,
        Tier::NoTier => "NoTier"@,
    }
}

/// The label the game stores for a tier.
pub fn game_tier_label(tier: Tier) -> (label: &'static str)
    ensures
        label@ == game_tier_text(tier),
{
    match tier {
        Tier::Op => "S",
        Tier::One => "A",
        Tier::Two => "B",
        Tier::Three => "C",
        Tier::Four => "D",
        Tier::NoTier => "NoTier",
    }
}

/// The tiers written to a team are the ones the in-game client accepts from the companion,
/// and each names the tier it was written for.
pub proof fn lemma_game_tiers_sync(tier: Tier)
    ensures
        crate::wire::is_tier_label(game_tier_text(tier)),
        tier_named(game_tier_text(tier)) == Some(tier),
{
    reveal_strlit("OP");
    reveal_strlit("1");
    reveal_strlit("2");
    reveal_strlit("3");
    reveal_strlit("4");
    reveal_strlit("-");
    reveal_strlit("S");
    reveal_strlit("A");
    reveal_strlit("B");
    reveal_strlit("C");
    reveal_strlit("D");
    reveal_strlit("NO_TIER");
    reveal_strlit("NOTIER");
    reveal_strlit("NoTier");
    let label = game_tier_text(tier);
    assert(!is_blank(label)) by {
        assert(!crate::text::is_white_space(label[0]));
    }
    assert(trim(label) =~= label) by {
        assert(crate::text::leading_ws(label) == 0);
        assert(crate::text::trailing_ws(label) == 0);
        assert(label.subrange(0, label.len() as int) =~= label);
    }
    if tier == Tier::NoTier {
        assert(ascii_uppercase(label) =~= "NOTIER"@);
    } else {
        assert(ascii_uppercase(label) =~= label);
    }
}

/// Every label written for a tier reads back as that tier.
pub proof fn lemma_tier_label_round_trip(tier: Tier)
    ensures
        tier_named(tier.label_text()) == Some(tier),
{
    reveal_strlit("OP");
    reveal_strlit("1");
    reveal_strlit("2");
    reveal_strlit("3");
    reveal_strlit("4");
    reveal_strlit("-");
    reveal_strlit("S");
    reveal_strlit("A");
    reveal_strlit("B");
    reveal_strlit("C");
    reveal_strlit("D");
    reveal_strlit("NO_TIER");
    reveal_strlit("NOTIER");
    let label = tier.label_text();
    assert(!is_blank(label)) by {
        assert(!crate::text::is_white_space(label[0]));
    }
    assert(trim(label) =~= label) by {
        assert(crate::text::leading_ws(label) == 0);
        assert(crate::text::trailing_ws(label) == 0);
        assert(label.subrange(0, label.len() as int) =~= label);
    }
    assert(ascii_uppercase(label) =~= label);
}

/// Games and wins of a champion in one role.
#[derive(Debug, Clone, Copy, PartialEq, Eq, Structural)]
pub struct RoleSample {
    pub matches: usize,
    pub wins: usize,
}

impl Default for RoleSample {
    fn default() -> (sample: Self)
        ensures
            sample.matches == 0 && sample.wins == 0,
    {
        RoleSample { matches: 0, wins: 0 }
    }
}

/// Why a tier TSV text was refused.
#[derive(Debug, Clone, PartialEq, Eq)]
pub enum TsvError {
    UnsupportedHeader,
    InvalidRow { line: usize, reason: String },
}

impl TsvError {
    /// The text shown for the error.
    pub fn message(&self) -> (text: String)
        ensures
            text@ == match self {
                TsvError::UnsupportedHeader => "unsupported tier TSV header"@,
                TsvError::InvalidRow { line, reason } => "invalid tier TSV row "@ + decimal_digits(
                    *line as nat,
                ) + ": "@ + reason@,
            },
    {
        match self {
            TsvError::UnsupportedHeader => "unsupported tier TSV header".to_owned(),
            TsvError::InvalidRow { line, reason } => {
                let mut text = "invalid tier TSV row ".to_owned();
                append_str(&mut text, decimal_string(*line).as_str());
                append_str(&mut text, ": ");
                append_str(&mut text, reason.as_str());
                text
            },
        }
    }
}

/// Why a record patch was refused.
#[derive(Debug, Clone, PartialEq, Eq)]
pub enum RecordPatchError {
    InvalidLock(ValidationError),
    MissingPath { path: String },
    InvalidType { path: String },
    TargetMismatch,
    InvalidTierPolicy { reason: String },
}

impl RecordPatchError {
    /// The text shown for the error.
    pub fn message(&self) -> (text: String)
        ensures
            text@ == match self {
                RecordPatchError::InvalidLock(e) => "invalid lock: "@ + e.message_text(),
                RecordPatchError::MissingPath { path } => "required JSON path is missing: "@
                    + path@,
                RecordPatchError::InvalidType { path } => "JSON path has the wrong value type: "@
                    + path@,
                RecordPatchError::TargetMismatch => "target id does not match the record"@,
                RecordPatchError::InvalidTierPolicy { reason } => "invalid tier policy: "@
                    + reason@,
            },
    {
        let (prefix, detail) = match self {
            RecordPatchError::InvalidLock(e) => ("invalid lock: ", e.message()),
            RecordPatchError::MissingPath { path } => (
                "required JSON path is missing: ",
                path.as_str(),
            ),
            RecordPatchError::InvalidType { path } => (
                "JSON path has the wrong value type: ",
                path.as_str(),
            ),
            RecordPatchError::TargetMismatch => ("target id does not match the record", ""),
            RecordPatchError::InvalidTierPolicy { reason } => (
                "invalid tier policy: ",
                reason.as_str(),
            ),
        };
        let mut text = prefix.to_owned();
        append_str(&mut text, detail);
        proof {
            reveal_strlit("");
        }
        text
    }
}

/// The text with every trailing carriage return removed.
pub open spec fn trim_cr(s: Seq<char>) -> Seq<char>
    decreases s.len(),
{
    if s.len() > 0 && s.last() == '\r' {
        trim_cr(s.drop_last())
    } else {
        s
    }
}

/// The lines of a text as `str::lines` gives them, each with its trailing carriage returns
/// removed: a final line ending adds no empty line.
pub open spec fn tsv_lines(input: Seq<char>) -> Seq<Seq<char>> {
    let pieces = split(input, '\n');
    let kept = if pieces.last().len() == 0 {
        pieces.drop_last()
    } else {
        pieces
    };
    Seq::new(kept.len(), |i: int| trim_cr(kept[i]))
}

fn trim_cr_chars(s: &[char]) -> (t: Vec<char>)
    ensures
        t@ == trim_cr(s@),
{
    let mut end: usize = s.len();
    assert(s@.subrange(0, end as int) =~= s@);
    while end > 0 && s[end - 1] == '\r'
        invariant
            end <= s@.len(),
            trim_cr(s@) == trim_cr(s@.subrange(0, end as int)),
        decreases end,
    {
        assert(s@.subrange(0, end - 1) =~= s@.subrange(0, end as int).drop_last());
        end = end - 1;
    }
    let mut t: Vec<char> = Vec::new();
    let mut i: usize = 0;
    while i < end
        invariant
            i <= end <= s@.len(),
            t@ == s@.subrange(0, i as int),
        decreases end - i,
    {
        t.push(s[i]);
        assert(s@.subrange(0, i + 1) =~= s@.subrange(0, i as int).push(s@[i as int]));
        i = i + 1;
    }
    t
}

/// The lines of a tier TSV text.
pub fn tsv_lines_of(input: &str) -> (lines: Vec<String>)
    ensures
        strs(lines@) == tsv_lines(input@),
{
    let chars = chars_of(input);
    let pieces = split_chars(&chars, '\n');
    let ghost views = pieces@.map_values(|p: Vec<char>| p@);
    proof {
        crate::text::lemma_split_nonempty(input@, '\n');
    }
    let last = pieces.len() - 1;
    let kept = if pieces[last].len() == 0 {
        last
    } else {
        pieces.len()
    };
    let ghost kept_views = if views.last().len() == 0 {
        views.drop_last()
    } else {
        views
    };
    assert(kept_views.len() == kept);
    let mut lines: Vec<String> = Vec::new();
    let mut i: usize = 0;
    while i < kept
        invariant
            i <= kept <= pieces@.len(),
            kept_views.len() == kept,
            views == pieces@.map_values(|p: Vec<char>| p@),
            forall|k: int| 0 <= k < kept ==> #[trigger] kept_views[k] == views[k],
            lines@.len() == i,
            forall|k: int| 0 <= k < i ==> (#[trigger] lines@[k])@ == trim_cr(kept_views[k]),
        decreases kept - i,
    {
        let t = trim_cr_chars(&pieces[i]);
        lines.push(string_from_chars(&t));
        i = i + 1;
    }
    assert(strs(lines@) =~= tsv_lines(input@));
    lines
}

/// Which layout a header line announces: the current one with an eligibility column (true)
/// or the earlier one without it (false).
pub open spec fn header_kind(header: Seq<char>) -> Option<bool> {
    if header == "champion_id\ttier\toverall\teligible"@ {
        Some(true)
    } else if header == "champion_id\ttier\toverall"@ {
        Some(false)
    } else {
        None
    }
}

/// Reads the header line of a tier TSV text.
pub fn tsv_header_kind(header: &str) -> (kind: Result<bool, TsvError>)
    ensures
        match header_kind(header@) {
            Some(v2) => kind matches Ok(k) && k == v2,
            None => kind matches Err(TsvError::UnsupportedHeader),
        },
{
    let chars = chars_of(header);
    if chars_eq(&chars, &chars_of("champion_id\ttier\toverall\teligible")) {
        Ok(true)
    } else if chars_eq(&chars, &chars_of("champion_id\ttier\toverall")) {
        Ok(false)
    } else {
        Err(TsvError::UnsupportedHeader)
    }
}

/// The parts of a TSV row read before its overall score: the champion, its tier, and the raw
/// overall and eligibility fields.
#[derive(Debug, Clone, PartialEq, Eq)]
pub struct TsvRowHead {
    pub champion_id: String,
    pub tier: Tier,
    pub overall: String,
    pub eligible: String,
}

fn row_error(line: usize, reason: String) -> (error: TsvError)
    ensures
        error matches TsvError::InvalidRow { line: l, reason: r } && l == line && r@ == reason@,
{
    TsvError::InvalidRow { line, reason }
}

/// Reads the start of a row: blank rows are skipped; a row needs the layout's number of
/// tab-separated fields with a non-blank champion id, not seen on an earlier row, and a
/// known tier label. The champion id is recorded as seen.
pub fn tsv_row_head(line: &str, line_number: usize, v2: bool, seen: &mut Vec<String>) -> (head: Result<
    Option<TsvRowHead>,
    TsvError,
>)
    ensures
        is_blank(line@) ==> (head matches Ok(None)) && final(seen)@ == old(seen)@,
        !is_blank(line@) ==> ({
            let fields = split(line@, '\t');
            let expected: nat = if v2 {
                4
            } else {
                3
            };
            let id = trim(fields[0]);
            if fields.len() != expected || trim(fields[0]).len() == 0 {
                head matches Err(TsvError::InvalidRow { line: l, reason: r }) && l == line_number
                    && r@ == "expected "@ + decimal_digits(expected) + " non-empty fields"@
            } else if strs(old(seen)@).contains(id) {
                head matches Err(TsvError::InvalidRow { line: l, reason: r }) && l == line_number
                    && r@ == "duplicate champion_id: "@ + id
            } else {
                strs(final(seen)@) == strs(old(seen)@).push(id) && match tier_named(fields[1]) {
                    Some(t) => head matches Ok(Some(h)) && h.champion_id@ == id && h.tier == t
                        && h.overall@ == fields[2] && h.eligible@ == (if v2 {
                        fields[3]
                    } else {
                        Seq::empty()
                    }),
                    None => head matches Err(TsvError::InvalidRow { line: l, reason: r }) && l
                        == line_number && r@ == "unknown tier: "@ + fields[1],
                }
            }
        }),
{
    let chars = chars_of(line);
    let trimmed = trim_chars(&chars);
    if trimmed.len() == 0 {
        proof {
            assert(is_blank(line@)) by {
                if !is_blank(line@) {
                    let i = choose|i: int| 0 <= i < line@.len() && !crate::text::is_white_space(line@[i]);
                    crate::text::lemma_trim_nonblank(line@, i);
                }
            }
        }
        return Ok(None);
    }
    assert(!is_blank(line@));
    let fields = split_chars(&chars, '\t');
    let ghost views = fields@.map_values(|p: Vec<char>| p@);
    let expected: usize = if v2 {
        4
    } else {
        3
    };
    proof {
        crate::text::lemma_split_nonempty(line@, '\t');
    }
    let id_chars = trim_chars(&fields[0]);
    if fields.len() != expected || id_chars.len() == 0 {
        let mut reason = "expected ".to_owned();
        append_str(&mut reason, decimal_string(expected).as_str());
        append_str(&mut reason, " non-empty fields");
        return Err(row_error(line_number, reason));
    }
    let id = string_from_chars(&id_chars);
    if contains_string(seen, &id) {
        let mut reason = "duplicate champion_id: ".to_owned();
        append_chars(&mut reason, &id_chars);
        return Err(row_error(line_number, reason));
    }
    seen.push(id);
    assert(strs(seen@) =~= strs(old(seen)@).push(id_chars@));
    let tier_text = string_from_chars(&fields[1]);
    let tier = match Tier::parse(tier_text.as_str()) {
        Ok(t) => t,
        Err(reason) => {
            return Err(row_error(line_number, reason));
        },
    };
    let overall = string_from_chars(&fields[2]);
    let eligible = if v2 {
        string_from_chars(&fields[3])
    } else {
        String::new()
    };
    Ok(Some(TsvRowHead { champion_id: string_from_chars(&id_chars), tier, overall, eligible }))
}

/// The eligibility of a row: the current layout reads `true` or `false`; the earlier layout
/// counts every tier but no tier as eligible. Eligibility must agree with the tier.
pub fn tsv_row_eligible(head: &TsvRowHead, v2: bool, line_number: usize) -> (eligible: Result<
    bool,
    TsvError,
>)
    ensures
        v2 && head.eligible@ != "true"@ && head.eligible@ != "false"@ ==> (eligible matches Err(
            TsvError::InvalidRow { line: l, reason: r },
        ) && l == line_number && r@ == "eligible must be true or false"@),
        ({
            let value = if v2 {
                head.eligible@ == "true"@
            } else {
                head.tier != Tier::NoTier
            };
            (!v2 || head.eligible@ == "true"@ || head.eligible@ == "false"@) ==> if value == (
            head.tier == Tier::NoTier) {
                eligible matches Err(TsvError::InvalidRow { line: l, reason: r }) && l
                    == line_number && r@ == "eligible and tier disagree"@
            } else {
                eligible matches Ok(e) && e == value
            }
        }),
{
    let value = if v2 {
        let text = chars_of(head.eligible.as_str());
        if chars_eq(&text, &chars_of("true")) {
            true
        } else if chars_eq(&text, &chars_of("false")) {
            false
        } else {
            return Err(row_error(line_number, "eligible must be true or false".to_owned()));
        }
    } else {
        head.tier != Tier::NoTier
    };
    if value == (head.tier == Tier::NoTier) {
        return Err(row_error(line_number, "eligible and tier disagree".to_owned()));
    }
    Ok(value)
}

/// The largest tier TSV text the bridge reads, in bytes: 4 MiB.
pub const TIER_TSV_MAX_BYTES: usize = 4194304;

/// The most rows a tier TSV text may hold.
pub const TIER_TSV_MAX_ROWS: usize = 10000;

/// Whether a line ends with the eligibility column's header.
pub open spec fn ends_with_eligible(line: Seq<char>) -> bool {
    line.len() >= eligible_tail().len() && line.subrange(
        line.len() - eligible_tail().len(),
        line.len() as int,
    ) == eligible_tail()
}

/// The eligibility column's header with the tab before it.
pub open spec fn eligible_tail() -> Seq<char> {
    seq!['\t', 'e', 'l', 'i', 'g', 'i', 'b', 'l', 'e']
}

/// The layout version a tier TSV text announces: 2 when its first line ends with the
/// eligibility column, else 1.
pub open spec fn tsv_version(input: Seq<char>) -> u8 {
    let lines = tsv_lines(input);
    if lines.len() > 0 && ends_with_eligible(lines[0]) {
        2
    } else {
        1
    }
}

fn ends_with_eligible_chars(line: &[char]) -> (found: bool)
    ensures
        found == ends_with_eligible(line@),
{
    let tail = ['\t', 'e', 'l', 'i', 'g', 'i', 'b', 'l', 'e'];
    let ghost tail_seq = eligible_tail();
    assert(tail@ =~= tail_seq);
    if line.len() < 9 {
        return false;
    }
    let start = line.len() - 9;
    let ghost end = line@.subrange(start as int, line@.len() as int);
    let mut k: usize = 0;
    while k < 9
        invariant
            k <= 9,
            start + 9 == line@.len(),
            line@.len() == line.len(),
            tail@ == tail_seq,
            tail_seq == eligible_tail(),
            end == line@.subrange(start as int, line@.len() as int),
            forall|j: int| 0 <= j < k ==> end[j] == tail_seq[j],
        decreases 9 - k,
    {
        if line[start + k] != tail[k] {
            assert(end[k as int] != tail_seq[k as int]);
            return false;
        }
        k = k + 1;
    }
    assert(end =~= tail_seq);
    true
}

/// The layout version of a tier TSV text.
pub fn tier_tsv_version(tsv: &str) -> (version: u8)
    ensures
        version == tsv_version(tsv@),
{
    let lines = tsv_lines_of(tsv);
    if lines.len() == 0 {
        return 1;
    }
    assert(lines@[0]@ == tsv_lines(tsv@)[0]);
    let first = chars_of(lines[0].as_str());
    if ends_with_eligible_chars(&first) {
        2
    } else {
        1
    }
}

/// What the bridge answers to a tier TSV text sent to be checked.
#[derive(Debug, Clone, Copy, PartialEq, Eq, Structural)]
pub enum TierTsvVerdict {
    /// The text is larger than the bridge reads.
    TooLarge,
    /// The text did not parse.
    Invalid,
    /// The text parsed to more rows than allowed.
    TooManyRows,
    /// The text parsed, in the given layout version, to the given number of rows.
    Accepted { version: u8, row_count: usize },
}

impl TierTsvVerdict {
    /// The error code the bridge answers with, or `None` for an accepted text.
    pub fn error_code(&self) -> (code: Option<&'static str>)
        ensures
            match *self {
                TierTsvVerdict::TooLarge => code matches Some(c) && c@ == "tier_tsv_too_large"@,
                TierTsvVerdict::Invalid => code matches Some(c) && c@ == "invalid_tier_tsv"@,
                TierTsvVerdict::TooManyRows => code matches Some(c) && c@ == "tier_tsv_too_many_rows"@,
                TierTsvVerdict::Accepted { .. } => code is None,
            },
    {
        match self {
            TierTsvVerdict::TooLarge => Some("tier_tsv_too_large"),
            TierTsvVerdict::Invalid => Some("invalid_tier_tsv"),
            TierTsvVerdict::TooManyRows => Some("tier_tsv_too_many_rows"),
            TierTsvVerdict::Accepted { .. } => None,
        }
    }
}

/// The answer to a tier TSV text, given how many rows it parsed to (`None` when it did not
/// parse). A text over the size limit is refused before it is parsed.
pub fn tier_tsv_verdict(tsv: &str, parsed_rows: Option<usize>) -> (verdict: TierTsvVerdict)
    ensures
        verdict == if tsv.len() > TIER_TSV_MAX_BYTES {
            TierTsvVerdict::TooLarge
        } else {
            match parsed_rows {
                None => TierTsvVerdict::Invalid,
                Some(n) => if n <= TIER_TSV_MAX_ROWS {
                    TierTsvVerdict::Accepted { version: tsv_version(tsv@), row_count: n }
                } else {
                    TierTsvVerdict::TooManyRows
                },
            }
        },
{
    if tsv.len() > TIER_TSV_MAX_BYTES {
        return TierTsvVerdict::TooLarge;
    }
    match parsed_rows {
        None => TierTsvVerdict::Invalid,
        Some(n) => if n <= TIER_TSV_MAX_ROWS {
            TierTsvVerdict::Accepted { version: tier_tsv_version(tsv), row_count: n }
        } else {
            TierTsvVerdict::TooManyRows
        },
    }
}

/// The part of a tier row that a team record takes: the champion, its tier and whether it is
/// eligible.
#[derive(Debug, Clone, PartialEq, Eq)]
pub struct TierAssignment {
    pub champion_id: String,
    pub tier: Tier,
    pub eligible: bool,
}

/// Why a tier row cannot be written to a team, if it cannot: a blank champion, or an
/// eligibility that disagrees with the tier (a champion is eligible exactly when it has one).
pub open spec fn assignment_fault(row: TierAssignment) -> Option<Seq<char>> {
    if is_blank(row.champion_id@) {
        Some("champion_id is empty"@)
    } else if row.eligible == (row.tier == Tier::NoTier) {
        Some("eligible and tier disagree for "@ + row.champion_id@)
    } else {
        None
    }
}

/// The entries a team's champion tiers take from the rows: each champion with the label the
/// game stores for its tier, in the rows' order. A faulty row refuses the whole write, with the
/// fault of the first such row.
pub fn tier_writes(rows: &[TierAssignment]) -> (writes: Result<Vec<(String, &'static str)>, RecordPatchError>)
    ensures
        match writes {
            Ok(w) => {
                &&& forall|i: int| 0 <= i < rows@.len() ==> assignment_fault(#[trigger] rows@[i]) is None
                &&& w@.len() == rows@.len()
                &&& forall|i: int| 0 <= i < w@.len() ==> (#[trigger] w@[i]).0@ == rows@[i].champion_id@
                    && w@[i].1@ == game_tier_text(rows@[i].tier)
            },
            Err(e) => exists|k: int| {
                &&& 0 <= k < rows@.len()
                &&& forall|i: int| 0 <= i < k ==> assignment_fault(#[trigger] rows@[i]) is None
                &&& assignment_fault(#[trigger] rows@[k]) matches Some(reason)
                &&& e matches RecordPatchError::InvalidTierPolicy { reason: r } && r@ == reason
            },
        },
{
    let mut writes: Vec<(String, &'static str)> = Vec::new();
    let mut i: usize = 0;
    while i < rows.len()
        invariant
            i <= rows@.len(),
            writes@.len() == i,
            forall|k: int| 0 <= k < i ==> assignment_fault(#[trigger] rows@[k]) is None,
            forall|k: int| 0 <= k < i ==> (#[trigger] writes@[k]).0@ == rows@[k].champion_id@
                && writes@[k].1@ == game_tier_text(rows@[k].tier),
        decreases rows@.len() - i,
    {
        let row = &rows[i];
        if str_is_blank(row.champion_id.as_str()) {
            let reason = "champion_id is empty".to_owned();
            proof {
                reveal_strlit("champion_id is empty");
            }
            assert(assignment_fault(rows@[i as int]) == Some(reason@));
            return Err(RecordPatchError::InvalidTierPolicy { reason });
        }
        if row.eligible == (row.tier == Tier::NoTier) {
            let mut reason = "eligible and tier disagree for ".to_owned();
            append_str(&mut reason, row.champion_id.as_str());
            assert(assignment_fault(rows@[i as int]) == Some(reason@));
            return Err(RecordPatchError::InvalidTierPolicy { reason });
        }
        writes.push((row.champion_id.clone(), game_tier_label(row.tier)));
        i = i + 1;
    }
    Ok(writes)
}

} // verus!
