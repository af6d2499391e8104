//! The match index's vocabulary, its compressed on-disk cache, and the small decisions the
//! index makes about replays.
use vstd::prelude::*;

use crate::profile::{DivisionFilter, GameScope, RegionFilter, RoleFilter, ValidationError};
use crate::text::{
    all_ascii_digits, append_chars, append_str, chars_eq, chars_of, decimal_digits,
    decimal_string, parse_u64, parse_u64_chars,
};

verus! {

#[derive(Debug, Clone, Copy, PartialEq, Eq, PartialOrd, Ord, Hash, Structural)]
pub enum MatchKind {
    Tournament,
    Solo,
}

#[derive(Debug, Clone, Copy, PartialEq, Eq, PartialOrd, Ord, Hash, Structural)]
pub enum Division {
    First,
    Second,
}

/// Why a replay or the index cache was refused.
#[derive(Debug, Clone, PartialEq, Eq)]
pub enum ReplayError {
    InvalidJson(String),
    MissingField(String),
    InvalidField(String),
    InvalidProfile(ValidationError),
    Cache(String),
}

impl ReplayError {
    /// The text shown for the error.
    pub fn message(&self) -> (text: String)
        ensures
            text@ == match self {
                ReplayError::InvalidJson(reason) => "invalid replay JSON: "@ + reason@,
                ReplayError::MissingField(field) => "missing replay field: "@ + field@,
                ReplayError::InvalidField(field) => "invalid replay field: "@ + field@,
                ReplayError::InvalidProfile(reason) => "invalid profile: "@ + reason.message_text(),
                ReplayError::Cache(reason) => "invalid analytics index cache: "@ + reason@,
            },
    {
        let (prefix, detail) = match self {
            ReplayError::InvalidJson(reason) => ("invalid replay JSON: ", reason.as_str()),
            ReplayError::MissingField(field) => ("missing replay field: ", field.as_str()),
            ReplayError::InvalidField(field) => ("invalid replay field: ", field.as_str()),
            ReplayError::InvalidProfile(reason) => ("invalid profile: ", reason.message()),
            ReplayError::Cache(reason) => ("invalid analytics index cache: ", reason.as_str()),
        };
        let mut text = prefix.to_owned();
        append_str(&mut text, detail);
        text
    }
}

pub const MATCH_INDEX_CACHE_VERSION: u32 = 5;

pub const MATCH_INDEX_FORMULA_VERSION: &'static str = "atlas_1_0_33_role_profiles";

pub const MATCH_INDEX_CACHE_CHUNK_SIZE: usize = 256;

#[derive(Debug, Clone, Copy, PartialEq, Eq, Structural)]
pub struct CachedMatchId {
    pub kind: MatchKind,
    pub id: usize,
}

/// What a cache was written with and what it holds.
#[derive(Debug, Clone, PartialEq, Eq)]
pub struct MatchIndexCacheManifest {
    pub cache_version: u32,
    pub game_version: String,
    pub formula_version: String,
    pub chunk_size: usize,
    pub chunk_count: usize,
    pub match_count: usize,
    pub revision: u64,
    pub match_ids: Vec<CachedMatchId>,
    pub chunk_checksums: Vec<u64>,
}

/// The index cache: a manifest and compressed chunks of at most 256 matches each.
#[derive(Debug, Clone, PartialEq, Eq)]
pub struct MatchIndexCache {
    pub manifest: MatchIndexCacheManifest,
    pub chunks: Vec<Vec<u8>>,
}

/// The 64-bit FNV-1a hash.
pub open spec fn fnv_hash(bytes: Seq<u8>) -> u64
    decreases bytes.len(),
{
    if bytes.len() == 0 {
        0xcbf29ce484222325u64
    } else {
        (fnv_hash(bytes.drop_last()) ^ (bytes.last() as u64)).wrapping_mul(0x100000001b3u64)
    }
}

/// The 64-bit FNV-1a hash of the bytes, the checksum of a cache chunk.
pub fn fnv1a64(bytes: &[u8]) -> (hash: u64)
    ensures
        hash == fnv_hash(bytes@),
{
    let mut hash: u64 = 0xcbf29ce484222325u64;
    let mut i: usize = 0;
    while i < bytes.len()
        invariant
            i <= bytes@.len(),
            hash == fnv_hash(bytes@.subrange(0, i as int)),
        decreases bytes.len() - i,
    {
        assert(bytes@.subrange(0, i + 1).drop_last() =~= bytes@.subrange(0, i as int));
        hash = (hash ^ (bytes[i] as u64)).wrapping_mul(0x100000001b3u64);
        i = i + 1;
    }
    assert(bytes@.subrange(0, bytes@.len() as int) =~= bytes@);
    hash
}

/// What `lz4_flex::compress_prepend_size` writes for the bytes.
pub uninterp spec fn lz4_compressed(input: Seq<u8>) -> Seq<u8>;

/// What `lz4_flex::decompress_size_prepended` reads from the bytes: the data, or the text of
/// its error.
pub uninterp spec fn lz4_decompressed(input: Seq<u8>) -> Result<Seq<u8>, Seq<char>>;

pub open spec fn decompresses_to(compressed: Seq<u8>, data: Seq<u8>) -> bool {
    lz4_decompressed(compressed) == Ok::<Seq<u8>, Seq<char>>(data)
}

/// `lz4_flex::compress_prepend_size`: LZ4 block compression with the uncompressed length in
/// front as four little-endian bytes. Its documentation pairs it with
/// `decompress_size_prepended`, which reads back the input whenever its length fits in the
/// four-byte prefix.
#[verifier::external_body]
fn lz4_compress(input: &[u8]) -> (output: Vec<u8>)
    ensures
        output@ == lz4_compressed(input@),
        input@.len() <= u32::MAX ==> decompresses_to(output@, input@),
{
    lz4_flex::compress_prepend_size(input)
}

/// `lz4_flex::decompress_size_prepended`, with the error turned into its text. It allocates
/// the length named by the prefix before decoding, so an absurd prefix can exhaust memory; that
/// is left unsaid here.
#[verifier::external_body]
fn lz4_decompress(input: &[u8]) -> (output: Result<Vec<u8>, String>)
    ensures
        output is Ok ==> lz4_decompressed(input@) is Ok && lz4_decompressed(input@)->Ok_0
            == output->Ok_0@,
        output is Err ==> lz4_decompressed(input@) is Err && lz4_decompressed(input@)->Err_0
            == output->Err_0@,
{
    lz4_flex::decompress_size_prepended(input).map_err(|error| error.to_string())
}

pub open spec fn checksums_of(chunks: Seq<Seq<u8>>) -> Seq<u64> {
    Seq::new(chunks.len(), |i: int| fnv_hash(chunks[i]))
}

pub open spec fn chunk_views(chunks: Seq<Vec<u8>>) -> Seq<Seq<u8>> {
    chunks.map_values(|c: Vec<u8>| c@)
}

fn cache_error(text: &str) -> (error: ReplayError)
    ensures
        error matches ReplayError::Cache(m) && m@ == text@,
{
    ReplayError::Cache(text.to_owned())
}

impl MatchIndexCache {
    /// The manifest was written by this cache format, for this game build and this formula.
    pub open spec fn header_matches(&self, game_version: Seq<char>) -> bool {
        &&& self.manifest.cache_version == MATCH_INDEX_CACHE_VERSION
        &&& self.manifest.game_version@ == game_version
        &&& self.manifest.formula_version@ == MATCH_INDEX_FORMULA_VERSION@
        &&& self.manifest.chunk_size == MATCH_INDEX_CACHE_CHUNK_SIZE
    }

    /// The manifest counts as many chunks and checksums as the cache holds.
    pub open spec fn counts_match(&self) -> bool {
        &&& self.chunks@.len() == self.manifest.chunk_count
        &&& self.manifest.chunk_checksums@.len() == self.chunks@.len()
    }

    /// Builds a cache from the serialized chunks of an index: each chunk is compressed and
    /// checksummed, and the manifest records the build, the formula and the match ids.
    pub fn from_encoded_chunks(
        encoded: &Vec<Vec<u8>>,
        match_ids: Vec<CachedMatchId>,
        revision: u64,
        game_version: &str,
    ) -> (cache: Self)
        ensures
            cache.header_matches(game_version@),
            cache.counts_match(),
            chunk_views(cache.chunks@) == chunk_views(encoded@).map_values(
                |c: Seq<u8>| lz4_compressed(c),
            ),
            cache.manifest.chunk_checksums@ == checksums_of(chunk_views(cache.chunks@)),
            forall|i: int|
                0 <= i < encoded@.len() && encoded@[i]@.len() <= u32::MAX ==> decompresses_to(
                    #[trigger] cache.chunks@[i]@,
                    encoded@[i]@,
                ),
            cache.manifest.match_count == match_ids@.len(),
            cache.manifest.match_ids@ == match_ids@,
            cache.manifest.revision == revision,
    {
        let mut chunks: Vec<Vec<u8>> = Vec::new();
        let mut checksums: Vec<u64> = Vec::new();
        let mut i: usize = 0;
        while i < encoded.len()
            invariant
                i <= encoded@.len(),
                chunks@.len() == i,
                checksums@.len() == i,
                forall|k: int|
                    0 <= k < i ==> (#[trigger] chunks@[k])@ == lz4_compressed(encoded@[k]@),
                forall|k: int| 0 <= k < i ==> #[trigger] checksums@[k] == fnv_hash(chunks@[k]@),
                forall|k: int|
                    0 <= k < i && encoded@[k]@.len() <= u32::MAX ==> decompresses_to(
                        #[trigger] chunks@[k]@,
                        encoded@[k]@,
                    ),
            decreases encoded.len() - i,
        {
            let chunk = lz4_compress(encoded[i].as_slice());
            checksums.push(fnv1a64(chunk.as_slice()));
            chunks.push(chunk);
            i = i + 1;
        }
        assert(chunk_views(chunks@) =~= chunk_views(encoded@).map_values(
            |c: Seq<u8>| lz4_compressed(c),
        ));
        assert(checksums@ =~= checksums_of(chunk_views(chunks@)));
        let count = chunks.len();
        let match_count = match_ids.len();
        let manifest = MatchIndexCacheManifest {
            cache_version: MATCH_INDEX_CACHE_VERSION,
            game_version: game_version.to_owned(),
            formula_version: MATCH_INDEX_FORMULA_VERSION.to_owned(),
            chunk_size: MATCH_INDEX_CACHE_CHUNK_SIZE,
            chunk_count: count,
            match_count,
            revision,
            match_ids,
            chunk_checksums: checksums,
        };
        MatchIndexCache { manifest, chunks }
    }

    /// Refuses a cache written by another cache format, game build or formula, or whose
    /// manifest does not count its chunks.
    pub fn check_header(&self, game_version: &str) -> (checked: Result<(), ReplayError>)
        ensures
            checked is Ok <==> self.header_matches(game_version@) && self.counts_match(),
            !self.header_matches(game_version@) ==> (checked matches Err(ReplayError::Cache(m))
                && m@ == "cache version does not match this game build"@),
            self.header_matches(game_version@) && !self.counts_match() ==> (checked matches Err(
                ReplayError::Cache(m),
            ) && m@ == "cache manifest does not match its chunks"@),
    {
        let build = chars_of(game_version);
        let recorded = chars_of(self.manifest.game_version.as_str());
        let formula = chars_of(self.manifest.formula_version.as_str());
        let expected_formula = chars_of(MATCH_INDEX_FORMULA_VERSION);
        if self.manifest.cache_version != MATCH_INDEX_CACHE_VERSION || !chars_eq(&recorded, &build)
            || !chars_eq(&formula, &expected_formula) || self.manifest.chunk_size
            != MATCH_INDEX_CACHE_CHUNK_SIZE {
            return Err(cache_error("cache version does not match this game build"));
        }
        if self.chunks.len() != self.manifest.chunk_count || self.manifest.chunk_checksums.len()
            != self.chunks.len() {
            return Err(cache_error("cache manifest does not match its chunks"));
        }
        Ok(())
    }

    /// The serialized matches of one chunk: its checksum must match the manifest and it must
    /// decompress.
    pub fn chunk_payload(&self, index: usize) -> (payload: Result<Vec<u8>, ReplayError>)
        requires
            self.counts_match(),
            index < self.chunks@.len(),
        ensures
            fnv_hash(self.chunks@[index as int]@) != self.manifest.chunk_checksums@[index as int]
                ==> (payload matches Err(ReplayError::Cache(m)) && m@ == "cache chunk "@
                + decimal_digits(index as nat) + " checksum mismatch"@),
            fnv_hash(self.chunks@[index as int]@) == self.manifest.chunk_checksums@[index as int]
                ==> match lz4_decompressed(self.chunks@[index as int]@) {
                Ok(data) => payload matches Ok(bytes) && bytes@ == data,
                Err(text) => payload matches Err(ReplayError::Cache(m)) && m@ == "cache chunk "@
                    + decimal_digits(index as nat) + ": "@ + text,
            },
    {
        let chunk = &self.chunks[index];
        if fnv1a64(chunk.as_slice()) != self.manifest.chunk_checksums[index] {
            let mut text = "cache chunk ".to_owned();
            append_str(&mut text, decimal_string(index).as_str());
            append_str(&mut text, " checksum mismatch");
            return Err(ReplayError::Cache(text));
        }
        match lz4_decompress(chunk.as_slice()) {
            Ok(data) => Ok(data),
            Err(reason) => {
                let mut text = "cache chunk ".to_owned();
                append_str(&mut text, decimal_string(index).as_str());
                append_str(&mut text, ": ");
                append_str(&mut text, reason.as_str());
                Err(ReplayError::Cache(text))
            },
        }
    }
}

impl MatchIndexCacheManifest {
    /// The restored matches agree with the manifest: as many as it counts, as many as it
    /// lists, and every listed id restored.
    pub open spec fn ids_consistent(&self, restored: Seq<CachedMatchId>) -> bool {
        &&& restored.len() == self.match_count
        &&& self.match_ids@.len() == restored.len()
        &&& forall|i: int| 0 <= i < self.match_ids@.len() ==> restored.contains(
            #[trigger] self.match_ids@[i],
        )
    }

    /// Checks the ids of the restored matches (each once) against the manifest.
    pub fn check_restored_ids(&self, restored: &[CachedMatchId]) -> (checked: Result<
        (),
        ReplayError,
    >)
        ensures
            checked is Ok <==> self.ids_consistent(restored@),
            checked is Err ==> (checked matches Err(ReplayError::Cache(m)) && m@
                == "cache match id manifest is inconsistent"@),
    {
        if restored.len() != self.match_count || self.match_ids.len() != restored.len() {
            return Err(cache_error("cache match id manifest is inconsistent"));
        }
        let mut i: usize = 0;
        while i < self.match_ids.len()
            invariant
                i <= self.match_ids@.len(),
                forall|k: int| 0 <= k < i ==> restored@.contains(#[trigger] self.match_ids@[k]),
            decreases self.match_ids.len() - i,
        {
            let wanted = self.match_ids[i];
            let mut found = false;
            let mut j: usize = 0;
            while j < restored.len()
                invariant
                    j <= restored@.len(),
                    found ==> restored@.contains(wanted),
                    !found ==> forall|k: int| 0 <= k < j ==> restored@[k] != wanted,
                decreases restored.len() - j,
            {
                if restored[j] == wanted {
                    found = true;
                }
                j = j + 1;
            }
            if !found {
                return Err(cache_error("cache match id manifest is inconsistent"));
            }
            i = i + 1;
        }
        Ok(())
    }
}

/// A cache written from serialized chunks passes its own header check for the same build,
/// and each chunk that decompresses to its serialized form passes its checksum and reads back
/// exactly as it was serialized.
pub proof fn lemma_cache_round_trip(
    cache: MatchIndexCache,
    encoded: Seq<Seq<u8>>,
    game_version: Seq<char>,
    index: int,
)
    requires
        cache.header_matches(game_version),
        cache.counts_match(),
        cache.manifest.chunk_checksums@ == checksums_of(chunk_views(cache.chunks@)),
        0 <= index < cache.chunks@.len(),
        decompresses_to(cache.chunks@[index]@, encoded[index]),
    ensures
        fnv_hash(cache.chunks@[index]@) == cache.manifest.chunk_checksums@[index],
        lz4_decompressed(cache.chunks@[index]@) == Ok::<Seq<u8>, Seq<char>>(encoded[index]),
{
    assert(chunk_views(cache.chunks@)[index] == cache.chunks@[index]@);
}

/// Whether a match of this kind counts under a game scope.
pub fn scope_matches(scope: GameScope, kind: MatchKind) -> (matches: bool)
    ensures
        matches == (scope == GameScope::SoloAndTournament || (scope == GameScope::Tournament
            && kind == MatchKind::Tournament) || (scope == GameScope::Solo && kind
            == MatchKind::Solo)),
{
    match (scope, kind) {
        (GameScope::Tournament, MatchKind::Tournament) => true,
        (GameScope::Solo, MatchKind::Solo) => true,
        (GameScope::SoloAndTournament, _) => true,
        _ => false,
    }
}

/// Whether a match of this division passes a division filter; a match with no division only
/// passes the filter that accepts all.
pub fn division_matches(filter: DivisionFilter, division: Option<Division>) -> (matches: bool)
    ensures
        matches == match filter {
            DivisionFilter::All => true,
            DivisionFilter::First => division == Some(Division::First),
            DivisionFilter::Second => division == Some(Division::Second),
        },
{
    match filter {
        DivisionFilter::All => true,
        DivisionFilter::First => division == Some(Division::First),
        DivisionFilter::Second => division == Some(Division::Second),
    }
}

fn invalid_field(prefix: &str, detail: &[char]) -> (error: ReplayError)
    ensures
        error matches ReplayError::InvalidField(m) && m@ == prefix@ + detail@,
{
    let mut text = prefix.to_owned();
    append_chars(&mut text, detail);
    ReplayError::InvalidField(text)
}

/// The role at a position index of the game (top, jungle, mid, bottom, support).
pub fn role_from_index(index: usize) -> (role: Result<RoleFilter, ReplayError>)
    ensures
        index == 0 ==> role == Ok::<RoleFilter, ReplayError>(RoleFilter::Top),
        index == 1 ==> role == Ok::<RoleFilter, ReplayError>(RoleFilter::Jungle),
        index == 2 ==> role == Ok::<RoleFilter, ReplayError>(RoleFilter::Mid),
        index == 3 ==> role == Ok::<RoleFilter, ReplayError>(RoleFilter::Bot),
        index == 4 ==> role == Ok::<RoleFilter, ReplayError>(RoleFilter::Support),
        index > 4 ==> (role matches Err(ReplayError::InvalidField(m)) && m@ == "position index:"@
            + decimal_digits(index as nat)),
{
    match index {
        0 => Ok(RoleFilter::Top),
        1 => Ok(RoleFilter::Jungle),
        2 => Ok(RoleFilter::Mid),
        3 => Ok(RoleFilter::Bot),
        4 => Ok(RoleFilter::Support),
        _ => {
            let digits = chars_of(decimal_string(index).as_str());
            Err(invalid_field("position index:", &digits))
        },
    }
}

/// The region of a solo queue region id.
pub fn region_from_solo_id(region_id: usize) -> (region: Result<RegionFilter, ReplayError>)
    ensures
        region_id == 0 ==> region == Ok::<RegionFilter, ReplayError>(RegionFilter::Kr),
        region_id == 1 ==> region == Ok::<RegionFilter, ReplayError>(RegionFilter::Cn),
        region_id == 2 ==> region == Ok::<RegionFilter, ReplayError>(RegionFilter::Eu),
        region_id == 3 ==> region == Ok::<RegionFilter, ReplayError>(RegionFilter::Na),
        region_id == 4 ==> region == Ok::<RegionFilter, ReplayError>(RegionFilter::Sa),
        region_id == 5 ==> region == Ok::<RegionFilter, ReplayError>(RegionFilter::Jp),
        region_id > 5 ==> (region matches Err(ReplayError::InvalidField(m)) && m@ == "region_id:"@
            + decimal_digits(region_id as nat)),
{
    match region_id {
        0 => Ok(RegionFilter::Kr),
        1 => Ok(RegionFilter::Cn),
        2 => Ok(RegionFilter::Eu),
        3 => Ok(RegionFilter::Na),
        4 => Ok(RegionFilter::Sa),
        5 => Ok(RegionFilter::Jp),
        _ => {
            let digits = chars_of(decimal_string(region_id).as_str());
            Err(invalid_field("region_id:", &digits))
        },
    }
}

/// `char::to_ascii_lowercase`: ASCII capitals become small letters; every other character
/// stays.
pub open spec fn ascii_lower(c: char) -> char {
    if 'A' <= c <= 'Z' {
        ((c as u32) + 32) as char
    } else {
        c
    }
}

pub open spec fn ascii_lowercase(s: Seq<char>) -> Seq<char> {
    Seq::new(s.len(), |i: int| ascii_lower(s[i]))
}

fn lowercase_chars(s: &[char]) -> (lower: Vec<char>)
    ensures
        lower@ == ascii_lowercase(s@),
{
    let mut lower: Vec<char> = Vec::new();
    let mut i: usize = 0;
    while i < s.len()
        invariant
            i <= s@.len(),
            lower@ == ascii_lowercase(s@.subrange(0, i as int)),
        decreases s.len() - i,
    {
        let c = s[i];
        let l = if 'A' <= c && c <= 'Z' {
            ((c as u32) + 32) as u8 as char
        } else {
            c
        };
        assert(l == ascii_lower(c));
        lower.push(l);
        assert(ascii_lowercase(s@.subrange(0, i + 1)) =~= ascii_lowercase(
            s@.subrange(0, i as int),
        ).push(ascii_lower(c)));
        i = i + 1;
    }
    assert(s@.subrange(0, s@.len() as int) =~= s@);
    lower
}

/// The role named by a replay's position text, in any ASCII case; "bot" and "bottom" both
/// name the bottom lane.
pub open spec fn role_named(name: Seq<char>) -> Option<RoleFilter> {
    let lower = ascii_lowercase(name);
    if lower == "top"@ {
        Some(RoleFilter::Top)
    } else if lower == "jungle"@ {
        Some(RoleFilter::Jungle)
    } else if lower == "mid"@ {
        Some(RoleFilter::Mid)
    } else if lower == "bottom"@ || lower == "bot"@ {
        Some(RoleFilter::Bot)
    } else if lower == "support"@ {
        Some(RoleFilter::Support)
    } else {
        None
    }
}

/// Reads the role of a replay's position text.
pub fn parse_role(value: &str) -> (role: Result<RoleFilter, ReplayError>)
    ensures
        match role_named(value@) {
            Some(r) => role == Ok::<RoleFilter, ReplayError>(r),
            None => role matches Err(ReplayError::InvalidField(m)) && m@ == "position:"@
                + value@,
        },
{
    let chars = chars_of(value);
    let lower = lowercase_chars(&chars);
    if chars_eq(&lower, &chars_of("top")) {
        Ok(RoleFilter::Top)
    } else if chars_eq(&lower, &chars_of("jungle")) {
        Ok(RoleFilter::Jungle)
    } else if chars_eq(&lower, &chars_of("mid")) {
        Ok(RoleFilter::Mid)
    } else if chars_eq(&lower, &chars_of("bottom")) || chars_eq(&lower, &chars_of("bot")) {
        Ok(RoleFilter::Bot)
    } else if chars_eq(&lower, &chars_of("support")) {
        Ok(RoleFilter::Support)
    } else {
        Err(invalid_field("position:", &chars))
    }
}

/// The runs of decimal digits in a text, in order, empty runs included.
pub open spec fn digit_runs(s: Seq<char>) -> Seq<Seq<char>>
    decreases s.len(),
{
    if s.len() == 0 {
        seq![Seq::empty()]
    } else {
        let runs = digit_runs(s.drop_last());
        if '0' <= s.last() <= '9' {
            runs.update(runs.len() - 1, runs.last().push(s.last()))
        } else {
            runs.push(Seq::empty())
        }
    }
}

/// The values of the runs that are non-empty and fit in 64 bits, in order.
pub open spec fn run_values(runs: Seq<Seq<char>>) -> Seq<u64>
    decreases runs.len(),
{
    if runs.len() == 0 {
        Seq::empty()
    } else {
        let values = run_values(runs.drop_last());
        if runs.last().len() > 0 && parse_u64(runs.last()) is Some {
            values.push(parse_u64(runs.last())->0)
        } else {
            values
        }
    }
}

/// The numbers of a version text, used to order patches: "0.5.10" gives 0, 5, 10.
pub fn version_key(version: &str) -> (key: Vec<u64>)
    ensures
        key@ == run_values(digit_runs(version@)),
{
    let chars = chars_of(version);
    let mut key: Vec<u64> = Vec::new();
    let mut run: Vec<char> = Vec::new();
    let mut i: usize = 0;
    assert(chars@.subrange(0, 0) =~= Seq::<char>::empty());
    assert(digit_runs(Seq::<char>::empty()).drop_last() =~= Seq::<Seq<char>>::empty());
    while i < chars.len()
        invariant
            i <= chars@.len(),
            chars@ == version@,
            digit_runs(chars@.subrange(0, i as int)).len() > 0,
            digit_runs(chars@.subrange(0, i as int)).last() == run@,
            run_values(digit_runs(chars@.subrange(0, i as int)).drop_last()) == key@,
        decreases chars.len() - i,
    {
        let ghost prefix = chars@.subrange(0, i as int);
        let ghost next = chars@.subrange(0, i + 1);
        assert(next.drop_last() =~= prefix);
        assert(next.last() == chars@[i as int]);
        let c = chars[i];
        if '0' <= c && c <= '9' {
            run.push(c);
            assert(digit_runs(next).drop_last() =~= digit_runs(prefix).drop_last());
        } else {
            let ghost runs = digit_runs(prefix);
            assert(digit_runs(next).drop_last() =~= runs);
            assert(runs =~= runs.drop_last().push(run@));
            if run.len() > 0 {
                if let Some(value) = parse_u64_chars(&run) {
                    key.push(value);
                }
            }
            run = Vec::new();
            assert(digit_runs(next).last() =~= run@);
        }
        i = i + 1;
    }
    let ghost runs = digit_runs(chars@);
    assert(chars@.subrange(0, chars@.len() as int) =~= chars@);
    assert(runs =~= runs.drop_last().push(run@));
    if run.len() > 0 {
        if let Some(value) = parse_u64_chars(&run) {
            key.push(value);
        }
    }
    key
}

/// The region and division of a tournament league: leagues 0 to 5 are the first divisions of
/// KR, CN, EU, NA, SA and JP, leagues 6 to 11 their second divisions.
pub open spec fn league_region(league_id: usize) -> Option<(RegionFilter, Division)> {
    let (region_id, division) = if league_id < 6 {
        (league_id as int, Division::First)
    } else {
        (league_id - 6, Division::Second)
    };
    if league_id >= 12 {
        None
    } else {
        Some(
            (
                if region_id == 0 {
                    RegionFilter::Kr
                } else if region_id == 1 {
                    RegionFilter::Cn
                } else if region_id == 2 {
                    RegionFilter::Eu
                } else if region_id == 3 {
                    RegionFilter::Na
                } else if region_id == 4 {
                    RegionFilter::Sa
                } else {
                    RegionFilter::Jp
                },
                division,
            ),
        )
    }
}

/// The region and division of a tournament replay's league.
pub fn league_region_division(league_id: usize) -> (found: Result<
    (RegionFilter, Division),
    ReplayError,
>)
    ensures
        match league_region(league_id) {
            Some(pair) => found matches Ok(p) && p == pair,
            None => found matches Err(ReplayError::InvalidField(m)) && m@ == "team.league_id:"@
                + decimal_digits(league_id as nat),
        },
{
    if league_id >= 12 {
        let digits = chars_of(decimal_string(league_id).as_str());
        return Err(invalid_field("team.league_id:", &digits));
    }
    let (region_id, division) = if league_id < 6 {
        (league_id, Division::First)
    } else {
        (league_id - 6, Division::Second)
    };
    let region = match region_from_solo_id(region_id) {
        Ok(region) => region,
        Err(_) => RegionFilter::Jp,
    };
    Ok((region, division))
}

} // verus!
