//! The state the dashboard and editor read from the running career, and the small rules of
//! the bridge between them.
use std::sync::atomic::{AtomicU64, AtomicUsize};

use vstd::prelude::*;

use crate::api::ApiSurface;
use crate::catalog::{entry_ids, first_roles, ActiveChampionCatalogEntry};
use crate::ordered::{lemma_sorted_of, sorted_of, sorted_unique, strs};
use crate::profile::{RoleFilter, TierProfile};
use crate::text::{append_str, chars_of, join, push_char};

verus! {

/// The team id that stands for "no team".
pub const NONE_ID: usize = usize::MAX;

pub const CORE_BRIDGE_ADDR: &'static str = "127.0.0.1:28452";

pub const EDITOR_BRIDGE_ADDR: &'static str = "127.0.0.1:28453";

/// The game command that carries bridge requests of a surface.
pub fn bridge_command(surface: ApiSurface) -> (command: &'static str)
    ensures
        command@ == match surface {
            ApiSurface::Core => "tfm2_atlas_core.bridge"@,
            ApiSurface::Editor => "tfm2_atlas_editor.bridge"@,
        },
{
    match surface {
        ApiSurface::Core => "tfm2_atlas_core.bridge",
        ApiSurface::Editor => "tfm2_atlas_editor.bridge",
    }
}

/// The game event that carries bridge responses of a surface.
pub fn bridge_response_event(surface: ApiSurface) -> (event: &'static str)
    ensures
        event@ == match surface {
            ApiSurface::Core => "tfm2_atlas_core.bridge_response"@,
            ApiSurface::Editor => "tfm2_atlas_editor.bridge_response"@,
        },
{
    match surface {
        ApiSurface::Core => "tfm2_atlas_core.bridge_response",
        ApiSurface::Editor => "tfm2_atlas_editor.bridge_response",
    }
}

#[derive(Debug, Clone, Copy, PartialEq, Eq, Structural)]
pub enum EngineStatus {
    WaitingForCareer,
    ValidatingSchema,
    Indexing,
    Ready,
    Error,
}

#[derive(Debug, Clone, Copy, PartialEq, Eq, Structural)]
pub enum IndexCacheState {
    Cold,
    Restored,
    Rebuilding,
    Checkpointed,
    Complete,
    Invalid,
}

/// How far the match index has come.
#[derive(Debug, Clone, Copy, PartialEq, Eq, Structural)]
pub struct IndexProgress {
    pub total: usize,
    pub processed: usize,
    pub indexed: usize,
    pub failed: usize,
    pub pending: usize,
    pub cache_state: IndexCacheState,
}

impl Default for IndexProgress {
    fn default() -> (progress: Self)
        ensures
            progress == (IndexProgress {
                total: 0,
                processed: 0,
                indexed: 0,
                failed: 0,
                pending: 0,
                cache_state: IndexCacheState::Cold,
            }),
    {
        IndexProgress {
            total: 0,
            processed: 0,
            indexed: 0,
            failed: 0,
            pending: 0,
            cache_state: IndexCacheState::Cold,
        }
    }
}

/// Whether the active tier profile was written to the player's team and read back.
#[derive(Debug, Clone, PartialEq, Eq)]
pub struct TierApplicationState {
    pub applied: bool,
    pub team_id: Option<usize>,
    pub profile_revision: u64,
    pub applied_champions: usize,
    pub readback_verified: bool,
    pub client_screen_verified: bool,
    pub error: Option<String>,
}

impl Default for TierApplicationState {
    fn default() -> (state: Self)
        ensures
            !state.applied,
            state.team_id is None,
            state.profile_revision == 0,
            state.applied_champions == 0,
            !state.readback_verified,
            !state.client_screen_verified,
            state.error is None,
    {
        TierApplicationState {
            applied: false,
            team_id: None,
            profile_revision: 0,
            applied_champions: 0,
            readback_verified: false,
            client_screen_verified: false,
            error: None,
        }
    }
}

impl TierApplicationState {
    /// The state after a profile was applied and saved: the profile counts as applied, and its
    /// tiers as read back, exactly when it is enabled; a disabled profile leaves the client's
    /// own screen in charge. The revision advances by one, wrapping at the top.
    pub fn after_apply(&self, enabled: bool, team_id: Option<usize>, applied_champions: usize) -> (next: Self)
        ensures
            next.applied == enabled,
            next.team_id == team_id,
            next.profile_revision == if self.profile_revision == u64::MAX {
                0
            } else {
                (self.profile_revision + 1) as u64
            },
            next.applied_champions == applied_champions,
            next.readback_verified == enabled,
            next.client_screen_verified == !enabled,
            next.error is None,
    {
        let profile_revision = if self.profile_revision == u64::MAX {
            0
        } else {
            self.profile_revision + 1
        };
        TierApplicationState {
            applied: enabled,
            team_id,
            profile_revision,
            applied_champions,
            readback_verified: enabled,
            client_screen_verified: !enabled,
            error: None,
        }
    }

    /// The state after writing a profile's tiers failed: nothing counts as applied, the
    /// revision stays, and the failure is kept.
    pub fn after_failed_apply(&self, team_id: Option<usize>, message: String) -> (next: Self)
        ensures
            !next.applied,
            next.team_id == team_id,
            next.profile_revision == self.profile_revision,
            next.applied_champions == 0,
            !next.readback_verified,
            !next.client_screen_verified,
            next.error == Some(message),
    {
        TierApplicationState {
            applied: false,
            team_id,
            profile_revision: self.profile_revision,
            applied_champions: 0,
            readback_verified: false,
            client_screen_verified: false,
            error: Some(message),
        }
    }
}

#[derive(Debug, Clone, Copy, PartialEq, Eq, Structural)]
pub enum CatalogStatus {
    Loading,
    Ready,
    Unavailable,
}

#[derive(Debug, Clone, PartialEq, Eq)]
pub struct ChampionMasteryValue {
    pub champion_id: String,
    pub display_name: String,
    pub value: i64,
    pub floor: i64,
    pub active: bool,
}

#[derive(Debug, Clone, PartialEq, Eq)]
pub struct ChampionMasteryState {
    pub athlete_id: usize,
    pub active: Vec<ChampionMasteryValue>,
    pub inactive: Vec<ChampionMasteryValue>,
}

/// A message for the dashboard; a fatal one stops the engine.
#[derive(Debug, Clone, PartialEq, Eq)]
pub struct Diagnostic {
    pub code: String,
    pub message: String,
    pub fatal: bool,
}

impl Diagnostic {
    pub fn new(code: &str, message: &str, fatal: bool) -> (diagnostic: Self)
        ensures
            diagnostic.code@ == code@,
            diagnostic.message@ == message@,
            diagnostic.fatal == fatal,
    {
        Diagnostic { code: code.to_owned(), message: message.to_owned(), fatal }
    }
}

#[derive(Debug, Clone, Copy, PartialEq, Eq, Structural)]
pub struct ChampionStatState {
    pub attack: usize,
    pub magic_power: usize,
    pub hp: usize,
    pub defence: usize,
    pub magic_resistance: usize,
    pub move_speed: usize,
    pub hp_regen: usize,
    pub stack: usize,
    pub crit_chance: usize,
}

/// What the dashboard shows of a champion.
#[derive(Debug, Clone, PartialEq, Eq)]
pub struct ChampionBriefState {
    pub champion_id: String,
    pub display_name: String,
    pub category: Option<String>,
    pub tags: Vec<String>,
    pub positions: Vec<RoleFilter>,
    pub main_position: Option<RoleFilter>,
    pub stat: ChampionStatState,
    pub growth: ChampionStatState,
}

/// The champions of the career, with a revision that changes whenever the list is replaced.
#[derive(Debug, Clone, PartialEq, Eq)]
pub struct ChampionCatalog {
    pub revision: u64,
    pub status: CatalogStatus,
    pub champions: Vec<ChampionBriefState>,
}

impl Default for ChampionCatalog {
    fn default() -> (catalog: Self)
        ensures
            catalog.revision == 0,
            catalog.status == CatalogStatus::Loading,
            catalog.champions@.len() == 0,
    {
        ChampionCatalog { revision: 0, status: CatalogStatus::Loading, champions: Vec::new() }
    }
}

/// What the dashboard is shown of the running career. The analytics and the locks are carried
/// as they are computed elsewhere.
#[derive(Debug, Clone, PartialEq)]
pub struct RuntimePublicState<A, L> {
    pub connected: bool,
    pub game_version: String,
    pub engine_status: EngineStatus,
    pub indexed_matches: usize,
    pub pending_records: usize,
    pub data_revision: u64,
    pub player_team_id: Option<usize>,
    pub active_profile: TierProfile,
    pub preview_profile: TierProfile,
    pub analytics: Option<A>,
    pub locks: Vec<L>,
    pub diagnostics: Vec<Diagnostic>,
    pub champion_info: Vec<ChampionBriefState>,
    pub champion_catalog: ChampionCatalog,
    pub index_progress: IndexProgress,
    pub tier_application: TierApplicationState,
}

impl<A, L> RuntimePublicState<A, L> {
    /// The tier application record with nothing applied.
    pub open spec fn nothing_applied(t: TierApplicationState) -> bool {
        &&& !t.applied
        &&& t.team_id is None
        &&& t.profile_revision == 0
        &&& t.applied_champions == 0
        &&& !t.readback_verified
        &&& !t.client_screen_verified
        &&& t.error is None
    }

    /// What is shown before a career connects, and again after it disconnects.
    pub open spec fn is_waiting(&self) -> bool {
        &&& !self.connected
        &&& self.engine_status == EngineStatus::WaitingForCareer
        &&& self.indexed_matches == 0
        &&& self.pending_records == 0
        &&& self.data_revision == 0
        &&& self.player_team_id is None
        &&& self.analytics is None
        &&& self.locks@.len() == 0
        &&& self.champion_info@.len() == 0
        &&& self.index_progress == IndexProgress {
            total: 0,
            processed: 0,
            indexed: 0,
            failed: 0,
            pending: 0,
            cache_state: IndexCacheState::Cold,
        }
        &&& Self::nothing_applied(self.tier_application)
    }

    /// Forgets everything read from the disconnected career; the catalog is emptied and
    /// marked unavailable under a new revision. The profiles, the game version and the
    /// diagnostics stay.
    pub fn mark_disconnected(&mut self)
        ensures
            final(self).is_waiting(),
            final(self).champion_catalog.revision == (if old(self).champion_catalog.revision
                == u64::MAX {
                0
            } else {
                old(self).champion_catalog.revision + 1
            }),
            final(self).champion_catalog.status == CatalogStatus::Unavailable,
            final(self).champion_catalog.champions@.len() == 0,
            final(self).game_version == old(self).game_version,
            final(self).active_profile == old(self).active_profile,
            final(self).preview_profile == old(self).preview_profile,
            final(self).diagnostics == old(self).diagnostics,
    {
        self.connected = false;
        self.engine_status = EngineStatus::WaitingForCareer;
        self.indexed_matches = 0;
        self.pending_records = 0;
        self.data_revision = 0;
        self.player_team_id = None;
        self.analytics = None;
        self.locks.clear();
        self.champion_info.clear();
        let revision = if self.champion_catalog.revision == u64::MAX {
            0
        } else {
            self.champion_catalog.revision + 1
        };
        self.champion_catalog = ChampionCatalog {
            revision,
            status: CatalogStatus::Unavailable,
            champions: Vec::new(),
        };
        self.index_progress = IndexProgress::default();
        self.tier_application = TierApplicationState::default();
    }
}

impl<A, L> Default for RuntimePublicState<A, L> {
    fn default() -> (state: Self)
        ensures
            state.is_waiting(),
            state.game_version@ == "0.5.5"@,
            state.active_profile.is_shipped_default(),
            state.preview_profile.is_shipped_default(),
            state.diagnostics@.len() == 0,
            state.champion_catalog.revision == 0,
            state.champion_catalog.status == CatalogStatus::Loading,
            state.champion_catalog.champions@.len() == 0,
    {
        RuntimePublicState {
            connected: false,
            game_version: "0.5.5".to_owned(),
            engine_status: EngineStatus::WaitingForCareer,
            indexed_matches: 0,
            pending_records: 0,
            data_revision: 0,
            player_team_id: None,
            active_profile: TierProfile::default_profile(),
            preview_profile: TierProfile::default_profile(),
            analytics: None,
            locks: Vec::new(),
            diagnostics: Vec::new(),
            champion_info: Vec::new(),
            champion_catalog: ChampionCatalog::default(),
            index_progress: IndexProgress::default(),
            tier_application: TierApplicationState::default(),
        }
    }
}

/// The client side of the bridge for one surface, with the counters its update loop keeps.
pub struct ClientExtension {
    surface: ApiSurface,
    index_work_micros: AtomicU64,
    last_team_id: AtomicUsize,
    seen_catalog_epoch: AtomicU64,
}

impl ClientExtension {
    pub closed spec fn surface_of(&self) -> ApiSurface {
        self.surface
    }

    pub fn for_core() -> (extension: Self)
        ensures
            extension.surface_of() == ApiSurface::Core,
    {
        ClientExtension {
            surface: ApiSurface::Core,
            index_work_micros: AtomicU64::new(0),
            last_team_id: AtomicUsize::new(NONE_ID),
            seen_catalog_epoch: AtomicU64::new(0),
        }
    }

    pub fn editor() -> (extension: Self)
        ensures
            extension.surface_of() == ApiSurface::Editor,
    {
        ClientExtension {
            surface: ApiSurface::Editor,
            index_work_micros: AtomicU64::new(0),
            last_team_id: AtomicUsize::new(NONE_ID),
            seen_catalog_epoch: AtomicU64::new(0),
        }
    }

    pub fn surface(&self) -> (surface: ApiSurface)
        ensures
            surface == self.surface_of(),
    {
        self.surface
    }
}

impl Default for ClientExtension {
    fn default() -> (extension: Self)
        ensures
            extension.surface_of() == ApiSurface::Core,
    {
        Self::for_core()
    }
}

/// The UI paths that show a player's stat on the live detail screen, newest layout first.
pub fn player_detail_value_paths(field: &str) -> (paths: Vec<String>)
    ensures
        paths@.len() == 2,
        paths@[0]@ == "main.top.right.player_detail.data.info."@ + field@ + ".value"@,
        paths@[1]@ == "main.top.right.player_detail.info."@ + field@ + ".value"@,
{
    let mut first = "main.top.right.player_detail.data.info.".to_owned();
    append_str(&mut first, field);
    append_str(&mut first, ".value");
    let mut second = "main.top.right.player_detail.info.".to_owned();
    append_str(&mut second, field);
    append_str(&mut second, ".value");
    let mut paths: Vec<String> = Vec::new();
    paths.push(first);
    paths.push(second);
    paths
}

/// The UI paths that show a staff member's stat on the live detail screen.
pub fn staff_detail_value_paths(field: &str) -> (paths: Vec<String>)
    ensures
        paths@.len() == 3,
        paths@[0]@ == "main.top.right.staff_detail."@ + field@ + ".value"@,
        paths@[1]@ == "main.top.right.staff_detail.info."@ + field@ + ".value"@,
        paths@[2]@ == "main.top.right.staff_detail.data."@ + field@ + ".value"@,
{
    let mut first = "main.top.right.staff_detail.".to_owned();
    append_str(&mut first, field);
    append_str(&mut first, ".value");
    let mut second = "main.top.right.staff_detail.info.".to_owned();
    append_str(&mut second, field);
    append_str(&mut second, ".value");
    let mut third = "main.top.right.staff_detail.data.".to_owned();
    append_str(&mut third, field);
    append_str(&mut third, ".value");
    let mut paths: Vec<String> = Vec::new();
    paths.push(first);
    paths.push(second);
    paths.push(third);
    paths
}

pub open spec fn is_name_separator(c: char) -> bool {
    c == '_' || c == '-'
}

/// The pieces of a champion id between underscores and hyphens, empty ones included.
pub open spec fn name_pieces(id: Seq<char>) -> Seq<Seq<char>>
    decreases id.len(),
{
    if id.len() == 0 {
        seq![Seq::empty()]
    } else {
        let pieces = name_pieces(id.drop_last());
        if is_name_separator(id.last()) {
            pieces.push(Seq::empty())
        } else {
            pieces.update(pieces.len() - 1, pieces.last().push(id.last()))
        }
    }
}

/// The non-empty pieces, in order.
pub open spec fn nonempty_pieces(pieces: Seq<Seq<char>>) -> Seq<Seq<char>>
    decreases pieces.len(),
{
    if pieces.len() == 0 {
        Seq::empty()
    } else if pieces.last().len() == 0 {
        nonempty_pieces(pieces.drop_last())
    } else {
        nonempty_pieces(pieces.drop_last()).push(pieces.last())
    }
}

/// What `char::to_uppercase` yields for a character.
pub uninterp spec fn uppercase_of(c: char) -> Seq<char>;

/// The words, each with its first character replaced by the given initial, separated by
/// spaces; "Unknown Champion" when that leaves nothing.
pub open spec fn name_text(words: Seq<Seq<char>>, initials: Seq<Seq<char>>) -> Seq<char> {
    let text = join(Seq::new(words.len(), |i: int| initials[i] + words[i].drop_first()), ' ');
    if text.len() == 0 {
        "Unknown Champion"@
    } else {
        text
    }
}

/// A readable name for a champion id: its words with an uppercase first letter.
pub open spec fn readable_name(id: Seq<char>) -> Seq<char> {
    let words = nonempty_pieces(name_pieces(id));
    name_text(words, Seq::new(words.len(), |i: int| uppercase_of(words[i][0])))
}

/// `char::to_uppercase`, collected into a string.
#[verifier::external_body]
fn uppercase(c: char) -> (up: String)
    ensures
        up@ == uppercase_of(c),
{
    c.to_uppercase().collect()
}

fn name_words(id: &str) -> (words: Vec<Vec<char>>)
    ensures
        words@.map_values(|w: Vec<char>| w@) == nonempty_pieces(name_pieces(id@)),
        forall|i: int| 0 <= i < words@.len() ==> (#[trigger] words@[i])@.len() > 0,
{
    let chars = chars_of(id);
    let mut words: Vec<Vec<char>> = Vec::new();
    let mut word: Vec<char> = Vec::new();
    let mut i: usize = 0;
    assert(chars@.subrange(0, 0) =~= Seq::<char>::empty());
    assert(name_pieces(Seq::<char>::empty()).drop_last() =~= Seq::<Seq<char>>::empty());
    while i < chars.len()
        invariant
            i <= chars@.len(),
            chars@ == id@,
            name_pieces(chars@.subrange(0, i as int)).len() > 0,
            name_pieces(chars@.subrange(0, i as int)).last() == word@,
            nonempty_pieces(name_pieces(chars@.subrange(0, i as int)).drop_last())
                == words@.map_values(|w: Vec<char>| w@),
            forall|k: int| 0 <= k < words@.len() ==> (#[trigger] words@[k])@.len() > 0,
        decreases chars.len() - i,
    {
        let ghost prefix = chars@.subrange(0, i as int);
        let ghost next = chars@.subrange(0, i + 1);
        assert(next.drop_last() =~= prefix);
        assert(next.last() == chars@[i as int]);
        let c = chars[i];
        if c == '_' || c == '-' {
            let ghost pieces = name_pieces(prefix);
            assert(name_pieces(next).drop_last() =~= pieces);
            assert(pieces =~= pieces.drop_last().push(word@));
            if word.len() > 0 {
                let done = word;
                words.push(done);
                assert(words@.map_values(|w: Vec<char>| w@) =~= nonempty_pieces(
                    pieces.drop_last(),
                ).push(pieces.last()));
            }
            word = Vec::new();
            assert(name_pieces(next).last() =~= word@);
        } else {
            word.push(c);
            assert(name_pieces(next).drop_last() =~= name_pieces(prefix).drop_last());
        }
        i = i + 1;
    }
    let ghost pieces = name_pieces(chars@);
    assert(chars@.subrange(0, chars@.len() as int) =~= chars@);
    assert(pieces =~= pieces.drop_last().push(word@));
    if word.len() > 0 {
        words.push(word);
        assert(words@.map_values(|w: Vec<char>| w@) =~= nonempty_pieces(pieces.drop_last()).push(
            pieces.last(),
        ));
    }
    words
}

/// Joins the words of a champion id into a readable name, each word starting with the given
/// initial in place of its first character; "Unknown Champion" when that gives nothing.
pub fn join_capitalized(words: &Vec<Vec<char>>, initials: &Vec<String>) -> (name: String)
    requires
        words@.len() == initials@.len(),
        forall|i: int| 0 <= i < words@.len() ==> (#[trigger] words@[i])@.len() > 0,
    ensures
        name@ == name_text(
            words@.map_values(|w: Vec<char>| w@),
            initials@.map_values(|s: String| s@),
        ),
{
    let ghost ws = words@.map_values(|w: Vec<char>| w@);
    let ghost ins = initials@.map_values(|s: String| s@);
    let ghost parts = Seq::new(ws.len(), |i: int| ins[i] + ws[i].drop_first());
    let mut text = String::new();
    let mut i: usize = 0;
    while i < words.len()
        invariant
            i <= words@.len(),
            words@.len() == initials@.len(),
            ws == words@.map_values(|w: Vec<char>| w@),
            ins == initials@.map_values(|s: String| s@),
            parts == Seq::new(ws.len(), |i: int| ins[i] + ws[i].drop_first()),
            forall|k: int| 0 <= k < words@.len() ==> (#[trigger] words@[k])@.len() > 0,
            text@ == join(parts.subrange(0, i as int), ' '),
        decreases words.len() - i,
    {
        let ghost done = text@;
        if i > 0 {
            push_char(&mut text, ' ');
        }
        append_str(&mut text, initials[i].as_str());
        let word = &words[i];
        let mut k: usize = 1;
        let ghost base = text@;
        while k < word.len()
            invariant
                1 <= k <= word@.len(),
                text@ == base + word@.subrange(1, k as int),
            decreases word.len() - k,
        {
            push_char(&mut text, word[k]);
            assert(word@.subrange(1, k + 1) =~= word@.subrange(1, k as int).push(word@[k as int]));
            k = k + 1;
        }
        assert(word@.subrange(1, word@.len() as int) =~= word@.drop_first());
        assert(parts[i as int] == ins[i as int] + ws[i as int].drop_first());
        assert(parts.subrange(0, i + 1).drop_last() =~= parts.subrange(0, i as int));
        if i == 0 {
            assert(text@ =~= parts.subrange(0, 1)[0]);
        } else {
            assert(text@ =~= done.push(' ') + parts[i as int]);
        }
        i = i + 1;
    }
    assert(parts.subrange(0, words@.len() as int) =~= parts);
    if text.as_str().is_empty() {
        return "Unknown Champion".to_owned();
    }
    text
}

/// A readable name for a champion id: the pieces between underscores and hyphens, each with
/// an uppercase first letter, separated by spaces; "Unknown Champion" when there is none.
pub fn readable_champion_name(champion_id: &str) -> (name: String)
    ensures
        name@ == readable_name(champion_id@),
{
    let words = name_words(champion_id);
    let ghost ws = words@.map_values(|w: Vec<char>| w@);
    let mut initials: Vec<String> = Vec::new();
    let mut i: usize = 0;
    while i < words.len()
        invariant
            i <= words@.len(),
            initials@.len() == i,
            ws == words@.map_values(|w: Vec<char>| w@),
            forall|k: int| 0 <= k < words@.len() ==> (#[trigger] words@[k])@.len() > 0,
            forall|k: int| 0 <= k < i ==> (#[trigger] initials@[k])@ == uppercase_of(ws[k][0]),
        decreases words.len() - i,
    {
        assert(words@[i as int]@.len() > 0);
        initials.push(uppercase(words[i][0]));
        i = i + 1;
    }
    assert(initials@.map_values(|s: String| s@) =~= Seq::new(
        ws.len(),
        |k: int| uppercase_of(ws[k][0]),
    ));
    join_capitalized(&words, &initials)
}

/// The pairs of id and positions of active catalog entries.
pub open spec fn active_pairs(entries: Seq<ActiveChampionCatalogEntry>) -> Seq<(Seq<char>, Seq<RoleFilter>)> {
    entries.map_values(|e: ActiveChampionCatalogEntry| (e.champion_id@, e.positions@))
}

/// The metadata entry of a champion; the last one wins where an id repeats.
pub open spec fn metadata_entry(metadata: Seq<ChampionBriefState>, id: Seq<char>) -> Option<ChampionBriefState>
    decreases metadata.len(),
{
    if metadata.len() == 0 {
        None
    } else if metadata.last().champion_id@ == id {
        Some(metadata.last())
    } else {
        metadata_entry(metadata.drop_last(), id)
    }
}

pub open spec fn zero_stat() -> ChampionStatState {
    ChampionStatState {
        attack: 0,
        magic_power: 0,
        hp: 0,
        defence: 0,
        magic_resistance: 0,
        move_speed: 0,
        hp_regen: 0,
        stack: 0,
        crit_chance: 0,
    }
}

pub open spec fn optional_text(s: Option<String>) -> Option<Seq<char>> {
    match s {
        Some(t) => Some(t@),
        None => None,
    }
}

/// The catalog entry of an active champion: its metadata, or a readable name and empty
/// details when the metadata lacks it, with the positions the game lists first for it.
pub open spec fn is_catalog_entry(
    c: ChampionBriefState,
    active: Seq<ActiveChampionCatalogEntry>,
    metadata: Seq<ChampionBriefState>,
    id: Seq<char>,
) -> bool {
    let roles = first_roles(active_pairs(active), id);
    &&& c.champion_id@ == id
    &&& c.positions@ == roles
    &&& c.main_position == (if roles.len() > 0 {
        Some(roles[0])
    } else {
        None::<RoleFilter>
    })
    &&& match metadata_entry(metadata, id) {
        Some(m) => {
            &&& c.display_name@ == m.display_name@
            &&& optional_text(c.category) == optional_text(m.category)
            &&& strs(c.tags@) == strs(m.tags@)
            &&& c.stat == m.stat
            &&& c.growth == m.growth
        },
        None => {
            &&& c.display_name@ == readable_name(id)
            &&& c.category is None
            &&& c.tags@.len() == 0
            &&& c.stat == zero_stat()
            &&& c.growth == zero_stat()
        },
    }
}

fn copy_text_list(list: &Vec<String>) -> (copy: Vec<String>)
    ensures
        strs(copy@) == strs(list@),
{
    let mut copy: Vec<String> = Vec::new();
    let mut i: usize = 0;
    while i < list.len()
        invariant
            i <= list@.len(),
            strs(copy@) == strs(list@).subrange(0, i as int),
        decreases list.len() - i,
    {
        let ghost before = copy@;
        copy.push(list[i].clone());
        assert(strs(copy@) =~= strs(before).push(list@[i as int]@));
        assert(strs(list@).subrange(0, i + 1) =~= strs(list@).subrange(0, i as int).push(
            list@[i as int]@,
        ));
        i = i + 1;
    }
    assert(strs(list@).subrange(0, list@.len() as int) =~= strs(list@));
    copy
}

fn copy_positions(list: &Vec<RoleFilter>) -> (copy: Vec<RoleFilter>)
    ensures
        copy@ == list@,
{
    let mut copy: Vec<RoleFilter> = Vec::new();
    let mut i: usize = 0;
    while i < list.len()
        invariant
            i <= list@.len(),
            copy@ == list@.subrange(0, i as int),
        decreases list.len() - i,
    {
        copy.push(list[i]);
        i = i + 1;
        assert(copy@ =~= list@.subrange(0, i as int));
    }
    assert(list@.subrange(0, list@.len() as int) =~= list@);
    copy
}

fn first_active_positions(active: &[ActiveChampionCatalogEntry], id: &String) -> (roles: Vec<RoleFilter>)
    ensures
        roles@ == first_roles(active_pairs(active@), id@),
{
    let ghost pairs = active_pairs(active@);
    let mut i: usize = 0;
    assert(pairs.subrange(0, pairs.len() as int) =~= pairs);
    while i < active.len()
        invariant
            i <= active@.len(),
            pairs == active_pairs(active@),
            first_roles(pairs, id@) == first_roles(pairs.subrange(i as int, pairs.len() as int), id@),
        decreases active.len() - i,
    {
        let ghost rest = pairs.subrange(i as int, pairs.len() as int);
        assert(rest[0] == (active@[i as int].champion_id@, active@[i as int].positions@));
        if active[i].champion_id == *id {
            return copy_positions(&active[i].positions);
        }
        assert(rest.drop_first() =~= pairs.subrange(i + 1, pairs.len() as int));
        i = i + 1;
    }
    assert(pairs.subrange(i as int, pairs.len() as int) =~= Seq::<(Seq<char>, Seq<RoleFilter>)>::empty());
    Vec::new()
}

fn metadata_position(metadata: &[ChampionBriefState], id: &String) -> (found: Option<usize>)
    ensures
        match metadata_entry(metadata@, id@) {
            None => found is None,
            Some(m) => found matches Some(k) && k < metadata@.len() && metadata@[k as int] == m,
        },
{
    let mut n: usize = metadata.len();
    assert(metadata@.subrange(0, metadata@.len() as int) =~= metadata@);
    while n > 0
        invariant
            n <= metadata@.len(),
            metadata_entry(metadata@, id@) == metadata_entry(metadata@.subrange(0, n as int), id@),
        decreases n,
    {
        let ghost prefix = metadata@.subrange(0, n as int);
        assert(prefix.drop_last() =~= metadata@.subrange(0, n - 1));
        if metadata[n - 1].champion_id == *id {
            assert(prefix.last() == metadata@[n - 1]);
            return Some(n - 1);
        }
        n = n - 1;
    }
    assert(metadata@.subrange(0, 0) =~= Seq::<ChampionBriefState>::empty());
    None
}

fn zero_stat_state() -> (stat: ChampionStatState)
    ensures
        stat == zero_stat(),
{
    ChampionStatState {
        attack: 0,
        magic_power: 0,
        hp: 0,
        defence: 0,
        magic_resistance: 0,
        move_speed: 0,
        hp_regen: 0,
        stack: 0,
        crit_chance: 0,
    }
}

/// The catalog of the career's active champions: each active id once, in name order, with the
/// positions the game lists first for it, and the details of the champion metadata.
pub fn catalog_for_active_ids(
    active: &[ActiveChampionCatalogEntry],
    metadata: &[ChampionBriefState],
) -> (catalog: Vec<ChampionBriefState>)
    ensures
        catalog@.map_values(|c: ChampionBriefState| c.champion_id@) == sorted_of(
            entry_ids(active@).to_set(),
        ),
        forall|i: int|
            0 <= i < catalog@.len() ==> is_catalog_entry(
                #[trigger] catalog@[i],
                active@,
                metadata@,
                catalog@[i].champion_id@,
            ),
{
    let mut ids_in_order: Vec<String> = Vec::new();
    let mut i: usize = 0;
    while i < active.len()
        invariant
            i <= active@.len(),
            strs(ids_in_order@) == entry_ids(active@).subrange(0, i as int),
        decreases active.len() - i,
    {
        let ghost before = ids_in_order@;
        ids_in_order.push(active[i].champion_id.clone());
        assert(strs(ids_in_order@) =~= strs(before).push(active@[i as int].champion_id@));
        assert(entry_ids(active@).subrange(0, i + 1) =~= entry_ids(active@).subrange(0, i as int).push(
            active@[i as int].champion_id@,
        ));
        i = i + 1;
    }
    assert(entry_ids(active@).subrange(0, active@.len() as int) =~= entry_ids(active@));
    let ids = sorted_unique(ids_in_order.as_slice());
    proof {
        lemma_sorted_of(strs(ids@));
    }
    let mut catalog: Vec<ChampionBriefState> = Vec::new();
    let mut k: usize = 0;
    while k < ids.len()
        invariant
            k <= ids@.len(),
            catalog@.map_values(|c: ChampionBriefState| c.champion_id@) == strs(ids@).subrange(0, k as int),
            forall|j: int|
                0 <= j < catalog@.len() ==> is_catalog_entry(
                    #[trigger] catalog@[j],
                    active@,
                    metadata@,
                    catalog@[j].champion_id@,
                ),
        decreases ids.len() - k,
    {
        let id = &ids[k];
        let positions = first_active_positions(active, id);
        let main_position = if positions.len() > 0 {
            Some(positions[0])
        } else {
            None
        };
        let entry = match metadata_position(metadata, id) {
            Some(m) => {
                let meta = &metadata[m];
                let category = match &meta.category {
                    Some(c) => Some(c.clone()),
                    None => None,
                };
                ChampionBriefState {
                    champion_id: id.clone(),
                    display_name: meta.display_name.clone(),
                    category,
                    tags: copy_text_list(&meta.tags),
                    positions,
                    main_position,
                    stat: meta.stat,
                    growth: meta.growth,
                }
            },
            None => ChampionBriefState {
                champion_id: id.clone(),
                display_name: readable_champion_name(id.as_str()),
                category: None,
                tags: Vec::new(),
                positions,
                main_position,
                stat: zero_stat_state(),
                growth: zero_stat_state(),
            },
        };
        let ghost before = catalog@;
        catalog.push(entry);
        assert(catalog@.map_values(|c: ChampionBriefState| c.champion_id@) =~= before.map_values(
            |c: ChampionBriefState| c.champion_id@,
        ).push(ids@[k as int]@));
        assert(strs(ids@).subrange(0, k + 1) =~= strs(ids@).subrange(0, k as int).push(ids@[k as int]@));
        k = k + 1;
    }
    assert(strs(ids@).subrange(0, ids@.len() as int) =~= strs(ids@));
    catalog
}

/// The record tables the bridge reads and writes.
#[derive(Debug, Clone, Copy, PartialEq, Eq, Structural)]
pub enum RecordKind {
    Athlete,
    Staff,
    Team,
    MatchReplay,
    SoloRankMatch,
}

/// How a whole record is written back: teams and athletes through their management routes,
/// every other table through the generic record write.
#[derive(Debug, Clone, Copy, PartialEq, Eq, Structural)]
pub enum WholeRecordWriteRoute {
    Team,
    Athlete,
    Generic,
}

pub fn whole_record_write_route(kind: RecordKind) -> (route: WholeRecordWriteRoute)
    ensures
        route == match kind {
            RecordKind::Team => WholeRecordWriteRoute::Team,
            RecordKind::Athlete => WholeRecordWriteRoute::Athlete,
            _ => WholeRecordWriteRoute::Generic,
        },
{
    match kind {
        RecordKind::Team => WholeRecordWriteRoute::Team,
        RecordKind::Athlete => WholeRecordWriteRoute::Athlete,
        _ => WholeRecordWriteRoute::Generic,
    }
}

/// The catalog published after the game client reads the active champions again: the next
/// revision (the first when the previous catalog could not be read), loading while no
/// champion is known and ready otherwise.
pub fn refreshed_catalog(previous_revision: Option<u64>, champions: Vec<ChampionBriefState>) -> (catalog: ChampionCatalog)
    ensures
        catalog.revision == match previous_revision {
            Some(r) => if r == u64::MAX {
                0
            } else {
                (r + 1) as u64
            },
            None => 1,
        },
        catalog.status == if champions@.len() == 0 {
            CatalogStatus::Loading
        } else {
            CatalogStatus::Ready
        },
        catalog.champions@ == champions@,
{
    let revision = match previous_revision {
        Some(r) => if r == u64::MAX {
            0
        } else {
            r + 1
        },
        None => 1,
    };
    let status = if champions.len() == 0 {
        CatalogStatus::Loading
    } else {
        CatalogStatus::Ready
    };
    ChampionCatalog { revision, status, champions }
}

/// How long the client waits between two batches of index work: a quarter of a second.
pub const INDEX_WORK_INTERVAL_MICROS: u64 = 250000;

/// What the client's update does about index work.
#[derive(Debug, Clone, Copy, PartialEq, Eq, Structural)]
pub enum IndexWorkStep {
    /// Ask the server for a batch and start timing again.
    Send,
    /// Keep timing.
    Wait,
    /// Not indexing: start timing again.
    Reset,
}

/// The next index work step: a batch is asked for while indexing with a career connected once
/// the interval has passed; outside indexing the timer starts again.
pub fn index_work_step(indexing: bool, team_id: usize, elapsed_micros: u64) -> (step: IndexWorkStep)
    ensures
        step == if indexing && team_id != NONE_ID && elapsed_micros >= INDEX_WORK_INTERVAL_MICROS {
            IndexWorkStep::Send
        } else if !indexing {
            IndexWorkStep::Reset
        } else {
            IndexWorkStep::Wait
        },
{
    if indexing && team_id != NONE_ID && elapsed_micros >= INDEX_WORK_INTERVAL_MICROS {
        IndexWorkStep::Send
    } else if !indexing {
        IndexWorkStep::Reset
    } else {
        IndexWorkStep::Wait
    }
}

} // verus!
