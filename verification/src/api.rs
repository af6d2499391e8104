//! The request vocabulary of the bridge API and the two surfaces that accept it.

use vstd::prelude::*;

use crate::draft::DraftPhase;

verus! {

#[derive(Debug, Clone, Copy, PartialEq, Eq, Structural)]
pub enum ApiCommand {
    SubscribeState,
    GetDashboard,
    PreviewTierProfile,
    ApplyTierProfile,
    GetLocks,
    SetLock,
    Unlock,
    GetDiagnostics,
    ExportTierTsv,
    ValidateTierTsv,
    GetChampionCatalog,
    GetEditorData,
    ApplyEditorSettings,
    GetPlayerMastery,
    SetPlayerMastery,
    ApplyPlayerEdit,
    ApplyStaffEdit,
    MovePlayer,
    SetDraftSettings,
    GetMockDraft,
    SetMockDraftContext,
    ApplyMockDraftAction,
    RemoveMockDraftAction,
    UndoMockDraft,
    ResetMockDraftSet,
}

/// The two bridge services: the dashboard core and the editor.
#[derive(Debug, Clone, Copy, PartialEq, Eq, Structural)]
pub enum ApiSurface {
    Core,
    Editor,
}

/// Commands that the dashboard core serves.
pub open spec fn core_allows(command: ApiCommand) -> bool {
    match command {
        ApiCommand::SubscribeState
        | ApiCommand::GetDashboard
        | ApiCommand::PreviewTierProfile
        | ApiCommand::ApplyTierProfile
        | ApiCommand::GetDiagnostics
        | ApiCommand::ExportTierTsv
        | ApiCommand::ValidateTierTsv
        | ApiCommand::GetChampionCatalog
        | ApiCommand::SetDraftSettings
        | ApiCommand::GetMockDraft
        | ApiCommand::SetMockDraftContext
        | ApiCommand::ApplyMockDraftAction
        | ApiCommand::RemoveMockDraftAction
        | ApiCommand::UndoMockDraft
        | ApiCommand::ResetMockDraftSet => true,
        _ => false,
    }
}

/// Commands that the editor serves.
pub open spec fn editor_allows(command: ApiCommand) -> bool {
    match command {
        ApiCommand::SubscribeState
        | ApiCommand::GetLocks
        | ApiCommand::SetLock
        | ApiCommand::Unlock
        | ApiCommand::GetEditorData
        | ApiCommand::ApplyEditorSettings
        | ApiCommand::GetPlayerMastery
        | ApiCommand::SetPlayerMastery
        | ApiCommand::ApplyPlayerEdit
        | ApiCommand::ApplyStaffEdit
        | ApiCommand::MovePlayer => true,
        _ => false,
    }
}

/// Commands that change career data or saved settings.
pub open spec fn command_mutates(command: ApiCommand) -> bool {
    match command {
        ApiCommand::ApplyTierProfile
        | ApiCommand::SetLock
        | ApiCommand::Unlock
        | ApiCommand::SetPlayerMastery
        | ApiCommand::ApplyPlayerEdit
        | ApiCommand::ApplyStaffEdit
        | ApiCommand::MovePlayer
        | ApiCommand::ApplyEditorSettings
        | ApiCommand::SetDraftSettings => true,
        _ => false,
    }
}

impl ApiSurface {
    pub fn allows(self, command: ApiCommand) -> (allowed: bool)
        ensures
            allowed == match self {
                ApiSurface::Core => core_allows(command),
                ApiSurface::Editor => editor_allows(command),
            },
    {
        match self {
            ApiSurface::Core => match command {
                ApiCommand::SubscribeState
                | ApiCommand::GetDashboard
                | ApiCommand::PreviewTierProfile
                | ApiCommand::ApplyTierProfile
                | ApiCommand::GetDiagnostics
                | ApiCommand::ExportTierTsv
                | ApiCommand::ValidateTierTsv
                | ApiCommand::GetChampionCatalog
                | ApiCommand::SetDraftSettings
                | ApiCommand::GetMockDraft
                | ApiCommand::SetMockDraftContext
                | ApiCommand::ApplyMockDraftAction
                | ApiCommand::RemoveMockDraftAction
                | ApiCommand::UndoMockDraft
                | ApiCommand::ResetMockDraftSet => true,
                _ => false,
            },
            ApiSurface::Editor => match command {
                ApiCommand::SubscribeState
                | ApiCommand::GetLocks
                | ApiCommand::SetLock
                | ApiCommand::Unlock
                | ApiCommand::GetEditorData
                | ApiCommand::ApplyEditorSettings
                | ApiCommand::GetPlayerMastery
                | ApiCommand::SetPlayerMastery
                | ApiCommand::ApplyPlayerEdit
                | ApiCommand::ApplyStaffEdit
                | ApiCommand::MovePlayer => true,
                _ => false,
            },
        }
    }
}

/// Whether a command changes career data or saved settings, and so is refused while the
/// career schema has not been validated.
pub fn api_command_mutates(command: ApiCommand) -> (mutates: bool)
    ensures
        mutates == command_mutates(command),
{
    match command {
        ApiCommand::ApplyTierProfile
        | ApiCommand::SetLock
        | ApiCommand::Unlock
        | ApiCommand::SetPlayerMastery
        | ApiCommand::ApplyPlayerEdit
        | ApiCommand::ApplyStaffEdit
        | ApiCommand::MovePlayer
        | ApiCommand::ApplyEditorSettings
        | ApiCommand::SetDraftSettings => true,
        _ => false,
    }
}

/// The two surfaces share only the state subscription: every other command belongs to one.
pub proof fn lemma_surfaces_partition(command: ApiCommand)
    ensures
        command != ApiCommand::SubscribeState ==> !(core_allows(command) && editor_allows(command)),
        command == ApiCommand::SubscribeState ==> core_allows(command) && editor_allows(command),
        core_allows(command) || editor_allows(command),
{
}

/// Every mutating command is served by exactly one surface.
pub proof fn lemma_mutating_commands_are_served(command: ApiCommand)
    requires
        command_mutates(command),
    ensures
        core_allows(command) != editor_allows(command),
{
}

/// An error code and message returned to a bridge client.
#[derive(Debug, Clone, PartialEq, Eq)]
pub struct ApiError {
    pub code: String,
    pub message: String,
}

impl ApiError {
    pub fn new(code: &str, message: &str) -> (error: Self)
        ensures
            error.code@ == code@,
            error.message@ == message@,
    {
        ApiError { code: code.to_owned(), message: message.to_owned() }
    }
}

/// A JSON document carried through unread: requests hand it to the handlers, responses return it.
#[verifier::external_type_specification]
#[verifier::external_body]
pub struct ExJsonValue(serde_json::Value);

/// One call from a bridge client.
#[derive(Debug)]
pub struct ApiRequest {
    pub request_id: u64,
    pub command: ApiCommand,
    pub payload: serde_json::Value,
}

impl ApiRequest {
    /// Every well-typed request is accepted; what a command needs of its payload is
    /// checked by the handler of that command.
    pub fn validate(&self) -> (result: Result<(), ApiError>)
        ensures
            result is Ok,
    {
        Ok(())
    }
}

/// The answer to one request: data on success, an error otherwise, never both.
#[derive(Debug)]
pub struct ApiResponse {
    pub request_id: u64,
    pub ok: bool,
    pub data: Option<serde_json::Value>,
    pub error: Option<ApiError>,
}

impl ApiResponse {
    pub fn ok(request_id: u64, data: serde_json::Value) -> (response: Self)
        ensures
            response.request_id == request_id,
            response.ok,
            response.data == Some(data),
            response.error is None,
    {
        ApiResponse { request_id, ok: true, data: Some(data), error: None }
    }

    pub fn error(request_id: u64, code: &str, message: &str) -> (response: Self)
        ensures
            response.request_id == request_id,
            !response.ok,
            response.data is None,
            response.error matches Some(e) && e.code@ == code@ && e.message@ == message@,
    {
        ApiResponse { request_id, ok: false, data: None, error: Some(ApiError::new(code, message)) }
    }
}

#[derive(Debug, Clone, PartialEq, Eq)]
pub struct MasteryEdit {
    pub champion_id: String,
    pub value: i64,
}

/// Whether champions picked in earlier sets of a series stay available.
#[derive(Debug, Clone, Copy, PartialEq, Eq, Structural)]
pub enum DraftRule {
    Classic,
    Fearless,
    HardFearless,
}

#[derive(Debug, Clone, Copy, PartialEq, Eq, Structural)]
pub enum DraftSide {
    Blue,
    Red,
}

impl Default for DraftSide {
    fn default() -> (side: Self)
        ensures
            side == DraftSide::Blue,
    {
        DraftSide::Blue
    }
}

#[derive(Debug, Clone, PartialEq, Eq)]
pub struct DraftTeamOption {
    pub team_id: usize,
    pub team_name: String,
    pub player_team: bool,
}

/// A manual ban or pick.
#[derive(Debug, Clone, PartialEq, Eq)]
pub struct MockDraftAction {
    pub side: DraftSide,
    pub phase: DraftPhase,
    pub champion_id: String,
}

/// Context fields to change; `None` leaves a field as it is.
#[derive(Debug, Clone, Copy, PartialEq, Eq, Structural)]
pub struct MockDraftContextUpdate {
    pub opponent_team_id: Option<usize>,
    pub player_side: Option<DraftSide>,
    pub rule: Option<DraftRule>,
    pub current_set: Option<usize>,
    pub recommendation_phase: Option<DraftPhase>,
}

impl Default for MockDraftContextUpdate {
    fn default() -> (update: Self)
        ensures
            update.opponent_team_id is None,
            update.player_side is None,
            update.rule is None,
            update.current_set is None,
            update.recommendation_phase is None,
    {
        MockDraftContextUpdate {
            opponent_team_id: None,
            player_side: None,
            rule: None,
            current_set: None,
            recommendation_phase: None,
        }
    }
}

/// An error answer to a request, with its code and message.
pub open spec fn refusal(
    response: Option<ApiResponse>,
    request_id: u64,
    code: Seq<char>,
    message: Seq<char>,
) -> bool {
    match response {
        Some(r) => {
            &&& r.request_id == request_id
            &&& !r.ok
            &&& r.data is None
            &&& match r.error {
                Some(e) => e.code@ == code && e.message@ == message,
                None => false,
            }
        },
        None => false,
    }
}

/// The answer a request gets before any command runs, if any: writes are refused while the
/// record schema has not passed its preflight, and state subscriptions are refused on a
/// request connection.
pub fn api_preflight(request: &ApiRequest, schema_ready: bool) -> (early: Option<ApiResponse>)
    ensures
        !schema_ready && command_mutates(request.command) ==> refusal(
            early,
            request.request_id,
            "schema_preflight_failed"@,
            "Writes are disabled because the 0.5.5 Community schema preflight failed"@,
        ),
        !(!schema_ready && command_mutates(request.command)) && request.command
            == ApiCommand::SubscribeState ==> refusal(
            early,
            request.request_id,
            "subscription_requires_direct_connection"@,
            "STATE_CHANGED subscriptions must stay on their original connection"@,
        ),
        !(!schema_ready && command_mutates(request.command)) && request.command
            != ApiCommand::SubscribeState ==> early is None,
{
    if let Err(error) = request.validate() {
        return Some(ApiResponse::error(request.request_id, error.code.as_str(), error.message.as_str()));
    }
    if !schema_ready && api_command_mutates(request.command) {
        return Some(
            ApiResponse::error(
                request.request_id,
                "schema_preflight_failed",
                "Writes are disabled because the 0.5.5 Community schema preflight failed",
            ),
        );
    }
    if request.command == ApiCommand::SubscribeState {
        return Some(
            ApiResponse::error(
                request.request_id,
                "subscription_requires_direct_connection",
                "STATE_CHANGED subscriptions must stay on their original connection",
            ),
        );
    }
    None
}

/// Whether a team may be chosen as the opponent: one of the career's teams other than the
/// player's own.
pub fn opponent_available(options: &[DraftTeamOption], team_id: usize) -> (available: bool)
    ensures
        available == exists|i: int|
            0 <= i < options@.len() && (#[trigger] options@[i]).team_id == team_id
                && !options@[i].player_team,
{
    let mut i: usize = 0;
    while i < options.len()
        invariant
            i <= options@.len(),
            forall|k: int| 0 <= k < i ==> !((#[trigger] options@[k]).team_id == team_id && !options@[k].player_team),
        decreases options.len() - i,
    {
        if options[i].team_id == team_id && !options[i].player_team {
            assert(options@[i as int].team_id == team_id);
            return true;
        }
        i = i + 1;
    }
    false
}

} // verus!
