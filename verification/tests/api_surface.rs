use tfm2_atlas::api::{
    api_command_mutates, api_preflight, opponent_available, ApiCommand, ApiRequest, ApiResponse,
    ApiSurface, DraftTeamOption,
};

#[test]
fn editor_surface_accepts_editor_commands_and_rejects_core_commands() {
    assert!(ApiSurface::Editor.allows(ApiCommand::GetEditorData));
    assert!(ApiSurface::Editor.allows(ApiCommand::SetLock));
    assert!(!ApiSurface::Editor.allows(ApiCommand::GetDashboard));
    assert!(!ApiSurface::Editor.allows(ApiCommand::ApplyTierProfile));
    assert!(!ApiSurface::Editor.allows(ApiCommand::GetMockDraft));
}

#[test]
fn schema_failure_blocks_every_structured_write_family() {
    assert!(api_command_mutates(ApiCommand::ApplyTierProfile));
    assert!(api_command_mutates(ApiCommand::SetLock));
    assert!(api_command_mutates(ApiCommand::Unlock));
    assert!(api_command_mutates(ApiCommand::ApplyEditorSettings));
    assert!(!api_command_mutates(ApiCommand::GetDashboard));
    assert!(!api_command_mutates(ApiCommand::GetEditorData));
}

#[test]
fn error_response_has_stable_localizable_code() {
    let response = ApiResponse::error(9, "career_not_connected", "Career is not connected");

    assert!(!response.ok);
    assert_eq!(response.error.unwrap().code, "career_not_connected");
    assert!(response.data.is_none());
}

#[test]
fn accepted_request_is_answered_with_its_own_id_and_data() {
    let request = ApiRequest {
        request_id: 77,
        command: ApiCommand::PreviewTierProfile,
        payload: serde_json::Value::Bool(true),
    };
    assert!(request.validate().is_ok());

    let response = ApiResponse::ok(request.request_id, serde_json::Value::from(5));
    assert_eq!(response.request_id, 77);
    assert!(response.ok);
    assert!(response.error.is_none());
    assert_eq!(response.data, Some(serde_json::Value::from(5)));
}

#[test]
fn error_response_keeps_the_message_and_carries_no_data() {
    let response = ApiResponse::error(4, "mastery_read_failed", "no such player");
    assert_eq!(response.request_id, 4);
    let error = response.error.unwrap();
    assert_eq!(error.message, "no such player");
    assert_eq!(error.code, "mastery_read_failed");
}

fn request(command: ApiCommand) -> ApiRequest {
    ApiRequest {
        request_id: 12,
        command,
        payload: serde_json::Value::Null,
    }
}

#[test]
fn writes_are_refused_until_the_schema_preflight_passes() {
    let refused = api_preflight(&request(ApiCommand::SetLock), false).unwrap();
    assert_eq!(refused.request_id, 12);
    assert!(!refused.ok);
    assert_eq!(refused.error.unwrap().code, "schema_preflight_failed");
    assert!(api_preflight(&request(ApiCommand::SetLock), true).is_none());
    assert!(api_preflight(&request(ApiCommand::GetDashboard), false).is_none());
}

#[test]
fn subscriptions_are_refused_on_request_connections() {
    let refused = api_preflight(&request(ApiCommand::SubscribeState), true).unwrap();
    assert_eq!(
        refused.error.unwrap().message,
        "STATE_CHANGED subscriptions must stay on their original connection"
    );
}

#[test]
fn only_other_teams_can_be_chosen_as_opponents() {
    let options = vec![
        DraftTeamOption {
            team_id: 1,
            team_name: "Ours".to_owned(),
            player_team: true,
        },
        DraftTeamOption {
            team_id: 2,
            team_name: "Theirs".to_owned(),
            player_team: false,
        },
    ];
    assert!(opponent_available(&options, 2));
    assert!(!opponent_available(&options, 1));
    assert!(!opponent_available(&options, 3));
}
