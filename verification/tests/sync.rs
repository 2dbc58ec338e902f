use alias_assistant::config::GistConfig;
use alias_assistant::sync::{
    create_gist_body, finish_push_create, handle_create_response, handle_fetch_response,
    handle_update_response, plan_pull, plan_push, push_update_message, update_gist_body,
    PushAction,
};
use alias_assistant::AppError;

#[test]
fn create_body_frames_content_with_fixed_fields() {
    let body = create_gist_body("alias ll=\"ls -la\"\n");
    assert_eq!(
        body,
        "{\"description\":\"Alias Assistant - Shell Aliases\",\"public\":false,\"files\":{\"aliases.sh\":{\"content\":\"alias ll=\\\"ls -la\\\"\\n\"}}}"
    );
}

#[test]
fn update_body_has_no_public_flag() {
    let body = update_gist_body("x");
    assert_eq!(
        body,
        "{\"description\":\"Alias Assistant - Shell Aliases\",\"files\":{\"aliases.sh\":{\"content\":\"x\"}}}"
    );
}

#[test]
fn request_bodies_are_valid_json_holding_the_content() {
    let content = "line one\nwith \"quotes\" and \\backslash\\\tand tab";
    let body = create_gist_body(content);
    let v: serde_json::Value = serde_json::from_str(&body).unwrap();
    assert_eq!(v["files"]["aliases.sh"]["content"].as_str().unwrap(), content);
    assert_eq!(v["public"].as_bool().unwrap(), false);
    assert_eq!(
        v["description"].as_str().unwrap(),
        "Alias Assistant - Shell Aliases"
    );
}

#[test]
fn control_characters_are_escaped_in_request_bodies() {
    let content = "a\u{1}b\u{1f}c\r\t";
    let body = update_gist_body(content);
    let v: serde_json::Value = serde_json::from_str(&body).unwrap();
    assert_eq!(v["files"]["aliases.sh"]["content"].as_str().unwrap(), content);
    assert!(body.contains("\\u0001"));
    assert!(body.contains("\\u001f"));
}

#[test]
fn create_response_success_yields_the_new_id() {
    let body = "{\"id\": \"abc123\", \"files\": {\"aliases.sh\": {\"content\": \"alias a=\\\"1\\\"\\n\"}}}";
    let id = handle_create_response(true, body.to_string()).unwrap();
    assert_eq!(id, "abc123");
}

#[test]
fn create_response_failure_preserves_server_message() {
    let r = handle_create_response(false, "{\"message\":\"Bad credentials\"}".to_string());
    assert_eq!(
        r,
        Err(AppError::RemoteError(
            "GitHub API error: {\"message\":\"Bad credentials\"}".to_string()
        ))
    );
}

#[test]
fn create_response_with_malformed_body_is_an_error() {
    let r = handle_create_response(true, "surprise".to_string());
    assert_eq!(
        r,
        Err(AppError::RemoteError("Failed to parse response".to_string()))
    );
}

#[test]
fn update_response_only_checks_the_status() {
    assert_eq!(handle_update_response(true, "ignored".to_string()), Ok(()));
    assert_eq!(
        handle_update_response(false, "oops".to_string()),
        Err(AppError::RemoteError("GitHub API error: oops".to_string()))
    );
}

#[test]
fn fetch_response_returns_the_file_content_verbatim() {
    let body = "{\"id\": \"abc\", \"files\": {\"aliases.sh\": {\"content\": \"alias x=\\\"1\\\"\\n\"}}}";
    let content = handle_fetch_response(true, body.to_string()).unwrap();
    assert_eq!(content, "alias x=\"1\"\n");
}

#[test]
fn push_without_token_is_auth_missing() {
    let config = GistConfig { token: None, gist_id: Some("abc".to_string()) };
    assert_eq!(plan_push(&config), Err(AppError::AuthMissing));
}

#[test]
fn push_with_token_and_no_id_plans_a_create() {
    let config = GistConfig { token: Some("tok".to_string()), gist_id: None };
    let (token, action) = plan_push(&config).unwrap();
    assert_eq!(token, "tok");
    assert!(matches!(action, PushAction::Create));
}

#[test]
fn push_transition_create_then_update_never_a_second_create() {
    let config = GistConfig { token: Some("tok".to_string()), gist_id: None };
    let (_, action) = plan_push(&config).unwrap();
    assert!(matches!(action, PushAction::Create));
    // The remote answered with a fresh id; storing it links the config.
    let (linked, message) = finish_push_create(&config, "new77".to_string());
    assert_eq!(message, "Successfully created and synced to Gist: new77");
    assert_eq!(linked.gist_id, Some("new77".to_string()));
    let (token, action) = plan_push(&linked).unwrap();
    assert_eq!(token, "tok");
    match action {
        PushAction::Update(id) => assert_eq!(id, "new77"),
        PushAction::Create => panic!("second push must not create"),
    }
    assert_eq!(
        push_update_message(&"new77".to_string()),
        "Successfully synced to Gist: new77"
    );
}

#[test]
fn pull_requires_token_and_id() {
    let none = GistConfig { token: None, gist_id: None };
    assert_eq!(plan_pull(&none), Err(AppError::ConfigMissing));
    let only_token = GistConfig { token: Some("tok".to_string()), gist_id: None };
    assert_eq!(plan_pull(&only_token), Err(AppError::ConfigMissing));
    let only_id = GistConfig { token: None, gist_id: Some("abc".to_string()) };
    assert_eq!(plan_pull(&only_id), Err(AppError::ConfigMissing));
    let both = GistConfig {
        token: Some("tok".to_string()),
        gist_id: Some("abc".to_string()),
    };
    assert_eq!(plan_pull(&both), Ok(("tok".to_string(), "abc".to_string())));
}

#[test]
fn pull_returns_remote_content_without_touching_local_state() {
    // The orchestrator hands the fetched content back verbatim; merging is a
    // separate, explicit step through the repository.
    let stored = alias_assistant::repo::add_alias("", "a".to_string(), "1".to_string()).unwrap();
    let body = "{\"id\": \"abc\", \"files\": {\"aliases.sh\": {\"content\": \"alias b=\\\"2\\\"\\n\"}}}";
    let pulled = handle_fetch_response(true, body.to_string()).unwrap();
    assert_eq!(pulled, "alias b=\"2\"\n");
    // Local storage is only changed once the caller merges explicitly.
    let merged = alias_assistant::repo::import_aliases_from_content(&stored, &pulled);
    let aliases = alias_assistant::grammar::parse_aliases_from_content(&merged);
    assert_eq!(aliases.len(), 2);
}
