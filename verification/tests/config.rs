use alias_assistant::config::{
    get_gist_id, get_gist_token, read_gist_config, serialize_gist_config, set_gist_id,
    set_gist_token, GistConfig,
};
use alias_assistant::AppError;

#[test]
fn empty_content_reads_as_default_config() {
    let c = read_gist_config("").unwrap();
    assert_eq!(c.token, None);
    assert_eq!(c.gist_id, None);
}

#[test]
fn reads_pretty_printed_json_documents() {
    let text = "{\n  \"token\": \"tok123\",\n  \"gist_id\": null\n}";
    let c = read_gist_config(text).unwrap();
    assert_eq!(c.token, Some("tok123".to_string()));
    assert_eq!(c.gist_id, None);
}

#[test]
fn reads_fields_in_any_order() {
    let text = "{\"gist_id\": \"abc\", \"token\": \"t\"}";
    let c = read_gist_config(text).unwrap();
    assert_eq!(c.token, Some("t".to_string()));
    assert_eq!(c.gist_id, Some("abc".to_string()));
}

#[test]
fn malformed_content_is_an_io_error() {
    let r = read_gist_config("not json at all");
    assert_eq!(r, Err(AppError::IoError("Failed to parse config".to_string())));
}

#[test]
fn serialize_writes_the_exact_json_object() {
    let c = GistConfig { token: Some("t".to_string()), gist_id: None };
    assert_eq!(serialize_gist_config(&c), "{\"token\":\"t\",\"gist_id\":null}");
}

#[test]
fn serialized_config_reads_back_identically() {
    let c = GistConfig {
        token: Some("ghp_SECRET-REDACTED".to_string()),
        gist_id: Some("d3adb33f".to_string()),
    };
    let text = serialize_gist_config(&c);
    let back = read_gist_config(&text).unwrap();
    assert_eq!(back.token, c.token);
    assert_eq!(back.gist_id, c.gist_id);
}

#[test]
fn escaped_characters_survive_the_config_round_trip() {
    let c = GistConfig { token: Some("a\"b\\c\nd".to_string()), gist_id: None };
    let text = serialize_gist_config(&c);
    let back = read_gist_config(&text).unwrap();
    assert_eq!(back.token, Some("a\"b\\c\nd".to_string()));
}

#[test]
fn set_token_keeps_the_stored_id() {
    let stored = serialize_gist_config(&GistConfig {
        token: None,
        gist_id: Some("abc".to_string()),
    });
    let stored = set_gist_token(&stored, "tok".to_string()).unwrap();
    let c = read_gist_config(&stored).unwrap();
    assert_eq!(c.token, Some("tok".to_string()));
    assert_eq!(c.gist_id, Some("abc".to_string()));
}

#[test]
fn set_id_keeps_the_stored_token() {
    let stored = set_gist_token("", "tok".to_string()).unwrap();
    let stored = set_gist_id(&stored, "xyz".to_string()).unwrap();
    let c = read_gist_config(&stored).unwrap();
    assert_eq!(c.token, Some("tok".to_string()));
    assert_eq!(c.gist_id, Some("xyz".to_string()));
}

#[test]
fn getters_return_the_stored_optionals() {
    assert_eq!(get_gist_token("").unwrap(), None);
    assert_eq!(get_gist_id("").unwrap(), None);
    let stored = set_gist_token("", "tok".to_string()).unwrap();
    assert_eq!(get_gist_token(&stored).unwrap(), Some("tok".to_string()));
    assert_eq!(get_gist_id(&stored).unwrap(), None);
}
