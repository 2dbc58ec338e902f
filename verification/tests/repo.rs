use alias_assistant::grammar::{parse_aliases_from_content, serialize_aliases};
use alias_assistant::repo::{add_alias, delete_alias, import_aliases_from_content};
use alias_assistant::{Alias, AppError};

const HEADER: &str =
    "# This file is managed by Alias-Assistant. Manual edits might be overwritten.";

#[test]
fn no_file_means_no_aliases() {
    // An absent backing file is handed to the library as empty content.
    let aliases = parse_aliases_from_content("");
    assert_eq!(aliases.len(), 0);
}

#[test]
fn add_then_export_gives_exact_content() {
    let stored = add_alias("", "ll".to_string(), "ls -la".to_string()).unwrap();
    assert_eq!(stored, format!("{}\nalias ll=\"ls -la\"\n", HEADER));
}

#[test]
fn add_duplicate_fails_and_leaves_storage_unchanged() {
    let mut stored = String::new();
    stored = add_alias(&stored, "ll".to_string(), "ls -la".to_string()).unwrap();
    let before = stored.clone();
    let second = add_alias(&stored, "ll".to_string(), "ls -lah".to_string());
    assert_eq!(second, Err(AppError::DuplicateName));
    // A failed add returns no content, so the caller writes nothing.
    assert_eq!(stored, before);
    let aliases = parse_aliases_from_content(&stored);
    assert_eq!(aliases.len(), 1);
    assert_eq!(aliases[0].name, "ll");
    assert_eq!(aliases[0].command, "ls -la");
}

#[test]
fn delete_removes_only_the_named_alias() {
    let mut stored = String::new();
    stored = add_alias(&stored, "a".to_string(), "1".to_string()).unwrap();
    stored = add_alias(&stored, "b".to_string(), "2".to_string()).unwrap();
    stored = delete_alias(&stored, "a".to_string());
    let aliases = parse_aliases_from_content(&stored);
    assert_eq!(aliases.len(), 1);
    assert_eq!(aliases[0].name, "b");
}

#[test]
fn delete_of_absent_name_keeps_content_byte_identical() {
    let mut stored = String::new();
    stored = add_alias(&stored, "a".to_string(), "1".to_string()).unwrap();
    let before = stored.clone();
    let after = delete_alias(&stored, "missing".to_string());
    assert_eq!(after, before);
}

#[test]
fn import_merge_overwrites_collisions_and_appends_new_names() {
    let stored = serialize_aliases(&vec![Alias {
        name: "ll".to_string(),
        command: "ls -la".to_string(),
    }]);
    let merged = import_aliases_from_content(
        &stored,
        "alias ll=\"ls -lah\"\nalias gs=\"git status\"\n",
    );
    let aliases = parse_aliases_from_content(&merged);
    assert_eq!(aliases.len(), 2);
    assert_eq!(aliases[0].name, "ll");
    assert_eq!(aliases[0].command, "ls -lah");
    assert_eq!(aliases[1].name, "gs");
    assert_eq!(aliases[1].command, "git status");
}

#[test]
fn import_merge_keeps_local_order_and_local_only_records() {
    let stored = serialize_aliases(&vec![
        Alias { name: "a".to_string(), command: "1".to_string() },
        Alias { name: "b".to_string(), command: "2".to_string() },
        Alias { name: "c".to_string(), command: "3".to_string() },
    ]);
    let merged = import_aliases_from_content(&stored, "alias b=\"two\"\nalias d=\"4\"\n");
    let aliases = parse_aliases_from_content(&merged);
    let pairs: Vec<(String, String)> =
        aliases.into_iter().map(|a| (a.name, a.command)).collect();
    assert_eq!(
        pairs,
        vec![
            ("a".to_string(), "1".to_string()),
            ("b".to_string(), "two".to_string()),
            ("c".to_string(), "3".to_string()),
            ("d".to_string(), "4".to_string()),
        ]
    );
}

#[test]
fn import_merge_of_empty_import_changes_nothing() {
    let stored = serialize_aliases(&vec![Alias {
        name: "a".to_string(),
        command: "1".to_string(),
    }]);
    let merged = import_aliases_from_content(&stored, "");
    assert_eq!(merged, stored);
}

#[test]
fn every_write_produces_what_serialize_produces() {
    // Export hands back the stored content verbatim; after any write that
    // content is exactly the serialization of the current collection.
    let mut stored = String::new();
    stored = add_alias(&stored, "x".to_string(), "1".to_string()).unwrap();
    let collection = parse_aliases_from_content(&stored);
    assert_eq!(stored, serialize_aliases(&collection));
    stored = delete_alias(&stored, "x".to_string());
    let collection = parse_aliases_from_content(&stored);
    assert_eq!(stored, serialize_aliases(&collection));
}
