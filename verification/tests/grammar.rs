use alias_assistant::grammar::{parse_aliases_from_content, serialize_aliases};
use alias_assistant::Alias;

fn mk(name: &str, command: &str) -> Alias {
    Alias { name: name.to_string(), command: command.to_string() }
}

#[test]
fn parse_empty_content_gives_no_aliases() {
    let r = parse_aliases_from_content("");
    assert_eq!(r.len(), 0);
}

#[test]
fn parse_skips_header_comments_and_blank_lines() {
    let text = "# This file is managed by Alias-Assistant. Manual edits might be overwritten.\n\n# comment\nnot an alias\nalias ll=\"ls -la\"\n";
    let r = parse_aliases_from_content(text);
    assert_eq!(r.len(), 1);
    assert_eq!(r[0].name, "ll");
    assert_eq!(r[0].command, "ls -la");
}

#[test]
fn parse_trims_surrounding_whitespace() {
    let r = parse_aliases_from_content("   alias gs=\"git status\"   \n");
    assert_eq!(r.len(), 1);
    assert_eq!(r[0].name, "gs");
    assert_eq!(r[0].command, "git status");
}

#[test]
fn parse_line_without_equals_is_skipped() {
    let r = parse_aliases_from_content("alias broken\nalias ok=\"x\"\n");
    assert_eq!(r.len(), 1);
    assert_eq!(r[0].name, "ok");
}

#[test]
fn parse_splits_on_first_equals_only() {
    let r = parse_aliases_from_content("alias e=\"A=B cmd\"\n");
    assert_eq!(r.len(), 1);
    assert_eq!(r[0].name, "e");
    assert_eq!(r[0].command, "A=B cmd");
}

#[test]
fn parse_strips_one_layer_of_quotes() {
    let r = parse_aliases_from_content("alias a=bare\nalias b=\"quoted\"\n");
    assert_eq!(r.len(), 2);
    assert_eq!(r[0].command, "bare");
    assert_eq!(r[1].command, "quoted");
}

#[test]
fn parse_handles_crlf_line_endings() {
    let r = parse_aliases_from_content("alias a=\"x\"\r\nalias b=\"y\"\r\n");
    assert_eq!(r.len(), 2);
    assert_eq!(r[0].name, "a");
    assert_eq!(r[1].name, "b");
}

#[test]
fn serialize_empty_collection_is_header_only() {
    let s = serialize_aliases(&vec![]);
    assert_eq!(
        s,
        "# This file is managed by Alias-Assistant. Manual edits might be overwritten.\n"
    );
}

#[test]
fn serialize_writes_one_line_per_alias_in_order() {
    let s = serialize_aliases(&vec![mk("ll", "ls -la"), mk("gs", "git status")]);
    assert_eq!(
        s,
        "# This file is managed by Alias-Assistant. Manual edits might be overwritten.\nalias ll=\"ls -la\"\nalias gs=\"git status\"\n"
    );
}

#[test]
fn round_trip_restores_collection() {
    let original = vec![mk("ll", "ls -la"), mk("gs", "git status"), mk("empty", "")];
    let text = serialize_aliases(&original);
    let back = parse_aliases_from_content(&text);
    assert_eq!(back.len(), original.len());
    for (a, b) in original.iter().zip(back.iter()) {
        assert_eq!(a.name, b.name);
        assert_eq!(a.command, b.command);
    }
}

#[test]
fn round_trip_keeps_commands_with_spaces_and_symbols() {
    let original = vec![mk("x", "grep -r 'foo bar' . | wc -l")];
    let text = serialize_aliases(&original);
    let back = parse_aliases_from_content(&text);
    assert_eq!(back.len(), 1);
    assert_eq!(back[0].command, "grep -r 'foo bar' . | wc -l");
}
