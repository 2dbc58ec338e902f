use alias_assistant::shell::{
    contains_sub, find_alias, get_user_shell_config_file, source_command,
};
use alias_assistant::{Alias, AppError};

#[test]
fn bash_shells_use_bashrc() {
    assert_eq!(get_user_shell_config_file("/bin/bash"), Ok(".bashrc".to_string()));
    assert_eq!(get_user_shell_config_file("/usr/local/bin/bash"), Ok(".bashrc".to_string()));
}

#[test]
fn zsh_shells_use_zshrc() {
    assert_eq!(get_user_shell_config_file("/bin/zsh"), Ok(".zshrc".to_string()));
}

#[test]
fn other_shells_are_unsupported() {
    assert_eq!(get_user_shell_config_file("/usr/bin/fish"), Err(AppError::UnsupportedShell));
    assert_eq!(get_user_shell_config_file(""), Err(AppError::UnsupportedShell));
}

#[test]
fn source_command_quotes_the_path() {
    assert_eq!(
        source_command("/home/u/.alias-assistant/aliases.sh"),
        "\nsource \"/home/u/.alias-assistant/aliases.sh\""
    );
}

#[test]
fn contains_sub_finds_the_sourcing_line() {
    let line = source_command("/home/u/.alias-assistant/aliases.sh");
    let rc = format!("export PATH=$PATH{}\n# end", line);
    assert!(contains_sub(&rc, &line));
    assert!(!contains_sub("export PATH=$PATH\n", &line));
}

#[test]
fn contains_sub_edges() {
    assert!(contains_sub("abc", ""));
    assert!(contains_sub("abc", "abc"));
    assert!(!contains_sub("ab", "abc"));
    assert!(contains_sub("aab", "ab"));
}

#[test]
fn find_alias_returns_the_first_match() {
    let aliases = vec![
        Alias { name: "a".to_string(), command: "1".to_string() },
        Alias { name: "b".to_string(), command: "2".to_string() },
    ];
    assert_eq!(find_alias(&aliases, &"b".to_string()), Some(1));
    assert_eq!(find_alias(&aliases, &"zz".to_string()), None);
}
