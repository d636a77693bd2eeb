//! Tests of shell escaping.

use quay::command::shell_escape;

#[test]
fn command_shell_escape_normal_path() {
    let escaped = shell_escape("src/main.rs");
    assert_eq!(escaped, "'src/main.rs'");
}

#[test]
fn command_shell_escape_path_with_spaces() {
    let escaped = shell_escape("my project/file name.rs");
    assert_eq!(escaped, "'my project/file name.rs'");
}

#[test]
fn command_shell_escape_shell_metacharacters() {
    let escaped = shell_escape("file;rm -rf /");
    assert_eq!(escaped, "'file;rm -rf /'");
}

#[test]
fn command_shell_escape_backticks_and_dollar() {
    let escaped = shell_escape("$(whoami)`id`");
    assert_eq!(escaped, "'$(whoami)`id`'");
}

#[test]
fn command_shell_escape_single_quotes_unix() {
    let escaped = shell_escape("it's a file");
    assert_eq!(escaped, "'it'\\''s a file'");
}

#[test]
fn command_shell_escape_double_quotes_windows() {
    let escaped = shell_escape("file\"name");
    assert_eq!(escaped, "'file\"name'");
}

#[test]
fn command_shell_escape_percent_windows() {
    let escaped = shell_escape("100%done");
    assert_eq!(escaped, "'100%done'");
}

#[test]
fn command_shell_escape_empty_string() {
    let escaped = shell_escape("");
    assert_eq!(escaped, "''");
}

#[test]
fn command_shell_escape_pipe_and_ampersand() {
    let escaped = shell_escape("a | b && c");
    assert_eq!(escaped, "'a | b && c'");
}

#[test]
fn command_shell_escape_newline_and_tab() {
    let escaped = shell_escape("line1\nline2\ttab");
    assert_eq!(escaped, "'line1\nline2\ttab'");
}

#[test]
fn command_shell_escape_unicode_path() {
    let escaped = shell_escape("ファイル/配置.rs");
    assert_eq!(escaped, "'ファイル/配置.rs'");
}

#[test]
fn shell_escape_semicolon_injection() {
    let escaped = shell_escape("file.txt; rm -rf /");
    assert_eq!(escaped, "'file.txt; rm -rf /'");
}

#[test]
fn shell_escape_glob_characters() {
    let escaped = shell_escape("path/*/file?.rs");
    assert_eq!(escaped, "'path/*/file?.rs'");
}

#[test]
fn shell_escape_parentheses_and_braces() {
    let escaped = shell_escape("dir/{a,b}/(c).rs");
    assert_eq!(escaped, "'dir/{a,b}/(c).rs'");
}

#[test]
fn shell_escape_backslash() {
    let escaped = shell_escape("path\\to\\file");
    assert_eq!(escaped, "'path\\to\\file'");
}
