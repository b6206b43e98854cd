use umoja::shell::{clip, exec_error, exec_script, parse_env0, session_vars, shell_quote};

#[test]
fn shell_quoting_survives_an_apostrophe() {
    assert_eq!(shell_quote("it's"), "'it'\\''s'");
}

#[test]
fn env0_parses_into_pairs() {
    let parsed = parse_env0(b"A=1\0B=two\0MALFORMED\0");
    assert_eq!(parsed.get("A"), Some(&"1".to_string()));
    assert_eq!(parsed.get("B"), Some(&"two".to_string()));
    assert_eq!(parsed.len(), 2);
}

#[test]
fn a_repeated_variable_keeps_its_last_value() {
    let parsed = parse_env0(b"A=1\0A=2\0C=x=y");
    assert_eq!(parsed.get("A"), Some(&"2".to_string()));
    assert_eq!(parsed.get("C"), Some(&"x=y".to_string()));
    assert_eq!(parsed.len(), 2);
}

#[test]
fn long_values_are_clipped_with_dots() {
    assert_eq!(clip("short", 10), "short");
    assert_eq!(clip("abcdefghijkl", 8), "abcde...");
    assert_eq!(shell_quote(""), "''");
}

#[test]
fn the_exec_script_captures_the_directory_and_environment() {
    let script = exec_script("/work dir", "/home/me", "ls", "/tmp/x/pwd", "/tmp/x/env");
    assert_eq!(
        script,
        "cd '/work dir' 2>/dev/null || cd '/home/me'\nls\n__pa_status=$?\npwd > '/tmp/x/pwd'\nenv -0 > '/tmp/x/env'\nexit $__pa_status"
    );
}

#[test]
fn a_failed_execution_says_how_it_failed() {
    assert_eq!(exec_error(true, Some(0), 30), None);
    assert_eq!(exec_error(false, Some(124), 30).as_deref(), Some("timed out after 30s"));
    assert_eq!(exec_error(false, Some(2), 30).as_deref(), Some("exit 2"));
    assert_eq!(exec_error(false, None, 30).as_deref(), Some("exit -1"));
}

#[test]
fn only_what_the_session_changed_is_reported() {
    let exports = parse_env0(b"HOME=/home/me\0TOKEN=abc\0PWD=/x\0SHLVL=2\0MODE=fast\0");
    let inherited = parse_env0(b"HOME=/home/me\0MODE=slow\0");
    let vars = session_vars(&exports, &inherited, Some("/work".to_string()));
    let names: Vec<&str> = vars.iter().map(|v| v.name.as_str()).collect();
    assert_eq!(names, vec!["PWD", "MODE", "TOKEN"]);
    assert_eq!(vars[0].value_type, "cwd");
    assert_eq!(vars[0].preview.as_deref(), Some("/work"));
    assert_eq!(vars[1].value_type, "export");
    assert_eq!(vars[1].preview.as_deref(), Some("fast"));
    assert_eq!(vars[2].size_bytes, Some(3));
    assert_eq!(session_vars(&exports, &inherited, None).len(), 2);
}
