use dirshell::advisory::{release_is_newer, version_check_due};
use dirshell::envfile::{env_plan, EnvPlan};
use dirshell::flow::{
    exit_code, interpret_args, join_args, record_line, resolve_choice, run_mode,
    should_exit_early, RunMode, RunOutcome,
};
use dirshell::history::{parse_history, promote, render_history};

fn list(entries: &[&str]) -> Vec<String> {
    entries.iter().map(|s| s.to_string()).collect()
}

#[test]
fn join_args_single_spaces() {
    assert_eq!(join_args(&list(&["foo", "bar"])), "foo bar");
    assert_eq!(join_args(&list(&["ls"])), "ls");
    assert_eq!(join_args(&Vec::new()), "");
}

#[test]
fn plain_argument_is_the_command() {
    let inv = interpret_args("cargo test".to_string());
    assert_eq!(inv.command, "cargo test");
    assert!(!inv.ignore_env);
    assert!(!inv.edit_mode);
}

#[test]
fn double_dash_empties_command_and_suppresses_env() {
    let inv = interpret_args("--".to_string());
    assert_eq!(inv.command, "");
    assert!(inv.ignore_env);
    assert!(!inv.edit_mode);
}

#[test]
fn star_empties_command_and_asks_for_edit() {
    let inv = interpret_args("*".to_string());
    assert_eq!(inv.command, "");
    assert!(!inv.ignore_env);
    assert!(inv.edit_mode);
}

#[test]
fn sentinels_match_whole_string_only() {
    let inv = interpret_args("-- foo".to_string());
    assert_eq!(inv.command, "-- foo");
    assert!(!inv.ignore_env);
}

#[test]
fn early_exit_only_without_file_and_without_command() {
    let inv = interpret_args("".to_string());
    assert!(should_exit_early(false, &inv));
    assert!(!should_exit_early(true, &inv));
    let recording = interpret_args("ls".to_string());
    assert!(!should_exit_early(false, &recording));
}

#[test]
fn mode_decision_matches_history_and_command() {
    let history = list(&["foo bar"]);
    assert!(matches!(run_mode(&history, &"foo bar".to_string()), RunMode::AlreadyRecorded));
    assert!(matches!(run_mode(&history, &"baz".to_string()), RunMode::RecordNew));
    assert!(matches!(run_mode(&history, &"".to_string()), RunMode::Interactive));
}

#[test]
fn record_line_appends_one_newline() {
    assert_eq!(record_line(&"foo bar".to_string()), "foo bar\n");
}

#[test]
fn resolved_choice_prefers_edited_text_in_edit_mode() {
    let resolved = resolve_choice("ls -la".to_string(), "ls -la /tmp".to_string(), true);
    assert_eq!(resolved.unwrap(), "ls -la /tmp");
    let unedited = resolve_choice("ls -la".to_string(), "".to_string(), false);
    assert_eq!(unedited.unwrap(), "ls -la");
}

#[test]
fn empty_choice_means_no_action() {
    assert!(resolve_choice("".to_string(), "".to_string(), false).is_none());
    assert!(resolve_choice("ls".to_string(), "".to_string(), true).is_none());
}

#[test]
fn exit_codes_by_outcome() {
    assert_eq!(exit_code(&RunOutcome::Completed), 0);
    assert_eq!(exit_code(&RunOutcome::NoOp), 0);
    assert_eq!(exit_code(&RunOutcome::IoFailure), 1);
    assert_eq!(exit_code(&RunOutcome::SpawnFailure), 2);
    assert_eq!(exit_code(&RunOutcome::WaitFailure), 3);
}

#[test]
fn version_check_due_unless_marker_written_today() {
    assert!(version_check_due(false, false));
    assert!(version_check_due(false, true));
    assert!(version_check_due(true, false));
    assert!(!version_check_due(true, true));
}

#[test]
fn release_newer_when_tag_tail_differs() {
    assert!(!release_is_newer("v1.2.3", "1.2.3"));
    assert!(release_is_newer("v1.2.4", "1.2.3"));
    assert!(!release_is_newer("", "1.2.3"));
}

// Scenario: the user selects `b` out of the on-disk history `a`, `b`,
// `c`; the persisted file puts `b` first and the rest alphabetically.
#[test]
fn scenario_select_middle_entry() {
    let history = parse_history("a\nb\nc\n");
    let promoted = promote(&history, "b");
    assert_eq!(render_history(&promoted), "b\na\nc\n");
}

// Scenario: no history file, invocation argument `foo bar`: the line
// is recorded, nothing is executed, the run exits successfully.
#[test]
fn scenario_record_new_command() {
    let inv = interpret_args(join_args(&list(&["foo", "bar"])));
    assert!(!should_exit_early(false, &inv));
    let history: Vec<String> = Vec::new();
    assert!(matches!(run_mode(&history, &inv.command), RunMode::RecordNew));
    assert_eq!(record_line(&inv.command), "foo bar\n");
    assert_eq!(exit_code(&RunOutcome::NoOp), 0);
}

// Scenario: the history already holds `foo bar` and the invocation
// argument is `foo bar`: nothing changes, nothing runs, exit code 0.
#[test]
fn scenario_record_existing_command() {
    let history = parse_history("foo bar\n");
    let inv = interpret_args("foo bar".to_string());
    assert!(matches!(run_mode(&history, &inv.command), RunMode::AlreadyRecorded));
    assert_eq!(exit_code(&RunOutcome::NoOp), 0);
}

// Scenario: invocation argument `--` with a non-empty history: the run
// goes interactive and any pick executes with an empty injected
// environment, whatever env files the directory holds.
#[test]
fn scenario_double_dash_suppresses_env() {
    let history = parse_history("a\nb\n");
    let inv = interpret_args("--".to_string());
    assert!(matches!(run_mode(&history, &inv.command), RunMode::Interactive));
    let plan = env_plan(&list(&["dev.env", "prod.env"]), "env", inv.ignore_env);
    assert!(matches!(plan, EnvPlan::Empty));
    let resolved = resolve_choice("a".to_string(), "".to_string(), inv.edit_mode);
    assert_eq!(resolved.unwrap(), "a");
}

// Scenario: invocation argument `*`; the user picks `ls -la` and edits
// it to `ls -la /tmp`: the edited string is what gets promoted,
// persisted and launched.
#[test]
fn scenario_edit_mode_uses_edited_string() {
    let history = parse_history("ls -la\ncargo build\n");
    let inv = interpret_args("*".to_string());
    assert!(matches!(run_mode(&history, &inv.command), RunMode::Interactive));
    let chosen = resolve_choice("ls -la".to_string(), "ls -la /tmp".to_string(), inv.edit_mode)
        .unwrap();
    assert_eq!(chosen, "ls -la /tmp");
    let promoted = promote(&history, &chosen);
    assert_eq!(render_history(&promoted), "ls -la /tmp\ncargo build\nls -la\n");
}
