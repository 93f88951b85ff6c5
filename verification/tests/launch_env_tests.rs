use dirshell::config::standard_config;
use dirshell::envfile::{discover, env_plan, parse_env_lines, split_env_line, EnvPlan};
use dirshell::launch::{build_plan, launch_attempts, tokenize};

fn list(entries: &[&str]) -> Vec<String> {
    entries.iter().map(|s| s.to_string()).collect()
}

#[test]
fn standard_config_values() {
    let cfg = standard_config();
    assert_eq!(cfg.history_file, ".comhistory");
    assert_eq!(cfg.env_extension, "env");
    assert_eq!(cfg.shell_program, "cmd");
    assert_eq!(cfg.shell_flag, "/C");
    assert_eq!(cfg.exception_commands, list(&["echo"]));
}

#[test]
fn tokenize_splits_on_whitespace_runs() {
    assert_eq!(tokenize("cargo  build\t--release"), list(&["cargo", "build", "--release"]));
    assert_eq!(tokenize("  ls  "), list(&["ls"]));
    assert_eq!(tokenize(""), Vec::<String>::new());
    assert_eq!(tokenize(" \t "), Vec::<String>::new());
}

#[test]
fn tokenize_handles_multibyte_characters() {
    assert_eq!(tokenize("grüß dich"), list(&["grüß", "dich"]));
}

#[test]
fn tokenize_splits_on_unicode_whitespace() {
    assert_eq!(tokenize("a\u{a0}b\u{2003}c\u{c}d"), list(&["a", "b", "c", "d"]));
}

#[test]
fn direct_plan_for_ordinary_program() {
    let cfg = standard_config();
    let plan = build_plan("ls -la /tmp", false, &cfg).unwrap();
    assert_eq!(plan.program, "ls");
    assert_eq!(plan.args, list(&["-la", "/tmp"]));
}

#[test]
fn exception_program_is_always_shell_wrapped() {
    let cfg = standard_config();
    let plan = build_plan("echo hi there", false, &cfg).unwrap();
    assert_eq!(plan.program, "cmd");
    assert_eq!(plan.args, list(&["/C", "echo", "hi", "there"]));
}

#[test]
fn forced_shell_wraps_any_program() {
    let cfg = standard_config();
    let plan = build_plan("ls -la", true, &cfg).unwrap();
    assert_eq!(plan.program, "cmd");
    assert_eq!(plan.args, list(&["/C", "ls", "-la"]));
}

#[test]
fn no_token_gives_no_plan() {
    let cfg = standard_config();
    assert!(build_plan("   ", false, &cfg).is_none());
}

#[test]
fn attempts_are_direct_then_shell_fallback() {
    let cfg = standard_config();
    let attempts = launch_attempts("ls -la", &cfg);
    assert_eq!(attempts.len(), 2);
    assert_eq!(attempts[0].program, "ls");
    assert_eq!(attempts[0].args, list(&["-la"]));
    assert_eq!(attempts[1].program, "cmd");
    assert_eq!(attempts[1].args, list(&["/C", "ls", "-la"]));
}

#[test]
fn attempts_for_exception_program_are_shell_only() {
    let cfg = standard_config();
    let attempts = launch_attempts("echo hi", &cfg);
    assert_eq!(attempts.len(), 1);
    assert_eq!(attempts[0].program, "cmd");
    assert_eq!(attempts[0].args, list(&["/C", "echo", "hi"]));
}

#[test]
fn split_at_first_equals_only() {
    let (key, value) = split_env_line("A=B=C").unwrap();
    assert_eq!(key, "A");
    assert_eq!(value, "B=C");
}

#[test]
fn split_keeps_whitespace_untrimmed() {
    let (key, value) = split_env_line("KEY = value ").unwrap();
    assert_eq!(key, "KEY ");
    assert_eq!(value, " value ");
}

#[test]
fn line_without_equals_is_ignored() {
    assert!(split_env_line("no pair here").is_none());
    let parsed = parse_env_lines(&list(&["plain", "K=1"]));
    let entries = parsed.entries();
    assert_eq!(entries.len(), 1);
    assert_eq!(entries[0], ("K".to_string(), "1".to_string()));
}

#[test]
fn later_line_overrides_earlier_key() {
    let parsed = parse_env_lines(&list(&["K=1", "L=2", "K=3"]));
    let mut entries = parsed.entries().clone();
    entries.sort();
    assert_eq!(entries, vec![("K".to_string(), "3".to_string()), ("L".to_string(), "2".to_string())]);
}

#[test]
fn discover_filters_by_suffix() {
    let names = list(&["a.env", "notes.txt", "env", "prod.envx"]);
    let found = discover(&names, "env").unwrap();
    assert_eq!(found, list(&["a.env", "env"]));
    assert!(discover(&list(&["notes.txt"]), "env").is_none());
}

#[test]
fn env_plan_zero_candidates_is_empty() {
    let plan = env_plan(&list(&["notes.txt"]), "env", false);
    assert!(matches!(plan, EnvPlan::Empty));
}

#[test]
fn env_plan_single_candidate_parses_without_prompt() {
    let plan = env_plan(&list(&["notes.txt", "dev.env"]), "env", false);
    match plan {
        EnvPlan::ParseSingle(name) => assert_eq!(name, "dev.env"),
        _ => panic!("expected a single candidate"),
    }
}

#[test]
fn env_plan_many_candidates_requires_selection() {
    let plan = env_plan(&list(&["a.env", "b.env"]), "env", false);
    match plan {
        EnvPlan::PromptAmong(names) => assert_eq!(names, list(&["a.env", "b.env"])),
        _ => panic!("expected a selection step"),
    }
}

#[test]
fn env_plan_suppressed_is_empty_despite_candidates() {
    let plan = env_plan(&list(&["a.env", "b.env"]), "env", true);
    assert!(matches!(plan, EnvPlan::Empty));
}
