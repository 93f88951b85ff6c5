use dirshell::history::{contains_line, parse_history, promote, render_history, sort_lines};

fn list(entries: &[&str]) -> Vec<String> {
    entries.iter().map(|s| s.to_string()).collect()
}

#[test]
fn parse_empty_text_gives_no_entries() {
    let parsed = parse_history("");
    assert!(parsed.is_empty());
}

#[test]
fn parse_terminated_lines() {
    let parsed = parse_history("a\nb\nc\n");
    assert_eq!(parsed, list(&["a", "b", "c"]));
}

#[test]
fn parse_keeps_final_unterminated_line() {
    let parsed = parse_history("a\nb");
    assert_eq!(parsed, list(&["a", "b"]));
}

#[test]
fn parse_strips_carriage_return_before_newline() {
    let parsed = parse_history("a\r\nb\n");
    assert_eq!(parsed, list(&["a", "b"]));
}

#[test]
fn parse_keeps_trailing_carriage_return_at_end_of_text() {
    let parsed = parse_history("a\r");
    assert_eq!(parsed, list(&["a\r"]));
}

#[test]
fn parse_keeps_empty_lines() {
    let parsed = parse_history("a\n\nb\n");
    assert_eq!(parsed, list(&["a", "", "b"]));
}

#[test]
fn render_writes_one_line_per_entry() {
    let rendered = render_history(&list(&["b", "a", "c"]));
    assert_eq!(rendered, "b\na\nc\n");
}

#[test]
fn render_of_empty_list_is_empty() {
    let rendered = render_history(&Vec::new());
    assert_eq!(rendered, "");
}

#[test]
fn round_trip_reproduces_the_list() {
    let entries = list(&["cargo build", "ls -la", "", "echo hi"]);
    let parsed = parse_history(&render_history(&entries));
    assert_eq!(parsed, entries);
}

#[test]
fn contains_is_exact_match() {
    let entries = list(&["foo bar", "baz"]);
    assert!(contains_line(&entries, "foo bar"));
    assert!(!contains_line(&entries, "foo"));
    assert!(!contains_line(&entries, "foo bar "));
    assert!(!contains_line(&entries, ""));
}

#[test]
fn sort_orders_by_code_point() {
    let sorted = sort_lines(&list(&["b", "Z", "a", ""]));
    assert_eq!(sorted, list(&["", "Z", "a", "b"]));
}

#[test]
fn sort_keeps_duplicates() {
    let sorted = sort_lines(&list(&["b", "a", "b"]));
    assert_eq!(sorted, list(&["a", "b", "b"]));
}

#[test]
fn sort_orders_non_ascii_by_code_point() {
    let sorted = sort_lines(&list(&["é", "z", "a"]));
    assert_eq!(sorted, list(&["a", "z", "é"]));
}

#[test]
fn parse_handles_multibyte_characters() {
    let parsed = parse_history("héllo wörld\r\nnächste\n");
    assert_eq!(parsed, list(&["héllo wörld", "nächste"]));
}

#[test]
fn promote_moves_entry_to_front_and_sorts_rest() {
    let promoted = promote(&list(&["a", "b", "c"]), "b");
    assert_eq!(promoted, list(&["b", "a", "c"]));
}

#[test]
fn promote_is_idempotent_on_promoted_list() {
    let once = promote(&list(&["c", "a", "b"]), "b");
    let twice = promote(&once, "b");
    assert_eq!(once, twice);
}

#[test]
fn promote_never_duplicates() {
    let promoted = promote(&list(&["x", "b", "y", "b"]), "b");
    let hits = promoted.iter().filter(|e| e.as_str() == "b").count();
    assert_eq!(hits, 1);
    assert_eq!(promoted, list(&["b", "x", "y"]));
}

#[test]
fn promote_inserts_an_absent_entry() {
    let promoted = promote(&list(&["a", "c"]), "b");
    assert_eq!(promoted, list(&["b", "a", "c"]));
}
