use tapcode::component_logic::canvas::compute_indent_styles;
use tapcode::component_logic::keyboard::{resolve_key_action, KeyAction};
use tapcode::component_logic::picker::{compute_global_chip_delays, filter_nonempty_groups, ChipGroupDisplay};

fn tok(t: &str) -> (String, String) {
    (t.to_string(), String::new())
}

#[test]
fn flat_statement_all_zero_indent() {
    let tokens = vec![tok("let"), tok("x"), tok("="), tok("5"), tok(";")];
    let styles = compute_indent_styles(&tokens);
    assert!(styles.iter().all(|s| s == "margin-left: 0rem"));
}

#[test]
fn open_brace_indents_following() {
    let tokens = vec![tok("{"), tok("x")];
    let styles = compute_indent_styles(&tokens);
    assert_eq!(styles[0], "margin-left: 0rem");
    assert_eq!(styles[1], "margin-left: 1.5rem");
}

#[test]
fn close_brace_dedents() {
    let tokens = vec![tok("{"), tok("x"), tok("}")];
    let styles = compute_indent_styles(&tokens);
    assert_eq!(styles[2], "margin-left: 0rem");
}

#[test]
fn nested_blocks() {
    let tokens = vec![tok("{"), tok("{"), tok("x"), tok("}"), tok("}")];
    let styles = compute_indent_styles(&tokens);
    assert_eq!(styles[0], "margin-left: 0rem");
    assert_eq!(styles[1], "margin-left: 1.5rem");
    assert_eq!(styles[2], "margin-left: 3rem");
    assert_eq!(styles[3], "margin-left: 1.5rem");
    assert_eq!(styles[4], "margin-left: 0rem");
}

#[test]
fn underflow_protection() {
    let tokens = vec![tok("}"), tok("x")];
    let styles = compute_indent_styles(&tokens);
    assert_eq!(styles[0], "margin-left: 0rem");
    assert_eq!(styles[1], "margin-left: 0rem");
}

#[test]
fn empty_input() {
    let styles = compute_indent_styles(&[]);
    assert!(styles.is_empty());
}

#[test]
fn odd_depths_render_with_half_rem() {
    let tokens = vec![tok("{"), tok("{"), tok("{"), tok("x")];
    let styles = compute_indent_styles(&tokens);
    assert_eq!(styles[3], "margin-left: 4.5rem");
}

#[test]
fn enter_during_correct_feedback() {
    assert_eq!(resolve_key_action("Enter", true, true), KeyAction::Next);
}

#[test]
fn enter_during_wrong_feedback() {
    assert_eq!(resolve_key_action("Enter", true, false), KeyAction::TryAgain);
}

#[test]
fn enter_no_feedback() {
    assert_eq!(resolve_key_action("Enter", false, false), KeyAction::Check);
}

#[test]
fn backspace_no_feedback() {
    assert_eq!(resolve_key_action("Backspace", false, false), KeyAction::Undo);
}

#[test]
fn backspace_during_feedback() {
    assert_eq!(resolve_key_action("Backspace", true, false), KeyAction::NoAction);
}

#[test]
fn unknown_key() {
    assert_eq!(resolve_key_action("x", false, false), KeyAction::NoAction);
}

fn group(name: &str, tokens: &[&str]) -> ChipGroupDisplay {
    ChipGroupDisplay {
        name: name.to_string(),
        display_name: name.to_string(),
        css_class: format!("chip-{}", name),
        tokens: tokens.iter().map(|t| t.to_string()).collect(),
    }
}

#[test]
fn filter_removes_empty() {
    let groups = vec![group("kw", &["fn"]), group("empty", &[]), group("sym", &[";"])];
    let filtered = filter_nonempty_groups(&groups);
    assert_eq!(filtered.len(), 2);
    assert!(filtered.iter().all(|g| !g.tokens.is_empty()));
}

#[test]
fn delays_increment_globally() {
    let groups = vec![group("a", &["x", "y"]), group("b", &["z"])];
    let delays = compute_global_chip_delays(&groups);
    assert_eq!(delays, vec![30, 60, 90]);
}

#[test]
fn delays_skip_empty_groups() {
    let groups = vec![group("a", &["x"]), group("empty", &[]), group("b", &["y"])];
    let delays = compute_global_chip_delays(&groups);
    assert_eq!(delays, vec![30, 60]);
}
