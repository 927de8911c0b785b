use tapcode::component_logic::canvas::compute_indent_styles;
use tapcode::component_logic::picker::{filter_nonempty_groups, compute_global_chip_delays, ChipGroupDisplay};

#[test]
fn t08_1_entrance_delay_format_produces_valid_css() {
    let delay_ms: u32 = 120;
    let style = format!("animation-delay: {}ms", delay_ms);
    assert_eq!(style, "animation-delay: 120ms");
}

#[test]
fn t08_2_entrance_delay_zero_produces_zero_ms() {
    let delay_ms: u32 = 0;
    let style = format!("animation-delay: {}ms", delay_ms);
    assert_eq!(style, "animation-delay: 0ms");
}

#[test]
fn t08_3_chip_min_touch_target_documented() {
    let css_snippet = "min-width: 2.75rem; min-height: 2.75rem;";
    assert!(css_snippet.contains("2.75rem"));
}

#[test]
fn t09_1_no_braces_no_indent() {
    let tokens = vec![
        ("let".to_string(), "token-keyword".to_string()),
        ("x".to_string(), "token-identifier".to_string()),
        ("=".to_string(), "token-symbol".to_string()),
        ("5".to_string(), "token-number".to_string()),
        (";".to_string(), "token-symbol".to_string()),
    ];
    let styles = compute_indent_styles(&tokens);
    for s in &styles {
        assert_eq!(s, "margin-left: 0rem");
    }
}

#[test]
fn t09_2_open_brace_increases_indent_for_next_token() {
    let tokens = vec![
        ("fn".to_string(), "token-keyword".to_string()),
        ("main".to_string(), "token-identifier".to_string()),
        ("(".to_string(), "token-symbol".to_string()),
        (")".to_string(), "token-symbol".to_string()),
        ("{".to_string(), "token-symbol".to_string()),
        ("println!".to_string(), "token-macro".to_string()),
    ];
    let styles = compute_indent_styles(&tokens);
    assert_eq!(styles[4], "margin-left: 0rem");
    assert_eq!(styles[5], "margin-left: 1.5rem");
}

#[test]
fn t09_3_close_brace_decreases_indent() {
    let tokens = vec![
        ("{".to_string(), "token-symbol".to_string()),
        ("x".to_string(), "token-identifier".to_string()),
        ("}".to_string(), "token-symbol".to_string()),
    ];
    let styles = compute_indent_styles(&tokens);
    assert_eq!(styles[0], "margin-left: 0rem");
    assert_eq!(styles[1], "margin-left: 1.5rem");
    assert_eq!(styles[2], "margin-left: 0rem");
}

#[test]
fn t09_4_nested_braces_double_indent() {
    let tokens = vec![
        ("{".to_string(), "".to_string()),
        ("{".to_string(), "".to_string()),
        ("x".to_string(), "".to_string()),
        ("}".to_string(), "".to_string()),
        ("}".to_string(), "".to_string()),
    ];
    let styles = compute_indent_styles(&tokens);
    assert_eq!(styles[0], "margin-left: 0rem");
    assert_eq!(styles[1], "margin-left: 1.5rem");
    assert_eq!(styles[2], "margin-left: 3rem");
    assert_eq!(styles[3], "margin-left: 1.5rem");
    assert_eq!(styles[4], "margin-left: 0rem");
}

#[test]
fn t09_5_close_brace_at_zero_does_not_underflow() {
    let tokens = vec![
        ("}".to_string(), "".to_string()),
        ("x".to_string(), "".to_string()),
    ];
    let styles = compute_indent_styles(&tokens);
    assert_eq!(styles[0], "margin-left: 0rem");
    assert_eq!(styles[1], "margin-left: 0rem");
}

#[test]
fn t09_6_empty_token_list_returns_empty() {
    let tokens: Vec<(String, String)> = vec![];
    let styles = compute_indent_styles(&tokens);
    assert!(styles.is_empty());
}

#[test]
fn t09_7_diff_mode_should_disable_tap() {
    let show_diff = true;
    let tap_allowed = !show_diff;
    assert!(!tap_allowed, "Tapping should be disabled in diff mode");
}

#[test]
fn t09_8_normal_mode_allows_tap() {
    let show_diff = false;
    let tap_allowed = !show_diff;
    assert!(tap_allowed, "Tapping should be allowed in normal mode");
}

fn make_group(name: &str, tokens: &[&str]) -> ChipGroupDisplay {
    ChipGroupDisplay {
        name: name.to_string(),
        display_name: name.to_string(),
        css_class: format!("chip-{}", name),
        tokens: tokens.iter().map(|t| t.to_string()).collect(),
    }
}

#[test]
fn t10_1_empty_group_filtered_out() {
    let groups = vec![
        make_group("keywords", &["fn", "let"]),
        make_group("empty", &[]),
        make_group("symbols", &[";", "="]),
    ];
    let filtered = filter_nonempty_groups(&groups);
    assert_eq!(filtered.len(), 2);
    assert_eq!(filtered[0].name, "keywords");
    assert_eq!(filtered[1].name, "symbols");
}

#[test]
fn t10_2_all_empty_returns_empty() {
    let groups = vec![
        make_group("a", &[]),
        make_group("b", &[]),
    ];
    let filtered = filter_nonempty_groups(&groups);
    assert!(filtered.is_empty());
}

#[test]
fn t10_3_no_empty_groups_passes_all() {
    let groups = vec![
        make_group("kw", &["fn"]),
        make_group("sym", &[";"]),
    ];
    let filtered = filter_nonempty_groups(&groups);
    assert_eq!(filtered.len(), 2);
}

#[test]
fn t10_4_global_chip_index_increments_across_groups() {
    let groups = vec![
        make_group("keywords", &["fn", "let", "mut"]),
        make_group("symbols", &[";", "=", "{"]),
        make_group("types", &["i32", "String"]),
    ];
    let delays = compute_global_chip_delays(&groups);

    assert_eq!(delays.len(), 8);
    assert_eq!(delays[0], 1 * 30);
    assert_eq!(delays[1], 2 * 30);
    assert_eq!(delays[2], 3 * 30);
    assert_eq!(delays[3], 4 * 30);
    assert_eq!(delays[4], 5 * 30);
    assert_eq!(delays[5], 6 * 30);
    assert_eq!(delays[6], 7 * 30);
    assert_eq!(delays[7], 8 * 30);
}

#[test]
fn t10_5_global_chip_index_empty_groups_skipped() {
    let groups = vec![
        make_group("keywords", &["fn"]),
        make_group("empty", &[]),
        make_group("symbols", &[";"]),
    ];
    let delays = compute_global_chip_delays(&groups);
    assert_eq!(delays.len(), 2);
    assert_eq!(delays[0], 1 * 30);
    assert_eq!(delays[1], 2 * 30);
}

#[test]
fn t10_6_empty_input_returns_empty_delays() {
    let groups: Vec<ChipGroupDisplay> = vec![];
    let delays = compute_global_chip_delays(&groups);
    assert!(delays.is_empty());
}

#[test]
fn t11_1_auto_advance_timer_expected_behavior() {
    let auto_advance_delay_ms: u32 = 3000;
    assert_eq!(auto_advance_delay_ms, 3000, "Auto-advance should fire after 3 seconds");
}

#[test]
fn t11_2_keyboard_shortcuts_expected_behavior() {
    let expected_shortcuts = vec![
        ("1-9", "select chip at index"),
        ("Enter", "check answer"),
        ("Backspace", "undo last token"),
        ("Tab", "move between groups"),
    ];
    assert_eq!(expected_shortcuts.len(), 4, "Four keyboard shortcuts expected");
}

#[test]
fn t11_3_auto_advance_cancels_on_manual_next() {
    let timer_active = true;
    let user_tapped_next = true;
    let should_cancel_timer = timer_active && user_tapped_next;
    assert!(should_cancel_timer, "Timer must be cancelled on manual next");
}

#[test]
fn t12_1_xp_bounce_set_on_correct_answer() {
    let xp_bouncing = true; // set on correct
    let bounce_duration_ms: u32 = 300;
    assert!(xp_bouncing, "xp_bouncing should be true on correct answer");
    assert_eq!(bounce_duration_ms, 300, "Bounce animation is 300ms");
}

#[test]
fn t12_2_xp_float_set_on_correct_answer() {
    let xp_earned: u32 = 20;
    let xp_float: Option<u32> = Some(xp_earned);
    let float_duration_ms: u32 = 1000;
    assert_eq!(xp_float, Some(20), "xp_float should show earned amount");
    assert_eq!(float_duration_ms, 1000, "Float animation lasts 1 second");
}

#[test]
fn t12_3_xp_bounce_reset_after_timer() {
    let mut xp_bouncing = true;
    xp_bouncing = false;
    assert!(!xp_bouncing, "xp_bouncing should reset to false after 300ms");
}

#[test]
fn t12_4_xp_float_reset_after_timer() {
    let mut xp_float: Option<u32> = Some(20);
    xp_float = None;
    assert!(xp_float.is_none(), "xp_float should reset to None after 1s");
}

#[test]
fn t12_5_on_next_clears_all_animation_state() {
    let xp_bouncing = false;
    let xp_float: Option<u32> = None;
    let show_confetti = false;
    assert!(!xp_bouncing);
    assert!(xp_float.is_none());
    assert!(!show_confetti);
}
