use tapcode::component_logic::keyboard::{KeyAction, resolve_key_action};

#[test]
fn t23_1_enter_with_feedback_correct_returns_next() {
    let action = resolve_key_action("Enter", true, true);
    assert_eq!(action, KeyAction::Next);
}

#[test]
fn t23_2_enter_with_feedback_wrong_returns_try_again() {
    let action = resolve_key_action("Enter", true, false);
    assert_eq!(action, KeyAction::TryAgain);
}

#[test]
fn t23_3_enter_without_feedback_and_can_check_returns_check() {
    let action = resolve_key_action("Enter", false, false);
    assert_eq!(action, KeyAction::Check);
}

#[test]
fn t23_4_backspace_without_feedback_returns_undo() {
    let action = resolve_key_action("Backspace", false, false);
    assert_eq!(action, KeyAction::Undo);
}

#[test]
fn t23_5_backspace_with_feedback_returns_none() {
    let action = resolve_key_action("Backspace", true, false);
    assert_eq!(action, KeyAction::NoAction);
}

#[test]
fn t23_6_unknown_key_returns_none() {
    let action = resolve_key_action("a", false, false);
    assert_eq!(action, KeyAction::NoAction);
}

#[test]
fn t23_7_enter_with_no_feedback_returns_check() {
    let action = resolve_key_action("Enter", false, false);
    assert_eq!(action, KeyAction::Check);
}

