use tapcode::compose::{compose_check, compose_chip_groups};
use tapcode::component_logic::keyboard::KeyAction;
use tapcode::engine::get_challenge_by_id;
use tapcode::lesson::{token_css_class, HintStep, LessonSession, NextStep};
use tapcode::models::{FeedbackKind, HintTier, TokenDiff};
use tapcode::state::AppState;
use tapcode::validator::AdapterRegistry;

fn place(session: &mut LessonSession, state: &AppState, tokens: &[&str]) {
    for t in tokens {
        let css = token_css_class(&state.pack, t);
        session.chip_tap(t.to_string(), css);
    }
}

#[test]
fn token_class_comes_from_the_category() {
    let state = AppState::new();
    assert_eq!(token_css_class(&state.pack, "let"), "token-keyword");
    assert_eq!(token_css_class(&state.pack, "5"), "token-number");
    assert_eq!(token_css_class(&state.pack, "zzz"), "token-identifier");
}

#[test]
fn correct_answer_awards_full_xp_and_completes() {
    let mut state = AppState::new();
    let challenge = get_challenge_by_id(&state.pack, "rust-m1-c1").unwrap().clone();
    let mut session = LessonSession::new();
    place(&mut session, &state, &["let", "x", "=", "5", ";"]);
    assert!(session.can_check());
    session.check(&challenge, &mut state);
    match &session.feedback {
        FeedbackKind::Correct { xp_awarded, .. } => assert_eq!(*xp_awarded, 10),
        other => panic!("expected correct feedback, got {:?}", other),
    }
    assert!(session.show_confetti);
    assert!(session.xp_bouncing);
    assert_eq!(session.xp_float, Some(10));
    assert_eq!(state.user.total_xp, 10);
    assert_eq!(state.progress.xp, 10);
    assert!(state.progress.completed_challenges.contains(&"rust-m1-c1".to_string()));
    assert_eq!(state.user.current_streak, 1);
    assert_eq!(state.total_attempts, 1);
    assert_eq!(state.correct_attempts, 1);
    assert!(!session.can_check());
}

#[test]
fn wrong_answer_shows_diff_and_counts_attempt() {
    let mut state = AppState::new();
    let challenge = get_challenge_by_id(&state.pack, "rust-m1-c1").unwrap().clone();
    let mut session = LessonSession::new();
    place(&mut session, &state, &["let", "y", "=", "5", ";"]);
    session.check(&challenge, &mut state);
    match &session.feedback {
        FeedbackKind::Wrong { diff, explanation } => {
            assert_eq!(diff.len(), 5);
            assert_eq!(diff[1], TokenDiff::Wrong { got: "y".into(), expected: "x".into() });
            assert_eq!(explanation, &challenge.hint_concept);
        }
        other => panic!("expected wrong feedback, got {:?}", other),
    }
    assert!(session.show_diff);
    assert!(session.diff_data.is_some());
    assert_eq!(state.total_attempts, 1);
    assert_eq!(state.correct_attempts, 0);
    assert_eq!(state.user.total_xp, 0);
}

#[test]
fn try_again_keeps_tokens_and_diff_then_half_xp() {
    let mut state = AppState::new();
    let challenge = get_challenge_by_id(&state.pack, "rust-m1-c1").unwrap().clone();
    let mut session = LessonSession::new();
    place(&mut session, &state, &["let", "y", "=", "5", ";"]);
    session.check(&challenge, &mut state);
    session.try_again();
    assert_eq!(session.feedback, FeedbackKind::NoFeedback);
    assert_eq!(session.attempt_num, 2);
    assert_eq!(session.assembled.len(), 5);
    assert!(session.show_diff);
    assert!(!session.show_confetti);
    session.token_tap(0);
    assert_eq!(session.assembled.len(), 1);
    assert!(!session.show_diff);
    assert!(session.diff_data.is_none());
    place(&mut session, &state, &["x", "=", "5", ";"]);
    session.check(&challenge, &mut state);
    assert_eq!(session.xp_float, Some(5));
    assert_eq!(state.user.total_xp, 5);
}

#[test]
fn feedback_freezes_the_canvas() {
    let mut state = AppState::new();
    let challenge = get_challenge_by_id(&state.pack, "rust-m1-c1").unwrap().clone();
    let mut session = LessonSession::new();
    place(&mut session, &state, &["let", "y"]);
    session.check(&challenge, &mut state);
    session.chip_tap("x".into(), "token-identifier".into());
    session.undo();
    session.token_tap(0);
    assert_eq!(session.assembled.len(), 2);
}

#[test]
fn undo_removes_last_token() {
    let state = AppState::new();
    let mut session = LessonSession::new();
    place(&mut session, &state, &["let", "x"]);
    session.undo();
    assert_eq!(session.assembled, vec![("let".to_string(), "token-keyword".to_string())]);
    session.undo();
    session.undo();
    assert!(session.assembled.is_empty());
}

#[test]
fn hints_progress_charge_and_skip() {
    let mut state = AppState::new();
    state.user.total_xp = 100;
    let challenge = get_challenge_by_id(&state.pack, "rust-m1-c1").unwrap().clone();
    let mut session = LessonSession::new();
    assert_eq!(session.hint(&challenge, &mut state), HintStep::Stay);
    assert_eq!(session.hint_tier, HintTier::Concept);
    assert_eq!(state.user.total_xp, 100);
    assert_eq!(session.hint(&challenge, &mut state), HintStep::Stay);
    assert_eq!(session.hint_tier, HintTier::Structure);
    assert_eq!(state.user.total_xp, 95);
    assert_eq!(
        session.ghost_hint,
        Some(vec!["_".to_string(), "_".into(), "=".into(), "_".into(), ";".into()])
    );
    place(&mut session, &state, &["let"]);
    assert!(session.ghost_hint.is_none());
    assert_eq!(session.hint(&challenge, &mut state), HintStep::Skip);
    assert_eq!(session.hint_tier, HintTier::Structure);
    assert_eq!(state.revisit_count(), 1);
    assert_eq!(state.hints_used_this_session, 2);
}

#[test]
fn next_goes_to_following_challenge_and_resets() {
    let mut state = AppState::new();
    let challenge = get_challenge_by_id(&state.pack, "rust-m1-c1").unwrap().clone();
    let mut session = LessonSession::new();
    place(&mut session, &state, &["let", "x", "=", "5", ";"]);
    session.check(&challenge, &mut state);
    assert_eq!(session.key_action("Enter"), KeyAction::Next);
    match session.next(challenge.module, &state) {
        NextStep::Lesson(id) => assert_eq!(id, "rust-m1-c2"),
        _ => panic!("expected the next lesson"),
    }
    assert!(session.assembled.is_empty());
    assert_eq!(session.feedback, FeedbackKind::NoFeedback);
    assert!(!session.xp_bouncing);
    assert!(session.xp_float.is_none());
    assert!(!session.show_confetti);
    assert_eq!(session.attempt_num, 1);
    assert!(!session.show_module_complete);
}

#[test]
fn next_after_last_challenge_of_module_shows_completion() {
    let mut state = AppState::new();
    let ids = state.pack.modules[0].challenge_ids.clone();
    for id in &ids {
        state.complete_challenge(id);
    }
    let mut session = LessonSession::new();
    assert!(matches!(session.next(1, &state), NextStep::ModuleComplete));
    assert!(session.show_module_complete);
}

#[test]
fn key_actions_follow_feedback() {
    let mut state = AppState::new();
    let challenge = get_challenge_by_id(&state.pack, "rust-m1-c1").unwrap().clone();
    let mut session = LessonSession::new();
    assert_eq!(session.key_action("Enter"), KeyAction::Check);
    assert_eq!(session.key_action("Backspace"), KeyAction::Undo);
    place(&mut session, &state, &["x"]);
    session.check(&challenge, &mut state);
    assert_eq!(session.key_action("Enter"), KeyAction::TryAgain);
    assert_eq!(session.key_action("Backspace"), KeyAction::NoAction);
}

#[test]
fn compose_gathers_chips_of_completed_modules() {
    let state = AppState::new();
    let groups = compose_chip_groups(&state.pack, 1);
    let names: Vec<&str> = groups.iter().map(|g| g.name.as_str()).collect();
    assert_eq!(names[0], "keywords");
    assert!(names.contains(&"identifiers"));
    let kw = groups.iter().find(|g| g.name == "keywords").unwrap();
    assert_eq!(kw.display_name, "Keywords");
    assert_eq!(kw.css_class, "chip-keyword");
    let mut seen = std::collections::HashSet::new();
    for t in &kw.tokens {
        assert!(seen.insert(t.clone()), "token {} listed twice", t);
    }
    let none = compose_chip_groups(&state.pack, 0);
    assert!(none.is_empty());
}

#[test]
fn compose_check_uses_the_language_adapter() {
    let reg = AdapterRegistry::default_registry();
    let tokens: Vec<String> = vec!["let".into(), "x".into(), "=".into(), "5".into(), ";".into()];
    assert_eq!(compose_check(&reg, "rust", &tokens), Some(true));
    assert_eq!(compose_check(&reg, "cobol", &tokens), None);
}
