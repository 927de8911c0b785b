use tapcode::compose::{compose_chip_groups, ComposeSession};
use tapcode::lesson::LessonSession;
use tapcode::onboarding::{OnboardingEvent, OnboardingFlow, SkillLevel};
use tapcode::views::completed_module_ids;
use tapcode::engine::{compute_diff, validate_answer};
use tapcode::models::{TokenDiff, ValidationResult};
use tapcode::services::offline_queue::max_value_wins;
use tapcode::state::AppState;

#[test]
fn every_canonical_answer_and_variant_is_accepted() {
    let state = AppState::new();
    for c in &state.pack.challenges {
        assert_eq!(validate_answer(&c.answer, c), ValidationResult::Correct, "{}", c.id);
        for v in &c.answer_variants {
            assert_eq!(validate_answer(v, c), ValidationResult::Correct, "{}", c.id);
        }
    }
}

#[test]
fn diff_of_equal_sequences_is_all_match() {
    let a: Vec<String> = vec!["let".into(), "x".into(), "=".into()];
    let d = compute_diff(&a, &a);
    assert!(d.iter().all(|e| matches!(e, TokenDiff::Match(_))));
    let b: Vec<String> = vec!["let".into(), "y".into(), "=".into()];
    assert!(!compute_diff(&b, &a).iter().all(|e| matches!(e, TokenDiff::Match(_))));
}

#[test]
fn purchase_hides_paywall_after_any_module() {
    let mut s = AppState::new();
    assert!(s.should_show_paywall(3));
    s.unlock_all_modules();
    for m in 0..6 {
        assert!(!s.should_show_paywall(m));
    }
}

#[test]
fn max_value_conflicts_are_symmetric() {
    for (a, b) in [(Some(3), Some(7)), (None, Some(-2)), (Some(5), None), (None, None)] {
        assert_eq!(max_value_wins(a, b), max_value_wins(b, a));
        let w = max_value_wins(a, b);
        assert_eq!(max_value_wins(Some(w), b), w);
    }
}

#[test]
fn compose_offers_every_chip_once_per_group_name() {
    let s = AppState::new();
    let groups = compose_chip_groups(&s.pack, 2);
    let mut names: Vec<&str> = groups.iter().map(|g| g.name.as_str()).collect();
    let before = names.len();
    names.sort();
    names.dedup();
    assert_eq!(names.len(), before);
    for c in s.pack.challenges.iter().filter(|c| c.module <= 2) {
        for cg in &c.chips {
            let g = groups.iter().find(|g| g.name == cg.group).unwrap();
            for t in &cg.tokens {
                assert!(g.tokens.contains(t), "{} missing {}", cg.group, t);
            }
        }
    }
}

#[test]
fn undo_takes_back_a_lesson_tap() {
    let mut s = LessonSession::new();
    s.chip_tap("let".into(), "token-keyword".into());
    let before = s.assembled.clone();
    s.chip_tap("x".into(), "token-identifier".into());
    s.undo();
    assert_eq!(s.assembled, before);
    assert_eq!(s.attempt_num, 1);
    assert!(!s.show_diff);
}

#[test]
fn undo_takes_back_a_compose_tap() {
    let mut c = ComposeSession::new();
    c.chip_tap("fn".into(), "token-keyword".into());
    let before = c.assembled.clone();
    c.verdict = Some(true);
    c.chip_tap("main".into(), "token-identifier".into());
    c.undo();
    assert_eq!(c.assembled, before);
    assert_eq!(c.verdict, None);
}

#[test]
fn every_completed_module_has_its_badge() {
    let mut s = AppState::new();
    for m in s.pack.modules.clone() {
        for id in &m.challenge_ids {
            s.complete_challenge(id);
        }
    }
    let ids: Vec<u32> = s.pack.modules.iter().map(|m| m.id).collect();
    assert_eq!(completed_module_ids(&s), ids);
}

#[test]
fn onboarding_only_opens_starting_lessons() {
    let starts = ["rust-m1-c1", "rust-m1-c3", "rust-m2-c1"];
    let events = [
        OnboardingEvent::Continue,
        OnboardingEvent::PickRust,
        OnboardingEvent::Answer(SkillLevel::Basics),
        OnboardingEvent::Skip,
    ];
    for first in events {
        for second in events {
            for third in events {
                let mut state = AppState::new();
                let mut flow = OnboardingFlow::new();
                for e in [OnboardingEvent::Continue, OnboardingEvent::PickRust, first, second, third] {
                    if let Some(id) = flow.handle(e, &mut state) {
                        assert!(starts.contains(&id.as_str()));
                        assert!(state.is_onboarded);
                    }
                    assert!(starts.contains(&flow.target_lesson.as_str()));
                }
            }
        }
    }
}

#[test]
fn completing_twice_changes_nothing_more() {
    let mut s = AppState::new();
    let ids: Vec<String> = s.pack.modules[0].challenge_ids.clone();
    for id in &ids {
        s.complete_challenge(id);
    }
    let completed = s.progress.completed_challenges.clone();
    let unlocked = s.progress.unlocked_modules.clone();
    let active = s.progress.active_module;
    s.complete_challenge(&ids[0]);
    assert_eq!(s.progress.completed_challenges, completed);
    assert_eq!(s.progress.unlocked_modules, unlocked);
    assert_eq!(s.progress.active_module, active);
    assert!(unlocked.contains(&2));
}

#[test]
fn longest_streak_never_below_current() {
    let mut s = AppState::new();
    s.user.current_streak = 4;
    s.user.longest_streak = 4;
    s.fill_streak_today();
    assert_eq!(s.user.current_streak, 5);
    assert_eq!(s.user.longest_streak, 5);
    s.fill_streak_today();
    assert_eq!(s.user.current_streak, 5);
    assert!(s.user.longest_streak >= s.user.current_streak);
}
