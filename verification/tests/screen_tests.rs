use tapcode::component_logic::canvas::{canvas_is_empty, ghost_tail};
use tapcode::component_logic::picker::{chip_state_class, group_dimmed, token_used};
use tapcode::compose::ComposeSession;
use tapcode::models::{ChipGroupState, HintTier, OnboardingStep};
use tapcode::onboarding::{OnboardingEvent, OnboardingFlow, SkillLevel};
use tapcode::state::AppState;
use tapcode::validator::AdapterRegistry;
use tapcode::views::{
    after_module, challenge_status, completed_module_ids, hint_button_label, module_card_status,
    previous_streak, streak_dots, today_filled, total_challenge_count, AfterModule, ChallengeMark,
    ModuleCard, StreakDot,
};

fn s(x: &str) -> String {
    x.to_string()
}

fn complete_module(state: &mut AppState, module_id: u32) {
    let ids: Vec<String> = state
        .pack
        .modules
        .iter()
        .find(|m| m.id == module_id)
        .unwrap()
        .challenge_ids
        .clone();
    for id in ids {
        state.complete_challenge(&id);
    }
}

#[test]
fn onboarding_full_path_opens_the_chosen_lesson() {
    let mut state = AppState::new();
    let mut flow = OnboardingFlow::new();
    assert_eq!(flow.step, OnboardingStep::Splash);
    assert_eq!(flow.handle(OnboardingEvent::Continue, &mut state), None);
    assert_eq!(flow.step, OnboardingStep::LanguageSelect);
    assert_eq!(flow.handle(OnboardingEvent::PickRust, &mut state), None);
    assert_eq!(flow.step, OnboardingStep::SkillCheck);
    assert_eq!(flow.handle(OnboardingEvent::Answer(SkillLevel::ALittle), &mut state), None);
    assert_eq!(flow.step, OnboardingStep::IntroCards(1));
    assert_eq!(flow.target_lesson, "rust-m1-c3");
    assert!(!state.is_onboarded);
    assert_eq!(flow.handle(OnboardingEvent::Continue, &mut state), None);
    assert_eq!(flow.step, OnboardingStep::IntroCards(2));
    assert_eq!(flow.handle(OnboardingEvent::Continue, &mut state), Some(s("rust-m1-c3")));
    assert_eq!(flow.step, OnboardingStep::Complete);
    assert!(state.is_onboarded);
}

#[test]
fn onboarding_skill_levels_pick_lessons() {
    for (level, lesson) in [
        (SkillLevel::Never, "rust-m1-c1"),
        (SkillLevel::ALittle, "rust-m1-c3"),
        (SkillLevel::Basics, "rust-m2-c1"),
    ] {
        let mut state = AppState::new();
        let mut flow = OnboardingFlow::new();
        flow.handle(OnboardingEvent::Continue, &mut state);
        flow.handle(OnboardingEvent::PickRust, &mut state);
        flow.handle(OnboardingEvent::Answer(level), &mut state);
        assert_eq!(flow.handle(OnboardingEvent::Skip, &mut state), Some(s(lesson)));
        assert!(state.is_onboarded);
    }
}

#[test]
fn onboarding_skip_on_skill_check_starts_at_the_beginning() {
    let mut state = AppState::new();
    let mut flow = OnboardingFlow { step: OnboardingStep::SkillCheck, target_lesson: s("rust-m2-c1") };
    assert_eq!(flow.handle(OnboardingEvent::Skip, &mut state), Some(s("rust-m1-c1")));
    assert!(state.is_onboarded);
}

#[test]
fn onboarding_ignores_events_a_card_does_not_offer() {
    let mut state = AppState::new();
    let mut flow = OnboardingFlow::new();
    assert_eq!(flow.handle(OnboardingEvent::Skip, &mut state), None);
    assert_eq!(flow.handle(OnboardingEvent::PickRust, &mut state), None);
    assert_eq!(flow.step, OnboardingStep::Splash);
    flow.handle(OnboardingEvent::Continue, &mut state);
    assert_eq!(flow.handle(OnboardingEvent::Continue, &mut state), None);
    assert_eq!(flow.step, OnboardingStep::LanguageSelect);
    assert!(!state.is_onboarded);
}

#[test]
fn module_cards_follow_unlock_and_completion() {
    let mut state = AppState::new();
    assert_eq!(module_card_status(&state, 1), ModuleCard::Active);
    assert_eq!(module_card_status(&state, 2), ModuleCard::Locked);
    complete_module(&mut state, 1);
    assert_eq!(module_card_status(&state, 1), ModuleCard::Completed);
    assert_eq!(module_card_status(&state, 2), ModuleCard::Active);
    assert_eq!(module_card_status(&state, 99), ModuleCard::Locked);
}

#[test]
fn challenge_marks_prefer_done_over_skipped() {
    let mut state = AppState::new();
    assert_eq!(challenge_status(&state, "rust-m1-c1"), ChallengeMark::Open);
    state.skipped_challenges_mut("rust-m1-c1");
    assert_eq!(challenge_status(&state, "rust-m1-c1"), ChallengeMark::Skipped);
    state.complete_challenge("rust-m1-c1");
    assert_eq!(challenge_status(&state, "rust-m1-c1"), ChallengeMark::Done);
}

#[test]
fn after_module_three_comes_the_paywall_until_purchase() {
    let mut state = AppState::new();
    assert_eq!(after_module(&state, 3), AfterModule::Paywall);
    state.unlock_all_modules();
    assert_eq!(
        after_module(&state, 3),
        AfterModule::StartModule { module_id: 4, first_challenge: s("rust-m4-c1") }
    );
}

#[test]
fn after_other_modules_the_next_one_starts() {
    let state = AppState::new();
    assert_eq!(
        after_module(&state, 1),
        AfterModule::StartModule { module_id: 2, first_challenge: s("rust-m2-c1") }
    );
    assert_eq!(after_module(&state, 4), AfterModule::NothingNext);
}

#[test]
fn profile_totals_and_badges() {
    let mut state = AppState::new();
    assert_eq!(total_challenge_count(&state.pack), 14);
    assert!(completed_module_ids(&state).is_empty());
    complete_module(&mut state, 2);
    complete_module(&mut state, 1);
    assert_eq!(completed_module_ids(&state), vec![1, 2]);
}

#[test]
fn streak_strip_marks_today() {
    let mut state = AppState::new();
    state.user.streak_days = vec![true, false, false, false, false, true, false];
    let dots = streak_dots(&state.user.streak_days);
    assert_eq!(dots.len(), 7);
    assert_eq!(dots[0], StreakDot::Filled);
    assert_eq!(dots[1], StreakDot::Missed);
    assert_eq!(dots[6], StreakDot::OpenToday);
    assert!(!today_filled(&state.user));
    state.user.streak_days[6] = true;
    assert_eq!(streak_dots(&state.user.streak_days)[6], StreakDot::FilledToday);
    assert!(today_filled(&state.user));
    state.user.streak_days.clear();
    assert!(!today_filled(&state.user));
}

#[test]
fn previous_streak_only_when_broken() {
    let mut state = AppState::new();
    assert_eq!(previous_streak(&state.user), None);
    state.user.longest_streak = 9;
    assert_eq!(previous_streak(&state.user), Some(9));
    state.user.current_streak = 2;
    assert_eq!(previous_streak(&state.user), None);
}

#[test]
fn hint_button_labels() {
    assert_eq!(hint_button_label(HintTier::NoHint), "\u{1F4A1} Hint");
    assert_eq!(hint_button_label(HintTier::Concept), "\u{1F4A1} Hint (1/3)");
    assert_eq!(hint_button_label(HintTier::Structure), "\u{1F4A1} Hint (2/3)");
    assert_eq!(hint_button_label(HintTier::SkipAvailable), "\u{23ED} Skip");
}

#[test]
fn picker_dims_by_state_and_marks_used_chips() {
    let states = vec![
        ChipGroupState { group_name: s("keyword"), is_highlighted: false },
        ChipGroupState { group_name: s("literal"), is_highlighted: true },
    ];
    assert!(group_dimmed(&states, "keyword"));
    assert!(!group_dimmed(&states, "literal"));
    assert!(!group_dimmed(&states, "other"));
    assert_eq!(chip_state_class(true, true), "chip-dimmed");
    assert_eq!(chip_state_class(false, true), "chip-used");
    assert_eq!(chip_state_class(false, false), "chip-highlighted");
    let used = vec![s("let"), s("x")];
    assert!(token_used(&used, &s("x")));
    assert!(!token_used(&used, &s("y")));
}

#[test]
fn canvas_ghost_words_follow_placed_tokens() {
    let ghost = vec![s("let"), s("_"), s("="), s("_"), s(";")];
    assert_eq!(ghost_tail(&ghost, 2), vec![s("="), s("_"), s(";")]);
    assert_eq!(ghost_tail(&ghost, 0), ghost);
    assert!(ghost_tail(&ghost, 9).is_empty());
    assert!(canvas_is_empty(&[], &None));
    assert!(!canvas_is_empty(&[], &Some(ghost)));
    assert!(!canvas_is_empty(&[(s("let"), s("token-keyword"))], &None));
}

#[test]
fn compose_session_edits_and_validates() {
    let reg = AdapterRegistry::default_registry();
    let mut c = ComposeSession::new();
    assert!(!c.can_validate());
    assert_eq!(c.canvas_class(), "");
    for t in ["let", "x", "=", "5", ";"] {
        c.chip_tap(s(t), s("token-keyword"));
    }
    assert!(c.can_validate());
    c.validate(&reg, "rust");
    assert_eq!(c.verdict, Some(true));
    assert_eq!(c.canvas_class(), "canvas-valid");
    c.undo();
    assert_eq!(c.tokens(), vec![s("let"), s("x"), s("="), s("5")]);
    assert_eq!(c.verdict, Some(true));
    c.token_tap(1);
    assert_eq!(c.tokens(), vec![s("let"), s("x")]);
    c.chip_tap(s("{"), s("token-punct"));
    assert_eq!(c.verdict, None);
    c.validate(&reg, "cobol");
    assert_eq!(c.verdict, None);
    c.verdict = Some(false);
    assert_eq!(c.canvas_class(), "canvas-invalid");
    c.validate(&reg, "rust");
    assert_eq!(c.verdict, Some(true));
    c.clear();
    assert!(c.tokens().is_empty());
    assert_eq!(c.verdict, None);
}
