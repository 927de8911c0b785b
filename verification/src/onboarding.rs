//! The first-run flow: splash, language choice, a skill check that picks
//! the lesson to start on, two intro cards, then the first lesson.
use vstd::prelude::*;
use crate::models::OnboardingStep;
use crate::state::AppState;
use crate::text::owned;

verus! {

/// How much Rust the learner says they know.
#[derive(Debug, Clone, Copy, PartialEq, Eq, Structural)]
pub enum SkillLevel {
    Never,
    ALittle,
    Basics,
}

/// What the learner did on the current card.
#[derive(Debug, Clone, Copy, PartialEq, Eq, Structural)]
pub enum OnboardingEvent {
    /// A tap on the splash, "Next" on the first intro card, "Start" on the
    /// second.
    Continue,
    /// The Rust card of the language picker.
    PickRust,
    /// An answer to the skill check.
    Answer(SkillLevel),
    /// "Skip".
    Skip,
}

/// The onboarding in progress: the card shown and the lesson it will open.
pub struct OnboardingFlow {
    pub step: OnboardingStep,
    pub target_lesson: String,
}

/// The very first lesson.
pub open spec fn first_lesson() -> Seq<char> {
    "rust-m1-c1"@
}

/// The lesson a skill level starts on.
pub open spec fn starting_lesson(level: SkillLevel) -> Seq<char> {
    match level {
        SkillLevel::Never => "rust-m1-c1"@,
        SkillLevel::ALittle => "rust-m1-c3"@,
        SkillLevel::Basics => "rust-m2-c1"@,
    }
}

/// Whether `id` is a lesson that onboarding can start on.
pub open spec fn is_starting_lesson(id: Seq<char>) -> bool {
    exists|l: SkillLevel| starting_lesson(l) == id
}

/// What an event does on a card, given the lesson chosen so far: the next
/// card, the lesson chosen then, and the lesson to open if onboarding ends.
/// An event that the card does not offer changes nothing.
pub open spec fn onboarding_step(step: OnboardingStep, target: Seq<char>, e: OnboardingEvent) -> (
    OnboardingStep,
    Seq<char>,
    Option<Seq<char>>,
) {
    match step {
        OnboardingStep::Splash => match e {
            OnboardingEvent::Continue => (OnboardingStep::LanguageSelect, target, None),
            _ => (step, target, None),
        },
        OnboardingStep::LanguageSelect => match e {
            OnboardingEvent::PickRust => (OnboardingStep::SkillCheck, target, None),
            _ => (step, target, None),
        },
        OnboardingStep::SkillCheck => match e {
            OnboardingEvent::Answer(l) => (OnboardingStep::IntroCards(1), starting_lesson(l), None),
            OnboardingEvent::Skip => (OnboardingStep::Complete, target, Some(first_lesson())),
            _ => (step, target, None),
        },
        OnboardingStep::IntroCards(n) => if n == 1 {
            match e {
                OnboardingEvent::Continue => (OnboardingStep::IntroCards(2), target, None),
                OnboardingEvent::Skip => (OnboardingStep::Complete, target, Some(target)),
                _ => (step, target, None),
            }
        } else if n == 2 {
            match e {
                OnboardingEvent::Continue => (OnboardingStep::Complete, target, Some(target)),
                OnboardingEvent::Skip => (OnboardingStep::Complete, target, Some(target)),
                _ => (step, target, None),
            }
        } else {
            (step, target, None)
        },
        OnboardingStep::Complete => (step, target, None),
    }
}

/// The lesson id for a skill level.
fn lesson_for(level: SkillLevel) -> (r: String)
    ensures
        r@ == starting_lesson(level),
{
    match level {
        SkillLevel::Never => owned("rust-m1-c1"),
        SkillLevel::ALittle => owned("rust-m1-c3"),
        SkillLevel::Basics => owned("rust-m2-c1"),
    }
}

impl OnboardingFlow {
    /// The splash card, aimed at the very first lesson.
    pub fn new() -> (r: Self)
        ensures
            r.step == OnboardingStep::Splash,
            r.target_lesson@ == first_lesson(),
    {
        OnboardingFlow { step: OnboardingStep::Splash, target_lesson: owned("rust-m1-c1") }
    }

    /// Applies an event. When onboarding ends, the state is marked onboarded
    /// and the lesson to open is returned; otherwise the state is untouched.
    pub fn handle(&mut self, event: OnboardingEvent, state: &mut AppState) -> (r: Option<String>)
        ensures
            final(self).step == onboarding_step(old(self).step, old(self).target_lesson@, event).0,
            final(self).target_lesson@ == onboarding_step(
                old(self).step,
                old(self).target_lesson@,
                event,
            ).1,
            match onboarding_step(old(self).step, old(self).target_lesson@, event).2 {
                Some(id) => r is Some && r->Some_0@ == id && *final(state) == (AppState {
                    is_onboarded: true,
                    ..*old(state)
                }),
                None => r is None && *final(state) == *old(state),
            },
    {
        let finish: Option<String> = match self.step {
            OnboardingStep::Splash => {
                if event == OnboardingEvent::Continue {
                    self.step = OnboardingStep::LanguageSelect;
                }
                None
            },
            OnboardingStep::LanguageSelect => {
                if event == OnboardingEvent::PickRust {
                    self.step = OnboardingStep::SkillCheck;
                }
                None
            },
            OnboardingStep::SkillCheck => match event {
                OnboardingEvent::Answer(level) => {
                    self.target_lesson = lesson_for(level);
                    self.step = OnboardingStep::IntroCards(1);
                    None
                },
                OnboardingEvent::Skip => {
                    self.step = OnboardingStep::Complete;
                    Some(owned("rust-m1-c1"))
                },
                _ => None,
            },
            OnboardingStep::IntroCards(n) => {
                if n == 1 && event == OnboardingEvent::Continue {
                    self.step = OnboardingStep::IntroCards(2);
                    None
                } else if (n == 1 && event == OnboardingEvent::Skip) || (n == 2 && (event
                    == OnboardingEvent::Continue || event == OnboardingEvent::Skip)) {
                    self.step = OnboardingStep::Complete;
                    Some(self.target_lesson.clone())
                } else {
                    None
                }
            },
            OnboardingStep::Complete => None,
        };
        if finish.is_some() {
            state.is_onboarded = true;
        }
        finish
    }
}

/// Onboarding only ever opens a lesson it can start on, and the lesson it
/// aims at stays one of those.
pub proof fn law_onboarding_opens_a_starting_lesson(
    step: OnboardingStep,
    target: Seq<char>,
    e: OnboardingEvent,
)
    requires
        is_starting_lesson(target),
    ensures
        is_starting_lesson(onboarding_step(step, target, e).1),
        onboarding_step(step, target, e).2 matches Some(id) ==> is_starting_lesson(id),
{
    assert(starting_lesson(SkillLevel::Never) == first_lesson());
    if let OnboardingEvent::Answer(l) = e {
        assert(starting_lesson(l) == starting_lesson(l));
    }
}

/// The path through every card opens the lesson of the skill answered.
pub proof fn law_full_onboarding_opens_chosen_lesson(level: SkillLevel, target: Seq<char>)
    ensures
        ({
            let a = onboarding_step(OnboardingStep::Splash, target, OnboardingEvent::Continue);
            let b = onboarding_step(a.0, a.1, OnboardingEvent::PickRust);
            let c = onboarding_step(b.0, b.1, OnboardingEvent::Answer(level));
            let d = onboarding_step(c.0, c.1, OnboardingEvent::Continue);
            let f = onboarding_step(d.0, d.1, OnboardingEvent::Continue);
            &&& a.2 is None && b.2 is None && c.2 is None && d.2 is None
            &&& f.0 == OnboardingStep::Complete
            &&& f.2 == Some(starting_lesson(level))
        }),
{
}

} // verus!
