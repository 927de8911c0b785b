//! Data model of the app: language packs, challenges, validation results,
//! user progress and the small UI state machines.
use vstd::prelude::*;
use crate::text::owned;

verus! {

// ── Language Registry ──

/// The top-level list of known languages.
#[derive(Debug, Clone)]
pub struct LanguageRegistry {
    pub languages: Vec<LanguageEntry>,
}

/// One language as listed in the registry.
#[derive(Debug, Clone)]
pub struct LanguageEntry {
    pub id: String,
    pub display_name: String,
    pub version: String,
    pub status: LanguageStatus,
    pub primary_hue: String,
    pub icon: String,
    pub tagline: String,
    /// Relative path to the language pack file.
    pub pack_path: String,
}

// ── Language Pack ──

/// Everything the app needs to teach one language.
#[derive(Debug, Clone)]
pub struct LanguagePack {
    pub metadata: LanguageMetadata,
    pub categories: Vec<TokenCategory>,
    pub context_rules: Vec<ContextRule>,
    pub syntax_colors: std::collections::HashMap<String, String>,
    pub modules: Vec<ModuleInfo>,
    pub challenges: Vec<Challenge>,
}

#[derive(Debug, Clone)]
pub struct LanguageMetadata {
    pub id: String,
    pub display_name: String,
    pub version: String,
    pub status: LanguageStatus,
    pub primary_hue: String,
    pub icon: String,
    pub tagline: String,
}

#[derive(Debug, Clone, Copy, PartialEq, Eq, Structural)]
pub enum LanguageStatus {
    Available,
    ComingSoon,
}

#[derive(Debug, Clone, PartialEq)]
pub struct TokenCategory {
    pub name: String,
    pub display_name: String,
    pub css_class: String,
    pub tokens: Vec<String>,
}

/// After the tokens `after_tokens`, highlight some chip groups and dim others.
#[derive(Debug, Clone, PartialEq)]
pub struct ContextRule {
    pub after_tokens: Vec<String>,
    pub highlight_groups: Vec<String>,
    pub dim_groups: Vec<String>,
}

#[derive(Debug, Clone, PartialEq)]
pub struct ModuleInfo {
    pub id: u32,
    pub title: String,
    pub description: String,
    pub challenge_ids: Vec<String>,
    pub is_free: bool,
}

// ── Challenge ──

#[derive(Debug, Clone, PartialEq)]
pub struct Challenge {
    pub id: String,
    pub language: String,
    pub module: u32,
    pub position: u32,
    pub title: String,
    pub prompt: String,
    pub hint_concept: String,
    pub hint_structural: String,
    pub fragment_type: FragmentType,
    pub answer: Vec<String>,
    pub answer_variants: Vec<Vec<String>>,
    pub chips: Vec<ChipGroup>,
    pub xp: u32,
    pub explanation: String,
    /// Setup code that the answer fragment needs in order to compile.
    pub scaffold: String,
}

#[derive(Debug, Clone, PartialEq)]
pub struct ChipGroup {
    pub group: String,
    pub tokens: Vec<String>,
}

#[derive(Debug, Clone, Copy, PartialEq, Eq, Hash, Structural)]
pub enum FragmentType {
    Expression,
    Statement,
    FnDef,
    TypeDef,
    Program,
}

// ── Validation ──

#[derive(Debug, Clone, PartialEq)]
pub enum ValidationResult {
    Correct,
    Wrong(Vec<TokenDiff>),
}

/// Position-by-position comparison of a user's tokens with the answer.
#[derive(Debug, Clone, PartialEq)]
pub enum TokenDiff {
    Match(String),
    Wrong { got: String, expected: String },
    Extra(String),
    Missing(String),
}

// ── User State ──

#[derive(Debug, Clone, Default)]
pub struct UserState {
    pub total_xp: u32,
    pub current_streak: u32,
    pub longest_streak: u32,
    pub last_active: Option<String>,
    /// The last seven days, today last.
    pub streak_days: Vec<bool>,
    pub has_freeze: bool,
}

#[derive(Debug, Clone, Default)]
pub struct LanguageProgress {
    pub language_id: String,
    pub xp: u32,
    pub active_module: u32,
    pub unlocked_modules: Vec<u32>,
    pub completed_challenges: Vec<String>,
    pub skipped_challenges: Vec<String>,
}

// ── UI State Enums ──

#[derive(Debug, Clone, PartialEq)]
pub enum FeedbackKind {
    NoFeedback,
    Correct { xp_awarded: u32, explanation: String },
    Wrong { diff: Vec<TokenDiff>, explanation: String },
}

impl Default for FeedbackKind {
    fn default() -> (r: Self)
        ensures
            r is NoFeedback,
    {
        FeedbackKind::NoFeedback
    }
}

#[derive(Debug, Clone, Copy, PartialEq, Eq, Structural)]
pub enum HintTier {
    NoHint,
    Concept,
    Structure,
    SkipAvailable,
}

/// The tier that follows `t`; the last tier stays where it is.
pub open spec fn spec_next_tier(t: HintTier) -> HintTier {
    match t {
        HintTier::NoHint => HintTier::Concept,
        HintTier::Concept => HintTier::Structure,
        HintTier::Structure => HintTier::SkipAvailable,
        HintTier::SkipAvailable => HintTier::SkipAvailable,
    }
}

/// The position of `t` in the progression, from 0.
pub open spec fn spec_tier_number(t: HintTier) -> u8 {
    match t {
        HintTier::NoHint => 0,
        HintTier::Concept => 1,
        HintTier::Structure => 2,
        HintTier::SkipAvailable => 3,
    }
}

impl HintTier {
    pub fn next(&self) -> (r: HintTier)
        ensures
            r == spec_next_tier(*self),
    {
        match self {
            HintTier::NoHint => HintTier::Concept,
            HintTier::Concept => HintTier::Structure,
            HintTier::Structure => HintTier::SkipAvailable,
            HintTier::SkipAvailable => HintTier::SkipAvailable,
        }
    }

    pub fn tier_number(&self) -> (r: u8)
        ensures
            r == spec_tier_number(*self),
    {
        match self {
            HintTier::NoHint => 0,
            HintTier::Concept => 1,
            HintTier::Structure => 2,
            HintTier::SkipAvailable => 3,
        }
    }
}

/// Each step of the hint progression raises the tier number by one until
/// the last tier, where it stays; every tier number is at most 3.
pub proof fn law_hint_tier_progression(t: HintTier)
    ensures
        spec_tier_number(t) <= 3,
        t != HintTier::SkipAvailable ==> spec_tier_number(spec_next_tier(t)) == spec_tier_number(t)
            + 1,
        t == HintTier::SkipAvailable ==> spec_next_tier(t) == t,
        spec_next_tier(spec_next_tier(spec_next_tier(HintTier::NoHint))) == HintTier::SkipAvailable,
{
}

#[derive(Debug, Clone, Copy, PartialEq, Eq, Structural)]
pub enum OnboardingStep {
    Splash,
    LanguageSelect,
    SkillCheck,
    IntroCards(u8),
    Complete,
}

// ── Chip Group State (for contextual highlighting) ──

#[derive(Debug, Clone, PartialEq)]
pub struct ChipGroupState {
    pub group_name: String,
    pub is_highlighted: bool,
}

// ── Fixtures ──

impl Challenge {
    /// A minimal challenge with the given answer, for tests.
    pub fn test_fixture(answer: Vec<&str>) -> (c: Self)
        ensures
            c.id@ == "test-c1"@,
            c.language@ == "rust"@,
            c.module == 1,
            c.position == 1,
            c.title@ == "Test"@,
            c.prompt@ == "Test prompt"@,
            c.hint_concept@ == "Test hint"@,
            c.hint_structural@ == "_ = _;"@,
            c.fragment_type == FragmentType::Statement,
            c.answer@.len() == answer@.len(),
            forall|i: int| 0 <= i < answer@.len() ==> #[trigger] c.answer@[i]@ == answer@[i]@,
            c.answer_variants@.len() == 0,
            c.chips@.len() == 0,
            c.xp == 20,
            c.explanation@ == "Test explanation"@,
            c.scaffold@ == Seq::<char>::empty(),
    {
        let mut tokens: Vec<String> = Vec::new();
        let mut i: usize = 0;
        while i < answer.len()
            invariant
                i <= answer@.len(),
                tokens@.len() == i,
                forall|j: int| 0 <= j < i ==> #[trigger] tokens@[j]@ == answer@[j]@,
            decreases answer@.len() - i,
        {
            tokens.push(owned(answer[i]));
            i = i + 1;
        }
        Challenge {
            id: owned("test-c1"),
            language: owned("rust"),
            module: 1,
            position: 1,
            title: owned("Test"),
            prompt: owned("Test prompt"),
            hint_concept: owned("Test hint"),
            hint_structural: owned("_ = _;"),
            fragment_type: FragmentType::Statement,
            answer: tokens,
            answer_variants: Vec::new(),
            chips: Vec::new(),
            xp: 20,
            explanation: owned("Test explanation"),
            scaffold: String::new(),
        }
    }
}

} // verus!
