//! One lesson's session: the tokens being assembled, feedback, hints, the
//! attempt count and the overlays, and how each user action changes them
//! and the app state. The lesson screen renders a session and performs the
//! navigation its actions ask for.
use vstd::prelude::*;
use crate::component_logic::keyboard::{key_action, resolve_key_action, KeyAction};
use crate::engine::{answer_accepted, closest_answer, is_diff, module_complete, next_challenge, validate_answer};
use crate::models::{
    spec_next_tier, Challenge, FeedbackKind, HintTier, LanguagePack, TokenCategory, TokenDiff,
    ValidationResult,
};
use crate::state::{
    attempt_recorded, challenge_completed, completion_fits, first_module, hint_charged, streak_filled, xp_added,
    challenge_skipped, AppState,
};
use crate::text::{chars_of, contains_str, owned, replace_all, replace_chars, split_words, string_from, words, views};

verus! {

broadcast use vstd::string::group_string_axioms;

/// The state of a lesson in progress.
pub struct LessonSession {
    /// The tokens placed on the canvas, each with its CSS class.
    pub assembled: Vec<(String, String)>,
    pub feedback: FeedbackKind,
    pub hint_tier: HintTier,
    /// The attempt being made, from 1.
    pub attempt_num: u32,
    pub show_diff: bool,
    pub diff_data: Option<Vec<TokenDiff>>,
    pub show_confetti: bool,
    pub xp_bouncing: bool,
    pub xp_float: Option<u32>,
    /// The structural hint's words, shown over the canvas.
    pub ghost_hint: Option<Vec<String>>,
    pub show_module_complete: bool,
}

/// Where to go after the feedback of a correct answer.
pub enum NextStep {
    /// The module is done: show its completion screen.
    ModuleComplete,
    /// Play this challenge next.
    Lesson(String),
    /// Nothing is left to play: go home.
    Home,
}

/// What the hint button led to.
#[derive(Debug, Clone, Copy, PartialEq, Eq, Structural)]
pub enum HintStep {
    /// Stay on the lesson with the new hint tier.
    Stay,
    /// The challenge was skipped: go home.
    Skip,
}

/// The user's tokens on the canvas.
pub open spec fn assembled_tokens(a: Seq<(String, String)>) -> Seq<String> {
    a.map_values(|p: (String, String)| p.0)
}

/// The XP a correct answer earns on an attempt.
pub open spec fn xp_earned(base: u32, attempt: u32) -> u32 {
    if attempt <= 1 {
        base
    } else {
        (base / 2) as u32
    }
}

/// A session at the start of a challenge.
pub open spec fn is_fresh(s: LessonSession) -> bool {
    &&& s.assembled@.len() == 0
    &&& s.feedback is NoFeedback
    &&& s.hint_tier == HintTier::NoHint
    &&& s.attempt_num == 1
    &&& !s.show_diff
    &&& s.diff_data is None
    &&& !s.show_confetti
    &&& !s.xp_bouncing
    &&& s.xp_float is None
    &&& s.ghost_hint is None
}

/// `b`'s diff is `a`'s, hidden and dropped if it was shown.
pub open spec fn diff_cleared(a: LessonSession, b: LessonSession) -> bool {
    if a.show_diff {
        !b.show_diff && b.diff_data is None
    } else {
        b.show_diff == a.show_diff && b.diff_data == a.diff_data
    }
}

/// `b` is `a` after a chip tap: a shown diff goes away; while no feedback
/// is shown the token is placed last (with its class) and the ghost hint
/// goes away; nothing else changes.
pub open spec fn chip_placed(a: LessonSession, b: LessonSession, token: String, css: String) -> bool {
    &&& diff_cleared(a, b)
    &&& a.feedback is NoFeedback ==> b.assembled@ == a.assembled@.push((token, css))
        && b.ghost_hint is None
    &&& !(a.feedback is NoFeedback) ==> b.assembled == a.assembled && b.ghost_hint == a.ghost_hint
    &&& b == (LessonSession {
        assembled: b.assembled,
        ghost_hint: b.ghost_hint,
        show_diff: b.show_diff,
        diff_data: b.diff_data,
        ..a
    })
}

/// `b` is `a` after an undo: while no feedback is shown the last token (if
/// any) is removed and a shown diff goes away; under feedback nothing
/// changes.
pub open spec fn last_undone(a: LessonSession, b: LessonSession) -> bool {
    &&& !(a.feedback is NoFeedback) ==> b == a
    &&& a.feedback is NoFeedback ==> {
        &&& b.assembled@ == if a.assembled@.len() > 0 {
            a.assembled@.drop_last()
        } else {
            a.assembled@
        }
        &&& diff_cleared(a, b)
        &&& b == (LessonSession {
            assembled: b.assembled,
            show_diff: b.show_diff,
            diff_data: b.diff_data,
            ..a
        })
    }
}

/// The first category whose tokens include `token`.
pub open spec fn category_of(cats: Seq<TokenCategory>, token: Seq<char>) -> Option<TokenCategory>
    decreases cats.len(),
{
    if cats.len() == 0 {
        None
    } else if views(cats[0].tokens@).contains(token) {
        Some(cats[0])
    } else {
        category_of(cats.drop_first(), token)
    }
}

/// The CSS class of a token on the canvas: its category's chip class made a
/// token class, or the identifier class for a token of no category.
pub open spec fn token_class(pack: LanguagePack, token: Seq<char>) -> Seq<char> {
    match category_of(pack.categories@, token) {
        Some(cat) => replace_all(cat.css_class@, "chip-"@, "token-"@),
        None => "token-identifier"@,
    }
}

/// The CSS class of a token placed on the canvas.
pub fn token_css_class(pack: &LanguagePack, token: &str) -> (r: String)
    ensures
        r@ == token_class(*pack, token@),
{
    let mut i: usize = 0;
    assert(pack.categories@.skip(0) =~= pack.categories@);
    while i < pack.categories.len()
        invariant
            i <= pack.categories@.len(),
            category_of(pack.categories@, token@) == category_of(
                pack.categories@.skip(i as int),
                token@,
            ),
        decreases pack.categories@.len() - i,
    {
        assert(pack.categories@.skip(i as int)[0] == pack.categories@[i as int]);
        assert(pack.categories@.skip(i as int).drop_first() =~= pack.categories@.skip(i + 1));
        if contains_str(pack.categories[i].tokens.as_slice(), token) {
            let css = chars_of(pack.categories[i].css_class.as_str());
            proof {
                reveal_strlit("chip-");
                reveal_strlit("token-");
            }
            let replaced = replace_chars(
                css.as_slice(),
                chars_of("chip-").as_slice(),
                chars_of("token-").as_slice(),
            );
            return string_from(replaced.as_slice());
        }
        i = i + 1;
    }
    owned("token-identifier")
}

/// A copy of a diff entry.
fn clone_diff_entry(d: &TokenDiff) -> (r: TokenDiff)
    ensures
        r == *d,
{
    match d {
        TokenDiff::Match(t) => TokenDiff::Match(t.clone()),
        TokenDiff::Wrong { got, expected } => TokenDiff::Wrong {
            got: got.clone(),
            expected: expected.clone(),
        },
        TokenDiff::Extra(t) => TokenDiff::Extra(t.clone()),
        TokenDiff::Missing(t) => TokenDiff::Missing(t.clone()),
    }
}

/// A copy of a diff.
fn clone_diff(d: &Vec<TokenDiff>) -> (r: Vec<TokenDiff>)
    ensures
        r@ == d@,
{
    let mut r: Vec<TokenDiff> = Vec::new();
    let mut i: usize = 0;
    while i < d.len()
        invariant
            i <= d@.len(),
            r@ == d@.take(i as int),
        decreases d@.len() - i,
    {
        r.push(clone_diff_entry(&d[i]));
        assert(d@.take(i + 1) =~= d@.take(i as int).push(d@[i as int]));
        i = i + 1;
    }
    assert(d@.take(d@.len() as int) =~= d@);
    r
}

impl LessonSession {
    /// A session at the start of a challenge.
    pub fn new() -> (r: Self)
        ensures
            is_fresh(r),
            !r.show_module_complete,
    {
        LessonSession {
            assembled: Vec::new(),
            feedback: FeedbackKind::NoFeedback,
            hint_tier: HintTier::NoHint,
            attempt_num: 1,
            show_diff: false,
            diff_data: None,
            show_confetti: false,
            xp_bouncing: false,
            xp_float: None,
            ghost_hint: None,
            show_module_complete: false,
        }
    }

    /// Whether feedback is shown.
    pub fn has_feedback(&self) -> (r: bool)
        ensures
            r == !(self.feedback is NoFeedback),
    {
        match self.feedback {
            FeedbackKind::NoFeedback => false,
            _ => true,
        }
    }

    /// Whether the shown feedback is for a correct answer.
    pub fn feedback_is_correct(&self) -> (r: bool)
        ensures
            r == (self.feedback is Correct),
    {
        match self.feedback {
            FeedbackKind::Correct { .. } => true,
            _ => false,
        }
    }

    /// The user's tokens, without their classes.
    pub fn tokens(&self) -> (r: Vec<String>)
        ensures
            r@ == assembled_tokens(self.assembled@),
    {
        let mut r: Vec<String> = Vec::new();
        let mut i: usize = 0;
        while i < self.assembled.len()
            invariant
                i <= self.assembled@.len(),
                r@ == assembled_tokens(self.assembled@.take(i as int)),
            decreases self.assembled@.len() - i,
        {
            r.push(self.assembled[i].0.clone());
            assert(assembled_tokens(self.assembled@.take(i + 1)) =~= assembled_tokens(
                self.assembled@.take(i as int),
            ).push(self.assembled@[i as int].0));
            i = i + 1;
        }
        assert(self.assembled@.take(self.assembled@.len() as int) =~= self.assembled@);
        r
    }

    /// An answer can be checked: tokens are placed and no feedback is shown.
    pub fn can_check(&self) -> (r: bool)
        ensures
            r == (self.assembled@.len() > 0 && self.feedback is NoFeedback),
    {
        self.assembled.len() > 0 && !self.has_feedback()
    }

    /// A chip was tapped: a shown diff goes away; while no feedback is shown
    /// the token is placed (with its class) and the ghost hint goes away.
    pub fn chip_tap(&mut self, token: String, css_class: String)
        ensures
            chip_placed(*old(self), *final(self), token, css_class),
    {
        if self.show_diff {
            self.show_diff = false;
            self.diff_data = None;
        }
        if self.has_feedback() {
            return;
        }
        self.ghost_hint = None;
        self.assembled.push((token, css_class));
    }

    /// Checks the placed tokens against the challenge. A correct answer
    /// earns XP (full on the first attempt, half afterwards), completes the
    /// challenge, fills today's streak, counts a correct attempt and shows
    /// the celebration; a wrong one counts an attempt and shows the diff
    /// against the answer with the concept hint.
    pub fn check(&mut self, challenge: &Challenge, state: &mut AppState)
        requires
            answer_accepted(assembled_tokens(old(self).assembled@), *challenge) ==> {
                &&& old(state).user.total_xp + challenge.xp <= u32::MAX
                &&& old(state).progress.xp + challenge.xp <= u32::MAX
                &&& completion_fits(
                    old(state).pack.modules@,
                    views(old(state).progress.completed_challenges@),
                    challenge.id@,
                )
                &&& old(state).user.streak_days@.len() > 0 && !old(state).user.streak_days@.last()
                    ==> old(state).user.current_streak < u32::MAX
                &&& old(state).correct_attempts < u32::MAX
            },
            old(state).total_attempts < u32::MAX,
        ensures
            ({
                let toks = assembled_tokens(old(self).assembled@);
                let xp = xp_earned(challenge.xp, old(self).attempt_num);
                if answer_accepted(toks, *challenge) {
                    &&& exists|s1: AppState, s2: AppState, s3: AppState|
                        #[trigger] xp_added(*old(state), s1, xp) && #[trigger] challenge_completed(
                            s1,
                            s2,
                            challenge.id@,
                        ) && #[trigger] streak_filled(s2, s3) && attempt_recorded(
                            s3,
                            *final(state),
                            true,
                        )
                    &&& final(self).feedback matches FeedbackKind::Correct {
                        xp_awarded,
                        explanation,
                    } && xp_awarded == xp && explanation@ == challenge.explanation@
                    &&& final(self).show_confetti && final(self).xp_bouncing
                    &&& final(self).xp_float == Some(xp)
                    &&& *final(self) == (LessonSession {
                        feedback: final(self).feedback,
                        show_confetti: true,
                        xp_bouncing: true,
                        xp_float: Some(xp),
                        ..*old(self)
                    })
                } else {
                    &&& attempt_recorded(*old(state), *final(state), false)
                    &&& final(self).feedback matches FeedbackKind::Wrong { diff, explanation }
                        && is_diff(diff@, toks, closest_answer(toks, *challenge)) && explanation@
                        == challenge.hint_concept@
                    &&& final(self).show_diff
                    &&& final(self).diff_data matches Some(d) && is_diff(d@, toks, closest_answer(toks, *challenge))
                    &&& *final(self) == (LessonSession {
                        feedback: final(self).feedback,
                        show_diff: true,
                        diff_data: final(self).diff_data,
                        ..*old(self)
                    })
                }
            }),
    {
        let user_tokens = self.tokens();
        let result = validate_answer(user_tokens.as_slice(), challenge);
        match result {
            ValidationResult::Correct => {
                let xp = crate::engine::xp_for_attempt(challenge.xp, self.attempt_num);
                self.show_confetti = true;
                self.xp_bouncing = true;
                self.xp_float = Some(xp);
                let ghost s0 = *state;
                state.add_xp(xp);
                let ghost s1 = *state;
                state.complete_challenge(challenge.id.as_str());
                let ghost s2 = *state;
                state.fill_streak_today();
                let ghost s3 = *state;
                state.record_attempt(true);
                assert(xp_added(s0, s1, xp) && challenge_completed(s1, s2, challenge.id@)
                    && streak_filled(s2, s3));
                self.feedback = FeedbackKind::Correct {
                    xp_awarded: xp,
                    explanation: challenge.explanation.clone(),
                };
            },
            ValidationResult::Wrong(diff) => {
                state.record_attempt(false);
                self.show_diff = true;
                self.diff_data = Some(clone_diff(&diff));
                self.feedback = FeedbackKind::Wrong {
                    diff,
                    explanation: challenge.hint_concept.clone(),
                };
            },
        }
    }

    /// Leaves the feedback of a correct answer: the session starts afresh;
    /// then a complete module shows its completion screen, else the next
    /// challenge (or home, when none is left) is where to go.
    pub fn next(&mut self, module_id: u32, state: &AppState) -> (r: NextStep)
        ensures
            is_fresh(*final(self)),
            match first_module(state.pack.modules@, module_id) {
                Some(m) => module_complete(m, state.progress),
                None => false,
            } ==> final(self).show_module_complete && r is ModuleComplete,
            !match first_module(state.pack.modules@, module_id) {
                Some(m) => module_complete(m, state.progress),
                None => false,
            } ==> final(self).show_module_complete == old(self).show_module_complete && match next_challenge(
                state.pack.modules@,
                state.progress,
            ) {
                Some(id) => r matches NextStep::Lesson(n) && n == id,
                None => r is Home,
            },
    {
        self.show_confetti = false;
        self.xp_bouncing = false;
        self.xp_float = None;
        self.feedback = FeedbackKind::NoFeedback;
        self.assembled = Vec::new();
        self.show_diff = false;
        self.diff_data = None;
        self.hint_tier = HintTier::NoHint;
        self.attempt_num = 1;
        self.ghost_hint = None;
        if state.is_module_complete(module_id) {
            self.show_module_complete = true;
            return NextStep::ModuleComplete;
        }
        match state.get_next_challenge_id() {
            Some(id) => NextStep::Lesson(id),
            None => NextStep::Home,
        }
    }

    /// Leaves the feedback of a wrong answer for another attempt. The
    /// placed tokens and the diff stay, so the user can backtrack from the
    /// wrong token.
    pub fn try_again(&mut self)
        requires
            old(self).attempt_num < u32::MAX,
        ensures
            final(self).feedback is NoFeedback,
            !final(self).show_confetti,
            final(self).attempt_num == old(self).attempt_num + 1,
            *final(self) == (LessonSession {
                feedback: final(self).feedback,
                show_confetti: false,
                attempt_num: final(self).attempt_num,
                ..*old(self)
            }),
    {
        self.feedback = FeedbackKind::NoFeedback;
        self.show_confetti = false;
        self.attempt_num = self.attempt_num + 1;
    }

    /// Removes the last placed token while no feedback is shown; a shown
    /// diff goes away.
    pub fn undo(&mut self)
        ensures
            last_undone(*old(self), *final(self)),
    {
        if self.has_feedback() {
            return;
        }
        self.assembled.pop();
        if self.show_diff {
            self.show_diff = false;
            self.diff_data = None;
        }
    }

    /// A placed token was tapped: while no feedback is shown, every token
    /// after it is removed and a shown diff goes away.
    pub fn token_tap(&mut self, index: usize)
        requires
            index < usize::MAX,
        ensures
            !(old(self).feedback is NoFeedback) ==> *final(self) == *old(self),
            old(self).feedback is NoFeedback ==> {
                &&& final(self).assembled@ == if index + 1 < old(self).assembled@.len() {
                    old(self).assembled@.take(index + 1)
                } else {
                    old(self).assembled@
                }
                &&& diff_cleared(*old(self), *final(self))
                &&& *final(self) == (LessonSession {
                    assembled: final(self).assembled,
                    show_diff: final(self).show_diff,
                    diff_data: final(self).diff_data,
                    ..*old(self)
                })
            },
    {
        if self.has_feedback() {
            return;
        }
        self.assembled.truncate(index + 1);
        if self.show_diff {
            self.show_diff = false;
            self.diff_data = None;
        }
    }

    /// The hint button: moves to the next hint tier. The concept and the
    /// structure hints are charged; the structure hint shows its words over
    /// the canvas; past the structure hint the challenge is skipped (queued
    /// for a revisit) and the user goes home, the tier staying where it was.
    pub fn hint(&mut self, challenge: &Challenge, state: &mut AppState) -> (r: HintStep)
        requires
            old(state).hints_used_this_session < u32::MAX,
        ensures
            ({
                let next = spec_next_tier(old(self).hint_tier);
                &&& next == HintTier::Concept || next == HintTier::Structure ==> exists|charged: u32|
                    #[trigger] hint_charged(*old(state), *final(state), charged)
                &&& next == HintTier::SkipAvailable ==> challenge_skipped(
                    *old(state),
                    *final(state),
                    challenge.id@,
                )
                &&& next == HintTier::SkipAvailable ==> r == HintStep::Skip && *final(self)
                    == *old(self)
                &&& next != HintTier::SkipAvailable ==> r == HintStep::Stay
                    && final(self).hint_tier == next
                &&& next == HintTier::Structure ==> (final(self).ghost_hint matches Some(g) && views(
                    g@,
                ) == words(challenge.hint_structural@))
                &&& next == HintTier::Concept ==> final(self).ghost_hint == old(self).ghost_hint
                &&& next != HintTier::SkipAvailable ==> *final(self) == (LessonSession {
                    hint_tier: next,
                    ghost_hint: final(self).ghost_hint,
                    ..*old(self)
                })
            }),
    {
        let next = self.hint_tier.next();
        match next {
            HintTier::Concept => {
                let charged = state.deduct_hint_xp();
                assert(hint_charged(*old(state), *state, charged));
            },
            HintTier::Structure => {
                let charged = state.deduct_hint_xp();
                assert(hint_charged(*old(state), *state, charged));
                self.ghost_hint = Some(split_words(challenge.hint_structural.as_str()));
            },
            HintTier::SkipAvailable => {
                state.skipped_challenges_mut(challenge.id.as_str());
                return HintStep::Skip;
            },
            HintTier::NoHint => {},
        }
        self.hint_tier = next;
        HintStep::Stay
    }

    /// Closes the concept hint card.
    pub fn dismiss_hint(&mut self)
        ensures
            *final(self) == (LessonSession { hint_tier: HintTier::NoHint, ..*old(self) }),
    {
        self.hint_tier = HintTier::NoHint;
    }

    /// The action a key press asks for, given the feedback shown.
    pub fn key_action(&self, key: &str) -> (r: KeyAction)
        ensures
            r == key_action(key@, !(self.feedback is NoFeedback), self.feedback is Correct),
    {
        resolve_key_action(key, self.has_feedback(), self.feedback_is_correct())
    }
}

/// Undo takes back a tap: tapping a chip and then undoing, while no
/// feedback is shown, leaves the canvas, the feedback, the hint tier and
/// the attempt as they were, with no diff shown.
pub proof fn law_undo_takes_back_a_tap(
    a: LessonSession,
    b: LessonSession,
    c: LessonSession,
    token: String,
    css: String,
)
    requires
        a.feedback is NoFeedback,
        chip_placed(a, b, token, css),
        last_undone(b, c),
    ensures
        c.assembled@ == a.assembled@,
        c.feedback == a.feedback,
        c.hint_tier == a.hint_tier,
        c.attempt_num == a.attempt_num,
        !c.show_diff,
{
    assert(a.assembled@.push((token, css)).drop_last() =~= a.assembled@);
}


/// A correct answer on the first attempt earns the challenge's full XP; on
/// any later attempt it earns half, rounded down, the same on every later
/// attempt.
pub proof fn law_xp_full_then_half(base: u32, attempt: u32)
    ensures
        attempt <= 1 ==> xp_earned(base, attempt) == base,
        attempt >= 2 ==> 2 * xp_earned(base, attempt) <= base <= 2 * xp_earned(base, attempt) + 1,
        attempt >= 2 ==> xp_earned(base, attempt) == xp_earned(base, 2),
{
}

} // verus!
