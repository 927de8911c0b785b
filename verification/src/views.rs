//! What the home, module, completion and profile screens show of the app
//! state: the status of each module and challenge, where a finished module
//! leads, the streak strip and the totals.
use vstd::prelude::*;
use crate::engine::module_complete;
use crate::models::{HintTier, LanguagePack, ModuleInfo, UserState};
use crate::state::{find_module, first_module, paywall_due, AppState};
use crate::text::{contains_str, owned, views};

verus! {

/// How a module card is drawn on the home screen.
#[derive(Debug, Clone, Copy, PartialEq, Eq, Structural)]
pub enum ModuleCard {
    Locked,
    Completed,
    Active,
}

/// How a challenge row is marked on the module map.
#[derive(Debug, Clone, Copy, PartialEq, Eq, Structural)]
pub enum ChallengeMark {
    Done,
    Skipped,
    Open,
}

/// What the completion screen of a module offers besides going home.
#[derive(Debug, Clone, PartialEq)]
pub enum AfterModule {
    /// The paywall comes next.
    Paywall,
    /// Start the next module at this challenge (empty if it has none).
    StartModule { module_id: u32, first_challenge: String },
    /// There is no next module.
    NothingNext,
}

/// One dot of the seven-day streak strip.
#[derive(Debug, Clone, Copy, PartialEq, Eq, Structural)]
pub enum StreakDot {
    FilledToday,
    Filled,
    OpenToday,
    Missed,
}

/// Whether the module with this id exists and all its challenges are done.
pub open spec fn module_is_complete(s: AppState, id: u32) -> bool {
    match first_module(s.pack.modules@, id) {
        Some(m) => module_complete(m, s.progress),
        None => false,
    }
}

/// The card of a module: locked until unlocked, then completed or active.
pub open spec fn module_card(s: AppState, id: u32) -> ModuleCard {
    if !s.progress.unlocked_modules@.contains(id) {
        ModuleCard::Locked
    } else if module_is_complete(s, id) {
        ModuleCard::Completed
    } else {
        ModuleCard::Active
    }
}

/// The mark of a challenge: done wins over skipped.
pub open spec fn challenge_mark(s: AppState, id: Seq<char>) -> ChallengeMark {
    if views(s.progress.completed_challenges@).contains(id) {
        ChallengeMark::Done
    } else if views(s.progress.skipped_challenges@).contains(id) {
        ChallengeMark::Skipped
    } else {
        ChallengeMark::Open
    }
}

/// The first challenge of a module, or the empty id if it has none.
pub open spec fn first_challenge_of(m: ModuleInfo) -> Seq<char> {
    if m.challenge_ids@.len() > 0 {
        m.challenge_ids@[0]@
    } else {
        Seq::empty()
    }
}

/// The number of challenges over all modules.
pub open spec fn challenge_total(ms: Seq<ModuleInfo>) -> nat
    decreases ms.len(),
{
    if ms.len() == 0 {
        0
    } else {
        challenge_total(ms.drop_last()) + ms.last().challenge_ids@.len()
    }
}

/// The ids of the completed modules, in pack order.
pub open spec fn completed_ids(s: AppState, ms: Seq<ModuleInfo>) -> Seq<u32>
    decreases ms.len(),
{
    if ms.len() == 0 {
        Seq::empty()
    } else if module_is_complete(s, ms.last().id) {
        completed_ids(s, ms.drop_last()).push(ms.last().id)
    } else {
        completed_ids(s, ms.drop_last())
    }
}

/// The dot for day `i` of the strip; the last day is today.
pub open spec fn streak_dot(days: Seq<bool>, i: int) -> StreakDot {
    let today = i == days.len() - 1;
    if days[i] {
        if today { StreakDot::FilledToday } else { StreakDot::Filled }
    } else if today {
        StreakDot::OpenToday
    } else {
        StreakDot::Missed
    }
}

/// The card of a module on the home screen.
pub fn module_card_status(state: &AppState, module_id: u32) -> (r: ModuleCard)
    ensures
        r == module_card(*state, module_id),
{
    if !state.is_module_unlocked(module_id) {
        ModuleCard::Locked
    } else if state.is_module_complete(module_id) {
        ModuleCard::Completed
    } else {
        ModuleCard::Active
    }
}

/// The mark of a challenge row on the module map.
pub fn challenge_status(state: &AppState, challenge_id: &str) -> (r: ChallengeMark)
    ensures
        r == challenge_mark(*state, challenge_id@),
{
    if contains_str(state.progress.completed_challenges.as_slice(), challenge_id) {
        ChallengeMark::Done
    } else if contains_str(state.progress.skipped_challenges.as_slice(), challenge_id) {
        ChallengeMark::Skipped
    } else {
        ChallengeMark::Open
    }
}

/// Where the completion screen of a module leads: the paywall when it is
/// due, else the first challenge of the next module, if there is one.
pub fn after_module(state: &AppState, module_id: u32) -> (r: AfterModule)
    requires
        module_id < u32::MAX,
    ensures
        match first_module(state.pack.modules@, (module_id + 1) as u32) {
            None => r is NothingNext,
            Some(next) => if paywall_due(*state, module_id) {
                r is Paywall
            } else {
                r matches AfterModule::StartModule { module_id: m, first_challenge: f } && m == next.id
                    && f@ == first_challenge_of(next)
            },
        },
{
    match find_module(&state.pack.modules, module_id + 1) {
        None => AfterModule::NothingNext,
        Some(next) => {
            if state.should_show_paywall(module_id) {
                AfterModule::Paywall
            } else {
                let first = if next.challenge_ids.len() > 0 {
                    next.challenge_ids[0].clone()
                } else {
                    String::new()
                };
                AfterModule::StartModule { module_id: next.id, first_challenge: first }
            }
        },
    }
}

/// The number of challenges in the pack's modules.
pub fn total_challenge_count(pack: &LanguagePack) -> (r: usize)
    requires
        challenge_total(pack.modules@) <= usize::MAX,
    ensures
        r == challenge_total(pack.modules@),
{
    let ms = &pack.modules;
    let mut total: usize = 0;
    let mut i: usize = 0;
    while i < ms.len()
        invariant
            i <= ms@.len(),
            total == challenge_total(ms@.take(i as int)),
            challenge_total(ms@) <= usize::MAX,
        decreases ms@.len() - i,
    {
        assert(ms@.take(i + 1).drop_last() =~= ms@.take(i as int));
        proof {
            lemma_challenge_total_grows(ms@, i + 1);
        }
        total = total + ms[i].challenge_ids.len();
        i = i + 1;
    }
    assert(ms@.take(ms@.len() as int) =~= ms@);
    total
}

proof fn lemma_challenge_total_grows(ms: Seq<ModuleInfo>, n: int)
    requires
        0 <= n <= ms.len(),
    ensures
        challenge_total(ms.take(n)) <= challenge_total(ms),
    decreases ms.len(),
{
    if n < ms.len() {
        assert(ms.drop_last().take(n) =~= ms.take(n));
        lemma_challenge_total_grows(ms.drop_last(), n);
    } else {
        assert(ms.take(n) =~= ms);
    }
}

/// The ids of the completed modules, for the profile's badges.
pub fn completed_module_ids(state: &AppState) -> (r: Vec<u32>)
    ensures
        r@ == completed_ids(*state, state.pack.modules@),
{
    let ms = &state.pack.modules;
    let mut r: Vec<u32> = Vec::new();
    let mut i: usize = 0;
    while i < ms.len()
        invariant
            i <= ms@.len(),
            ms == &state.pack.modules,
            r@ == completed_ids(*state, ms@.take(i as int)),
        decreases ms@.len() - i,
    {
        assert(ms@.take(i + 1).drop_last() =~= ms@.take(i as int));
        if state.is_module_complete(ms[i].id) {
            r.push(ms[i].id);
        }
        i = i + 1;
    }
    assert(ms@.take(ms@.len() as int) =~= ms@);
    r
}

/// The streak to mention when the current one is broken: the longest, if
/// there ever was one.
pub fn previous_streak(user: &UserState) -> (r: Option<u32>)
    ensures
        r == (if user.current_streak == 0 && user.longest_streak > 0 {
            Some(user.longest_streak)
        } else {
            None
        }),
{
    if user.current_streak == 0 && user.longest_streak > 0 {
        Some(user.longest_streak)
    } else {
        None
    }
}

/// Whether today (the last day of the strip) is filled; false on an empty
/// strip.
pub fn today_filled(user: &UserState) -> (r: bool)
    ensures
        r == (user.streak_days@.len() > 0 && user.streak_days@.last()),
{
    let n = user.streak_days.len();
    n > 0 && user.streak_days[n - 1]
}

/// The dots of the streak strip, one per day.
pub fn streak_dots(days: &Vec<bool>) -> (r: Vec<StreakDot>)
    ensures
        r@.len() == days@.len(),
        forall|i: int| 0 <= i < days@.len() ==> r@[i] == streak_dot(days@, i),
{
    let n = days.len();
    let mut r: Vec<StreakDot> = Vec::new();
    let mut i: usize = 0;
    while i < n
        invariant
            n == days@.len(),
            i <= n,
            r@.len() == i,
            forall|k: int| 0 <= k < i ==> r@[k] == streak_dot(days@, k),
        decreases n - i,
    {
        let today = i == n - 1;
        let dot = if days[i] {
            if today { StreakDot::FilledToday } else { StreakDot::Filled }
        } else if today {
            StreakDot::OpenToday
        } else {
            StreakDot::Missed
        };
        r.push(dot);
        i = i + 1;
    }
    r
}

/// The label of the hint button at a tier.
pub fn hint_button_label(tier: HintTier) -> (r: &'static str)
    ensures
        r@ == match tier {
            HintTier::NoHint => "\u{1F4A1} Hint"@,
            HintTier::Concept => "\u{1F4A1} Hint (1/3)"@,
            HintTier::Structure => "\u{1F4A1} Hint (2/3)"@,
            HintTier::SkipAvailable => "\u{23ED} Skip"@,
        },
{
    match tier {
        HintTier::NoHint => "\u{1F4A1} Hint",
        HintTier::Concept => "\u{1F4A1} Hint (1/3)",
        HintTier::Structure => "\u{1F4A1} Hint (2/3)",
        HintTier::SkipAvailable => "\u{23ED} Skip",
    }
}

/// Only an unlocked module can show as completed or active, and a module
/// shows as completed exactly when it is unlocked and complete.
pub proof fn law_card_follows_unlock(s: AppState, id: u32)
    ensures
        module_card(s, id) == ModuleCard::Locked <==> !s.progress.unlocked_modules@.contains(id),
        module_card(s, id) == ModuleCard::Completed <==> (s.progress.unlocked_modules@.contains(id)
            && module_is_complete(s, id)),
{
}

/// Every completed module earns its badge, however it was completed: the
/// badge list holds the id of each module of the list that is complete,
/// and only such ids.
pub proof fn law_badge_for_every_complete_module(s: AppState, ms: Seq<ModuleInfo>)
    ensures
        forall|k: int|
            0 <= k < ms.len() && module_is_complete(s, #[trigger] ms[k].id) ==> completed_ids(
                s,
                ms,
            ).contains(ms[k].id),
        forall|x: u32| #[trigger] completed_ids(s, ms).contains(x) ==> module_is_complete(s, x),
    decreases ms.len(),
{
    if ms.len() > 0 {
        let prev = completed_ids(s, ms.drop_last());
        law_badge_for_every_complete_module(s, ms.drop_last());
        let r = completed_ids(s, ms);
        assert forall|k: int|
            0 <= k < ms.len() && module_is_complete(s, #[trigger] ms[k].id) implies r.contains(
                ms[k].id,
            ) by {
            if k < ms.len() - 1 {
                assert(ms.drop_last()[k] == ms[k]);
                assert(prev.contains(ms[k].id));
                let j = choose|j: int| 0 <= j < prev.len() && prev[j] == ms[k].id;
                if r != prev {
                    assert(r[j] == ms[k].id);
                }
            } else {
                assert(r[r.len() - 1] == ms[k].id);
            }
        }
        assert forall|x: u32| #[trigger] r.contains(x) implies module_is_complete(s, x) by {
            let j = choose|j: int| 0 <= j < r.len() && r[j] == x;
            if j < prev.len() {
                assert(prev[j] == x);
                assert(prev.contains(x));
            }
        }
    }
}

} // verus!
