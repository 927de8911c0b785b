//! The app-wide state and the rules that change it: completing challenges
//! and unlocking modules, streaks, hint costs, attempts and purchases.
use vstd::prelude::*;
use crate::engine::{build_default_registry, contains_u32, module_complete, next_challenge, pack_for};
use crate::models::{LanguagePack, LanguageProgress, ModuleInfo, UserState};
use crate::rust_pack::is_rust_pack;
use crate::text::{contains_str, contains_string, owned, str_eq, views};

verus! {

broadcast use vstd::string::group_string_axioms;

// ── Global App State ──

#[derive(Debug, Clone)]
pub struct AppState {
    pub user: UserState,
    pub progress: LanguageProgress,
    pub pack: LanguagePack,
    pub is_onboarded: bool,
    pub is_purchased: bool,
    pub active_language: String,
    pub is_offline: bool,
    pub sound_enabled: bool,
    // Session tracking
    pub hints_used_this_session: u32,
    pub session_warning_shown: bool,
    // Attempt tracking for accuracy
    pub total_attempts: u32,
    pub correct_attempts: u32,
}

/// The text of the offline banner.
pub open spec fn offline_banner() -> Seq<char> {
    "Offline \u{2014} progress will sync when you reconnect"@
}

/// Progress at the start of a language: module 1 unlocked and active,
/// nothing earned, completed or skipped.
pub open spec fn fresh_progress(p: LanguageProgress, language_id: Seq<char>) -> bool {
    &&& p.language_id@ == language_id
    &&& p.xp == 0
    &&& p.active_module == 1
    &&& p.unlocked_modules@ == seq![1u32]
    &&& p.completed_challenges@.len() == 0
    &&& p.skipped_challenges@.len() == 0
}

/// A learner who has done nothing yet: no XP, no streak, seven empty days,
/// one streak freeze.
pub open spec fn fresh_user(u: UserState) -> bool {
    &&& u.total_xp == 0
    &&& u.current_streak == 0
    &&& u.longest_streak == 0
    &&& u.last_active is None
    &&& u.streak_days@ == seq![false, false, false, false, false, false, false]
    &&& u.has_freeze
}

/// Some module of the list has this id.
pub open spec fn has_module(modules: Seq<ModuleInfo>, id: int) -> bool {
    exists|k: int| 0 <= k < modules.len() && modules[k].id == id
}

/// The first module of the list with this id.
pub open spec fn first_module(modules: Seq<ModuleInfo>, id: u32) -> Option<ModuleInfo>
    decreases modules.len(),
{
    if modules.len() == 0 {
        None
    } else if modules[0].id == id {
        Some(modules[0])
    } else {
        first_module(modules.drop_first(), id)
    }
}

/// How many of the ids are completed.
pub open spec fn count_completed(ids: Seq<String>, completed: Seq<Seq<char>>) -> nat
    decreases ids.len(),
{
    if ids.len() == 0 {
        0
    } else {
        count_completed(ids.drop_last(), completed) + if completed.contains(ids.last()@) {
            1nat
        } else {
            0nat
        }
    }
}

/// A list of ids with `id` added at the end unless it is there already.
pub open spec fn with_id(ids: Seq<Seq<char>>, id: Seq<char>) -> Seq<Seq<char>> {
    if ids.contains(id) {
        ids
    } else {
        ids.push(id)
    }
}

/// Every challenge of the module is among `completed`.
pub open spec fn module_done(m: ModuleInfo, completed: Seq<Seq<char>>) -> bool {
    forall|i: int|
        0 <= i < m.challenge_ids@.len() ==> completed.contains((#[trigger] m.challenge_ids@[i])@)
}

/// Every module that is complete once `challenge` counts as completed has
/// an id below `u32::MAX`, so that the id after it can be named.
pub open spec fn completion_fits(
    modules: Seq<ModuleInfo>,
    completed: Seq<Seq<char>>,
    challenge: Seq<char>,
) -> bool {
    forall|k: int|
        0 <= k < modules.len() && module_done(#[trigger] modules[k], completed.push(challenge))
            ==> modules[k].id < u32::MAX
}

/// The unlocked modules and the active module after looking at module `m`:
/// when `m` is complete, the module after it (by id) is unlocked and made
/// active, if the pack has it and it is still locked.
pub open spec fn unlock_step(
    modules: Seq<ModuleInfo>,
    completed: Seq<Seq<char>>,
    acc: (Seq<u32>, u32),
    m: ModuleInfo,
) -> (Seq<u32>, u32) {
    let next = (m.id + 1) as u32;
    if module_done(m, completed) && !acc.0.contains(next) && has_module(modules, m.id + 1) {
        (acc.0.push(next), next)
    } else {
        acc
    }
}

/// `unlock_step` applied to each module of `ms` in turn.
pub open spec fn unlock_through(
    modules: Seq<ModuleInfo>,
    completed: Seq<Seq<char>>,
    ms: Seq<ModuleInfo>,
    start: (Seq<u32>, u32),
) -> (Seq<u32>, u32)
    decreases ms.len(),
{
    if ms.len() == 0 {
        start
    } else {
        unlock_step(
            modules,
            completed,
            unlock_through(modules, completed, ms.drop_last(), start),
            ms.last(),
        )
    }
}

/// `acc` with each id of `ids` that it lacks appended, in order.
pub open spec fn add_missing(acc: Seq<u32>, ids: Seq<u32>) -> Seq<u32>
    decreases ids.len(),
{
    if ids.len() == 0 {
        acc
    } else {
        let a = add_missing(acc, ids.drop_last());
        if a.contains(ids.last()) {
            a
        } else {
            a.push(ids.last())
        }
    }
}

/// The ids of the modules, in order.
pub open spec fn module_ids(modules: Seq<ModuleInfo>) -> Seq<u32> {
    modules.map_values(|m: ModuleInfo| m.id)
}

/// `b` is `a` after today's streak day was filled: an unfilled today is
/// marked, counted, and the longest streak follows; otherwise nothing changes.
pub open spec fn streak_filled(a: AppState, b: AppState) -> bool {
    let days = a.user.streak_days@;
    if days.len() > 0 && !days.last() {
        &&& b.user.streak_days@ == days.update(days.len() - 1, true)
        &&& b.user.current_streak == a.user.current_streak + 1
        &&& b.user.longest_streak == if a.user.current_streak + 1 > a.user.longest_streak {
            a.user.current_streak + 1
        } else {
            a.user.longest_streak as int
        }
        &&& b.user.total_xp == a.user.total_xp
        &&& b.user.last_active == a.user.last_active
        &&& b.user.has_freeze == a.user.has_freeze
        &&& b == AppState { user: b.user, ..a }
    } else {
        b == a
    }
}

/// `b` is `a` after skipping challenge `id`: it is queued for a revisit
/// once, at the end.
pub open spec fn challenge_skipped(a: AppState, b: AppState, id: Seq<char>) -> bool {
    &&& views(b.progress.skipped_challenges@) == with_id(views(a.progress.skipped_challenges@), id)
    &&& b.progress.language_id == a.progress.language_id
    &&& b.progress.xp == a.progress.xp
    &&& b.progress.active_module == a.progress.active_module
    &&& b.progress.unlocked_modules == a.progress.unlocked_modules
    &&& b.progress.completed_challenges == a.progress.completed_challenges
    &&& b == AppState { progress: b.progress, ..a }
}

/// `b` is `a` with `amount` XP added to the total and to the language.
pub open spec fn xp_added(a: AppState, b: AppState, amount: u32) -> bool {
    &&& b.user.total_xp == a.user.total_xp + amount
    &&& b.progress.xp == a.progress.xp + amount
    &&& b.user == (UserState { total_xp: b.user.total_xp, ..a.user })
    &&& b.progress == (LanguageProgress { xp: b.progress.xp, ..a.progress })
    &&& b == (AppState { user: b.user, progress: b.progress, ..a })
}

/// `b` is `a` after challenge `id` was completed: it is marked completed
/// once, then, module by module in pack order, the module after each
/// complete one is unlocked and made active.
pub open spec fn challenge_completed(a: AppState, b: AppState, id: Seq<char>) -> bool {
    &&& views(b.progress.completed_challenges@) == with_id(
        views(a.progress.completed_challenges@),
        id,
    )
    &&& (b.progress.unlocked_modules@, b.progress.active_module) == unlock_through(
        a.pack.modules@,
        views(b.progress.completed_challenges@),
        a.pack.modules@,
        (a.progress.unlocked_modules@, a.progress.active_module),
    )
    &&& b.progress.language_id == a.progress.language_id
    &&& b.progress.xp == a.progress.xp
    &&& b.progress.skipped_challenges == a.progress.skipped_challenges
    &&& b == (AppState { progress: b.progress, ..a })
}

/// `b` is `a` with one more attempt counted, and one more correct one if it
/// was.
pub open spec fn attempt_recorded(a: AppState, b: AppState, correct: bool) -> bool {
    &&& b.total_attempts == a.total_attempts + 1
    &&& b.correct_attempts == a.correct_attempts + if correct {
        1int
    } else {
        0int
    }
    &&& b == (AppState {
        total_attempts: b.total_attempts,
        correct_attempts: b.correct_attempts,
        ..a
    })
}

/// `b` is `a` after a hint was charged, `r` the XP taken: the first hint of
/// a session is free; each later one costs 5 XP from the total and from the
/// language's XP, never below zero.
pub open spec fn hint_charged(a: AppState, b: AppState, r: u32) -> bool {
    &&& b.hints_used_this_session == a.hints_used_this_session + 1
    &&& a.hints_used_this_session == 0 ==> r == 0 && b.user == a.user && b.progress == a.progress
    &&& a.hints_used_this_session > 0 ==> {
        &&& r == if a.user.total_xp < 5 {
            a.user.total_xp
        } else {
            5
        }
        &&& b.user.total_xp == if a.user.total_xp < 5 {
            0
        } else {
            a.user.total_xp - 5
        }
        &&& b.progress.xp == if a.progress.xp < 5 {
            0
        } else {
            a.progress.xp - 5
        }
        &&& b.user == (UserState { total_xp: b.user.total_xp, ..a.user })
        &&& b.progress == (LanguageProgress { xp: b.progress.xp, ..a.progress })
    }
    &&& b == (AppState {
        user: b.user,
        progress: b.progress,
        hints_used_this_session: b.hints_used_this_session,
        ..a
    })
}

/// No id occurs twice.
pub open spec fn no_duplicates(ids: Seq<Seq<char>>) -> bool {
    forall|i: int, j: int| 0 <= i < ids.len() && 0 <= j < ids.len() && i != j ==> ids[i] != ids[j]
}

/// Whether every challenge of `m` is in `completed` or is `challenge_id`.
fn done_once_marked(m: &ModuleInfo, completed: &Vec<String>, challenge_id: &str) -> (r: bool)
    ensures
        r == module_done(*m, views(completed@).push(challenge_id@)),
{
    let ghost before = views(completed@);
    let ghost marked = before.push(challenge_id@);
    let mut j: usize = 0;
    while j < m.challenge_ids.len()
        invariant
            j <= m.challenge_ids@.len(),
            before == views(completed@),
            marked == before.push(challenge_id@),
            forall|t: int| 0 <= t < j ==> marked.contains((#[trigger] m.challenge_ids@[t])@),
        decreases m.challenge_ids@.len() - j,
    {
        let c = &m.challenge_ids[j];
        let seen = contains_string(completed.as_slice(), c);
        let same = str_eq(c.as_str(), challenge_id);
        if !seen && !same {
            assert(!marked.contains(c@)) by {
                if marked.contains(c@) {
                    let w = choose|w: int| 0 <= w < marked.len() && marked[w] == c@;
                    if w < before.len() {
                        assert(before[w] == c@);
                    }
                }
            }
            return false;
        }
        assert(marked.contains(c@)) by {
            if seen {
                let w = choose|w: int| 0 <= w < before.len() && before[w] == c@;
                assert(marked[w] == c@);
            } else {
                assert(marked[before.len() as int] == c@);
            }
        }
        j = j + 1;
    }
    true
}

/// Once `challenge` is marked, the completed list is `before` or `before`
/// with it pushed; a module complete there is complete in the latter, so
/// `completion_fits` bounds its id.
proof fn lemma_marked_fits(
    ms: Seq<ModuleInfo>,
    before: Seq<Seq<char>>,
    after: Seq<Seq<char>>,
    challenge: Seq<char>,
)
    requires
        completion_fits(ms, before, challenge),
        after == before || after == before.push(challenge),
    ensures
        forall|k: int| 0 <= k < ms.len() && module_done(#[trigger] ms[k], after) ==> ms[k].id < u32::MAX,
{
    let marked = before.push(challenge);
    assert forall|k: int| 0 <= k < ms.len() && module_done(#[trigger] ms[k], after) implies ms[k].id
        < u32::MAX by {
        assert forall|j: int| 0 <= j < ms[k].challenge_ids@.len() implies marked.contains(
            (#[trigger] ms[k].challenge_ids@[j])@,
        ) by {
            let x = ms[k].challenge_ids@[j]@;
            assert(after.contains(x));
            let w = choose|w: int| 0 <= w < after.len() && after[w] == x;
            assert(marked[w] == x);
        }
    }
}

proof fn lemma_unlock_through(
    modules: Seq<ModuleInfo>,
    p: Seq<Seq<char>>,
    ms: Seq<ModuleInfo>,
    start: (Seq<u32>, u32),
)
    ensures
        forall|x: u32| start.0.contains(x) ==> #[trigger] unlock_through(modules, p, ms, start).0.contains(x),
        forall|k: int|
            0 <= k < ms.len() && module_done(#[trigger] ms[k], p) && has_module(modules, ms[k].id + 1)
                ==> unlock_through(modules, p, ms, start).0.contains((ms[k].id + 1) as u32),
    decreases ms.len(),
{
    if ms.len() > 0 {
        let prev = unlock_through(modules, p, ms.drop_last(), start);
        lemma_unlock_through(modules, p, ms.drop_last(), start);
        let r = unlock_through(modules, p, ms, start);
        assert(r == unlock_step(modules, p, prev, ms.last()));
        assert forall|x: u32| prev.0.contains(x) implies r.0.contains(x) by {
            if r.0 != prev.0 {
                let j = choose|j: int| 0 <= j < prev.0.len() && prev.0[j] == x;
                assert(r.0[j] == x);
            }
        }
        assert forall|k: int|
            0 <= k < ms.len() && module_done(#[trigger] ms[k], p) && has_module(
                modules,
                ms[k].id + 1,
            ) implies r.0.contains((ms[k].id + 1) as u32) by {
            if k < ms.len() - 1 {
                assert(ms.drop_last()[k] == ms[k]);
                assert(prev.0.contains((ms[k].id + 1) as u32));
            } else if r.0 != prev.0 {
                assert(r.0[r.0.len() - 1] == (ms[k].id + 1) as u32);
            }
        }
    }
}

proof fn lemma_add_missing(acc: Seq<u32>, ids: Seq<u32>)
    ensures
        forall|x: u32| acc.contains(x) ==> #[trigger] add_missing(acc, ids).contains(x),
        forall|k: int| 0 <= k < ids.len() ==> add_missing(acc, ids).contains(#[trigger] ids[k]),
        add_missing(acc, ids).take(acc.len() as int) == acc,
        acc.len() <= add_missing(acc, ids).len(),
    decreases ids.len(),
{
    if ids.len() > 0 {
        let a = add_missing(acc, ids.drop_last());
        lemma_add_missing(acc, ids.drop_last());
        let r = add_missing(acc, ids);
        assert forall|x: u32| a.contains(x) implies r.contains(x) by {
            if r != a {
                let j = choose|j: int| 0 <= j < a.len() && a[j] == x;
                assert(r[j] == x);
            }
        }
        assert forall|k: int| 0 <= k < ids.len() implies r.contains(#[trigger] ids[k]) by {
            if k < ids.len() - 1 {
                assert(ids.drop_last()[k] == ids[k]);
                assert(a.contains(ids[k]));
            } else if r != a {
                assert(r[r.len() - 1] == ids[k]);
            }
        }
        if r != a {
            assert(r.take(acc.len() as int) =~= a.take(acc.len() as int));
        }
    }
}

/// The first module with this id.
pub(crate) fn find_module(modules: &Vec<ModuleInfo>, id: u32) -> (r: Option<&ModuleInfo>)
    ensures
        match r {
            Some(m) => first_module(modules@, id) == Some(*m),
            None => first_module(modules@, id) is None,
        },
{
    let mut i: usize = 0;
    assert(modules@.skip(0) =~= modules@);
    while i < modules.len()
        invariant
            i <= modules@.len(),
            first_module(modules@, id) == first_module(modules@.skip(i as int), id),
        decreases modules@.len() - i,
    {
        assert(modules@.skip(i as int)[0] == modules@[i as int]);
        assert(modules@.skip(i as int).drop_first() =~= modules@.skip(i + 1));
        if modules[i].id == id {
            return Some(&modules[i]);
        }
        i = i + 1;
    }
    None
}

/// Whether some module has this id.
fn has_module_id(modules: &Vec<ModuleInfo>, id: u32) -> (r: bool)
    ensures
        r == has_module(modules@, id as int),
{
    let mut i: usize = 0;
    while i < modules.len()
        invariant
            i <= modules@.len(),
            forall|k: int| 0 <= k < i ==> modules@[k].id != id,
        decreases modules@.len() - i,
    {
        if modules[i].id == id {
            return true;
        }
        i = i + 1;
    }
    false
}

/// Progress at the start of a language.
fn fresh_progress_for(language_id: &str) -> (p: LanguageProgress)
    ensures
        fresh_progress(p, language_id@),
{
    let mut unlocked: Vec<u32> = Vec::new();
    unlocked.push(1);
    assert(unlocked@ =~= seq![1u32]);
    LanguageProgress {
        language_id: owned(language_id),
        xp: 0,
        active_module: 1,
        unlocked_modules: unlocked,
        completed_challenges: Vec::new(),
        skipped_challenges: Vec::new(),
    }
}

impl AppState {
    /// A fresh state on the Rust pack: nothing done, module 1 unlocked,
    /// not onboarded, not purchased, online, sound off.
    pub fn new() -> (s: Self)
        ensures
            is_rust_pack(s.pack),
            fresh_user(s.user),
            fresh_progress(s.progress, "rust"@),
            s.active_language@ == "rust"@,
            !s.is_onboarded,
            !s.is_purchased,
            !s.is_offline,
            !s.sound_enabled,
            s.hints_used_this_session == 0,
            !s.session_warning_shown,
            s.total_attempts == 0,
            s.correct_attempts == 0,
    {
        let registry = build_default_registry();
        let ghost ps = registry@.packs;
        proof {
            reveal_strlit("rust");
            assert(ps[0].0 == "rust"@);
        }
        let pack = match registry.take_pack("rust") {
            Some(p) => p,
            None => {
                proof {
                    assert(pack_for(ps, "rust"@) is Some);
                }
                crate::rust_pack::rust_pack()
            },
        };
        proof {
            let k = choose|i: int| 0 <= i < ps.len() && ps[i].0 == "rust"@;
            assert(k == 0);
        }
        let mut days: Vec<bool> = Vec::new();
        let mut d: usize = 0;
        while d < 7
            invariant
                d <= 7,
                days@.len() == d,
                forall|k: int| 0 <= k < d ==> !days@[k],
            decreases 7 - d,
        {
            days.push(false);
            d = d + 1;
        }
        assert(days@ =~= seq![false, false, false, false, false, false, false]);
        AppState {
            user: UserState {
                total_xp: 0,
                current_streak: 0,
                longest_streak: 0,
                last_active: None,
                streak_days: days,
                has_freeze: true,
            },
            progress: fresh_progress_for("rust"),
            pack,
            is_onboarded: false,
            is_purchased: false,
            active_language: owned("rust"),
            is_offline: false,
            sound_enabled: false,
            hints_used_this_session: 0,
            session_warning_shown: false,
            total_attempts: 0,
            correct_attempts: 0,
        }
    }

    /// Switches to another language pack of the default registry, with
    /// fresh progress. Returns false, changing nothing, for an unknown
    /// language.
    pub fn switch_language(&mut self, language_id: &str) -> (r: bool)
        ensures
            r == (language_id@ == "rust"@),
            r ==> is_rust_pack(final(self).pack),
            r ==> final(self).active_language@ == language_id@,
            r ==> fresh_progress(final(self).progress, language_id@),
            r ==> *final(self) == (AppState {
                pack: final(self).pack,
                active_language: final(self).active_language,
                progress: final(self).progress,
                ..*old(self)
            }),
            !r ==> *final(self) == *old(self),
    {
        let registry = build_default_registry();
        let ghost ps = registry@.packs;
        proof {
            reveal_strlit("rust");
        }
        match registry.take_pack(language_id) {
            Some(new_pack) => {
                proof {
                    let k = choose|i: int| 0 <= i < ps.len() && ps[i].0 == language_id@;
                    assert(k == 0);
                }
                self.pack = new_pack;
                self.active_language = owned(language_id);
                self.progress = fresh_progress_for(language_id);
                true
            },
            None => {
                proof {
                    if language_id@ == "rust"@ {
                        assert(ps[0].0 == language_id@);
                    }
                }
                false
            },
        }
    }

    /// Adds XP to the learner's total and to the current language.
    pub fn add_xp(&mut self, amount: u32)
        requires
            old(self).user.total_xp + amount <= u32::MAX,
            old(self).progress.xp + amount <= u32::MAX,
        ensures
            xp_added(*old(self), *final(self), amount),
    {
        self.user.total_xp = self.user.total_xp + amount;
        self.progress.xp = self.progress.xp + amount;
    }

    /// Marks a challenge completed (once), then, module by module in pack
    /// order, unlocks and activates the module after each complete one.
    pub fn complete_challenge(&mut self, challenge_id: &str)
        requires
            completion_fits(
                old(self).pack.modules@,
                views(old(self).progress.completed_challenges@),
                challenge_id@,
            ),
        ensures
            challenge_completed(*old(self), *final(self), challenge_id@),
            // The challenge is completed, no unlocked module is locked again,
            // and every complete module has its successor unlocked.
            views(final(self).progress.completed_challenges@).contains(challenge_id@),
            forall|x: u32|
                old(self).progress.unlocked_modules@.contains(x)
                    ==> #[trigger] final(self).progress.unlocked_modules@.contains(x),
            forall|k: int|
                0 <= k < final(self).pack.modules@.len() && module_complete(
                    #[trigger] final(self).pack.modules@[k],
                    final(self).progress,
                ) && has_module(final(self).pack.modules@, final(self).pack.modules@[k].id + 1)
                    ==> final(self).progress.unlocked_modules@.contains(
                    (final(self).pack.modules@[k].id + 1) as u32,
                ),
    {
        let ghost before = views(self.progress.completed_challenges@);
        if !contains_str(self.progress.completed_challenges.as_slice(), challenge_id) {
            self.progress.completed_challenges.push(owned(challenge_id));
            assert(views(self.progress.completed_challenges@) =~= before.push(challenge_id@));
        }
        assert(views(self.progress.completed_challenges@).contains(challenge_id@)) by {
            if before.contains(challenge_id@) {
            } else {
                assert(views(self.progress.completed_challenges@)[before.len() as int] == challenge_id@);
            }
        }
        let ghost mid = *self;
        let ghost start = (self.progress.unlocked_modules@, self.progress.active_module);
        let ghost ms = self.pack.modules@;
        let ghost after = views(self.progress.completed_challenges@);
        proof {
            lemma_marked_fits(ms, before, after, challenge_id@);
        }
        let mut i: usize = 0;
        while i < self.pack.modules.len()
            invariant
                i <= ms.len(),
                ms == mid.pack.modules@,
                forall|k: int|
                    0 <= k < ms.len() && module_done(#[trigger] ms[k], after) ==> ms[k].id
                        < u32::MAX,
                after == views(mid.progress.completed_challenges@),
                self.progress.completed_challenges == mid.progress.completed_challenges,
                self.progress.language_id == mid.progress.language_id,
                self.progress.xp == mid.progress.xp,
                self.progress.skipped_challenges == mid.progress.skipped_challenges,
                *self == (AppState { progress: self.progress, ..mid }),
                (self.progress.unlocked_modules@, self.progress.active_module) == unlock_through(
                    ms,
                    views(mid.progress.completed_challenges@),
                    ms.take(i as int),
                    start,
                ),
            decreases ms.len() - i,
        {
            let complete = crate::engine::is_module_complete(&self.pack.modules[i], &self.progress);
            assert(ms.take(i + 1).drop_last() =~= ms.take(i as int));
            assert(ms.take(i + 1).last() == ms[i as int]);
            if complete {
                assert(module_done(ms[i as int], after));
                let next_id = self.pack.modules[i].id + 1;
                if !contains_u32(self.progress.unlocked_modules.as_slice(), next_id) {
                    if has_module_id(&self.pack.modules, next_id) {
                        self.progress.unlocked_modules.push(next_id);
                        self.progress.active_module = next_id;
                    }
                }
            }
            i = i + 1;
        }
        assert(ms.take(ms.len() as int) =~= ms);
        proof {
            lemma_unlock_through(ms, after, ms, start);
            assert(start.0 == old(self).progress.unlocked_modules@);
            assert(self.progress.unlocked_modules@ == unlock_through(ms, after, ms, start).0);
            assert forall|x: u32| old(self).progress.unlocked_modules@.contains(x) implies #[trigger] self.progress.unlocked_modules@.contains(x) by {
                assert(start.0.contains(x));
            }
        }
    }

    /// Whether `complete_challenge(challenge_id)` can be called: every
    /// module complete once the challenge counts has an id below
    /// `u32::MAX`.
    pub fn can_complete(&self, challenge_id: &str) -> (r: bool)
        ensures
            r == completion_fits(
                self.pack.modules@,
                views(self.progress.completed_challenges@),
                challenge_id@,
            ),
    {
        let ghost marked = views(self.progress.completed_challenges@).push(challenge_id@);
        let mut i: usize = 0;
        while i < self.pack.modules.len()
            invariant
                i <= self.pack.modules@.len(),
                marked == views(self.progress.completed_challenges@).push(challenge_id@),
                forall|k: int|
                    0 <= k < i && module_done(#[trigger] self.pack.modules@[k], marked)
                        ==> self.pack.modules@[k].id < u32::MAX,
            decreases self.pack.modules@.len() - i,
        {
            let m = &self.pack.modules[i];
            if m.id == u32::MAX && done_once_marked(m, &self.progress.completed_challenges, challenge_id) {
                return false;
            }
            i = i + 1;
        }
        true
    }

    /// The id of the next challenge to play, if any remains.
    pub fn get_next_challenge_id(&self) -> (r: Option<String>)
        ensures
            r == next_challenge(self.pack.modules@, self.progress),
    {
        crate::engine::get_next_challenge_id(&self.pack, &self.progress)
    }

    /// (completed challenges, all challenges) of a module; (0, 0) for an
    /// unknown module.
    pub fn get_module_progress(&self, module_id: u32) -> (r: (usize, usize))
        ensures
            match first_module(self.pack.modules@, module_id) {
                Some(m) => r.0 == count_completed(
                    m.challenge_ids@,
                    views(self.progress.completed_challenges@),
                ) && r.1 == m.challenge_ids@.len(),
                None => r == (0usize, 0usize),
            },
    {
        match find_module(&self.pack.modules, module_id) {
            Some(m) => {
                let ids = &m.challenge_ids;
                let mut done: usize = 0;
                let mut i: usize = 0;
                while i < ids.len()
                    invariant
                        i <= ids@.len(),
                        done == count_completed(
                            ids@.take(i as int),
                            views(self.progress.completed_challenges@),
                        ),
                        done <= i,
                    decreases ids@.len() - i,
                {
                    assert(ids@.take(i + 1).drop_last() =~= ids@.take(i as int));
                    if contains_string(self.progress.completed_challenges.as_slice(), &ids[i]) {
                        done = done + 1;
                    }
                    i = i + 1;
                }
                assert(ids@.take(ids@.len() as int) =~= ids@);
                (done, ids.len())
            },
            None => (0, 0),
        }
    }

    /// Whether the module with this id exists and all its challenges are done.
    pub fn is_module_complete(&self, module_id: u32) -> (r: bool)
        ensures
            r == match first_module(self.pack.modules@, module_id) {
                Some(m) => module_complete(m, self.progress),
                None => false,
            },
    {
        match find_module(&self.pack.modules, module_id) {
            Some(m) => crate::engine::is_module_complete(m, &self.progress),
            None => false,
        }
    }

    pub fn is_module_unlocked(&self, module_id: u32) -> (r: bool)
        ensures
            r == self.progress.unlocked_modules@.contains(module_id),
    {
        contains_u32(self.progress.unlocked_modules.as_slice(), module_id)
    }

    /// Whether the module with this id exists and is not free.
    pub fn is_module_paid(&self, module_id: u32) -> (r: bool)
        ensures
            r == match first_module(self.pack.modules@, module_id) {
                Some(m) => !m.is_free,
                None => false,
            },
    {
        match find_module(&self.pack.modules, module_id) {
            Some(m) => !m.is_free,
            None => false,
        }
    }

    /// Fills today (the last streak day) once: the streak grows by one and
    /// the longest streak follows it.
    pub fn fill_streak_today(&mut self)
        requires
            old(self).user.streak_days@.len() > 0 && !old(self).user.streak_days@.last()
                ==> old(self).user.current_streak < u32::MAX,
        ensures
            streak_filled(*old(self), *final(self)),
    {
        let n = self.user.streak_days.len();
        if n > 0 && !self.user.streak_days[n - 1] {
            self.user.streak_days.set(n - 1, true);
            self.user.current_streak = self.user.current_streak + 1;
            if self.user.current_streak > self.user.longest_streak {
                self.user.longest_streak = self.user.current_streak;
            }
        }
    }

    /// Queues a challenge for a revisit, once.
    pub fn skipped_challenges_mut(&mut self, id: &str)
        ensures
            challenge_skipped(*old(self), *final(self), id@),
    {
        let ghost before = views(self.progress.skipped_challenges@);
        if !contains_str(self.progress.skipped_challenges.as_slice(), id) {
            self.progress.skipped_challenges.push(owned(id));
            assert(views(self.progress.skipped_challenges@) =~= before.push(id@));
        }
    }

    // ── Hint XP deduction ──

    /// Charges for a hint. The first hint of a session is free; each later
    /// one costs 5 XP, taken from the total and from the language's XP, never
    /// below zero. Returns the XP taken from the total.
    pub fn deduct_hint_xp(&mut self) -> (r: u32)
        requires
            old(self).hints_used_this_session < u32::MAX,
        ensures
            hint_charged(*old(self), *final(self), r),
            // What is charged is exactly what leaves the total.
            r == old(self).user.total_xp - final(self).user.total_xp,
    {
        if self.hints_used_this_session == 0 {
            self.hints_used_this_session = self.hints_used_this_session + 1;
            return 0;
        }
        self.hints_used_this_session = self.hints_used_this_session + 1;
        let cost: u32 = 5;
        let actual = if cost < self.user.total_xp { cost } else { self.user.total_xp };
        self.user.total_xp = self.user.total_xp.saturating_sub(cost);
        self.progress.xp = self.progress.xp.saturating_sub(cost);
        actual
    }

    // ── Attempt tracking ──

    /// Counts an attempt, and a correct one if it was.
    pub fn record_attempt(&mut self, correct: bool)
        requires
            old(self).total_attempts < u32::MAX,
            correct ==> old(self).correct_attempts < u32::MAX,
        ensures
            attempt_recorded(*old(self), *final(self), correct),
            // Correct attempts never outnumber attempts.
            old(self).correct_attempts <= old(self).total_attempts ==> final(self).correct_attempts
                <= final(self).total_attempts,
    {
        self.total_attempts = self.total_attempts + 1;
        if correct {
            self.correct_attempts = self.correct_attempts + 1;
        }
    }

    // ── Purchase state ──

    /// Marks the app purchased and unlocks every module of the pack: the
    /// ids not yet unlocked are appended in pack order.
    pub fn unlock_all_modules(&mut self)
        ensures
            purchased(*old(self), *final(self)),
            final(self).is_purchased,
            final(self).progress.unlocked_modules@ == add_missing(
                old(self).progress.unlocked_modules@,
                module_ids(old(self).pack.modules@),
            ),
            final(self).progress == (LanguageProgress {
                unlocked_modules: final(self).progress.unlocked_modules,
                ..old(self).progress
            }),
            *final(self) == (AppState {
                is_purchased: true,
                progress: final(self).progress,
                ..*old(self)
            }),
            // Every module of the pack is unlocked; nothing unlocked is lost.
            forall|k: int|
                0 <= k < final(self).pack.modules@.len()
                    ==> final(self).progress.unlocked_modules@.contains(
                    (#[trigger] final(self).pack.modules@[k]).id,
                ),
            final(self).progress.unlocked_modules@.take(
                old(self).progress.unlocked_modules@.len() as int,
            ) == old(self).progress.unlocked_modules@,
    {
        self.is_purchased = true;
        let ghost start = self.progress.unlocked_modules@;
        let ghost ids = module_ids(self.pack.modules@);
        let ghost mid = *self;
        let mut i: usize = 0;
        while i < self.pack.modules.len()
            invariant
                i <= ids.len(),
                ids == module_ids(mid.pack.modules@),
                ids.len() == mid.pack.modules@.len(),
                self.progress == (LanguageProgress {
                    unlocked_modules: self.progress.unlocked_modules,
                    ..mid.progress
                }),
                *self == (AppState { progress: self.progress, ..mid }),
                self.progress.unlocked_modules@ == add_missing(start, ids.take(i as int)),
            decreases ids.len() - i,
        {
            let id = self.pack.modules[i].id;
            assert(ids.take(i + 1).drop_last() =~= ids.take(i as int));
            assert(ids.take(i + 1).last() == id);
            if !contains_u32(self.progress.unlocked_modules.as_slice(), id) {
                self.progress.unlocked_modules.push(id);
            }
            i = i + 1;
        }
        assert(ids.take(ids.len() as int) =~= ids);
        proof {
            lemma_add_missing(start, ids);
            assert forall|k: int| 0 <= k < mid.pack.modules@.len() implies
                self.progress.unlocked_modules@.contains(#[trigger] mid.pack.modules@[k].id) by {
                assert(ids[k] == mid.pack.modules@[k].id);
            }
        }
    }

    /// The paywall shows after module 3 unless the app is purchased.
    pub fn should_show_paywall(&self, completed_module_id: u32) -> (r: bool)
        ensures
            r == paywall_due(*self, completed_module_id),
    {
        completed_module_id == 3 && !self.is_purchased
    }

    // ── Offline banner ──

    /// The offline banner message while offline; none while online.
    pub fn offline_banner_text(&self) -> (r: Option<&'static str>)
        ensures
            r is Some <==> self.is_offline,
            r is Some ==> r->Some_0@ == offline_banner(),
    {
        if self.is_offline {
            Some("Offline \u{2014} progress will sync when you reconnect")
        } else {
            None
        }
    }

    /// How many skipped challenges wait for a revisit.
    pub fn revisit_count(&self) -> (r: usize)
        ensures
            r == self.progress.skipped_challenges@.len(),
    {
        self.progress.skipped_challenges.len()
    }
}

// ── Laws ──

/// The paywall is due after module 3 unless the app is purchased.
pub open spec fn paywall_due(s: AppState, completed_module_id: u32) -> bool {
    completed_module_id == 3 && !s.is_purchased
}

/// `b` is `a` after a purchase: every module of the pack unlocked, the app
/// marked purchased.
pub open spec fn purchased(a: AppState, b: AppState) -> bool {
    &&& b.is_purchased
    &&& b.progress.unlocked_modules@ == add_missing(
        a.progress.unlocked_modules@,
        module_ids(a.pack.modules@),
    )
    &&& b == (AppState { is_purchased: true, progress: b.progress, ..a })
}

/// Once purchased, the paywall never shows again, after any module.
pub proof fn law_purchase_hides_paywall(a: AppState, b: AppState, m: u32)
    requires
        purchased(a, b),
    ensures
        !paywall_due(b, m),
{
}

/// From the start of a session, the first hint is free and the second
/// costs what it takes from the total, at most 5 XP.
pub proof fn law_first_hint_free(a: AppState, b: AppState, c: AppState, r1: u32, r2: u32)
    requires
        a.hints_used_this_session == 0,
        hint_charged(a, b, r1),
        hint_charged(b, c, r2),
    ensures
        r1 == 0,
        b.user.total_xp == a.user.total_xp,
        r2 <= 5,
        c.user.total_xp == a.user.total_xp - r2,
{
}

/// Filling today's streak twice is filling it once.
pub proof fn law_streak_fill_idempotent(a: AppState, b: AppState, c: AppState)
    requires
        streak_filled(a, b),
        streak_filled(b, c),
    ensures
        c == b,
{
}

/// Skipping the same challenge twice is skipping it once.
pub proof fn law_skip_idempotent(a: AppState, b: AppState, c: AppState, id: Seq<char>)
    requires
        challenge_skipped(a, b, id),
        challenge_skipped(b, c, id),
    ensures
        views(c.progress.skipped_challenges@) == views(b.progress.skipped_challenges@),
{
    assert(views(b.progress.skipped_challenges@).contains(id)) by {
        let s = views(a.progress.skipped_challenges@);
        if !s.contains(id) {
            assert(s.push(id)[s.len() as int] == id);
        }
    }
}

/// Skipping never queues a challenge twice.
pub proof fn law_skip_keeps_no_duplicates(a: AppState, b: AppState, id: Seq<char>)
    requires
        challenge_skipped(a, b, id),
        no_duplicates(views(a.progress.skipped_challenges@)),
    ensures
        no_duplicates(views(b.progress.skipped_challenges@)),
{
    let s = views(a.progress.skipped_challenges@);
    if !s.contains(id) {
        let t = s.push(id);
        assert forall|i: int, j: int| 0 <= i < t.len() && 0 <= j < t.len() && i != j implies t[i]
            != t[j] by {
            if i < s.len() && j < s.len() {
            } else if i < s.len() {
                assert(s.contains(s[i]));
            } else {
                assert(s.contains(s[j]));
            }
        }
    }
}

proof fn lemma_unlock_through_stable(
    modules: Seq<ModuleInfo>,
    p: Seq<Seq<char>>,
    ms: Seq<ModuleInfo>,
    start: (Seq<u32>, u32),
)
    requires
        forall|k: int|
            0 <= k < ms.len() && module_done(#[trigger] ms[k], p) && has_module(modules, ms[k].id + 1)
                ==> start.0.contains((ms[k].id + 1) as u32),
    ensures
        unlock_through(modules, p, ms, start) == start,
    decreases ms.len(),
{
    if ms.len() > 0 {
        assert forall|k: int|
            0 <= k < ms.drop_last().len() && module_done(#[trigger] ms.drop_last()[k], p)
                && has_module(modules, ms.drop_last()[k].id + 1) implies start.0.contains(
            (ms.drop_last()[k].id + 1) as u32,
        ) by {
            assert(ms.drop_last()[k] == ms[k]);
        }
        lemma_unlock_through_stable(modules, p, ms.drop_last(), start);
        assert(ms.last() == ms[ms.len() - 1]);
    }
}

/// Completing a challenge never loses progress: every challenge completed
/// before stays completed, the challenge itself is completed, every
/// unlocked module stays unlocked, and XP, streak and skipped challenges
/// do not change.
pub proof fn law_completion_keeps_progress(a: AppState, b: AppState, id: Seq<char>)
    requires
        challenge_completed(a, b, id),
    ensures
        forall|x: Seq<char>| #[trigger] views(a.progress.completed_challenges@).contains(x)
            ==> views(b.progress.completed_challenges@).contains(x),
        views(b.progress.completed_challenges@).contains(id),
        forall|m: u32| #[trigger] a.progress.unlocked_modules@.contains(m)
            ==> b.progress.unlocked_modules@.contains(m),
        b.user == a.user,
        b.progress.xp == a.progress.xp,
        b.progress.skipped_challenges == a.progress.skipped_challenges,
{
    let c = views(a.progress.completed_challenges@);
    if !c.contains(id) {
        assert forall|x: Seq<char>| #[trigger] c.contains(x) implies c.push(id).contains(x) by {
            let j = choose|j: int| 0 <= j < c.len() && c[j] == x;
            assert(c.push(id)[j] == x);
        }
        assert(c.push(id)[c.len() as int] == id);
    }
    lemma_unlock_through(
        a.pack.modules@,
        views(b.progress.completed_challenges@),
        a.pack.modules@,
        (a.progress.unlocked_modules@, a.progress.active_module),
    );
}

/// Completing the same challenge again changes nothing: the completed
/// challenges, the unlocked modules, the active module and everything else
/// stay as the first completion left them.
pub proof fn law_completion_idempotent(a: AppState, b: AppState, c: AppState, id: Seq<char>)
    requires
        challenge_completed(a, b, id),
        challenge_completed(b, c, id),
    ensures
        views(c.progress.completed_challenges@) == views(b.progress.completed_challenges@),
        c.progress.unlocked_modules@ == b.progress.unlocked_modules@,
        c.progress.active_module == b.progress.active_module,
        c.user == b.user,
        c.pack == b.pack,
        c.progress.xp == b.progress.xp,
        c.progress.skipped_challenges == b.progress.skipped_challenges,
{
    law_completion_keeps_progress(a, b, id);
    let p = views(b.progress.completed_challenges@);
    assert(with_id(p, id) == p);
    lemma_unlock_through(
        a.pack.modules@,
        p,
        a.pack.modules@,
        (a.progress.unlocked_modules@, a.progress.active_module),
    );
    lemma_unlock_through_stable(
        b.pack.modules@,
        p,
        b.pack.modules@,
        (b.progress.unlocked_modules@, b.progress.active_module),
    );
}

/// The longest streak is never below the current one: filling today keeps
/// that true.
pub proof fn law_longest_streak_bounds_current(a: AppState, b: AppState)
    requires
        streak_filled(a, b),
        a.user.longest_streak >= a.user.current_streak,
    ensures
        b.user.longest_streak >= b.user.current_streak,
        b.user.current_streak >= a.user.current_streak,
{
}


/// Filling today's streak never lowers the longest streak: it stays, or
/// it becomes the new current streak when that one passes it; the current
/// streak grows by one exactly when today was not filled yet.
pub proof fn law_streak_fill_keeps_record(a: AppState, b: AppState)
    requires
        streak_filled(a, b),
    ensures
        b.user.longest_streak >= a.user.longest_streak,
        b.user.longest_streak >= b.user.current_streak || b.user.longest_streak == a.user.longest_streak,
        b.user.longest_streak == a.user.longest_streak || b.user.longest_streak == b.user.current_streak,
        b.user.longest_streak > a.user.longest_streak ==> b.user.current_streak > a.user.longest_streak,
        b.user.current_streak == a.user.current_streak || b.user.current_streak == a.user.current_streak + 1,
        (a.user.streak_days@.len() > 0 && !a.user.streak_days@.last()) ==> b.user.current_streak
            == a.user.current_streak + 1,
{
}

proof fn lemma_count_filter(ids: Seq<String>, completed: Seq<Seq<char>>)
    ensures
        count_completed(ids, completed) == views(ids).filter(|x: Seq<char>| completed.contains(x)).len(),
        count_completed(ids, completed) <= ids.len(),
        count_completed(ids, completed) == ids.len() <==> forall|j: int|
            0 <= j < ids.len() ==> completed.contains(#[trigger] ids[j]@),
    decreases ids.len(),
{
    if ids.len() > 0 {
        let d = ids.drop_last();
        lemma_count_filter(d, completed);
        assert(views(ids).drop_last() =~= views(d));
        assert(views(ids).last() == ids.last()@);
        let vs = views(ids);
        reveal(Seq::filter);
        let sub = vs.drop_last().filter(|x: Seq<char>| completed.contains(x));
        assert(vs.filter(|x: Seq<char>| completed.contains(x)) == if completed.contains(vs.last()) {
            sub.push(vs.last())
        } else {
            sub
        });
        if forall|j: int| 0 <= j < ids.len() ==> completed.contains(#[trigger] ids[j]@) {
            assert forall|j: int| 0 <= j < d.len() implies completed.contains(#[trigger] d[j]@) by {
                assert(d[j] == ids[j]);
            }
            assert(completed.contains(ids[ids.len() - 1]@));
        }
        if count_completed(ids, completed) == ids.len() {
            assert forall|j: int| 0 <= j < ids.len() implies completed.contains(#[trigger] ids[j]@) by {
                if j < d.len() {
                    assert(d[j] == ids[j]);
                }
            }
        }
    } else {
        assert(views(ids) =~= Seq::<Seq<char>>::empty());
        reveal(Seq::filter);
    }
}

/// A module's done count is how many of its challenge ids are completed,
/// never more than its total, and equals the total exactly when every one
/// of them is completed.
pub proof fn law_done_counts_completed_ids(ids: Seq<String>, completed: Seq<Seq<char>>)
    ensures
        count_completed(ids, completed) == views(ids).filter(|x: Seq<char>| completed.contains(x)).len(),
        count_completed(ids, completed) <= ids.len(),
        count_completed(ids, completed) == ids.len() <==> forall|j: int|
            0 <= j < ids.len() ==> completed.contains(#[trigger] ids[j]@),
{
    lemma_count_filter(ids, completed);
}

} // verus!
