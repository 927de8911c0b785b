//! The sync service: which Supabase writes follow each local change, and how
//! the server's user state is merged into the local one (the larger value
//! wins). Sync never blocks the UI: the app sends the planned requests and
//! only logs their failures.
use vstd::prelude::*;
use crate::services::platform::SecureStorage;
use crate::services::supabase::{
    attempt_request, planned, progress_request, rehydrated_from_some, storage_failure, streak_request, user_state_request, AuthResponse,
    HttpRequest, SupabaseClient, SupabaseError, UserStateRow, JWT_STORAGE_KEY,
    REFRESH_TOKEN_STORAGE_KEY,
};
use crate::state::AppState;

verus! {

/// Whether the Supabase client it works with holds a session. The app
/// keeps the client and sends the requests planned here.
pub struct SyncService {
    is_authenticated: bool,
    init_phase: InitPhase,
}

/// Where start-up stands.
#[derive(Debug, Clone, Copy, PartialEq, Eq, Structural)]
pub enum InitPhase {
    /// Not started.
    Idle,
    /// Waiting for the stored session to be taken up.
    Restoring,
    /// Waiting for the anonymous sign-in (with its session kept).
    SigningIn,
    /// Waiting for the first user row.
    CreatingUserRow,
    /// Finished.
    Done,
}

/// What happened during start-up.
#[derive(Debug, PartialEq)]
pub enum InitEvent {
    /// Start-up begins.
    Start,
    /// The stored session was looked for: whether one was taken up, or the
    /// storage failure.
    Restored(Result<bool, SupabaseError>),
    /// The anonymous sign-in answered, its session kept, or failed.
    SignedIn(Result<(), SupabaseError>),
    /// The first user row was written, or not.
    UserRowCreated(Result<(), SupabaseError>),
}

/// What start-up asks for next.
#[derive(Debug, PartialEq)]
pub enum InitAction {
    /// Take up the session kept in secure storage (`rehydrate`).
    RestoreSession,
    /// Sign in anonymously and keep the session (`accept_sign_in`).
    SignInAnonymously,
    /// Write the first user row: no XP, no streak, dated today.
    CreateUserRow,
    /// Start-up is over: whether a session is held, or the storage failure.
    Finish(Result<bool, SupabaseError>),
    /// The event does not belong to this phase: nothing to do.
    Wait,
}

/// The next phase and action of start-up after an event: a stored session
/// ends it signed in; without one it signs in anonymously and then writes
/// the first user row (whose failure does not matter), ending signed in; a
/// failed sign-in ends it offline; a storage failure ends it with that
/// error. An event that does not belong to the phase changes nothing.
pub open spec fn init_next(phase: InitPhase, e: InitEvent) -> (InitPhase, InitAction) {
    match (phase, e) {
        (InitPhase::Idle, InitEvent::Start) => (InitPhase::Restoring, InitAction::RestoreSession),
        (InitPhase::Restoring, InitEvent::Restored(r)) => match r {
            Ok(true) => (InitPhase::Done, InitAction::Finish(Ok(true))),
            Ok(false) => (InitPhase::SigningIn, InitAction::SignInAnonymously),
            Err(err) => (InitPhase::Done, InitAction::Finish(Err(err))),
        },
        (InitPhase::SigningIn, InitEvent::SignedIn(r)) => match r {
            Ok(()) => (InitPhase::CreatingUserRow, InitAction::CreateUserRow),
            Err(_) => (InitPhase::Done, InitAction::Finish(Ok(false))),
        },
        (InitPhase::CreatingUserRow, InitEvent::UserRowCreated(_)) => (
            InitPhase::Done,
            InitAction::Finish(Ok(true)),
        ),
        _ => (phase, InitAction::Wait),
    }
}

/// The module ids as the database stores them.
pub open spec fn modules_as_i64(m: Seq<u32>) -> Seq<i64> {
    m.map_values(|x: u32| x as i64)
}

/// The larger of a local counter and a server value read as a counter
/// (the server's 64-bit value truncated to 32 bits, as a cast does).
pub open spec fn merged(local: u32, server: i64) -> u32 {
    if (server as u32) > local {
        server as u32
    } else {
        local
    }
}

impl SyncService {
    /// A service that is not yet authenticated.
    pub fn new() -> (r: Self)
        ensures
            !r.is_authenticated(),
            r.phase() == InitPhase::Idle,
    {
        SyncService { is_authenticated: false, init_phase: InitPhase::Idle }
    }

    /// Where start-up stands.
    pub closed spec fn phase(&self) -> InitPhase {
        self.init_phase
    }

    /// One step of start-up: takes what happened and says what to do next.
    /// Whether the service is authenticated is left to `rehydrate` and
    /// `accept_sign_in`, which the actions lead the app to call.
    pub fn init_step(&mut self, event: InitEvent) -> (a: InitAction)
        ensures
            (final(self).phase(), a) == init_next(old(self).phase(), event),
            final(self).is_authenticated() == old(self).is_authenticated(),
    {
        let (next, action) = match (self.init_phase, event) {
            (InitPhase::Idle, InitEvent::Start) => (InitPhase::Restoring, InitAction::RestoreSession),
            (InitPhase::Restoring, InitEvent::Restored(r)) => match r {
                Ok(true) => (InitPhase::Done, InitAction::Finish(Ok(true))),
                Ok(false) => (InitPhase::SigningIn, InitAction::SignInAnonymously),
                Err(err) => (InitPhase::Done, InitAction::Finish(Err(err))),
            },
            (InitPhase::SigningIn, InitEvent::SignedIn(r)) => match r {
                Ok(()) => (InitPhase::CreatingUserRow, InitAction::CreateUserRow),
                Err(_) => (InitPhase::Done, InitAction::Finish(Ok(false))),
            },
            (InitPhase::CreatingUserRow, InitEvent::UserRowCreated(_)) => (
                InitPhase::Done,
                InitAction::Finish(Ok(true)),
            ),
            (phase, _) => (phase, InitAction::Wait),
        };
        self.init_phase = next;
        action
    }

    /// Whether the client holds a valid session.
    pub closed spec fn authenticated(&self) -> bool {
        self.is_authenticated
    }

    /// Whether the client holds a valid session.
    #[verifier::when_used_as_spec(authenticated)]
    pub fn is_authenticated(&self) -> (r: bool)
        ensures
            r == self.authenticated(),
    {
        self.is_authenticated
    }

    /// The first step of start-up: take up a stored session, with no network
    /// call. The service is authenticated when one was found.
    pub fn rehydrate<S: SecureStorage>(&mut self, client: &mut SupabaseClient<S>) -> (r: Result<
        bool,
        SupabaseError,
    >)
        ensures
            final(self).is_authenticated() == (old(self).is_authenticated() || r matches Ok(true)),
            r is Err ==> final(client)@ == old(client)@ && storage_failure(r->Err_0),
            r is Ok ==> rehydrated_from_some(old(client)@, final(client)@, r->Ok_0),
            r is Ok ==> final(client).storage_reads() == old(client).storage_reads() + seq![
                JWT_STORAGE_KEY@,
                REFRESH_TOKEN_STORAGE_KEY@,
            ],
            final(client).storage_writes() == old(client).storage_writes(),
    {
        let r = client.rehydrate_from_storage();
        match r {
            Ok(true) => {
                self.is_authenticated = true;
            },
            _ => {},
        }
        r
    }

    /// After an anonymous sign-in answered: keeps the session and counts the
    /// service authenticated. A storage failure leaves both as they were.
    pub fn accept_sign_in<S: SecureStorage>(
        &mut self,
        client: &mut SupabaseClient<S>,
        auth: &AuthResponse,
    ) -> (r: Result<(), SupabaseError>)
        ensures
            r is Ok ==> final(self).is_authenticated() && final(client)@.user_id == Some(
                auth.user.id@,
            ) && final(client)@.jwt == Some(auth.access_token@) && final(client)@.refresh_token
                == Some(auth.refresh_token@),
            r is Ok ==> final(client)@.base_url == old(client)@.base_url && final(client)@.anon_key
                == old(client)@.anon_key,
            r is Ok ==> final(client).storage_writes() == old(client).storage_writes() + seq![
                (JWT_STORAGE_KEY@, auth.access_token@),
                (REFRESH_TOKEN_STORAGE_KEY@, auth.refresh_token@),
            ],
            r is Err ==> final(client)@ == old(client)@ && final(self).is_authenticated() == old(
                self,
            ).is_authenticated() && storage_failure(r->Err_0),
    {
        let r = client.store_session(auth);
        if r.is_ok() {
            self.is_authenticated = true;
        }
        r
    }

    /// The requests after a challenge attempt, in order: the attempt, the
    /// language progress, the user state (dated `today`). None when not
    /// authenticated; an entry is an error where the client has no user.
    pub fn challenge_sync_requests<S: SecureStorage>(
        &self,
        client: &SupabaseClient<S>,
        challenge_id: &str,
        language_id: &str,
        correct: bool,
        attempt_num: u32,
        state: &AppState,
        today: &str,
    ) -> (r: Vec<Result<HttpRequest, SupabaseError>>)
        ensures
            !self.is_authenticated() ==> r@.len() == 0,
            self.is_authenticated() ==> r@.len() == 3 && planned(
                client@,
                r@[0],
                attempt_request(
                    client@,
                    r@[0]->Ok_0,
                    challenge_id@,
                    language_id@,
                    correct,
                    attempt_num as i64,
                ),
            ) && planned(
                client@,
                r@[1],
                progress_request(
                    client@,
                    r@[1]->Ok_0,
                    language_id@,
                    state.progress.active_module as i64,
                    modules_as_i64(state.progress.unlocked_modules@),
                    state.progress.xp as i64,
                ),
            ) && planned(
                client@,
                r@[2],
                user_state_request(
                    client@,
                    r@[2]->Ok_0,
                    state.user.total_xp as i64,
                    state.user.current_streak as i64,
                    today@,
                ),
            ),
    {
        let mut out: Vec<Result<HttpRequest, SupabaseError>> = Vec::new();
        if !self.is_authenticated() {
            return out;
        }
        out.push(
            client.insert_challenge_attempt_request(
                challenge_id,
                language_id,
                correct,
                attempt_num as i64,
            ),
        );
        let unlocked = modules_to_i64(state.progress.unlocked_modules.as_slice());
        out.push(
            client.upsert_language_progress_request(
                language_id,
                state.progress.active_module as i64,
                unlocked.as_slice(),
                state.progress.xp as i64,
            ),
        );
        out.push(
            client.upsert_user_state_request(
                state.user.total_xp as i64,
                state.user.current_streak as i64,
                today,
            ),
        );
        out
    }

    /// The requests after the streak moved, in order: today's streak log,
    /// the user state. None when not authenticated.
    pub fn streak_sync_requests<S: SecureStorage>(
        &self,
        client: &SupabaseClient<S>,
        state: &AppState,
        today: &str,
    ) -> (r: Vec<
        Result<HttpRequest, SupabaseError>,
    >)
        ensures
            !self.is_authenticated() ==> r@.len() == 0,
            self.is_authenticated() ==> r@.len() == 2 && planned(
                client@,
                r@[0],
                streak_request(client@, r@[0]->Ok_0, today@),
            ) && planned(
                client@,
                r@[1],
                user_state_request(
                    client@,
                    r@[1]->Ok_0,
                    state.user.total_xp as i64,
                    state.user.current_streak as i64,
                    today@,
                ),
            ),
    {
        let mut out: Vec<Result<HttpRequest, SupabaseError>> = Vec::new();
        if !self.is_authenticated() {
            return out;
        }
        out.push(client.insert_streak_log_request(today));
        out.push(
            client.upsert_user_state_request(
                state.user.total_xp as i64,
                state.user.current_streak as i64,
                today,
            ),
        );
        out
    }

    /// The request after a purchase: the language progress with every
    /// unlocked module. None when not authenticated.
    pub fn purchase_sync_requests<S: SecureStorage>(
        &self,
        client: &SupabaseClient<S>,
        state: &AppState,
    ) -> (r: Vec<
        Result<HttpRequest, SupabaseError>,
    >)
        ensures
            !self.is_authenticated() ==> r@.len() == 0,
            self.is_authenticated() ==> r@.len() == 1 && planned(
                client@,
                r@[0],
                progress_request(
                    client@,
                    r@[0]->Ok_0,
                    state.progress.language_id@,
                    state.progress.active_module as i64,
                    modules_as_i64(state.progress.unlocked_modules@),
                    state.progress.xp as i64,
                ),
            ),
    {
        let mut out: Vec<Result<HttpRequest, SupabaseError>> = Vec::new();
        if !self.is_authenticated() {
            return out;
        }
        let unlocked = modules_to_i64(state.progress.unlocked_modules.as_slice());
        out.push(
            client.upsert_language_progress_request(
                state.progress.language_id.as_str(),
                state.progress.active_module as i64,
                unlocked.as_slice(),
                state.progress.xp as i64,
            ),
        );
        out
    }
}

/// The module ids as the database stores them.
pub fn modules_to_i64(m: &[u32]) -> (r: Vec<i64>)
    ensures
        r@ == modules_as_i64(m@),
{
    let mut r: Vec<i64> = Vec::new();
    let mut i: usize = 0;
    while i < m.len()
        invariant
            i <= m@.len(),
            r@ == modules_as_i64(m@.take(i as int)),
        decreases m@.len() - i,
    {
        r.push(m[i] as i64);
        assert(modules_as_i64(m@.take(i + 1)) =~= modules_as_i64(m@.take(i as int)).push(
            m@[i as int] as i64,
        ));
        i = i + 1;
    }
    assert(m@.take(m@.len() as int) =~= m@);
    r
}

/// Merges the server's user state into the local one: XP, current and
/// longest streak each keep the larger value. Nothing else changes.
pub fn merge_server_state(state: &mut AppState, row: &UserStateRow)
    ensures
        final(state).user.total_xp == merged(old(state).user.total_xp, row.total_xp),
        final(state).user.current_streak == merged(old(state).user.current_streak, row.current_streak),
        final(state).user.longest_streak == merged(old(state).user.longest_streak, row.longest_streak),
        final(state).user == (crate::models::UserState {
            total_xp: final(state).user.total_xp,
            current_streak: final(state).user.current_streak,
            longest_streak: final(state).user.longest_streak,
            ..old(state).user
        }),
        *final(state) == (AppState { user: final(state).user, ..*old(state) }),
        // Merging never lowers a counter.
        final(state).user.total_xp >= old(state).user.total_xp,
        final(state).user.current_streak >= old(state).user.current_streak,
        final(state).user.longest_streak >= old(state).user.longest_streak,
{
    if row.total_xp as u32 > state.user.total_xp {
        state.user.total_xp = row.total_xp as u32;
    }
    if row.current_streak as u32 > state.user.current_streak {
        state.user.current_streak = row.current_streak as u32;
    }
    if row.longest_streak as u32 > state.user.longest_streak {
        state.user.longest_streak = row.longest_streak as u32;
    }
}

/// Merging the same server state twice is merging it once.
pub proof fn law_merge_idempotent(local: u32, server: i64)
    ensures
        merged(merged(local, server), server) == merged(local, server),
{
}

/// Whichever of two server states is merged first, the result is the same.
pub proof fn law_merge_order_free(local: u32, a: i64, b: i64)
    ensures
        merged(merged(local, a), b) == merged(merged(local, b), a),
{
}

/// Start-up runs once: once finished, no event asks for anything more;
/// and it ends offline only after a failed sign-in.
pub proof fn law_init_runs_once(phase: InitPhase, e: InitEvent)
    ensures
        phase == InitPhase::Done ==> init_next(phase, e) == (InitPhase::Done, InitAction::Wait),
        init_next(phase, e).1 == InitAction::Finish(Ok(false)) ==> phase == InitPhase::SigningIn
            && e is SignedIn && e->SignedIn_0 is Err,
        init_next(phase, e).1 is Finish ==> init_next(phase, e).0 == InitPhase::Done,
{
}

} // verus!
