//! The Supabase client's session and rules: anonymous auth, the session
//! tokens kept in secure storage, the requests of each CRUD call with their
//! headers, how each response is judged, and the user id carried in a JWT.
//! The app performs the HTTP exchanges these rules describe.
use vstd::prelude::*;
use std::sync::Arc;
use crate::services::platform::{SecureStorage, StorageError};
use crate::text::{chars_of, decimal, owned, split_chars, split_on, starts_with, string_from};
use vstd::utf8::{decode_utf8, encode_utf8, valid_utf8};

verus! {

broadcast use vstd::string::group_string_axioms;

/// Where the session JWT is kept in secure storage.
pub const JWT_STORAGE_KEY: &'static str = "supabase_jwt";

/// Where the refresh token is kept in secure storage.
pub const REFRESH_TOKEN_STORAGE_KEY: &'static str = "supabase_refresh_token";

// ── Error types ──

#[derive(Debug, Clone, PartialEq)]
pub enum SupabaseError {
    /// Network is unreachable or request timed out
    NetworkError(String),
    /// Authentication failed (invalid key, expired token, etc.)
    AuthError(String),
    /// Server returned an error response
    ApiError { status: u16, message: String },
    /// Failed to parse response body
    ParseError(String),
    /// JWT storage read/write failed
    StorageError(String),
    /// No valid JWT available (not authenticated)
    NotAuthenticated,
}

/// The text an error is shown with.
pub open spec fn error_text(e: SupabaseError) -> Seq<char> {
    match e {
        SupabaseError::NetworkError(m) => "Network error: "@ + m@,
        SupabaseError::AuthError(m) => "Auth error: "@ + m@,
        SupabaseError::ApiError { status, message } => "API error ("@ + decimal(status as nat)
            + "): "@ + message@,
        SupabaseError::ParseError(m) => "Parse error: "@ + m@,
        SupabaseError::StorageError(m) => "Storage error: "@ + m@,
        SupabaseError::NotAuthenticated => "Not authenticated"@,
    }
}

impl SupabaseError {
    /// The text the error is shown with; it holds no token.
    pub fn to_string(&self) -> (r: String)
        ensures
            r@ == error_text(*self),
    {
        match self {
            SupabaseError::NetworkError(m) => {
                let mut r = owned("Network error: ");
                r.append(m.as_str());
                r
            },
            SupabaseError::AuthError(m) => {
                let mut r = owned("Auth error: ");
                r.append(m.as_str());
                r
            },
            SupabaseError::ApiError { status, message } => {
                let mut r = owned("API error (");
                crate::text::push_decimal(&mut r, *status as u64);
                r.append("): ");
                r.append(message.as_str());
                r
            },
            SupabaseError::ParseError(m) => {
                let mut r = owned("Parse error: ");
                r.append(m.as_str());
                r
            },
            SupabaseError::StorageError(m) => {
                let mut r = owned("Storage error: ");
                r.append(m.as_str());
                r
            },
            SupabaseError::NotAuthenticated => owned("Not authenticated"),
        }
    }
}

/// What `{:?}` prints for a storage error.
pub uninterp spec fn storage_error_debug(e: StorageError) -> Seq<char>;

/// A storage error as `{:?}` prints it (the derived `Debug` of
/// `StorageError`, through `format!`): the text is named, not spelled out.
#[verifier::external_body]
fn storage_error_text(e: &StorageError) -> (r: String)
    ensures
        r@ == storage_error_debug(*e),
{
    format!("{:?}", e)
}

// ── Auth response types ──

#[derive(Debug, Clone)]
pub struct AuthResponse {
    pub access_token: String,
    pub refresh_token: String,
    pub token_type: String,
    pub expires_in: u64,
    pub user: AuthUser,
}

#[derive(Debug, Clone)]
pub struct AuthUser {
    pub id: String,
    pub email: Option<String>,
    pub is_anonymous: Option<bool>,
}

// ── Database row types (matching the Supabase schema) ──

#[derive(Debug, Clone, PartialEq)]
pub struct UserStateRow {
    pub id: String,
    pub total_xp: i64,
    pub current_streak: i64,
    pub longest_streak: i64,
    pub last_active: Option<String>,
}

#[derive(Debug, Clone, PartialEq)]
pub struct LanguageProgressRow {
    pub id: Option<String>,
    pub user_id: String,
    pub language_id: String,
    pub xp: i64,
    pub active_module: i64,
    pub unlocked_modules: Vec<i64>,
}

#[derive(Debug, Clone, PartialEq)]
pub struct ChallengeAttemptRow {
    pub id: Option<String>,
    pub user_id: String,
    pub challenge_id: String,
    pub language_id: String,
    pub correct: bool,
    pub attempt_num: i64,
    pub attempted_at: Option<String>,
}

#[derive(Debug, Clone, PartialEq)]
pub struct StreakLogRow {
    pub user_id: String,
    pub day: String,
}

// ── HTTP exchange ──

#[derive(Debug, Clone)]
pub struct HttpResponse {
    pub status: u16,
    pub body: String,
}

/// The JSON body of a request, as the values it carries; the app writes it
/// out as a JSON object with these fields.
#[derive(Debug, Clone)]
pub enum RequestBody {
    /// No body.
    NoBody,
    /// `{}`.
    EmptyObject,
    /// `{"refresh_token": ..}`.
    RefreshToken { refresh_token: String },
    /// `{"id", "total_xp", "current_streak", "last_active"}`.
    UserState { id: String, total_xp: i64, current_streak: i64, last_active: String },
    /// `{"user_id", "language_id", "active_module", "unlocked_modules", "xp"}`.
    LanguageProgress {
        user_id: String,
        language_id: String,
        active_module: i64,
        unlocked_modules: Vec<i64>,
        xp: i64,
    },
    /// `{"user_id", "challenge_id", "language_id", "correct", "attempt_num"}`.
    ChallengeAttempt {
        user_id: String,
        challenge_id: String,
        language_id: String,
        correct: bool,
        attempt_num: i64,
    },
    /// `{"user_id", "day"}`.
    StreakLog { user_id: String, day: String },
}

/// A request to send: method, URL, headers and body.
#[derive(Debug, Clone)]
pub struct HttpRequest {
    pub method: String,
    pub url: String,
    pub headers: Vec<(String, String)>,
    pub body: RequestBody,
}

/// Header pairs as text.
pub open spec fn header_views(h: Seq<(String, String)>) -> Seq<(Seq<char>, Seq<char>)> {
    h.map_values(|p: (String, String)| (p.0@, p.1@))
}

/// An optional string as text.
pub open spec fn opt_view(o: Option<String>) -> Option<Seq<char>> {
    match o {
        Some(s) => Some(s@),
        None => None,
    }
}

/// The `Authorization` value for a session: `Bearer ` and the JWT, or
/// nothing after it without one.
pub open spec fn bearer(jwt: Option<Seq<char>>) -> Seq<char> {
    "Bearer "@ + match jwt {
        Some(t) => t,
        None => Seq::<char>::empty(),
    }
}

/// The configuration, tokens and user of a client.
pub struct Session {
    pub base_url: Seq<char>,
    pub anon_key: Seq<char>,
    pub jwt: Option<Seq<char>>,
    pub refresh_token: Option<Seq<char>>,
    pub user_id: Option<Seq<char>>,
}

// ── Supabase Client ──

/// The client's configuration and session. Requests are planned here and
/// sent by the app; responses are judged here.
pub struct SupabaseClient<S: SecureStorage> {
    base_url: String,
    anon_key: String,
    jwt: Option<String>,
    refresh_token: Option<String>,
    user_id: Option<String>,
    storage: Arc<S>,
    /// The keys read from secure storage, in order.
    reads: Ghost<Seq<Seq<char>>>,
    /// The (key, value) pairs handed to secure storage to keep, in order.
    writes: Ghost<Seq<(Seq<char>, Seq<char>)>>,
}

impl<S: SecureStorage> View for SupabaseClient<S> {
    type V = Session;

    closed spec fn view(&self) -> Session {
        Session {
            base_url: self.base_url@,
            anon_key: self.anon_key@,
            jwt: opt_view(self.jwt),
            refresh_token: opt_view(self.refresh_token),
            user_id: opt_view(self.user_id),
        }
    }
}

fn clone_opt(o: &Option<String>) -> (r: Option<String>)
    ensures
        opt_view(r) == opt_view(*o),
{
    match o {
        Some(s) => Some(owned(s.as_str())),
        None => None,
    }
}

fn pair(k: &str, v: &str) -> (r: (String, String))
    ensures
        r.0@ == k@,
        r.1@ == v@,
{
    (owned(k), owned(v))
}

/// `base` followed by `path`.
fn url_of(base: &String, path: &str) -> (r: String)
    ensures
        r@ == base@ + path@,
{
    let mut r = owned(base.as_str());
    r.append(path);
    r
}

/// The headers of the auth endpoints.
pub open spec fn anon_headers_view(anon_key: Seq<char>) -> Seq<(Seq<char>, Seq<char>)> {
    seq![("apikey"@, anon_key), ("Content-Type"@, "application/json"@)]
}

/// The headers of every data request: the key and the session's bearer.
pub open spec fn authed_headers_view(anon_key: Seq<char>, jwt: Option<Seq<char>>) -> Seq<
    (Seq<char>, Seq<char>),
> {
    seq![("apikey"@, anon_key), ("Authorization"@, bearer(jwt))]
}

/// The header asking PostgREST to merge a row with an existing one.
pub open spec fn merge_header() -> (Seq<char>, Seq<char>) {
    ("Prefer"@, "resolution=merge-duplicates"@)
}

pub open spec fn json_header() -> (Seq<char>, Seq<char>) {
    ("Content-Type"@, "application/json"@)
}

/// Headers with every `Authorization` value replaced by the bearer of `jwt`.
pub open spec fn rebuilt_headers(h: Seq<(Seq<char>, Seq<char>)>, jwt: Option<Seq<char>>) -> Seq<
    (Seq<char>, Seq<char>),
> {
    h.map_values(
        |p: (Seq<char>, Seq<char>)|
            if p.0 == "Authorization"@ {
                (p.0, bearer(jwt))
            } else {
                p
            },
    )
}

/// `q` upserts the user's row of session `s` with these values, merging with
/// an existing row.
pub open spec fn user_state_request(s: Session, q: HttpRequest, xp: i64, streak: i64, day: Seq<char>) -> bool {
    &&& s.user_id is Some
    &&& q.method@ == "POST"@
    &&& q.url@ == s.base_url + "/rest/v1/user_state"@
    &&& header_views(q.headers@) == authed_headers_view(s.anon_key, s.jwt) + seq![
        merge_header(),
        json_header(),
    ]
    &&& q.body matches RequestBody::UserState { id, total_xp, current_streak, last_active } && id@
        == s.user_id->Some_0 && total_xp == xp && current_streak == streak && last_active@ == day
}

/// `q` fetches the user's row of session `s`.
pub open spec fn fetch_user_state_request_is(s: Session, q: HttpRequest) -> bool {
    &&& s.user_id is Some
    &&& q.method@ == "GET"@
    &&& q.url@ == s.base_url + "/rest/v1/user_state?id=eq."@ + s.user_id->Some_0
    &&& header_views(q.headers@) == authed_headers_view(s.anon_key, s.jwt)
    &&& q.body is NoBody
}

/// `q` upserts the progress row of a language for the user of session `s`.
pub open spec fn progress_request(
    s: Session,
    q: HttpRequest,
    language_id: Seq<char>,
    active_module: i64,
    unlocked_modules: Seq<i64>,
    xp: i64,
) -> bool {
    &&& s.user_id is Some
    &&& q.method@ == "POST"@
    &&& q.url@ == s.base_url + "/rest/v1/language_progress"@
    &&& header_views(q.headers@) == authed_headers_view(s.anon_key, s.jwt) + seq![
        merge_header(),
        json_header(),
    ]
    &&& q.body matches RequestBody::LanguageProgress {
        user_id,
        language_id: lang,
        active_module: am,
        unlocked_modules: um,
        xp: x,
    } && user_id@ == s.user_id->Some_0 && lang@ == language_id && am == active_module && um@
        == unlocked_modules && x == xp
}

/// `q` appends a challenge attempt of the user of session `s`.
pub open spec fn attempt_request(
    s: Session,
    q: HttpRequest,
    challenge_id: Seq<char>,
    language_id: Seq<char>,
    correct: bool,
    attempt_num: i64,
) -> bool {
    &&& s.user_id is Some
    &&& q.method@ == "POST"@
    &&& q.url@ == s.base_url + "/rest/v1/challenge_attempts"@
    &&& header_views(q.headers@) == authed_headers_view(s.anon_key, s.jwt) + seq![json_header()]
    &&& q.body matches RequestBody::ChallengeAttempt {
        user_id,
        challenge_id: cid,
        language_id: lang,
        correct: ok,
        attempt_num: n,
    } && user_id@ == s.user_id->Some_0 && cid@ == challenge_id && lang@ == language_id && ok
        == correct && n == attempt_num
}

/// `q` records a streak day of the user of session `s`, merging with the
/// same day.
pub open spec fn streak_request(s: Session, q: HttpRequest, day: Seq<char>) -> bool {
    &&& s.user_id is Some
    &&& q.method@ == "POST"@
    &&& q.url@ == s.base_url + "/rest/v1/streak_log"@
    &&& header_views(q.headers@) == authed_headers_view(s.anon_key, s.jwt) + seq![
        merge_header(),
        json_header(),
    ]
    &&& q.body matches RequestBody::StreakLog { user_id, day: d } && user_id@ == s.user_id->Some_0
        && d@ == day
}

/// A data request for session `s`: without a user it is `NotAuthenticated`;
/// with one it satisfies `ok`.
pub open spec fn planned(s: Session, r: Result<HttpRequest, SupabaseError>, ok: bool) -> bool {
    match s.user_id {
        None => r == Err::<HttpRequest, SupabaseError>(SupabaseError::NotAuthenticated),
        Some(_) => r is Ok && ok,
    }
}

/// `b` is session `a` after taking up a stored JWT and refresh token, `r`
/// whether it did: a non-empty JWT becomes the session's, with the refresh
/// token if one was stored and the user id the JWT carries if it carries
/// one; without one nothing changes.
pub open spec fn rehydrated(
    a: Session,
    jwt: Option<Seq<char>>,
    refresh: Option<Seq<char>>,
    b: Session,
    r: bool,
) -> bool {
    &&& r == (jwt is Some && jwt->Some_0.len() > 0)
    &&& r ==> b == (Session {
        jwt: jwt,
        refresh_token: match refresh {
            Some(t) => Some(t),
            None => a.refresh_token,
        },
        user_id: match jwt_user_id(jwt->Some_0) {
            Some(u) => Some(u),
            None => a.user_id,
        },
        ..a
    })
    &&& !r ==> b == a
}

/// `b` is session `a` after taking up whatever JWT and refresh token
/// storage held, `r` whether it took up a JWT.
pub open spec fn rehydrated_from_some(a: Session, b: Session, r: bool) -> bool {
    exists|jwt: Option<Seq<char>>, refresh: Option<Seq<char>>| #[trigger] rehydrated(a, jwt, refresh, b, r)
}

/// `e` reports a failure of secure storage, with the text the storage
/// error prints.
pub open spec fn storage_failure(e: SupabaseError) -> bool {
    e matches SupabaseError::StorageError(m) && exists|se: StorageError| m@ == #[trigger] storage_error_debug(se)
}

impl<S: SecureStorage> SupabaseClient<S> {
    /// The keys this client has read from secure storage, in order.
    pub closed spec fn storage_reads(&self) -> Seq<Seq<char>> {
        self.reads@
    }

    /// The (key, value) pairs this client has handed to secure storage to
    /// keep, in order.
    pub closed spec fn storage_writes(&self) -> Seq<(Seq<char>, Seq<char>)> {
        self.writes@
    }

    /// Reads `key` from secure storage.
    fn read_key(&mut self, key: &str) -> (r: Result<Option<String>, StorageError>)
        ensures
            final(self)@ == old(self)@,
            final(self).storage_reads() == old(self).storage_reads().push(key@),
            final(self).storage_writes() == old(self).storage_writes(),
    {
        let r = self.storage.get(key);
        self.reads = Ghost(self.reads@.push(key@));
        r
    }

    /// Hands `value` to secure storage to keep under `key`.
    fn write_key(&mut self, key: &str, value: &str) -> (r: Result<(), StorageError>)
        ensures
            final(self)@ == old(self)@,
            final(self).storage_reads() == old(self).storage_reads(),
            final(self).storage_writes() == old(self).storage_writes().push((key@, value@)),
    {
        let r = self.storage.set(key, value);
        self.writes = Ghost(self.writes@.push((key@, value@)));
        r
    }

    /// A client with no session.
    pub fn new(base_url: &str, anon_key: &str, storage: Arc<S>) -> (r: Self)
        ensures
            r@.base_url == base_url@,
            r@.anon_key == anon_key@,
            r@.jwt is None,
            r@.refresh_token is None,
            r@.user_id is None,
            r.storage_reads().len() == 0,
            r.storage_writes().len() == 0,
    {
        SupabaseClient {
            base_url: owned(base_url),
            anon_key: owned(anon_key),
            jwt: None,
            refresh_token: None,
            user_id: None,
            storage,
            reads: Ghost(Seq::empty()),
            writes: Ghost(Seq::empty()),
        }
    }

    /// Takes up a session read back from storage, without any network call:
    /// a non-empty JWT becomes the session's, with the refresh token if one
    /// was stored and the user id the JWT carries if it carries one. Returns
    /// whether there was such a JWT; without one nothing changes.
    pub fn rehydrate_with(&mut self, jwt: Option<String>, refresh: Option<String>) -> (r: bool)
        ensures
            rehydrated(old(self)@, opt_view(jwt), opt_view(refresh), final(self)@, r),
            final(self).storage_reads() == old(self).storage_reads(),
            final(self).storage_writes() == old(self).storage_writes(),
    {
        match jwt {
            Some(token) => {
                if token.as_str().is_empty() {
                    return false;
                }
                let uid = extract_user_id_from_jwt(token.as_str());
                self.jwt = Some(token);
                match refresh {
                    Some(rt) => {
                        self.refresh_token = Some(rt);
                    },
                    None => {},
                }
                match uid {
                    Some(u) => {
                        self.user_id = Some(u);
                    },
                    None => {},
                }
                true
            },
            None => false,
        }
    }

    /// Reads the stored JWT and refresh token and takes them up as
    /// `rehydrate_with` does. A storage failure is reported and changes
    /// nothing. What storage holds is not known here.
    pub fn rehydrate_from_storage(&mut self) -> (r: Result<bool, SupabaseError>)
        ensures
            r is Err ==> final(self)@ == old(self)@ && storage_failure(r->Err_0),
            r is Ok ==> rehydrated_from_some(old(self)@, final(self)@, r->Ok_0),
            r is Ok ==> final(self).storage_reads() == old(self).storage_reads() + seq![
                JWT_STORAGE_KEY@,
                REFRESH_TOKEN_STORAGE_KEY@,
            ],
            r is Err ==> final(self).storage_reads() == old(self).storage_reads().push(JWT_STORAGE_KEY@)
                || final(self).storage_reads() == old(self).storage_reads() + seq![
                JWT_STORAGE_KEY@,
                REFRESH_TOKEN_STORAGE_KEY@,
            ],
            final(self).storage_writes() == old(self).storage_writes(),
    {
        let jwt = match self.read_key(JWT_STORAGE_KEY) {
            Ok(v) => v,
            Err(e) => {
                return Err(SupabaseError::StorageError(storage_error_text(&e)));
            },
        };
        let refresh = match self.read_key(REFRESH_TOKEN_STORAGE_KEY) {
            Ok(v) => v,
            Err(e) => {
                return Err(SupabaseError::StorageError(storage_error_text(&e)));
            },
        };
        let ghost (j, t) = (opt_view(jwt), opt_view(refresh));
        let took = self.rehydrate_with(jwt, refresh);
        assert(rehydrated(old(self)@, j, t, self@, took));
        assert(rehydrated_from_some(old(self)@, self@, took));
        Ok(took)
    }

    /// Makes an auth response the session: its access token, refresh token
    /// and user id.
    pub fn apply_auth(&mut self, auth: &AuthResponse)
        ensures
            final(self)@.jwt == Some(auth.access_token@),
            final(self)@.refresh_token == Some(auth.refresh_token@),
            final(self)@.user_id == Some(auth.user.id@),
            final(self)@.base_url == old(self)@.base_url,
            final(self)@.anon_key == old(self)@.anon_key,
            final(self).storage_reads() == old(self).storage_reads(),
            final(self).storage_writes() == old(self).storage_writes(),
    {
        self.jwt = Some(owned(auth.access_token.as_str()));
        self.refresh_token = Some(owned(auth.refresh_token.as_str()));
        self.user_id = Some(owned(auth.user.id.as_str()));
    }

    /// Keeps an auth response's tokens in secure storage, then makes it the
    /// session. A storage failure is reported and leaves the session as it
    /// was.
    pub fn store_session(&mut self, auth: &AuthResponse) -> (r: Result<(), SupabaseError>)
        ensures
            r is Ok ==> final(self)@.jwt == Some(auth.access_token@) && final(self)@.refresh_token
                == Some(auth.refresh_token@) && final(self)@.user_id == Some(auth.user.id@),
            r is Err ==> final(self)@ == old(self)@ && storage_failure(r->Err_0),
            final(self)@.base_url == old(self)@.base_url,
            final(self)@.anon_key == old(self)@.anon_key,
            r is Ok ==> final(self).storage_writes() == old(self).storage_writes() + seq![
                (JWT_STORAGE_KEY@, auth.access_token@),
                (REFRESH_TOKEN_STORAGE_KEY@, auth.refresh_token@),
            ],
            r is Err ==> final(self).storage_writes() == old(self).storage_writes().push(
                (JWT_STORAGE_KEY@, auth.access_token@),
            ) || final(self).storage_writes() == old(self).storage_writes() + seq![
                (JWT_STORAGE_KEY@, auth.access_token@),
                (REFRESH_TOKEN_STORAGE_KEY@, auth.refresh_token@),
            ],
            final(self).storage_reads() == old(self).storage_reads(),
    {
        match self.write_key(JWT_STORAGE_KEY, auth.access_token.as_str()) {
            Ok(()) => {},
            Err(e) => {
                return Err(SupabaseError::StorageError(storage_error_text(&e)));
            },
        }
        match self.write_key(REFRESH_TOKEN_STORAGE_KEY, auth.refresh_token.as_str()) {
            Ok(()) => {},
            Err(e) => {
                return Err(SupabaseError::StorageError(storage_error_text(&e)));
            },
        }
        self.apply_auth(auth);
        Ok(())
    }

    /// The project URL.
    pub fn base_url(&self) -> (r: &str)
        ensures
            r@ == self@.base_url,
    {
        self.base_url.as_str()
    }

    /// The public anon key.
    pub fn anon_key(&self) -> (r: &str)
        ensures
            r@ == self@.anon_key,
    {
        self.anon_key.as_str()
    }

    /// The current user id.
    pub fn current_user_id(&self) -> (r: Option<String>)
        ensures
            opt_view(r) == self@.user_id,
    {
        clone_opt(&self.user_id)
    }

    /// The current JWT. Never log it.
    pub fn current_jwt(&self) -> (r: Option<String>)
        ensures
            opt_view(r) == self@.jwt,
    {
        clone_opt(&self.jwt)
    }

    /// The user id, or `NotAuthenticated` without a session.
    pub fn require_user_id(&self) -> (r: Result<String, SupabaseError>)
        ensures
            match self@.user_id {
                Some(u) => r is Ok && r->Ok_0@ == u,
                None => r == Err::<String, SupabaseError>(SupabaseError::NotAuthenticated),
            },
    {
        match &self.user_id {
            Some(u) => Ok(owned(u.as_str())),
            None => Err(SupabaseError::NotAuthenticated),
        }
    }

    /// The headers of the auth endpoints: the key, JSON content.
    pub fn anon_headers(&self) -> (r: Vec<(String, String)>)
        ensures
            header_views(r@) == anon_headers_view(self@.anon_key),
    {
        let mut h: Vec<(String, String)> = Vec::new();
        h.push(pair("apikey", self.anon_key.as_str()));
        h.push(pair("Content-Type", "application/json"));
        assert(header_views(h@) =~= anon_headers_view(self@.anon_key));
        h
    }

    fn bearer_value(&self) -> (r: String)
        ensures
            r@ == bearer(self@.jwt),
    {
        let mut r = owned("Bearer ");
        match &self.jwt {
            Some(t) => {
                r.append(t.as_str());
            },
            None => {
                assert(r@ + Seq::<char>::empty() =~= r@);
            },
        }
        r
    }

    /// The headers of every data request: the key and the session's bearer
    /// (an empty one without a session).
    pub fn authed_headers(&self) -> (r: Vec<(String, String)>)
        ensures
            header_views(r@) == authed_headers_view(self@.anon_key, self@.jwt),
    {
        let mut h: Vec<(String, String)> = Vec::new();
        h.push(pair("apikey", self.anon_key.as_str()));
        h.push((owned("Authorization"), self.bearer_value()));
        assert(header_views(h@) =~= authed_headers_view(self@.anon_key, self@.jwt));
        h
    }

    /// The data-request headers followed by `extra`.
    pub fn authed_headers_with(&self, extra: &[(String, String)]) -> (r: Vec<(String, String)>)
        ensures
            header_views(r@) == authed_headers_view(self@.anon_key, self@.jwt) + header_views(
                extra@,
            ),
    {
        let mut h = self.authed_headers();
        let ghost start = header_views(h@);
        let mut i: usize = 0;
        while i < extra.len()
            invariant
                i <= extra@.len(),
                start == authed_headers_view(self@.anon_key, self@.jwt),
                header_views(h@) == start + header_views(extra@.take(i as int)),
            decreases extra@.len() - i,
        {
            let ghost prev = h@;
            h.push((owned(extra[i].0.as_str()), owned(extra[i].1.as_str())));
            assert(header_views(h@) =~= header_views(prev).push((extra@[i as int].0@, extra@[i as int].1@)));
            assert(header_views(extra@.take(i + 1)) =~= header_views(extra@.take(i as int)).push(
                (extra@[i as int].0@, extra@[i as int].1@),
            ));
            assert(header_views(h@) =~= start + header_views(extra@.take(i + 1)));
            i = i + 1;
        }
        assert(extra@.take(extra@.len() as int) =~= extra@);
        h
    }

    /// A header list with its `Authorization` values renewed from the
    /// current session.
    pub fn rebuild_headers_from(&self, sent: &[(String, String)]) -> (r: Vec<(String, String)>)
        ensures
            header_views(r@) == rebuilt_headers(header_views(sent@), self@.jwt),
    {
        let mut h: Vec<(String, String)> = Vec::new();
        let ghost hv = header_views(sent@);
        let mut i: usize = 0;
        while i < sent.len()
            invariant
                i <= sent@.len(),
                hv == header_views(sent@),
                header_views(h@) == rebuilt_headers(hv.take(i as int), self@.jwt),
            decreases sent@.len() - i,
        {
            let (k, v) = &sent[i];
            let ghost prev = h@;
            if crate::text::str_eq(k.as_str(), "Authorization") {
                h.push((owned(k.as_str()), self.bearer_value()));
            } else {
                h.push((owned(k.as_str()), owned(v.as_str())));
            }
            assert(hv.take(i + 1) =~= hv.take(i as int).push(hv[i as int]));
            assert(header_views(h@) =~= header_views(prev).push(
                if hv[i as int].0 == "Authorization"@ {
                    (hv[i as int].0, bearer(self@.jwt))
                } else {
                    hv[i as int]
                },
            ));
            assert(header_views(h@) =~= rebuilt_headers(hv.take(i + 1), self@.jwt));
            i = i + 1;
        }
        assert(hv.take(sent@.len() as int) =~= hv);
        h
    }

    /// The anonymous sign-up request: `POST <base>/auth/v1/signup` with `{}`.
    pub fn signup_request(&self) -> (r: HttpRequest)
        ensures
            r.method@ == "POST"@,
            r.url@ == self@.base_url + "/auth/v1/signup"@,
            header_views(r.headers@) == anon_headers_view(self@.anon_key),
            r.body is EmptyObject,
    {
        HttpRequest {
            method: owned("POST"),
            url: url_of(&self.base_url, "/auth/v1/signup"),
            headers: self.anon_headers(),
            body: RequestBody::EmptyObject,
        }
    }

    /// The token refresh request, or `NotAuthenticated` without a refresh
    /// token.
    pub fn refresh_request(&self) -> (r: Result<HttpRequest, SupabaseError>)
        ensures
            match self@.refresh_token {
                None => r == Err::<HttpRequest, SupabaseError>(SupabaseError::NotAuthenticated),
                Some(t) => r is Ok && {
                    let q = r->Ok_0;
                    &&& q.method@ == "POST"@
                    &&& q.url@ == self@.base_url + "/auth/v1/token?grant_type=refresh_token"@
                    &&& header_views(q.headers@) == anon_headers_view(self@.anon_key)
                    &&& q.body matches RequestBody::RefreshToken { refresh_token } && refresh_token@
                        == t
                },
            },
    {
        match &self.refresh_token {
            None => Err(SupabaseError::NotAuthenticated),
            Some(rt) => Ok(
                HttpRequest {
                    method: owned("POST"),
                    url: url_of(&self.base_url, "/auth/v1/token?grant_type=refresh_token"),
                    headers: self.anon_headers(),
                    body: RequestBody::RefreshToken { refresh_token: owned(rt.as_str()) },
                },
            ),
        }
    }

    fn merge_json_headers(&self) -> (r: Vec<(String, String)>)
        ensures
            header_views(r@) == authed_headers_view(self@.anon_key, self@.jwt) + seq![
                merge_header(),
                json_header(),
            ],
    {
        let mut extra: Vec<(String, String)> = Vec::new();
        extra.push(pair("Prefer", "resolution=merge-duplicates"));
        extra.push(pair("Content-Type", "application/json"));
        assert(header_views(extra@) =~= seq![merge_header(), json_header()]);
        self.authed_headers_with(extra.as_slice())
    }

    /// Upserts the user's row (XP, streak, last active day), merging with an
    /// existing one.
    pub fn upsert_user_state_request(&self, xp: i64, streak: i64, last_active: &str) -> (r: Result<
        HttpRequest,
        SupabaseError,
    >)
        ensures
            planned(self@, r, user_state_request(self@, r->Ok_0, xp, streak, last_active@)),

    {
        let uid = match self.require_user_id() {
            Ok(u) => u,
            Err(e) => {
                return Err(e);
            },
        };
        Ok(
            HttpRequest {
                method: owned("POST"),
                url: url_of(&self.base_url, "/rest/v1/user_state"),
                headers: self.merge_json_headers(),
                body: RequestBody::UserState {
                    id: uid,
                    total_xp: xp,
                    current_streak: streak,
                    last_active: owned(last_active),
                },
            },
        )
    }

    /// Fetches the user's row: `GET <base>/rest/v1/user_state?id=eq.<user>`.
    pub fn fetch_user_state_request(&self) -> (r: Result<HttpRequest, SupabaseError>)
        ensures
            planned(self@, r, fetch_user_state_request_is(self@, r->Ok_0)),

    {
        let uid = match self.require_user_id() {
            Ok(u) => u,
            Err(e) => {
                return Err(e);
            },
        };
        let mut url = url_of(&self.base_url, "/rest/v1/user_state?id=eq.");
        url.append(uid.as_str());
        Ok(
            HttpRequest {
                method: owned("GET"),
                url,
                headers: self.authed_headers(),
                body: RequestBody::NoBody,
            },
        )
    }

    /// Upserts the progress row of a language, merging with an existing one.
    pub fn upsert_language_progress_request(
        &self,
        language_id: &str,
        active_module: i64,
        unlocked_modules: &[i64],
        xp: i64,
    ) -> (r: Result<HttpRequest, SupabaseError>)
        ensures
            planned(
                self@,
                r,
                progress_request(
                    self@,
                    r->Ok_0,
                    language_id@,
                    active_module,
                    unlocked_modules@,
                    xp,
                ),
            ),

    {
        let uid = match self.require_user_id() {
            Ok(u) => u,
            Err(e) => {
                return Err(e);
            },
        };
        let mut unlocked: Vec<i64> = Vec::new();
        let mut i: usize = 0;
        while i < unlocked_modules.len()
            invariant
                i <= unlocked_modules@.len(),
                unlocked@ == unlocked_modules@.take(i as int),
            decreases unlocked_modules@.len() - i,
        {
            unlocked.push(unlocked_modules[i]);
            assert(unlocked_modules@.take(i + 1) =~= unlocked_modules@.take(i as int).push(
                unlocked_modules@[i as int],
            ));
            i = i + 1;
        }
        assert(unlocked_modules@.take(unlocked_modules@.len() as int) =~= unlocked_modules@);
        Ok(
            HttpRequest {
                method: owned("POST"),
                url: url_of(&self.base_url, "/rest/v1/language_progress"),
                headers: self.merge_json_headers(),
                body: RequestBody::LanguageProgress {
                    user_id: uid,
                    language_id: owned(language_id),
                    active_module,
                    unlocked_modules: unlocked,
                    xp,
                },
            },
        )
    }

    /// Appends a challenge attempt to the attempt log.
    pub fn insert_challenge_attempt_request(
        &self,
        challenge_id: &str,
        language_id: &str,
        correct: bool,
        attempt_num: i64,
    ) -> (r: Result<HttpRequest, SupabaseError>)
        ensures
            planned(
                self@,
                r,
                attempt_request(self@, r->Ok_0, challenge_id@, language_id@, correct, attempt_num),
            ),

    {
        let uid = match self.require_user_id() {
            Ok(u) => u,
            Err(e) => {
                return Err(e);
            },
        };
        let mut extra: Vec<(String, String)> = Vec::new();
        extra.push(pair("Content-Type", "application/json"));
        assert(header_views(extra@) =~= seq![json_header()]);
        Ok(
            HttpRequest {
                method: owned("POST"),
                url: url_of(&self.base_url, "/rest/v1/challenge_attempts"),
                headers: self.authed_headers_with(extra.as_slice()),
                body: RequestBody::ChallengeAttempt {
                    user_id: uid,
                    challenge_id: owned(challenge_id),
                    language_id: owned(language_id),
                    correct,
                    attempt_num,
                },
            },
        )
    }

    /// Records a streak day, merging with the same day if it is there.
    pub fn insert_streak_log_request(&self, day: &str) -> (r: Result<HttpRequest, SupabaseError>)
        ensures
            planned(self@, r, streak_request(self@, r->Ok_0, day@)),

    {
        let uid = match self.require_user_id() {
            Ok(u) => u,
            Err(e) => {
                return Err(e);
            },
        };
        Ok(
            HttpRequest {
                method: owned("POST"),
                url: url_of(&self.base_url, "/rest/v1/streak_log"),
                headers: self.merge_json_headers(),
                body: RequestBody::StreakLog { user_id: uid, day: owned(day) },
            },
        )
    }
}

// ── Judging responses ──

/// Which auth endpoint a response came from.
#[derive(Debug, Clone, Copy, PartialEq, Eq, Structural)]
pub enum AuthCall {
    SignUp,
    Refresh,
}

/// The words an auth failure opens with.
pub open spec fn auth_failure_label(call: AuthCall) -> Seq<char> {
    match call {
        AuthCall::SignUp => "Authentication failed"@,
        AuthCall::Refresh => "Refresh failed"@,
    }
}

/// Judges a response of an auth endpoint: 401 and 403 are auth failures,
/// other statuses from 400 up are API errors carrying the body, and below
/// 400 the body can be read.
pub fn check_auth_response(call: AuthCall, resp: &HttpResponse) -> (r: Result<(), SupabaseError>)
    ensures
        (resp.status == 401 || resp.status == 403) ==> (r matches Err(SupabaseError::AuthError(m))
            && m@ == auth_failure_label(call) + " ("@ + decimal(resp.status as nat) + "): "@
            + resp.body@),
        (resp.status >= 400 && resp.status != 401 && resp.status != 403) ==> (r matches Err(
            SupabaseError::ApiError { status, message },
        ) && status == resp.status && message@ == resp.body@),
        resp.status < 400 ==> r is Ok,
{
    if resp.status == 401 || resp.status == 403 {
        let mut m = match call {
            AuthCall::SignUp => owned("Authentication failed"),
            AuthCall::Refresh => owned("Refresh failed"),
        };
        m.append(" (");
        crate::text::push_decimal(&mut m, resp.status as u64);
        m.append("): ");
        m.append(resp.body.as_str());
        Err(SupabaseError::AuthError(m))
    } else if resp.status >= 400 {
        Err(SupabaseError::ApiError { status: resp.status, message: owned(resp.body.as_str()) })
    } else {
        Ok(())
    }
}

/// Judges the response of a data request: statuses from 400 up are API
/// errors carrying the body.
pub fn check_data_response(resp: &HttpResponse) -> (r: Result<(), SupabaseError>)
    ensures
        resp.status >= 400 ==> (r matches Err(SupabaseError::ApiError { status, message })
            && status == resp.status && message@ == resp.body@),
        resp.status < 400 ==> r is Ok,
{
    if resp.status >= 400 {
        Err(SupabaseError::ApiError { status: resp.status, message: owned(resp.body.as_str()) })
    } else {
        Ok(())
    }
}

/// What to do with the first response of a data request.
#[derive(Debug, Clone, Copy, PartialEq, Eq, Structural)]
pub enum RetryStep {
    /// Use this response.
    Accept,
    /// The JWT expired: refresh it, then send the request again with
    /// renewed headers.
    RefreshAndRetry,
}

/// A 401 asks for one refresh and one retry; anything else is accepted.
pub fn after_first_response(resp: &HttpResponse) -> (r: RetryStep)
    ensures
        r == if resp.status == 401 {
            RetryStep::RefreshAndRetry
        } else {
            RetryStep::Accept
        },
{
    if resp.status == 401 {
        RetryStep::RefreshAndRetry
    } else {
        RetryStep::Accept
    }
}

/// The error when the JWT expired and could not be refreshed.
pub fn refresh_failed_error(first_body: &str) -> (r: SupabaseError)
    ensures
        r matches SupabaseError::AuthError(m) && m@ == "JWT expired and refresh failed: "@
            + first_body@,
{
    let mut m = owned("JWT expired and refresh failed: ");
    m.append(first_body);
    SupabaseError::AuthError(m)
}

// ── The user id in a JWT ──

/// The payload part of a JWT: the second of exactly three dot-separated
/// parts.
pub open spec fn jwt_payload(token: Seq<char>) -> Option<Seq<char>> {
    let parts = split_on(token, '.');
    if parts.len() == 3 {
        Some(parts[1])
    } else {
        None
    }
}

/// A base64url payload made standard base64: padded with `=` by the length
/// of its UTF-8 bytes modulo 4 (two for 2, one for 3), then `-` as `+` and
/// `_` as `/`.
pub open spec fn standard_base64(payload: Seq<char>) -> Seq<char> {
    let n = encode_utf8(payload).len();
    let padded = if n % 4 == 2 {
        payload + "=="@
    } else if n % 4 == 3 {
        payload + "="@
    } else {
        payload
    };
    padded.map_values(
        |c: char|
            if c == '-' {
                '+'
            } else if c == '_' {
                '/'
            } else {
                c
            },
    )
}

/// The value of a character of the standard base64 alphabet.
pub open spec fn b64_sextet(b: u8) -> Option<u8> {
    if 65 <= b <= 90 {
        Some((b - 65) as u8)
    } else if 97 <= b <= 122 {
        Some((b - 71) as u8)
    } else if 48 <= b <= 57 {
        Some((b + 4) as u8)
    } else if b == 43 {
        Some(62u8)
    } else if b == 47 {
        Some(63u8)
    } else {
        None
    }
}

/// The values of the alphabet characters of a chunk; others are skipped.
pub open spec fn sextets(chunk: Seq<u8>) -> Seq<u8>
    decreases chunk.len(),
{
    if chunk.len() == 0 {
        seq![]
    } else {
        let s = sextets(chunk.drop_last());
        match b64_sextet(chunk.last()) {
            Some(v) => s.push(v),
            None => s,
        }
    }
}

/// The bytes that two, three or four sextets make.
pub open spec fn chunk_bytes(v: Seq<u8>) -> Seq<u8> {
    let b0 = (v[0] * 4 + v[1] / 16) as u8;
    let b1 = ((v[1] % 16) * 16 + v[2] / 4) as u8;
    let b2 = ((v[2] % 4) * 64 + v[3]) as u8;
    if v.len() == 2 {
        seq![b0]
    } else if v.len() == 3 {
        seq![b0, b1]
    } else {
        seq![b0, b1, b2]
    }
}

/// Decoding from byte `i` on, four bytes at a time: a chunk with fewer than
/// two alphabet characters makes the whole decoding fail.
pub open spec fn b64_decode_from(bytes: Seq<u8>, i: int) -> Option<Seq<u8>>
    decreases bytes.len() - i,
{
    if i < 0 || i >= bytes.len() {
        Some(seq![])
    } else {
        let end = if i + 4 <= bytes.len() {
            i + 4
        } else {
            bytes.len() as int
        };
        let v = sextets(bytes.subrange(i, end));
        if v.len() < 2 {
            None
        } else {
            match b64_decode_from(bytes, end) {
                None => None,
                Some(rest) => Some(chunk_bytes(v) + rest),
            }
        }
    }
}

/// The bytes without their `=` signs.
pub open spec fn strip_padding(s: Seq<u8>) -> Seq<u8>
    decreases s.len(),
{
    if s.len() == 0 {
        seq![]
    } else if s.last() == 61u8 {
        strip_padding(s.drop_last())
    } else {
        strip_padding(s.drop_last()).push(s.last())
    }
}

/// Standard base64 decoding of some bytes, with `=` ignored.
pub open spec fn base64_decoded(input: Seq<u8>) -> Option<Seq<u8>> {
    b64_decode_from(strip_padding(input), 0)
}

/// The string member `key` of the JSON object that `text` parses to, as
/// `serde_json` finds it.
pub uninterp spec fn json_str_field(text: Seq<char>, key: Seq<char>) -> Option<Seq<char>>;

/// The user id (`sub` claim) a JWT carries, read without checking its
/// signature.
pub open spec fn jwt_user_id(token: Seq<char>) -> Option<Seq<char>> {
    match jwt_payload(token) {
        None => None,
        Some(p) => match base64_decoded(encode_utf8(standard_base64(p))) {
            None => None,
            Some(bytes) => if valid_utf8(bytes) {
                json_str_field(decode_utf8(bytes), "sub"@)
            } else {
                None
            },
        },
    }
}

/// Bytes as UTF-8 text (`String::from_utf8`): text exactly when the bytes
/// are valid UTF-8.
#[verifier::external_body]
fn utf8_text(bytes: Vec<u8>) -> (r: Option<String>)
    ensures
        r is Some <==> valid_utf8(bytes@),
        r is Some ==> r->Some_0@ == decode_utf8(bytes@),
{
    String::from_utf8(bytes).ok()
}

/// The string member `key` of the JSON object in `text`
/// (`serde_json::from_str` into a `Value`, then `Value::get` and
/// `Value::as_str`); the result is named, not spelled out.
#[verifier::external_body]
fn json_string_member(text: &str, key: &str) -> (r: Option<String>)
    ensures
        opt_view(r) == json_str_field(text@, key@),
{
    let value: serde_json::Value = match serde_json::from_str(text) {
        Ok(v) => v,
        Err(_) => return None,
    };
    match value.get(key) {
        Some(member) => member.as_str().map(|s| s.to_string()),
        None => None,
    }
}

/// The value of a standard base64 character.
fn sextet(b: u8) -> (r: Option<u8>)
    ensures
        r == b64_sextet(b),
{
    if 65 <= b && b <= 90 {
        Some(b - 65)
    } else if 97 <= b && b <= 122 {
        Some(b - 71)
    } else if 48 <= b && b <= 57 {
        Some(b + 4)
    } else if b == 43 {
        Some(62)
    } else if b == 47 {
        Some(63)
    } else {
        None
    }
}

proof fn lemma_sextets(chunk: Seq<u8>)
    ensures
        sextets(chunk).len() <= chunk.len(),
        forall|k: int| 0 <= k < sextets(chunk).len() ==> #[trigger] sextets(chunk)[k] < 64,
    decreases chunk.len(),
{
    if chunk.len() > 0 {
        lemma_sextets(chunk.drop_last());
    }
}

/// Decodes standard base64 text; `=` is ignored, characters outside the
/// alphabet are skipped, and a four-byte chunk with fewer than two alphabet
/// characters makes the decoding fail.
pub fn base64_decode(input: &str) -> (r: Option<Vec<u8>>)
    ensures
        match r {
            Some(v) => base64_decoded(encode_utf8(input@)) == Some(v@),
            None => base64_decoded(encode_utf8(input@)) is None,
        },
{
    let raw = input.as_bytes();
    let mut bytes: Vec<u8> = Vec::new();
    let mut k: usize = 0;
    while k < raw.len()
        invariant
            k <= raw@.len(),
            bytes@ == strip_padding(raw@.take(k as int)),
        decreases raw@.len() - k,
    {
        proof {
            assert(raw@.take(k + 1).drop_last() =~= raw@.take(k as int));
        }
        if raw[k] != 61 {
            bytes.push(raw[k]);
        }
        k = k + 1;
    }
    assert(raw@.take(raw@.len() as int) =~= raw@);
    let ghost bs = bytes@;
    assert(bs == strip_padding(encode_utf8(input@)));
    let mut out: Vec<u8> = Vec::new();
    let mut i: usize = 0;
    assert(Seq::<u8>::empty() + seq![] =~= Seq::<u8>::empty());
    while i < bytes.len()
        invariant
            bs == bytes@,
            bs == strip_padding(encode_utf8(input@)),
            i <= bs.len(),
            b64_decode_from(bs, 0) == match b64_decode_from(bs, i as int) {
                None => None,
                Some(rest) => Some(out@ + rest),
            },
        decreases bs.len() - i,
    {
        let end: usize = if bytes.len() - i >= 4 {
            i + 4
        } else {
            bytes.len()
        };
        let mut vals: Vec<u8> = Vec::new();
        let mut j: usize = i;
        while j < end
            invariant
                bs == bytes@,
                i <= j <= end <= bs.len(),
                vals@ == sextets(bs.subrange(i as int, j as int)),
            decreases end - j,
        {
            assert(bs.subrange(i as int, j + 1).drop_last() =~= bs.subrange(i as int, j as int));
            match sextet(bytes[j]) {
                Some(v) => {
                    vals.push(v);
                },
                None => {},
            }
            j = j + 1;
        }
        proof {
            lemma_sextets(bs.subrange(i as int, end as int));
        }
        if vals.len() < 2 {
            assert(b64_decode_from(bs, i as int) is None);
            return None;
        }
        let ghost before = out@;
        let v0 = vals[0];
        let v1 = vals[1];
        let b0 = (v0 << 2u8) | (v1 >> 4u8);
        assert(b0 == ((v0 * 4 + v1 / 16) as u8)) by (bit_vector)
            requires
                v0 < 64,
                v1 < 64,
                b0 == (v0 << 2u8) | (v1 >> 4u8),
        ;
        out.push(b0);
        if vals.len() > 2 {
            let v2 = vals[2];
            let b1 = (v1 << 4u8) | (v2 >> 2u8);
            assert(b1 == (((v1 % 16) * 16 + v2 / 4) as u8)) by (bit_vector)
                requires
                    v1 < 64,
                    v2 < 64,
                    b1 == (v1 << 4u8) | (v2 >> 2u8),
            ;
            out.push(b1);
        }
        if vals.len() > 3 {
            let v2 = vals[2];
            let v3 = vals[3];
            let b2 = (v2 << 6u8) | v3;
            assert(b2 == (((v2 % 4) * 64 + v3) as u8)) by (bit_vector)
                requires
                    v2 < 64,
                    v3 < 64,
                    b2 == (v2 << 6u8) | v3,
            ;
            out.push(b2);
        }
        assert(out@ =~= before + chunk_bytes(vals@));
        proof {
            match b64_decode_from(bs, end as int) {
                None => {},
                Some(rest) => {
                    assert(before + (chunk_bytes(vals@) + rest) =~= out@ + rest);
                },
            }
        }
        i = end;
    }
    Some(out)
}

/// The user id (`sub` claim) of a JWT, read without checking its signature:
/// the second of three dot-separated parts, base64url-decoded, parsed as
/// JSON. Any failure gives none. Safe for local routing only; the server
/// checks the token.
pub fn extract_user_id_from_jwt(token: &str) -> (r: Option<String>)
    ensures
        opt_view(r) == jwt_user_id(token@),
{
    let chars = chars_of(token);
    let parts = split_chars(chars.as_slice(), '.');
    if parts.len() != 3 {
        return None;
    }
    let payload = string_from(parts[1].as_slice());
    let n = payload.as_str().as_bytes().len();
    let mut padded = owned(payload.as_str());
    if n % 4 == 2 {
        padded.append("==");
    } else if n % 4 == 3 {
        padded.append("=");
    }
    proof {
        reveal_strlit("==");
        reveal_strlit("=");
    }
    let ghost padded_spec = if n % 4 == 2 {
        payload@ + "=="@
    } else if n % 4 == 3 {
        payload@ + "="@
    } else {
        payload@
    };
    assert(padded@ == padded_spec);
    assert(n == encode_utf8(parts@[1]@).len());
    let pc = chars_of(padded.as_str());
    let mut standard_chars: Vec<char> = Vec::new();
    let mut i: usize = 0;
    while i < pc.len()
        invariant
            i <= pc@.len(),
            standard_chars@ == pc@.take(i as int).map_values(
                |c: char|
                    if c == '-' {
                        '+'
                    } else if c == '_' {
                        '/'
                    } else {
                        c
                    },
            ),
        decreases pc@.len() - i,
    {
        let c = pc[i];
        let d = if c == '-' {
            '+'
        } else if c == '_' {
            '/'
        } else {
            c
        };
        standard_chars.push(d);
        assert(pc@.take(i + 1) =~= pc@.take(i as int).push(c));
        i = i + 1;
    }
    assert(pc@.take(pc@.len() as int) =~= pc@);
    let standard = string_from(standard_chars.as_slice());
    assert(standard@ =~= standard_base64(parts@[1]@));
    let decoded = match base64_decode(standard.as_str()) {
        Some(d) => d,
        None => {
            return None;
        },
    };
    let text = match utf8_text(decoded) {
        Some(t) => t,
        None => {
            return None;
        },
    };
    proof {
        reveal_strlit("sub");
    }
    json_string_member(text.as_str(), "sub")
}

/// The first two headers of a data request: the anon key, then a bearer.
pub open spec fn carries_key_and_bearer(s: Session, q: HttpRequest) -> bool {
    let h = header_views(q.headers@);
    &&& h.len() >= 2
    &&& h[0] == ("apikey"@, s.anon_key)
    &&& h[1].0 == "Authorization"@
    &&& starts_with(h[1].1, "Bearer "@)
}

/// Every data request carries the anon key and a bearer token; upserts ask
/// to merge duplicates and appending an attempt does not.
pub proof fn law_data_requests_carry_credentials(
    s: Session,
    q: HttpRequest,
    xp: i64,
    streak: i64,
    day: Seq<char>,
    lang: Seq<char>,
    am: i64,
    um: Seq<i64>,
    cid: Seq<char>,
    ok: bool,
    n: i64,
)
    ensures
        user_state_request(s, q, xp, streak, day) ==> carries_key_and_bearer(s, q)
            && header_views(q.headers@).contains(merge_header()),
        fetch_user_state_request_is(s, q) ==> carries_key_and_bearer(s, q),
        progress_request(s, q, lang, am, um, xp) ==> carries_key_and_bearer(s, q)
            && header_views(q.headers@).contains(merge_header()),
        attempt_request(s, q, cid, lang, ok, n) ==> carries_key_and_bearer(s, q) && !header_views(
            q.headers@,
        ).contains(merge_header()),
        streak_request(s, q, day) ==> carries_key_and_bearer(s, q) && header_views(
            q.headers@,
        ).contains(merge_header()),
{
    let h = header_views(q.headers@);
    assert(starts_with(bearer(s.jwt), "Bearer "@)) by {
        reveal_strlit("Bearer ");
        assert(bearer(s.jwt).take(7) =~= "Bearer "@);
    }
    if user_state_request(s, q, xp, streak, day) || progress_request(s, q, lang, am, um, xp)
        || streak_request(s, q, day) {
        assert(h[2] == merge_header());
    }
    if attempt_request(s, q, cid, lang, ok, n) {
        reveal_strlit("apikey");
        reveal_strlit("Authorization");
        reveal_strlit("Content-Type");
        reveal_strlit("Prefer");
        assert(h.len() == 3);
        assert forall|i: int| 0 <= i < h.len() implies h[i] != merge_header() by {
            if i == 0 {
                assert(h[0].0[0] != merge_header().0[0]);
            } else if i == 1 {
                assert(h[1].0[0] != merge_header().0[0]);
            } else {
                assert(h[2].0[0] != merge_header().0[0]);
            }
        }
    }
}


/// The standard base64 character of a sextet.
pub open spec fn b64_char(v: u8) -> u8 {
    if v < 26 {
        (v + 65) as u8
    } else if v < 52 {
        (v + 71) as u8
    } else if v < 62 {
        (v - 4) as u8
    } else if v == 62 {
        43u8
    } else {
        47u8
    }
}

/// Standard base64 encoding, padded with `=` to whole groups of four.
pub open spec fn base64_encoded(b: Seq<u8>) -> Seq<u8>
    decreases b.len(),
{
    if b.len() == 0 {
        seq![]
    } else if b.len() == 1 {
        seq![b64_char(b[0] / 4), b64_char(((b[0] % 4) * 16) as u8), 61u8, 61u8]
    } else if b.len() == 2 {
        seq![
            b64_char(b[0] / 4),
            b64_char(((b[0] % 4) * 16 + b[1] / 16) as u8),
            b64_char(((b[1] % 16) * 4) as u8),
            61u8,
        ]
    } else {
        seq![
            b64_char(b[0] / 4),
            b64_char(((b[0] % 4) * 16 + b[1] / 16) as u8),
            b64_char(((b[1] % 16) * 4 + b[2] / 64) as u8),
            b64_char(b[2] % 64),
        ] + base64_encoded(b.skip(3))
    }
}

proof fn lemma_b64_char(v: u8)
    requires
        v < 64,
    ensures
        b64_sextet(b64_char(v)) == Some(v),
        b64_char(v) != 61u8,
{
}

proof fn lemma_strip_padding_concat(x: Seq<u8>, y: Seq<u8>)
    ensures
        strip_padding(x + y) == strip_padding(x) + strip_padding(y),
    decreases y.len(),
{
    if y.len() == 0 {
        assert(x + y =~= x);
        assert(strip_padding(x) + strip_padding(y) =~= strip_padding(x));
    } else {
        lemma_strip_padding_concat(x, y.drop_last());
        assert((x + y).drop_last() =~= x + y.drop_last());
        assert((x + y).last() == y.last());
        if y.last() != 61u8 {
            assert(strip_padding(x) + strip_padding(y.drop_last()).push(y.last()) =~= (strip_padding(x)
                + strip_padding(y.drop_last())).push(y.last()));
        }
    }
}

proof fn lemma_decode_shift(q: Seq<u8>, s: Seq<u8>, i: int)
    requires
        0 <= i,
    ensures
        b64_decode_from(q + s, q.len() + i) == b64_decode_from(s, i),
    decreases s.len() - i,
{
    let t = q + s;
    let j = q.len() + i;
    if i < s.len() {
        let end = if i + 4 <= s.len() {
            i + 4
        } else {
            s.len() as int
        };
        assert(t.subrange(j, q.len() + end) =~= s.subrange(i, end));
        lemma_decode_shift(q, s, end);
    }
}

proof fn lemma_chunk_one(x0: u8)
    ensures
        chunk_bytes(seq![x0 / 4, ((x0 % 4) * 16) as u8]) == seq![x0],
{
    let v = seq![x0 / 4, ((x0 % 4) * 16) as u8];
    assert(v[0] * 4 + v[1] / 16 == x0);
    assert(chunk_bytes(v) =~= seq![x0]);
}

proof fn lemma_chunk_two(x0: u8, x1: u8)
    ensures
        chunk_bytes(seq![x0 / 4, ((x0 % 4) * 16 + x1 / 16) as u8, ((x1 % 16) * 4) as u8]) == seq![
            x0,
            x1,
        ],
{
    let v = seq![x0 / 4, ((x0 % 4) * 16 + x1 / 16) as u8, ((x1 % 16) * 4) as u8];
    assert(v[0] * 4 + v[1] / 16 == x0);
    assert((v[1] % 16) * 16 + v[2] / 4 == x1);
    assert(chunk_bytes(v) =~= seq![x0, x1]);
}

proof fn lemma_chunk_three(x0: u8, x1: u8, x2: u8)
    ensures
        chunk_bytes(
            seq![
                x0 / 4,
                ((x0 % 4) * 16 + x1 / 16) as u8,
                ((x1 % 16) * 4 + x2 / 64) as u8,
                x2 % 64,
            ],
        ) == seq![x0, x1, x2],
{
    let v = seq![x0 / 4, ((x0 % 4) * 16 + x1 / 16) as u8, ((x1 % 16) * 4 + x2 / 64) as u8, x2 % 64];
    assert(v[0] * 4 + v[1] / 16 == x0);
    assert((v[1] % 16) * 16 + v[2] / 4 == x1);
    assert((v[2] % 4) * 64 + v[3] == x2);
    assert(chunk_bytes(v) =~= seq![x0, x1, x2]);
}

/// The sextets of alphabet characters are their values.
proof fn lemma_sextets_of(vs: Seq<u8>)
    requires
        forall|i: int| 0 <= i < vs.len() ==> #[trigger] vs[i] < 64,
    ensures
        sextets(vs.map_values(|v: u8| b64_char(v))) == vs,
        strip_padding(vs.map_values(|v: u8| b64_char(v))) == vs.map_values(|v: u8| b64_char(v)),
    decreases vs.len(),
{
    let cs = vs.map_values(|v: u8| b64_char(v));
    if vs.len() > 0 {
        lemma_sextets_of(vs.drop_last());
        assert(cs.drop_last() =~= vs.drop_last().map_values(|v: u8| b64_char(v)));
        lemma_b64_char(vs.last());
        assert(cs.last() == b64_char(vs.last()));
        assert(vs.drop_last().push(vs.last()) =~= vs);
        assert(cs.drop_last().push(cs.last()) =~= cs);
    } else {
        assert(cs =~= Seq::<u8>::empty());
    }
}

/// Decoding what was encoded gives the bytes back.
#[verifier::spinoff_prover]
proof fn lemma_decode_encoded(b: Seq<u8>)
    ensures
        b64_decode_from(strip_padding(base64_encoded(b)), 0) == Some(b),
    decreases b.len(),
{
    let e = base64_encoded(b);
    if b.len() == 0 {
    } else if b.len() == 1 {
        let x0 = b[0];
        let vs = seq![x0 / 4, ((x0 % 4) * 16) as u8];
        let s = vs.map_values(|v: u8| b64_char(v));
        lemma_sextets_of(vs);
        assert(e =~= s.push(61u8).push(61u8));
        assert(strip_padding(e) == s) by {
            reveal_with_fuel(strip_padding, 3);
            assert(e.drop_last() =~= s.push(61u8));
            assert(e.drop_last().drop_last() =~= s);
        }
        assert(s.subrange(0, 2) =~= s);
        assert(b64_decode_from(s, 2) == Some(Seq::<u8>::empty()));
        lemma_chunk_one(x0);
        assert(b =~= seq![x0]);
        assert(chunk_bytes(vs) + Seq::<u8>::empty() =~= b);
    } else if b.len() == 2 {
        let x0 = b[0];
        let x1 = b[1];
        let vs = seq![x0 / 4, ((x0 % 4) * 16 + x1 / 16) as u8, ((x1 % 16) * 4) as u8];
        let s = vs.map_values(|v: u8| b64_char(v));
        lemma_sextets_of(vs);
        assert(e =~= s.push(61u8));
        assert(strip_padding(e) == s) by {
            reveal_with_fuel(strip_padding, 2);
            assert(e.drop_last() =~= s);
        }
        assert(s.subrange(0, 3) =~= s);
        assert(b64_decode_from(s, 3) == Some(Seq::<u8>::empty()));
        lemma_chunk_two(x0, x1);
        assert(b =~= seq![x0, x1]);
        assert(chunk_bytes(vs) + Seq::<u8>::empty() =~= b);
    } else {
        let x0 = b[0];
        let x1 = b[1];
        let x2 = b[2];
        let vs = seq![x0 / 4, ((x0 % 4) * 16 + x1 / 16) as u8, ((x1 % 16) * 4 + x2 / 64) as u8, x2 % 64];
        let q = vs.map_values(|v: u8| b64_char(v));
        lemma_sextets_of(vs);
        let rest = base64_encoded(b.skip(3));
        assert(e =~= q + rest);
        lemma_strip_padding_concat(q, rest);
        let sr = strip_padding(rest);
        let t = q + sr;
        assert(t.subrange(0, 4) =~= q);
        lemma_chunk_three(x0, x1, x2);
        lemma_decode_encoded(b.skip(3));
        lemma_decode_shift(q, sr, 0);
        assert(q.len() == 4);
        assert(b64_decode_from(t, 4) == Some(b.skip(3)));
        assert(b64_decode_from(t, 0) == Some(chunk_bytes(vs) + b.skip(3)));
        assert(b =~= seq![x0, x1, x2] + b.skip(3));
    }
}

/// Decoding inverts standard base64 encoding: the bytes that are encoded,
/// padding included, are the bytes that come back.
pub proof fn law_base64_round_trip(b: Seq<u8>)
    ensures
        base64_decoded(base64_encoded(b)) == Some(b),
{
    lemma_decode_encoded(b);
}

} // verus!
