use std::sync::Arc;
use tapcode::services::offline_queue::{
    conflict_rule_for, max_value_wins, stale_queue_check_at, stale_queue_message_at, ConflictRule,
    MutationOp, OfflineQueue, PendingMutation,
};
use tapcode::services::platform::{SecureStorage, StorageError};
use tapcode::services::supabase::{
    after_first_response, base64_decode, check_auth_response, check_data_response,
    extract_user_id_from_jwt, refresh_failed_error, AuthCall, AuthResponse, AuthUser, HttpResponse,
    RequestBody, RetryStep, SupabaseClient, SupabaseError, UserStateRow,
};
use tapcode::services::sync::{merge_server_state, modules_to_i64, InitAction, InitEvent, SyncService};
use tapcode::state::AppState;

struct MapStorage {
    data: std::sync::Mutex<std::collections::HashMap<String, String>>,
}

impl MapStorage {
    fn new() -> Self {
        MapStorage { data: std::sync::Mutex::new(std::collections::HashMap::new()) }
    }
}

impl SecureStorage for MapStorage {
    fn set(&self, key: &str, value: &str) -> Result<(), StorageError> {
        self.data.lock().unwrap().insert(key.to_string(), value.to_string());
        Ok(())
    }
    fn get(&self, key: &str) -> Result<Option<String>, StorageError> {
        Ok(self.data.lock().unwrap().get(key).cloned())
    }
    fn delete(&self, key: &str) -> Result<(), StorageError> {
        self.data.lock().unwrap().remove(key);
        Ok(())
    }
}

struct BrokenStorage;

impl SecureStorage for BrokenStorage {
    fn set(&self, _key: &str, _value: &str) -> Result<(), StorageError> {
        Err(StorageError::WriteError("disk full".to_string()))
    }
    fn get(&self, _key: &str) -> Result<Option<String>, StorageError> {
        Err(StorageError::NotAvailable)
    }
    fn delete(&self, _key: &str) -> Result<(), StorageError> {
        Err(StorageError::NotAvailable)
    }
}

fn b64url(input: &str) -> String {
    const TABLE: &[u8; 64] = b"ABCDEFGHIJKLMNOPQRSTUVWXYZabcdefghijklmnopqrstuvwxyz0123456789-_";
    let bytes = input.as_bytes();
    let mut out = String::new();
    for chunk in bytes.chunks(3) {
        let b0 = chunk[0] as u32;
        let b1 = if chunk.len() > 1 { chunk[1] as u32 } else { 0 };
        let b2 = if chunk.len() > 2 { chunk[2] as u32 } else { 0 };
        let triple = (b0 << 16) | (b1 << 8) | b2;
        out.push(TABLE[((triple >> 18) & 0x3F) as usize] as char);
        out.push(TABLE[((triple >> 12) & 0x3F) as usize] as char);
        if chunk.len() > 1 {
            out.push(TABLE[((triple >> 6) & 0x3F) as usize] as char);
        }
        if chunk.len() > 2 {
            out.push(TABLE[(triple & 0x3F) as usize] as char);
        }
    }
    out
}

fn fake_jwt(user_id: &str) -> String {
    let header = b64url(r#"{"alg":"HS256","typ":"JWT"}"#);
    let payload = b64url(&format!(r#"{{"sub":"{}","aud":"authenticated","exp":9999999999}}"#, user_id));
    format!("{}.{}.{}", header, payload, b64url("fake-signature"))
}

fn auth(uid: &str) -> AuthResponse {
    AuthResponse {
        access_token: fake_jwt(uid),
        refresh_token: "rt-1".to_string(),
        token_type: "bearer".to_string(),
        expires_in: 3600,
        user: AuthUser { id: uid.to_string(), email: None, is_anonymous: Some(true) },
    }
}

fn client() -> SupabaseClient<MapStorage> {
    SupabaseClient::new("https://test.supabase.co", "test-anon-key", Arc::new(MapStorage::new()))
}

#[test]
fn base64_decodes_standard_text() {
    assert_eq!(base64_decode("aGVsbG8="), Some(b"hello".to_vec()));
    assert_eq!(base64_decode("aGVsbG8gd29ybGQ="), Some(b"hello world".to_vec()));
    assert_eq!(base64_decode(""), Some(vec![]));
    assert_eq!(base64_decode("a"), None);
    assert_eq!(base64_decode("TWFu"), Some(b"Man".to_vec()));
}

#[test]
fn user_id_is_read_from_jwt() {
    assert_eq!(extract_user_id_from_jwt(&fake_jwt("extracted-uid-123")), Some("extracted-uid-123".to_string()));
    assert_eq!(extract_user_id_from_jwt("not-a-jwt"), None);
    assert_eq!(extract_user_id_from_jwt("a.b.c.d"), None);
    assert_eq!(extract_user_id_from_jwt("a.!!!!.c"), None);
}

#[test]
fn error_text_holds_no_token() {
    let jwt = fake_jwt("secret-user");
    let e = SupabaseError::AuthError("some auth problem".to_string());
    assert_eq!(e.to_string(), "Auth error: some auth problem");
    assert!(!e.to_string().contains(&jwt));
    let api = SupabaseError::ApiError { status: 401, message: "Unauthorized".to_string() };
    assert_eq!(api.to_string(), "API error (401): Unauthorized");
    assert_eq!(SupabaseError::NotAuthenticated.to_string(), "Not authenticated");
}

#[test]
fn rehydrate_takes_up_stored_session() {
    let storage = Arc::new(MapStorage::new());
    let mut c = SupabaseClient::new("https://x", "k", storage.clone());
    assert_eq!(c.rehydrate_from_storage(), Ok(false));
    storage.set("supabase_jwt", &fake_jwt("rehydrate-uid")).unwrap();
    assert_eq!(c.rehydrate_from_storage(), Ok(true));
    assert_eq!(c.current_user_id(), Some("rehydrate-uid".to_string()));
    assert!(c.current_jwt().is_some());
}

#[test]
fn storage_failure_is_reported() {
    let mut c = SupabaseClient::new("https://x", "k", Arc::new(BrokenStorage));
    match c.rehydrate_from_storage() {
        Err(SupabaseError::StorageError(m)) => assert_eq!(m, "NotAvailable"),
        other => panic!("expected a storage error, got {:?}", other),
    }
    assert!(matches!(c.store_session(&auth("u")), Err(SupabaseError::StorageError(_))));
    assert!(c.current_user_id().is_none());
}

#[test]
fn crud_without_session_is_not_authenticated() {
    let c = client();
    assert_eq!(c.upsert_user_state_request(10, 0, "2026-03-17").unwrap_err(), SupabaseError::NotAuthenticated);
    assert_eq!(c.refresh_request().unwrap_err(), SupabaseError::NotAuthenticated);
    assert_eq!(c.require_user_id(), Err(SupabaseError::NotAuthenticated));
}

#[test]
fn signed_in_requests_carry_key_bearer_and_user() {
    let mut c = client();
    c.store_session(&auth("user-crud-1")).unwrap();
    let signup = c.signup_request();
    assert_eq!(signup.url, "https://test.supabase.co/auth/v1/signup");
    assert!(signup.headers.iter().any(|(k, v)| k == "Content-Type" && v == "application/json"));
    let q = c.upsert_user_state_request(20, 1, "2026-03-17").unwrap();
    assert_eq!(q.method, "POST");
    assert_eq!(q.url, "https://test.supabase.co/rest/v1/user_state");
    assert!(q.headers.iter().any(|(k, v)| k == "apikey" && v == "test-anon-key"));
    assert!(q.headers.iter().any(|(k, v)| k == "Authorization" && v.starts_with("Bearer ")));
    assert!(q.headers.iter().any(|(k, v)| k == "Prefer" && v == "resolution=merge-duplicates"));
    match q.body {
        RequestBody::UserState { id, total_xp, current_streak, last_active } => {
            assert_eq!(id, "user-crud-1");
            assert_eq!(total_xp, 20);
            assert_eq!(current_streak, 1);
            assert_eq!(last_active, "2026-03-17");
        }
        _ => panic!("expected a user state body"),
    }
    let f = c.fetch_user_state_request().unwrap();
    assert_eq!(f.method, "GET");
    assert!(f.url.contains("id=eq.user-crud-1"));
    let a = c.insert_challenge_attempt_request("rust-m1-c1", "rust", true, 1).unwrap();
    assert!(a.url.ends_with("/rest/v1/challenge_attempts"));
    assert!(!a.headers.iter().any(|(k, _)| k == "Prefer"));
}

#[test]
fn rebuilt_headers_take_the_new_bearer() {
    let mut c = client();
    c.apply_auth(&auth("old"));
    let headers = c.authed_headers();
    let mut fresh = auth("new");
    fresh.access_token = "new-token".to_string();
    c.apply_auth(&fresh);
    let rebuilt = c.rebuild_headers_from(&headers);
    assert_eq!(rebuilt[0], ("apikey".to_string(), "test-anon-key".to_string()));
    assert_eq!(rebuilt[1], ("Authorization".to_string(), "Bearer new-token".to_string()));
}

#[test]
fn responses_are_judged_by_status() {
    let r = |status: u16, body: &str| HttpResponse { status, body: body.to_string() };
    match check_auth_response(AuthCall::SignUp, &r(401, "no")) {
        Err(SupabaseError::AuthError(m)) => assert_eq!(m, "Authentication failed (401): no"),
        other => panic!("{:?}", other),
    }
    match check_auth_response(AuthCall::Refresh, &r(403, "x")) {
        Err(SupabaseError::AuthError(m)) => assert_eq!(m, "Refresh failed (403): x"),
        other => panic!("{:?}", other),
    }
    assert_eq!(
        check_auth_response(AuthCall::SignUp, &r(500, "boom")),
        Err(SupabaseError::ApiError { status: 500, message: "boom".to_string() })
    );
    assert_eq!(check_auth_response(AuthCall::SignUp, &r(200, "{}")), Ok(()));
    assert_eq!(check_data_response(&r(201, "")), Ok(()));
    assert!(matches!(check_data_response(&r(500, "e")), Err(SupabaseError::ApiError { status: 500, .. })));
    assert_eq!(after_first_response(&r(401, "")), RetryStep::RefreshAndRetry);
    assert_eq!(after_first_response(&r(200, "")), RetryStep::Accept);
    assert_eq!(
        refresh_failed_error("expired"),
        SupabaseError::AuthError("JWT expired and refresh failed: expired".to_string())
    );
}

#[test]
fn sync_plans_nothing_until_authenticated() {
    let sync = SyncService::new();
    let c = client();
    let state = AppState::new();
    assert!(!sync.is_authenticated());
    assert!(sync.challenge_sync_requests(&c, "rust-m1-c1", "rust", true, 1, &state, "2026-03-17").is_empty());
    assert!(sync.streak_sync_requests(&c, &state, "2026-03-17").is_empty());
    assert!(sync.purchase_sync_requests(&c, &state).is_empty());
}

#[test]
fn rehydrated_session_authenticates_sync() {
    let storage = Arc::new(MapStorage::new());
    storage.set("supabase_jwt", &fake_jwt("existing-user")).unwrap();
    let mut c = SupabaseClient::new("https://x", "k", storage);
    let mut sync = SyncService::new();
    assert_eq!(sync.rehydrate(&mut c), Ok(true));
    assert!(sync.is_authenticated());
}

#[test]
fn sync_plans_three_writes_after_a_challenge() {
    let mut sync = SyncService::new();
    let mut c = client();
    sync.accept_sign_in(&mut c, &auth("sync-user-1")).unwrap();
    assert!(sync.is_authenticated());
    let mut state = AppState::new();
    state.user.total_xp = 40;
    state.progress.xp = 40;
    state.user.current_streak = 1;
    let plan = sync.challenge_sync_requests(&c, "rust-m1-c1", "rust", true, 1, &state, "2026-03-17");
    assert_eq!(plan.len(), 3);
    let urls: Vec<String> = plan.iter().map(|r| r.as_ref().unwrap().url.clone()).collect();
    assert!(urls[0].ends_with("/rest/v1/challenge_attempts"));
    assert!(urls[1].ends_with("/rest/v1/language_progress"));
    assert!(urls[2].ends_with("/rest/v1/user_state"));
    state.unlock_all_modules();
    let purchase = sync.purchase_sync_requests(&c, &state);
    match &purchase[0].as_ref().unwrap().body {
        RequestBody::LanguageProgress { unlocked_modules, .. } => assert_eq!(unlocked_modules, &vec![1, 2, 3, 4]),
        _ => panic!("expected a progress body"),
    }
}

#[test]
fn merge_keeps_the_larger_values() {
    let mut state = AppState::new();
    state.user.total_xp = 100;
    state.user.current_streak = 5;
    state.user.longest_streak = 8;
    let row = UserStateRow { id: "u".into(), total_xp: 200, current_streak: 10, longest_streak: 15, last_active: None };
    merge_server_state(&mut state, &row);
    assert_eq!((state.user.total_xp, state.user.current_streak, state.user.longest_streak), (200, 10, 15));
    let low = UserStateRow { id: "u".into(), total_xp: 50, current_streak: 2, longest_streak: 3, last_active: None };
    merge_server_state(&mut state, &low);
    assert_eq!((state.user.total_xp, state.user.current_streak, state.user.longest_streak), (200, 10, 15));
    assert_eq!(modules_to_i64(&[1, 2]), vec![1i64, 2]);
}

#[test]
fn conflict_rules_by_table_and_field() {
    assert_eq!(conflict_rule_for("user_state", "total_xp"), ConflictRule::MaxValue);
    assert_eq!(conflict_rule_for("user_state", "last_active"), ConflictRule::ServerWins);
    assert_eq!(conflict_rule_for("streak_log", ""), ConflictRule::LocalStands);
    assert_eq!(conflict_rule_for("challenge_attempts", "x"), ConflictRule::LocalStands);
    assert_eq!(conflict_rule_for("other", "x"), ConflictRule::ServerWins);
    assert_eq!(max_value_wins(Some(120), Some(100)), 120);
    assert_eq!(max_value_wins(None, Some(-3)), 0);
}

#[test]
fn staleness_is_a_day_at_the_given_time() {
    let mut queue = OfflineQueue::new();
    assert!(!stale_queue_check_at(&queue, 0));
    let mut m = PendingMutation::new("t", MutationOp::Insert, serde_json::Value::Null);
    m.created_at = 1_000;
    queue.enqueue(m);
    assert!(!stale_queue_check_at(&queue, 1_000 + 86_399_999));
    assert!(!stale_queue_check_at(&queue, 1_000 + 86_400_000));
    assert!(stale_queue_check_at(&queue, 1_000 + 86_400_001));
    assert_eq!(
        stale_queue_message_at(&queue, 1_000 + 86_400_001),
        Some("Some progress hasn't synced yet. We'll retry automatically.".to_string())
    );
    assert_eq!(stale_queue_message_at(&queue, 2_000), None);
}

#[test]
fn start_up_uses_a_stored_session() {
    let mut s = SyncService::new();
    assert_eq!(s.init_step(InitEvent::Start), InitAction::RestoreSession);
    assert_eq!(s.init_step(InitEvent::Restored(Ok(true))), InitAction::Finish(Ok(true)));
    assert_eq!(s.init_step(InitEvent::Start), InitAction::Wait);
}

#[test]
fn start_up_signs_in_and_creates_the_user_row() {
    let mut s = SyncService::new();
    s.init_step(InitEvent::Start);
    assert_eq!(s.init_step(InitEvent::Restored(Ok(false))), InitAction::SignInAnonymously);
    assert_eq!(s.init_step(InitEvent::SignedIn(Ok(()))), InitAction::CreateUserRow);
    assert_eq!(
        s.init_step(InitEvent::UserRowCreated(Err(SupabaseError::NetworkError("down".into())))),
        InitAction::Finish(Ok(true))
    );
}

#[test]
fn start_up_goes_offline_when_sign_in_fails() {
    let mut s = SyncService::new();
    assert_eq!(s.init_step(InitEvent::SignedIn(Ok(()))), InitAction::Wait);
    s.init_step(InitEvent::Start);
    s.init_step(InitEvent::Restored(Ok(false)));
    assert_eq!(
        s.init_step(InitEvent::SignedIn(Err(SupabaseError::AuthError("401".into())))),
        InitAction::Finish(Ok(false))
    );
}

#[test]
fn start_up_reports_a_storage_failure() {
    let mut s = SyncService::new();
    s.init_step(InitEvent::Start);
    assert_eq!(
        s.init_step(InitEvent::Restored(Err(SupabaseError::StorageError("NotAvailable".into())))),
        InitAction::Finish(Err(SupabaseError::StorageError("NotAvailable".into())))
    );
}

#[test]
fn base64_decoding_inverts_padded_encodings() {
    assert_eq!(base64_decode("TQ=="), Some(b"M".to_vec()));
    assert_eq!(base64_decode("TWE="), Some(b"Ma".to_vec()));
    assert_eq!(base64_decode("TWFuTWE="), Some(b"ManMa".to_vec()));
    assert_eq!(base64_decode("//+A"), Some(vec![0xff, 0xff, 0x80]));
    assert_eq!(base64_decode("AA=="), Some(vec![0]));
}
