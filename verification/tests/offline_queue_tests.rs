use serde_json::Value;
use tapcode::services::offline_queue::{
    optimistic_update, resolve_conflict, rollback, stale_queue_check, stale_queue_message,
    ConnectivityState, FieldValue, MutationOp, OfflineQueue, PendingMutation,
};

fn obj(pairs: Vec<(&str, Value)>) -> Value {
    let mut m = serde_json::Map::new();
    for (k, v) in pairs {
        m.insert(k.to_string(), v);
    }
    Value::Object(m)
}

// ── Helpers ──

fn make_mutation(table: &str, op: MutationOp, payload: Value) -> PendingMutation {
    PendingMutation::new(table, op, payload)
}

fn make_xp_mutation(xp: u32) -> PendingMutation {
    make_mutation(
        "user_state",
        MutationOp::Upsert,
        obj(vec![("total_xp", Value::from(xp))]),
    )
}

// ════════════════════════════════════════════
// R1: PendingMutation struct + queue
// ════════════════════════════════════════════

#[test]
fn r1_2_enqueue_mutation() {
    let mut queue = OfflineQueue::new();
    assert!(queue.is_empty());
    assert_eq!(queue.len(), 0);

    queue.enqueue(make_xp_mutation(20));
    assert_eq!(queue.len(), 1);
    assert!(!queue.is_empty());
}

#[test]
fn r1_3_queue_fifo_order() {
    let mut queue = OfflineQueue::new();
    let a = make_mutation("table_a", MutationOp::Insert, obj(vec![("a", Value::from(1))]));
    let b = make_mutation("table_b", MutationOp::Insert, obj(vec![("b", Value::from(2))]));
    let a_id = a.id;

    queue.enqueue(a);
    queue.enqueue(b);

    let peeked = queue.peek().expect("queue not empty");
    assert_eq!(peeked.id, a_id, "peek should return first-enqueued (A)");
}

#[test]
fn r1_4_dequeue_removes_front() {
    let mut queue = OfflineQueue::new();
    let a = make_mutation("table_a", MutationOp::Insert, obj(vec![("a", Value::from(1))]));
    let b = make_mutation("table_b", MutationOp::Insert, obj(vec![("b", Value::from(2))]));
    let a_id = a.id;
    let b_id = b.id;

    queue.enqueue(a);
    queue.enqueue(b);

    let removed = queue.dequeue().expect("should return A");
    assert_eq!(removed.id, a_id);
    assert_eq!(queue.len(), 1);
    assert_eq!(queue.peek().unwrap().id, b_id);
}

// ════════════════════════════════════════════
// R2: Optimistic updates
// ════════════════════════════════════════════

#[test]
fn r2_1_xp_signal_updates_before_network() {
    let mut xp: u32 = 100;
    let mut queue = OfflineQueue::new();
    let mutation = make_xp_mutation(120);

    let _handle = optimistic_update(&mut xp, 120, mutation, &mut queue);

    // XP updated immediately, mutation queued
    assert_eq!(xp, 120, "XP must update before any network call");
    assert_eq!(queue.len(), 1);
}

#[test]
fn r2_2_network_success_keeps_value() {
    let mut xp: u32 = 100;
    let mut queue = OfflineQueue::new();
    let mutation = make_xp_mutation(120);

    let _handle = optimistic_update(&mut xp, 120, mutation, &mut queue);

    // Simulate network success: just dequeue
    queue.dequeue();

    assert_eq!(xp, 120, "Value stays at optimistic value after success");
    assert!(queue.is_empty());
}

#[test]
fn r2_3_network_failure_rolls_back() {
    let mut xp: u32 = 100;
    let mut queue = OfflineQueue::new();
    let mutation = make_xp_mutation(120);

    let handle = optimistic_update(&mut xp, 120, mutation, &mut queue);
    assert_eq!(xp, 120);

    // Simulate network failure: rollback
    let _toast = rollback(&mut xp, &handle);

    assert_eq!(xp, 100, "XP must roll back to previous value on failure");
}

#[test]
fn r2_4_rollback_shows_toast() {
    let mut xp: u32 = 100;
    let mut queue = OfflineQueue::new();
    let mutation = make_xp_mutation(120);

    let handle = optimistic_update(&mut xp, 120, mutation, &mut queue);

    let toast = rollback(&mut xp, &handle);

    assert!(
        !toast.is_empty(),
        "Toast message must be set on rollback"
    );
    assert!(
        toast.contains("retry"),
        "Toast should mention retry: got '{}'",
        toast
    );
}

#[test]
fn r2_5_two_rapid_optimistic_updates() {
    let mut xp: u32 = 100;
    let mut queue = OfflineQueue::new();

    let m1 = make_xp_mutation(120);
    let _h1 = optimistic_update(&mut xp, 120, m1, &mut queue);
    assert_eq!(xp, 120);

    let m2 = make_xp_mutation(140);
    let _h2 = optimistic_update(&mut xp, 140, m2, &mut queue);
    assert_eq!(xp, 140);

    assert_eq!(queue.len(), 2, "Both mutations must be queued");
    // FIFO: first mutation is the 120 one
    assert_eq!(
        queue.peek().unwrap().payload["total_xp"],
        Value::from(120)
    );
}

// ════════════════════════════════════════════
// R3: Persistence
// ════════════════════════════════════════════

// ════════════════════════════════════════════
// R4: Flush on reconnect
// ════════════════════════════════════════════

#[test]
fn r4_1_flush_sends_all_queued() {
    let mut queue = OfflineQueue::new();
    queue.enqueue(make_xp_mutation(10));
    queue.enqueue(make_xp_mutation(20));
    queue.enqueue(make_xp_mutation(30));

    let mut sent_payloads: Vec<Value> = Vec::new();
    let (sent, failed) = queue.flush(|m| {
        sent_payloads.push(m.payload.clone());
        Ok(())
    });

    assert_eq!(sent, 3);
    assert!(!failed);
    assert!(queue.is_empty());
    assert_eq!(sent_payloads.len(), 3);
}

#[test]
fn r4_2_flush_fifo_order() {
    let mut queue = OfflineQueue::new();
    queue.enqueue(make_mutation("t", MutationOp::Insert, obj(vec![("order", Value::from(1))])));
    queue.enqueue(make_mutation("t", MutationOp::Insert, obj(vec![("order", Value::from(2))])));
    queue.enqueue(make_mutation("t", MutationOp::Insert, obj(vec![("order", Value::from(3))])));

    let mut order_seen: Vec<i64> = Vec::new();
    let (sent, _) = queue.flush(|m| {
        order_seen.push(m.payload["order"].as_i64().unwrap());
        Ok(())
    });

    assert_eq!(sent, 3);
    assert_eq!(order_seen, vec![1, 2, 3], "Must flush in FIFO order");
}

#[test]
fn r4_3_partial_flush_failure() {
    let mut queue = OfflineQueue::new();
    let a = make_mutation("t", MutationOp::Insert, obj(vec![("id", Value::from("A"))]));
    let b = make_mutation("t", MutationOp::Insert, obj(vec![("id", Value::from("B"))]));
    let c = make_mutation("t", MutationOp::Insert, obj(vec![("id", Value::from("C"))]));
    let b_id = b.id;

    queue.enqueue(a);
    queue.enqueue(b);
    queue.enqueue(c);

    let mut call_count = 0u32;
    let (sent, failed) = queue.flush(|m| {
        call_count += 1;
        if m.payload["id"] == "B" {
            Err("network error".to_string())
        } else {
            Ok(())
        }
    });

    assert_eq!(sent, 1, "Only A should have been sent");
    assert!(failed, "Flush should report failure");
    assert_eq!(queue.len(), 2, "B and C should remain");
    assert_eq!(
        queue.peek().unwrap().id, b_id,
        "B should be at front"
    );
    assert_eq!(call_count, 2, "Should have attempted A and B only");
}

#[test]
fn r4_4_retry_increments_count() {
    let mut queue = OfflineQueue::new();
    let m = make_xp_mutation(50);
    assert_eq!(m.retry_count, 0);
    queue.enqueue(m);

    // First failed flush
    let (_, _) = queue.flush(|_| Err("fail".to_string()));
    assert_eq!(
        queue.peek().unwrap().retry_count, 1,
        "retry_count should be 1 after first failure"
    );

    // Second failed flush
    let (_, _) = queue.flush(|_| Err("fail again".to_string()));
    assert_eq!(
        queue.peek().unwrap().retry_count, 2,
        "retry_count should be 2 after second failure"
    );
}

// ════════════════════════════════════════════
// R5: Conflict resolution
// ════════════════════════════════════════════

#[test]
fn r5_1_xp_max_value_local_wins() {
    let result = resolve_conflict(
        "user_state",
        "total_xp",
        &FieldValue::Int(120),
        &FieldValue::Int(100),
    );
    assert_eq!(result, FieldValue::Int(120));
}

#[test]
fn r5_2_xp_max_value_server_wins() {
    let result = resolve_conflict(
        "user_state",
        "total_xp",
        &FieldValue::Int(100),
        &FieldValue::Int(120),
    );
    assert_eq!(result, FieldValue::Int(120));
}

#[test]
fn r5_3_streak_max_value_wins() {
    let result = resolve_conflict(
        "user_state",
        "current_streak",
        &FieldValue::Int(5),
        &FieldValue::Int(3),
    );
    assert_eq!(result, FieldValue::Int(5));
}

#[test]
fn r5_4_streak_log_idempotent() {
    let local = obj(vec![("user_id", Value::from("abc")), ("day", Value::from("2026-03-17"))]);
    let server = obj(vec![("user_id", Value::from("abc")), ("day", Value::from("2026-03-17"))]);
    let result = resolve_conflict(
        "streak_log",
        "",
        &FieldValue::Other(local.clone()),
        &FieldValue::Other(server),
    );
    // Idempotent: returns local, no error, duplicate insert is harmless
    assert_eq!(result, FieldValue::Other(local));
}

#[test]
fn r5_5_challenge_attempts_append_only() {
    let local = obj(vec![("challenge_id", Value::from("rust-m1-c1")), ("correct", Value::from(true)), ("attempt_num", Value::from(1))]);
    let server = obj(vec![("challenge_id", Value::from("rust-m1-c1")), ("correct", Value::from(false)), ("attempt_num", Value::from(2))]);
    // Append-only: both rows preserved, local insert proceeds
    let result = resolve_conflict(
        "challenge_attempts",
        "",
        &FieldValue::Other(local.clone()),
        &FieldValue::Other(server),
    );
    assert_eq!(result, FieldValue::Other(local), "Local insert should proceed (append-only)");
}

// ════════════════════════════════════════════
// R6: User communication
// ════════════════════════════════════════════

#[test]
fn r6_1_offline_shows_banner() {
    let mut state = ConnectivityState::new();
    assert!(state.is_online);
    assert!(state.banner_message.is_none());

    state.set_offline();
    assert!(!state.is_online);
    let banner = state.banner_message.as_ref().expect("banner should be set");
    assert!(
        banner.contains("Offline"),
        "Banner should mention 'Offline': got '{}'",
        banner
    );
    assert!(
        banner.contains("sync"),
        "Banner should mention sync: got '{}'",
        banner
    );
}

#[test]
fn r6_2_online_hides_banner() {
    let mut state = ConnectivityState::new();
    state.set_offline();
    assert!(state.banner_message.is_some());

    state.set_online();
    assert!(state.is_online);
    assert!(
        state.banner_message.is_none(),
        "Banner should be cleared when online"
    );
}

#[test]
fn r6_3_stale_queue_shows_notification() {
    let mut queue = OfflineQueue::new();
    let mut old_mutation = make_xp_mutation(50);
    // Set created_at to 25 hours ago
    old_mutation.created_at -= 25 * 60 * 60 * 1000;
    queue.enqueue(old_mutation);

    assert!(
        stale_queue_check(&queue),
        "Queue with 25h-old item should be stale"
    );
    let msg = stale_queue_message(&queue);
    assert!(msg.is_some());
    assert!(
        msg.as_ref().unwrap().contains("hasn't synced"),
        "Message should mention unsynced progress: got '{}'",
        msg.unwrap()
    );
}

#[test]
fn r6_4_fresh_queue_no_notification() {
    let mut queue = OfflineQueue::new();
    // Fresh mutation (just created)
    queue.enqueue(make_xp_mutation(50));

    assert!(
        !stale_queue_check(&queue),
        "Fresh queue should not be stale"
    );
    assert!(
        stale_queue_message(&queue).is_none(),
        "No notification for fresh queue"
    );
}

#[test]
fn r6_5_empty_queue_no_notification() {
    let queue = OfflineQueue::new();
    assert!(!stale_queue_check(&queue));
    assert!(stale_queue_message(&queue).is_none());
}

#[test]
fn max_value_counts_a_non_integer_as_zero() {
    let result = resolve_conflict(
        "user_state",
        "longest_streak",
        &FieldValue::Other(Value::from("seven")),
        &FieldValue::Int(-4),
    );
    assert_eq!(result, FieldValue::Int(0));
    let result = resolve_conflict("user_state", "display_name", &FieldValue::Int(1), &FieldValue::Int(2));
    assert_eq!(result, FieldValue::Int(2));
}
