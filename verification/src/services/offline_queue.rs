//! Offline queue, optimistic updates and conflict rules. Every UI mutation
//! is applied at once and queued; the queue keeps its order, survives a
//! restart (through its JSON form, written by the app) and is flushed in
//! order when the network comes back.
use vstd::prelude::*;
use crate::text::owned;

verus! {

broadcast use vstd::string::group_string_axioms;

#[verifier::external_type_specification]
#[verifier::external_body]
pub struct ExUuid(uuid::Uuid);

#[verifier::external_type_specification]
#[verifier::external_body]
pub struct ExJsonValue(serde_json::Value);

/// A fresh random id (`uuid::Uuid::new_v4`). Random: nothing is promised
/// of the value.
#[verifier::external_body]
fn new_uuid() -> uuid::Uuid {
    uuid::Uuid::new_v4()
}

/// The current time, in milliseconds since the Unix epoch
/// (`chrono::Utc::now` and `DateTime::timestamp_millis`). Read from the
/// clock: nothing is promised of the value.
#[verifier::external_body]
pub(crate) fn now_millis() -> i64 {
    chrono::Utc::now().timestamp_millis()
}

/// A copy of a JSON value (`serde_json::Value::clone`): the copy is the
/// same value.
#[verifier::external_body]
fn json_clone(v: &serde_json::Value) -> (r: serde_json::Value)
    ensures
        r == *v,
{
    v.clone()
}

// ── Mutation Operation ──

#[derive(Debug, Clone, Copy, PartialEq, Eq, Structural)]
pub enum MutationOp {
    Insert,
    Upsert,
}

// ── PendingMutation ──

/// One queued write. `created_at` is in milliseconds since the Unix epoch.
#[derive(Debug, PartialEq)]
pub struct PendingMutation {
    pub id: uuid::Uuid,
    pub table: String,
    pub operation: MutationOp,
    pub payload: serde_json::Value,
    pub created_at: i64,
    pub retry_count: u32,
}

/// Two mutations hold the same id, table, operation, payload, time and
/// retry count.
pub open spec fn same_mutation(a: PendingMutation, b: PendingMutation) -> bool {
    &&& a.id == b.id
    &&& a.table@ == b.table@
    &&& a.operation == b.operation
    &&& a.payload == b.payload
    &&& a.created_at == b.created_at
    &&& a.retry_count == b.retry_count
}

impl Clone for PendingMutation {
    fn clone(&self) -> (r: Self)
        ensures
            same_mutation(r, *self),
    {
        PendingMutation {
            id: self.id,
            table: owned(self.table.as_str()),
            operation: self.operation,
            payload: json_clone(&self.payload),
            created_at: self.created_at,
            retry_count: self.retry_count,
        }
    }
}

impl PendingMutation {
    /// A new mutation with a fresh id, stamped now, never retried.
    pub fn new(table: &str, operation: MutationOp, payload: serde_json::Value) -> (r: Self)
        ensures
            r.table@ == table@,
            r.operation == operation,
            r.payload == payload,
            r.retry_count == 0,
    {
        PendingMutation {
            id: new_uuid(),
            table: owned(table),
            operation,
            payload,
            created_at: now_millis(),
            retry_count: 0,
        }
    }
}

// ── Offline Queue ──

/// Pending mutations, oldest first.
#[derive(Debug, Clone)]
pub struct OfflineQueue {
    items: Vec<PendingMutation>,
}

impl View for OfflineQueue {
    type V = Seq<PendingMutation>;

    closed spec fn view(&self) -> Seq<PendingMutation> {
        self.items@
    }
}

/// What a dequeue gives back of a queue, and what it leaves.
pub open spec fn spec_dequeue(q: Seq<PendingMutation>) -> (Option<PendingMutation>, Seq<PendingMutation>) {
    if q.len() == 0 {
        (None, q)
    } else {
        (Some(q[0]), q.drop_first())
    }
}

impl Default for OfflineQueue {
    fn default() -> (r: Self)
        ensures
            r@.len() == 0,
    {
        OfflineQueue::new()
    }
}

impl OfflineQueue {
    pub fn new() -> (r: Self)
        ensures
            r@.len() == 0,
    {
        OfflineQueue { items: Vec::new() }
    }

    /// A queue holding these mutations, the first one oldest.
    pub fn from_items(items: Vec<PendingMutation>) -> (r: Self)
        ensures
            r@ == items@,
    {
        OfflineQueue { items }
    }

    /// The queued mutations, oldest first.
    pub fn items(&self) -> (r: &[PendingMutation])
        ensures
            r@ == self@,
    {
        self.items.as_slice()
    }

    /// Queues a mutation behind the others.
    pub fn enqueue(&mut self, mutation: PendingMutation)
        ensures
            final(self)@ == old(self)@.push(mutation),
    {
        self.items.push(mutation);
    }

    /// Takes the oldest mutation off the queue.
    pub fn dequeue(&mut self) -> (r: Option<PendingMutation>)
        ensures
            (r, final(self)@) == spec_dequeue(old(self)@),
    {
        if self.items.len() == 0 {
            None
        } else {
            Some(self.items.remove(0))
        }
    }

    /// The oldest mutation, left in place.
    pub fn peek(&self) -> (r: Option<&PendingMutation>)
        ensures
            match r {
                Some(m) => self@.len() > 0 && *m == self@[0],
                None => self@.len() == 0,
            },
    {
        if self.items.len() == 0 {
            None
        } else {
            Some(&self.items[0])
        }
    }

    pub fn len(&self) -> (r: usize)
        ensures
            r == self@.len(),
    {
        self.items.len()
    }

    pub fn is_empty(&self) -> (r: bool)
        ensures
            r == (self@.len() == 0),
    {
        self.items.len() == 0
    }

    // ── Flush ──

    /// Hands the queued mutations to `sender_fn`, oldest first, removing each
    /// one sent. At the first failure the failed mutation stays at the front
    /// with one more retry counted, and the rest stay behind it. Returns how
    /// many were sent and whether one failed.
    pub fn flush<F>(&mut self, mut sender_fn: F) -> (r: (usize, bool)) where
        F: FnMut(&PendingMutation) -> Result<(), String>,

        requires
            forall|f: F, m: &PendingMutation| call_requires(f, (m,)),
        ensures
            r.0 <= old(self)@.len(),
            forall|i: int| 0 <= i < r.0 ==> #[trigger] sender_accepted::<F>(old(self)@[i]),
            !r.1 ==> r.0 == old(self)@.len() && final(self)@.len() == 0,
            r.1 ==> {
                &&& r.0 < old(self)@.len()
                &&& sender_refused::<F>(old(self)@[r.0 as int])
                &&& final(self)@.len() == old(self)@.len() - r.0
                &&& final(self)@[0] == (PendingMutation {
                    retry_count: old(self)@[r.0 as int].retry_count.wrapping_add(1),
                    ..old(self)@[r.0 as int]
                })
                &&& final(self)@.drop_first() == old(self)@.skip(r.0 + 1)
            },
    {
        let ghost start = self@;
        assert(start.len() == self.items.len());
        let mut sent: usize = 0;
        while self.items.len() > 0
            invariant
                forall|f: F, m: &PendingMutation| call_requires(f, (m,)),
                start == old(self)@,
                start.len() <= usize::MAX,
                sent <= start.len(),
                self@.len() == start.len() - sent,
                self@ == start.skip(sent as int),
                forall|i: int| 0 <= i < sent ==> #[trigger] sender_accepted::<F>(start[i]),
            decreases self@.len(),
        {
            assert(self.items@[0] == start[sent as int]);
            let ghost before_call = sender_fn;
            let outcome = sender_fn(&self.items[0]);
            assert(call_ensures(before_call, (&start[sent as int],), outcome));
            match outcome {
                Ok(()) => {
                    assert(outcome is Ok);
                    assert(sender_accepted::<F>(start[sent as int]));
                    self.items.remove(0);
                    assert(start.skip(sent as int).drop_first() =~= start.skip(sent + 1));
                    sent = sent + 1;
                },
                Err(_) => {
                    assert(sender_refused::<F>(start[sent as int]));
                    let mut first = self.items.remove(0);
                    assert(first == start[sent as int]);
                    first.retry_count = first.retry_count.wrapping_add(1);
                    self.items.insert(0, first);
                    assert(self@.drop_first() =~= start.skip(sent + 1));
                    return (sent, true);
                },
            }
        }
        (sent, false)
    }
}

/// Some state of the sender answered `m` with success.
pub open spec fn sender_accepted<F: FnMut(&PendingMutation) -> Result<(), String>>(m: PendingMutation) -> bool {
    exists|g: F, o: Result<(), String>| #[trigger] call_ensures(g, (&m,), o) && o is Ok
}

/// Some state of the sender answered `m` with a failure.
pub open spec fn sender_refused<F: FnMut(&PendingMutation) -> Result<(), String>>(m: PendingMutation) -> bool {
    exists|g: F, o: Result<(), String>| #[trigger] call_ensures(g, (&m,), o) && o is Err
}

// ── Optimistic Update Helpers ──

/// The value before an optimistic update, and the mutation that was queued
/// for it.
#[derive(Debug)]
pub struct OptimisticHandle<T: Clone> {
    pub previous: T,
    pub mutation: PendingMutation,
}

/// Applies an update at once: keeps a copy of the old value, sets the new
/// one, queues the mutation and returns a handle to roll back with.
pub fn optimistic_update<T: Clone>(
    current: &mut T,
    new_value: T,
    mutation: PendingMutation,
    queue: &mut OfflineQueue,
) -> (r: OptimisticHandle<T>)
    ensures
        cloned(*old(current), r.previous),
        *final(current) == new_value,
        final(queue)@ == old(queue)@.push(mutation),
        same_mutation(r.mutation, mutation),
{
    let previous = current.clone();
    *current = new_value;
    let kept = mutation.clone();
    queue.enqueue(mutation);
    OptimisticHandle { previous, mutation: kept }
}

/// The toast shown when an update is rolled back.
pub open spec fn rollback_toast() -> Seq<char> {
    "Sync failed. Your progress will retry automatically."@
}

/// On network failure: puts the previous value back and returns the toast.
pub fn rollback<T: Clone>(current: &mut T, handle: &OptimisticHandle<T>) -> (r: String)
    ensures
        cloned(handle.previous, *final(current)),
        r@ == rollback_toast(),
{
    *current = handle.previous.clone();
    owned("Sync failed. Your progress will retry automatically.")
}

/// Rolling back an optimistic update of a counter (such as XP) restores the
/// value it replaced.
pub proof fn law_rollback_restores(before: u32, kept: u32, after: u32)
    requires
        cloned(before, kept),
        cloned(kept, after),
    ensures
        after == before,
{
}

/// A max-value conflict is settled the same whichever side is local, never
/// below either side, and settling it again changes nothing.
pub proof fn law_max_wins_symmetric(a: Option<i64>, b: Option<i64>)
    ensures
        max_wins(a, b) == max_wins(b, a),
        max_wins(a, b) >= match a {
            Some(n) => n,
            None => 0,
        },
        max_wins(a, b) >= match b {
            Some(n) => n,
            None => 0,
        },
        max_wins(Some(max_wins(a, b)), b) == max_wins(a, b),
{
}

/// Enqueueing then dequeueing gives back the front of the queue, or the new
/// mutation when the queue was empty; the new mutation stays last.
pub proof fn law_fifo(q: Seq<PendingMutation>, m: PendingMutation)
    ensures
        spec_dequeue(q.push(m)).0 == Some(if q.len() == 0 { m } else { q[0] }),
        spec_dequeue(q.push(m)).1 == if q.len() == 0 {
            Seq::<PendingMutation>::empty()
        } else {
            q.drop_first().push(m)
        },
{
    assert(q.push(m).drop_first() =~= if q.len() == 0 {
        Seq::<PendingMutation>::empty()
    } else {
        q.drop_first().push(m)
    });
}

// ── Conflict Resolution ──

/// How a conflict between a local and a server value is settled.
#[derive(Debug, Clone, Copy, PartialEq, Eq, Structural)]
pub enum ConflictRule {
    /// The larger number wins (a value that is not an integer counts as 0).
    MaxValue,
    /// The server's value wins.
    ServerWins,
    /// The local value stands: the table is idempotent or append-only.
    LocalStands,
}

/// The rule for a table and field: XP and streak counters of `user_state`
/// take the larger value; other `user_state` fields and unknown tables take
/// the server's; `streak_log` and `challenge_attempts` keep the local value.
pub open spec fn conflict_rule(table: Seq<char>, field: Seq<char>) -> ConflictRule {
    if table == "user_state"@ {
        if field == "total_xp"@ || field == "current_streak"@ || field == "longest_streak"@ {
            ConflictRule::MaxValue
        } else {
            ConflictRule::ServerWins
        }
    } else if table == "streak_log"@ || table == "challenge_attempts"@ {
        ConflictRule::LocalStands
    } else {
        ConflictRule::ServerWins
    }
}

/// The rule that settles a conflict on this table and field.
pub fn conflict_rule_for(table: &str, field: &str) -> (r: ConflictRule)
    ensures
        r == conflict_rule(table@, field@),
{
    if crate::text::str_eq(table, "user_state") {
        if crate::text::str_eq(field, "total_xp") || crate::text::str_eq(field, "current_streak")
            || crate::text::str_eq(field, "longest_streak") {
            ConflictRule::MaxValue
        } else {
            ConflictRule::ServerWins
        }
    } else if crate::text::str_eq(table, "streak_log") || crate::text::str_eq(
        table,
        "challenge_attempts",
    ) {
        ConflictRule::LocalStands
    } else {
        ConflictRule::ServerWins
    }
}

/// The winner of a max-value conflict: the larger integer, a missing one
/// counting as 0.
pub open spec fn max_wins(local: Option<i64>, server: Option<i64>) -> i64 {
    let l = match local {
        Some(n) => n,
        None => 0,
    };
    let s = match server {
        Some(n) => n,
        None => 0,
    };
    if l >= s {
        l
    } else {
        s
    }
}

/// The winner of a max-value conflict: the larger integer, a missing one
/// counting as 0.
pub fn max_value_wins(local: Option<i64>, server: Option<i64>) -> (r: i64)
    ensures
        r == max_wins(local, server),
{
    let l = match local {
        Some(n) => n,
        None => 0,
    };
    let s = match server {
        Some(n) => n,
        None => 0,
    };
    if l >= s {
        l
    } else {
        s
    }
}

/// A field's value in a conflict: an integer that fits in an `i64`, or any
/// other JSON value (a string, a float, an object, ...). Values are sorted
/// into the two by whoever reads them from JSON.
#[derive(Debug, PartialEq)]
pub enum FieldValue {
    Int(i64),
    Other(serde_json::Value),
}

/// The integer a field value holds, if it holds one.
pub open spec fn int_of(v: FieldValue) -> Option<i64> {
    match v {
        FieldValue::Int(n) => Some(n),
        FieldValue::Other(_) => None,
    }
}

/// The integer a field value holds, if it holds one.
pub fn field_int(v: &FieldValue) -> (r: Option<i64>)
    ensures
        r == int_of(*v),
{
    match v {
        FieldValue::Int(n) => Some(*n),
        FieldValue::Other(_) => None,
    }
}

/// A copy of a field value.
fn copy_field(v: &FieldValue) -> (r: FieldValue)
    ensures
        r == *v,
{
    match v {
        FieldValue::Int(n) => FieldValue::Int(*n),
        FieldValue::Other(j) => FieldValue::Other(json_clone(j)),
    }
}

/// Settles a conflict between the local and the server value of a field:
/// where the larger number wins, the larger of the two integers (a value
/// that is not an integer counting as 0); else the server's value, or the
/// local one where it stands.
pub fn resolve_conflict(table: &str, field: &str, local: &FieldValue, server: &FieldValue) -> (r:
    FieldValue)
    ensures
        conflict_rule(table@, field@) == ConflictRule::MaxValue ==> r == FieldValue::Int(
            max_wins(int_of(*local), int_of(*server)),
        ),
        conflict_rule(table@, field@) == ConflictRule::ServerWins ==> r == *server,
        conflict_rule(table@, field@) == ConflictRule::LocalStands ==> r == *local,
{
    match conflict_rule_for(table, field) {
        ConflictRule::MaxValue => FieldValue::Int(max_value_wins(field_int(local), field_int(server))),
        ConflictRule::ServerWins => copy_field(server),
        ConflictRule::LocalStands => copy_field(local),
    }
}

// ── User Communication ──

/// The banner shown while offline.
pub open spec fn offline_message() -> Seq<char> {
    "Offline \u{2014} progress will sync when you reconnect"@
}

/// Connectivity status tracker.
#[derive(Debug, Clone, PartialEq)]
pub struct ConnectivityState {
    pub is_online: bool,
    pub banner_message: Option<String>,
}

/// Online, with no banner.
pub open spec fn shows_online(s: ConnectivityState) -> bool {
    s.is_online && s.banner_message is None
}

/// Offline, with the offline banner.
pub open spec fn shows_offline(s: ConnectivityState) -> bool {
    &&& !s.is_online
    &&& s.banner_message is Some
    &&& s.banner_message->Some_0@ == offline_message()
}

impl ConnectivityState {
    pub fn new() -> (r: Self)
        ensures
            shows_online(r),
    {
        ConnectivityState { is_online: true, banner_message: None }
    }

    pub fn set_offline(&mut self)
        ensures
            shows_offline(*final(self)),
    {
        self.is_online = false;
        self.banner_message = Some(owned("Offline \u{2014} progress will sync when you reconnect"));
    }

    pub fn set_online(&mut self)
        ensures
            shows_online(*final(self)),
    {
        self.is_online = true;
        self.banner_message = None;
    }
}

impl Default for ConnectivityState {
    fn default() -> (r: Self)
        ensures
            shows_online(r),
    {
        ConnectivityState::new()
    }
}

/// A day, in milliseconds.
pub const DAY_MILLIS: i64 = 86_400_000;

/// The oldest mutation is older than 24 hours at `now`.
pub open spec fn is_stale(q: Seq<PendingMutation>, now: i64) -> bool {
    q.len() > 0 && now - q[0].created_at > DAY_MILLIS
}

/// Whether the oldest queued mutation is older than 24 hours at the
/// time `now` (milliseconds since the Unix epoch).
pub fn stale_queue_check_at(queue: &OfflineQueue, now: i64) -> (r: bool)
    ensures
        r == is_stale(queue@, now),
{
    match queue.peek() {
        Some(oldest) => {
            let age: i128 = now as i128 - oldest.created_at as i128;
            age > DAY_MILLIS as i128
        },
        None => false,
    }
}

/// Whether the oldest queued mutation is older than 24 hours now. The
/// time is read from the clock, so only the empty queue has a known answer.
pub fn stale_queue_check(queue: &OfflineQueue) -> (r: bool)
    ensures
        queue@.len() == 0 ==> !r,
        r ==> exists|now: i64| is_stale(queue@, now),
{
    let now = now_millis();
    stale_queue_check_at(queue, now)
}

/// The notice for a stale queue.
pub open spec fn stale_message() -> Seq<char> {
    "Some progress hasn't synced yet. We'll retry automatically."@
}

/// The notice to show for the queue at time `now`: some exactly when the
/// queue is stale.
pub fn stale_queue_message_at(queue: &OfflineQueue, now: i64) -> (r: Option<String>)
    ensures
        r is Some <==> is_stale(queue@, now),
        r is Some ==> r->Some_0@ == stale_message(),
{
    if stale_queue_check_at(queue, now) {
        Some(owned("Some progress hasn't synced yet. We'll retry automatically."))
    } else {
        None
    }
}

/// The notice to show for the queue now.
pub fn stale_queue_message(queue: &OfflineQueue) -> (r: Option<String>)
    ensures
        queue@.len() == 0 ==> r is None,
        r is Some ==> r->Some_0@ == stale_message() && exists|now: i64| is_stale(queue@, now),
{
    let now = now_millis();
    stale_queue_message_at(queue, now)
}

} // verus!
