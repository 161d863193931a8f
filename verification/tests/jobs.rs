use compact_mcp::error::CoreError;
use compact_mcp::jobs::gate::{Admission, BuildGate};
use compact_mcp::jobs::{TaskState, TaskStore};
use compact_mcp::json::Json;
use compact_mcp::server::acquire_gate;
use compact_mcp::time::Duration;

const SECOND: i128 = 1_000_000_000;
const NOW: i128 = 1_700_000_000 * SECOND;

fn store() -> TaskStore {
    TaskStore::new(Duration::from_secs(900), Duration::from_secs(3600))
}

fn obj(members: Vec<(&str, Json)>) -> Json {
    Json::Object(members.into_iter().map(|(n, v)| (n.to_string(), v)).collect())
}

#[test]
fn ttl_is_clamped_and_defaulted() {
    let mut s = store();
    let (_, a) = s.create(None, NOW);
    assert_eq!(a, Duration::from_secs(900), "omitted ttl uses the default");

    let (_, b) = s.create(Some(Duration::from_secs(60)), NOW);
    assert_eq!(b, Duration::from_secs(60), "a reasonable ttl is honoured");

    let (_, c) = s.create(Some(Duration::from_secs(999_999)), NOW);
    assert_eq!(
        c,
        Duration::from_secs(3600),
        "an excessive ttl is clamped to max"
    );
}

#[test]
fn result_is_not_consumed_by_reading_it() {
    let mut s = store();
    let (id, _) = s.create(None, NOW);
    s.finish(&id, obj(vec![("ok", Json::Bool(true))]), false, NOW);

    let first = s.result(&id).unwrap().unwrap();
    assert!(matches!(first.get("ok"), Some(Json::Bool(true))));
    let second = s.result(&id).unwrap().unwrap();
    assert!(
        matches!(second.get("ok"), Some(Json::Bool(true))),
        "second fetch must still work"
    );
}

#[test]
fn result_distinguishes_unknown_id_from_pending() {
    let mut s = store();
    let (id, _) = s.create(None, NOW);
    assert!(s.result(&id).unwrap().is_none());
    assert_eq!(s.get(&id).unwrap().state, TaskState::Working);
    assert!(matches!(s.result("nope"), Err(CoreError::TaskNotFound(_))));
}

#[test]
fn a_failed_call_tool_result_marks_the_task_failed() {
    let mut s = store();
    let (id, _) = s.create(None, NOW);
    s.finish(&id, obj(vec![("isError", Json::Bool(true))]), true, NOW);
    assert_eq!(s.get(&id).unwrap().state, TaskState::Failed);
}

#[test]
fn cancel_signals_the_token_and_is_idempotent_only_once() {
    let mut s = store();
    let (id, _) = s.create(None, NOW);
    let snap = s.cancel(&id, NOW).unwrap();
    assert_eq!(snap.state, TaskState::Cancelled);
    let err = s.cancel(&id, NOW).unwrap_err();
    assert!(matches!(err, CoreError::TaskTerminal(_)));
}

#[test]
fn cancelling_a_completed_task_is_an_error() {
    let mut s = store();
    let (id, _) = s.create(None, NOW);
    s.finish(&id, obj(vec![]), false, NOW);
    assert!(matches!(s.cancel(&id, NOW), Err(CoreError::TaskTerminal(_))));
}

#[test]
fn unknown_ids_are_reported_not_panicked() {
    let mut s = store();
    assert!(matches!(s.get("nope"), Err(CoreError::TaskNotFound(_))));
    assert!(matches!(s.cancel("nope", NOW), Err(CoreError::TaskNotFound(_))));
    assert!(matches!(s.subscribe("nope"), Err(CoreError::TaskNotFound(_))));
}

#[test]
fn gc_evicts_only_tasks_past_their_ttl() {
    let mut s = store();
    let (short, _) = s.create(Some(Duration::from_secs(1)), NOW);
    let (long, _) = s.create(Some(Duration::from_secs(3000)), NOW);
    s.finish(&short, obj(vec![]), false, NOW);
    s.finish(&long, obj(vec![]), false, NOW);

    let later = NOW + 10 * SECOND;
    assert_eq!(s.gc(later), 1);
    assert!(matches!(s.get(&short), Err(CoreError::TaskNotFound(_))));
    assert!(s.get(&long).is_ok());
}

#[test]
fn subscribe_wakes_on_the_terminal_transition() {
    let mut s = store();
    let (id, _) = s.create(None, NOW);
    assert!(!s.subscribe(&id).unwrap().is_terminal());
    s.finish(&id, obj(vec![("done", Json::uint(1))]), false, NOW);
    assert!(s.subscribe(&id).unwrap().is_terminal());
}

#[test]
fn subscribe_after_terminal_sees_the_terminal_value() {
    let mut s = store();
    let (id, _) = s.create(None, NOW);
    s.finish(&id, obj(vec![]), false, NOW);
    let state = s.subscribe(&id).unwrap();
    assert!(state.is_terminal());
    assert_eq!(state, TaskState::Completed);
}

#[test]
fn gc_never_evicts_a_working_task_even_past_its_ttl() {
    let mut s = store();
    let (id, _) = s.create(Some(Duration::from_secs(1)), NOW);
    let later = NOW + 10 * SECOND;
    assert_eq!(s.gc(later), 0, "a Working task is never evicted by age");
    assert_eq!(s.get(&id).unwrap().state, TaskState::Working);
}

#[test]
fn retention_runs_from_finish_not_creation() {
    let mut s = store();
    let (id, _) = s.create(Some(Duration::from_secs(100)), NOW - 90 * SECOND);
    s.finish(&id, obj(vec![]), false, NOW);
    let later = NOW + 20 * SECOND;
    assert_eq!(
        s.gc(later),
        0,
        "retention must run from finish, not creation"
    );
    assert!(s.get(&id).is_ok());
}

#[test]
fn task_ids_are_unguessable() {
    let mut s = store();
    let (a, _) = s.create(None, NOW);
    let (b, _) = s.create(None, NOW);
    assert_ne!(a, b);
    assert!(a.len() >= 32, "expected a uuid-length id, got {a:?}");
    assert!(uuid::Uuid::parse_str(&a).is_ok());
}

#[test]
fn a_finished_task_stays_as_it_ended() {
    let mut s = store();
    let (id, _) = s.create(None, NOW);
    s.set_status(&id, "running", NOW + 1);
    assert_eq!(s.get(&id).unwrap().status_message.as_deref(), Some("running"));
    assert_eq!(s.get(&id).unwrap().last_updated_at, NOW + 1);
    s.cancel(&id, NOW + 2).unwrap();
    s.finish(&id, obj(vec![]), false, NOW + 3);
    s.set_status(&id, "late", NOW + 4);
    let snap = s.get(&id).unwrap();
    assert_eq!(snap.state, TaskState::Cancelled);
    assert_eq!(snap.last_updated_at, NOW + 2);
    assert_eq!(snap.created_at, NOW);
    assert!(s.result(&id).unwrap().is_none());
}

#[test]
fn exactly_finished_tasks_have_results() {
    let mut s = store();
    let (working, _) = s.create(None, NOW);
    let (cancelled, _) = s.create(None, NOW);
    let (done, _) = s.create(None, NOW);
    let (failed, _) = s.create(None, NOW);
    s.cancel(&cancelled, NOW).unwrap();
    s.finish(&cancelled, obj(vec![]), false, NOW);
    s.finish(&done, obj(vec![]), false, NOW);
    s.finish(&failed, obj(vec![]), true, NOW);
    s.set_status(&done, "late", NOW);
    for (id, state, there) in [
        (&working, TaskState::Working, false),
        (&cancelled, TaskState::Cancelled, false),
        (&done, TaskState::Completed, true),
        (&failed, TaskState::Failed, true),
    ] {
        assert_eq!(s.get(id).unwrap().state, state);
        assert_eq!(s.result(id).unwrap().is_some(), there, "{state:?}");
    }
}

#[test]
fn tasks_do_not_touch_one_another() {
    let mut s = store();
    let (a, _) = s.create(None, NOW);
    let (b, _) = s.create(None, NOW);
    s.finish(&a, obj(vec![]), true, NOW);
    assert_eq!(s.get(&b).unwrap().state, TaskState::Working);
    assert_eq!(s.list().len(), 2);
}

// --- builds ---

#[test]
fn a_second_build_queues_rather_than_failing() {
    let mut g = BuildGate::new(1, 4);
    assert_eq!(g.acquire(true).unwrap(), Admission::Run);
    assert_eq!(g.acquire(false).unwrap(), Admission::Wait);
    assert_eq!(g.queued(), 1);
    g.leave();
    assert_eq!(g.queued(), 0);
}

#[test]
fn only_an_overfull_queue_rejects() {
    let mut g = BuildGate::new(1, 1);
    assert_eq!(g.acquire(true).unwrap(), Admission::Run);
    assert_eq!(g.acquire(false).unwrap(), Admission::Wait);
    let err = g.acquire(false).unwrap_err();
    assert!(matches!(err, CoreError::QueueFull(1)));
    assert_eq!(g.queued(), 1);
}

#[test]
fn cancelling_a_queued_waiter_does_not_leak_the_queue_counter() {
    let mut g = BuildGate::new(1, 4);
    g.acquire(true).unwrap();
    for _ in 0..100 {
        assert_eq!(g.acquire(false).unwrap(), Admission::Wait);
        assert_eq!(g.queued(), 1);
        g.leave();
        assert_eq!(g.queued(), 0);
    }
}

#[test]
fn there_is_always_a_slot() {
    assert_eq!(BuildGate::new(0, 0).slots(), 1);
    assert_eq!(BuildGate::new(3, 0).slots(), 3);
}

#[test]
fn a_build_that_was_told_to_stop_is_not_queued() {
    let mut g = BuildGate::new(1, 4);
    assert!(matches!(acquire_gate(&mut g, true, false), Err(CoreError::Cancelled)));
    assert_eq!(g.queued(), 0);
    assert_eq!(acquire_gate(&mut g, false, false).unwrap(), Admission::Wait);
    assert_eq!(g.queued(), 1);
    assert_eq!(acquire_gate(&mut g, false, true).unwrap(), Admission::Run);
}
