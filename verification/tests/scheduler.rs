use lune_core::scheduler::{
    Outcome, ReadyEntry, ResolveReport, Scheduler, TaskStep,
};
use lune_core::ScriptValue;

#[test]
fn schedule_future_is_detached() {
    let mut s = Scheduler::new();
    let fid = s.schedule_future();
    assert_eq!(fid, 0);
    assert_eq!(s.pending.len(), 1);
    assert_eq!(s.pending[0].dependent, None);
    assert_eq!(s.ready.len(), 0);
    let report = s.future_resolved(fid, Outcome::Success(vec![]));
    assert_eq!(report, ResolveReport::Discarded);
    assert_eq!(s.pending.len(), 0);
    assert_eq!(s.ready.len(), 0);
}

#[test]
fn swapped_completion_order_delivers_own_results() {
    let mut s = Scheduler::new();
    let f1 = s.schedule_future_thread(10);
    let f2 = s.schedule_future_thread(20);
    assert_ne!(f1, f2);

    // Complete in swapped order: the second future first.
    let r2 = s.future_resolved(f2, Outcome::Success(vec![ScriptValue::Int(22)]));
    assert_eq!(r2, ResolveReport::Delivered(20));
    let r1 = s.future_resolved(f1, Outcome::Success(vec![ScriptValue::Int(11)]));
    assert_eq!(r1, ResolveReport::Delivered(10));

    // Each dependent task got exactly its own result, in completion order.
    let first = s.pop_next_ready().unwrap();
    assert_eq!(
        first,
        ReadyEntry { task: 20, payload: Outcome::Success(vec![ScriptValue::Int(22)]) }
    );
    let second = s.pop_next_ready().unwrap();
    assert_eq!(
        second,
        ReadyEntry { task: 10, payload: Outcome::Success(vec![ScriptValue::Int(11)]) }
    );
    assert_eq!(s.pop_next_ready(), None);
}

#[test]
fn native_failure_is_delivered_as_failure_outcome() {
    let mut s = Scheduler::new();
    let f = s.schedule_future_thread(7);
    let r = s.future_resolved(f, Outcome::Failure(String::from("connection refused")));
    assert_eq!(r, ResolveReport::Delivered(7));
    let e = s.pop_next_ready().unwrap();
    assert_eq!(e.task, 7);
    assert_eq!(e.payload, Outcome::Failure(String::from("connection refused")));
}

#[test]
fn unknown_future_changes_nothing() {
    let mut s = Scheduler::new();
    let _f = s.schedule_future_thread(1);
    let r = s.future_resolved(999, Outcome::Success(vec![]));
    assert_eq!(r, ResolveReport::NotFound);
    assert_eq!(s.pending.len(), 1);
    assert_eq!(s.ready.len(), 0);
}

#[test]
fn run_terminates_with_empty_collections() {
    let mut s = Scheduler::new();
    // One task already ready, yielding once before completing.
    s.push_back(1, Outcome::Success(vec![]));
    let mut scripts = vec![
        (
            1,
            vec![
                TaskStep::Yield(vec![ScriptValue::Int(5)]),
                TaskStep::Complete(Outcome::Success(vec![ScriptValue::Int(6)])),
            ],
        ),
        (2, vec![TaskStep::Complete(Outcome::Success(vec![ScriptValue::Bool(true)]))]),
    ];
    // Two independent futures, completing in reverse submission order.
    let f1 = s.schedule_future_thread(2);
    let f2 = s.schedule_future();
    let mut events = vec![
        (f2, Outcome::Success(vec![])),
        (f1, Outcome::Success(vec![ScriptValue::Nil])),
    ];
    let completed = s.run(&mut scripts, &mut events);
    assert_eq!(s.ready.len(), 0);
    assert_eq!(s.pending.len(), 0);
    assert_eq!(completed.len(), 2);
    assert_eq!(completed[0].0, 1);
    assert_eq!(completed[0].1, Outcome::Success(vec![ScriptValue::Int(6)]));
    assert_eq!(completed[1].0, 2);
    assert_eq!(completed[1].1, Outcome::Success(vec![ScriptValue::Bool(true)]));
}

#[test]
fn run_completes_n_independent_futures_in_any_order() {
    let mut s = Scheduler::new();
    let mut fids = Vec::new();
    for t in 0..5u64 {
        fids.push(s.schedule_future_thread(t));
    }
    // Completion order scrambled relative to submission.
    let mut events = Vec::new();
    for &i in &[3usize, 0, 4, 2, 1] {
        events.push((fids[i], Outcome::Success(vec![ScriptValue::Int(i as i64)])));
    }
    let mut scripts: Vec<(u64, Vec<TaskStep>)> = Vec::new();
    let completed = s.run(&mut scripts, &mut events);
    assert_eq!(s.ready.len(), 0);
    assert_eq!(s.pending.len(), 0);
    // All five dependents ran to completion.
    assert_eq!(completed.len(), 5);
    let mut tasks: Vec<u64> = completed.iter().map(|c| c.0).collect();
    tasks.sort();
    assert_eq!(tasks, vec![0, 1, 2, 3, 4]);
}

#[test]
fn teardown_drops_in_flight_futures_without_delivery() {
    let mut s = Scheduler::new();
    let f1 = s.schedule_future_thread(1);
    let _f2 = s.schedule_future();
    s.push_back(3, Outcome::Success(vec![]));
    let aborted = s.teardown();
    assert_eq!(aborted, 2);
    assert_eq!(s.ready.len(), 0);
    assert_eq!(s.pending.len(), 0);
    // A completion arriving after teardown delivers nothing.
    let r = s.future_resolved(f1, Outcome::Success(vec![ScriptValue::Int(9)]));
    assert_eq!(r, ResolveReport::NotFound);
    assert_eq!(s.ready.len(), 0);
    assert_eq!(s.pending.len(), 0);
}
