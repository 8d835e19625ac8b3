//! End-to-end scenarios over the in-memory store, dispatch queue and
//! fan-out.

use lean4oj::dispatch::{pull_task, WaiterPool};
use lean4oj::fanout::{Hub, PollReply, Update};
use lean4oj::machine::{report_answer, report_status, Store, StoreError};
use lean4oj::status::{Action, Status};

fn setup() -> (Store, Hub) {
    let mut store = Store::new();
    store.add_user(String::from("alice")).unwrap();
    store.add_problem(1, String::from("alice"), "check \u{2f00} end".as_bytes().to_vec(), vec![
        String::from("propext"),
    ])
    .unwrap();
    (store, Hub::new())
}

fn submit_one(store: &mut Store) -> u32 {
    store
        .create(
            1,
            "alice",
            String::from("Mod"),
            String::from("thm"),
            String::from(".26.0"),
            100,
            vec![0u8; 32],
        )
        .unwrap()
}

fn accepted_count(store: &Store, pid: i32) -> u64 {
    let j = store.find_problem(pid).unwrap();
    store.problems[j].accepted_count
}

fn user_accepted(store: &Store, uid: &str) -> u64 {
    let k = store.find_user(uid).unwrap();
    store.users[k].accepted_problems
}

#[test]
fn accept_scenario_counts_and_subscriber_order() {
    let (mut store, mut hub) = setup();
    // The subscriber connects before the submission exists.
    let mut sub = hub.subscribe(1);
    let sid = submit_one(&mut store);
    assert_eq!(sid, 1);

    report_status(&mut store, &mut hub, sid, Status::Depositing, Action::NoAction).unwrap();
    report_status(&mut store, &mut hub, sid, Status::Deposited, Action::NoAction).unwrap();
    let task = pull_task(&mut store, &mut hub).unwrap();
    assert_eq!(task.sid, sid);
    assert_eq!(task.version, "4.26.0");
    assert_eq!(task.axioms, vec![String::from("propext")]);
    report_status(&mut store, &mut hub, sid, Status::TypeChecking, Action::NoAction).unwrap();
    report_status(&mut store, &mut hub, sid, Status::AxiomChecking, Action::NoAction).unwrap();
    report_status(&mut store, &mut hub, sid, Status::Replaying, Action::NoAction).unwrap();
    report_status(&mut store, &mut hub, sid, Status::Accepted, Action::NoAction).unwrap();

    assert_eq!(accepted_count(&store, 1), 1);
    assert_eq!(user_accepted(&store, "alice"), 1);

    let expect = [
        Status::Depositing,
        Status::Deposited,
        Status::JudgerReceived,
        Status::TypeChecking,
        Status::AxiomChecking,
        Status::Replaying,
        Status::Accepted,
    ];
    for want in expect {
        match hub.poll(&mut sub) {
            PollReply::Next(Update::Status(got, _)) => assert_eq!(got, want),
            _ => panic!("expected a status update"),
        }
    }
    assert!(matches!(hub.poll(&mut sub), PollReply::Empty));
}

#[test]
fn repeat_accept_same_problem_counts_distinct_once() {
    let (mut store, mut hub) = setup();
    for _ in 0..2 {
        let sid = submit_one(&mut store);
        report_status(&mut store, &mut hub, sid, Status::Depositing, Action::NoAction).unwrap();
        report_status(&mut store, &mut hub, sid, Status::Deposited, Action::NoAction).unwrap();
        report_status(&mut store, &mut hub, sid, Status::JudgerReceived, Action::NoAction)
            .unwrap();
        report_status(&mut store, &mut hub, sid, Status::TypeChecking, Action::NoAction).unwrap();
        report_status(&mut store, &mut hub, sid, Status::AxiomChecking, Action::NoAction).unwrap();
        report_status(&mut store, &mut hub, sid, Status::Replaying, Action::NoAction).unwrap();
        report_status(&mut store, &mut hub, sid, Status::Accepted, Action::NoAction).unwrap();
    }
    // The problem's counter counts submissions; the user's counts problems.
    assert_eq!(accepted_count(&store, 1), 2);
    assert_eq!(user_accepted(&store, "alice"), 1);
}

#[test]
fn invalid_import_scenario_terminal_with_message() {
    let (mut store, mut hub) = setup();
    let sid = submit_one(&mut store);
    report_status(&mut store, &mut hub, sid, Status::Depositing, Action::NoAction).unwrap();
    let msg = String::from("bob.Evil: invalid import");
    report_status(&mut store, &mut hub, sid, Status::InvalidImport, Action::Replace(msg)).unwrap();
    let i = store.find_submission(sid).unwrap();
    assert_eq!(store.submissions[i].status, Status::InvalidImport);
    assert_eq!(store.submissions[i].message, "bob.Evil: invalid import");
    assert_eq!(accepted_count(&store, 1), 0);
    assert_eq!(user_accepted(&store, "alice"), 0);
}

#[test]
fn rejudge_regression_rolls_counters_back_once() {
    let (mut store, mut hub) = setup();
    let sid = submit_one(&mut store);
    for st in [
        Status::Depositing,
        Status::Deposited,
        Status::JudgerReceived,
        Status::TypeChecking,
        Status::AxiomChecking,
        Status::Replaying,
        Status::Accepted,
    ] {
        report_status(&mut store, &mut hub, sid, st, Action::NoAction).unwrap();
    }
    assert_eq!(accepted_count(&store, 1), 1);
    assert_eq!(user_accepted(&store, "alice"), 1);

    // Rejudge: reset out of the terminal state, then fail the deposit
    // because the module is gone from disk.
    report_status(&mut store, &mut hub, sid, Status::Pending, Action::NoAction).unwrap();
    assert_eq!(accepted_count(&store, 1), 0);
    assert_eq!(user_accepted(&store, "alice"), 0);
    report_status(&mut store, &mut hub, sid, Status::Depositing, Action::NoAction).unwrap();
    report_status(
        &mut store,
        &mut hub,
        sid,
        Status::JudgementFailed,
        Action::Replace(String::from("Rejudge fail.")),
    )
    .unwrap();
    // Rolled back exactly once, not twice.
    assert_eq!(accepted_count(&store, 1), 0);
    assert_eq!(user_accepted(&store, "alice"), 0);
}

#[test]
fn message_append_accumulates() {
    let (mut store, mut hub) = setup();
    let sid = submit_one(&mut store);
    report_status(&mut store, &mut hub, sid, Status::Depositing, Action::Replace(String::from(
        "step 1\n",
    )))
    .unwrap();
    report_status(&mut store, &mut hub, sid, Status::Deposited, Action::Append(String::from(
        "step 2\n",
    )))
    .unwrap();
    let i = store.find_submission(sid).unwrap();
    assert_eq!(store.submissions[i].message, "step 1\nstep 2\n");
}

#[test]
fn pull_serves_oldest_deposited_exactly_once() {
    let (mut store, mut hub) = setup();
    let mut sids = Vec::new();
    for _ in 0..3 {
        let sid = submit_one(&mut store);
        report_status(&mut store, &mut hub, sid, Status::Depositing, Action::NoAction).unwrap();
        report_status(&mut store, &mut hub, sid, Status::Deposited, Action::NoAction).unwrap();
        sids.push(sid);
    }
    // With zero idle workers all three sit queryable; pulls come in
    // non-decreasing id order and each task exactly once.
    let t1 = pull_task(&mut store, &mut hub).unwrap();
    let t2 = pull_task(&mut store, &mut hub).unwrap();
    let t3 = pull_task(&mut store, &mut hub).unwrap();
    assert_eq!(vec![t1.sid, t2.sid, t3.sid], sids);
    assert!(t1.sid < t2.sid && t2.sid < t3.sid);
    assert!(pull_task(&mut store, &mut hub).is_none());
}

#[test]
fn transitions_are_checked() {
    let (mut store, mut hub) = setup();
    let sid = submit_one(&mut store);
    assert_eq!(
        report_status(&mut store, &mut hub, sid, Status::Accepted, Action::NoAction),
        Err(StoreError::BadTransition)
    );
    assert_eq!(
        report_status(&mut store, &mut hub, 999, Status::Depositing, Action::NoAction),
        Err(StoreError::NoSuchSubmission)
    );
}

#[test]
fn cancel_only_before_worker_receives() {
    let (mut store, mut hub) = setup();
    let sid = submit_one(&mut store);
    report_status(&mut store, &mut hub, sid, Status::Depositing, Action::NoAction).unwrap();
    report_status(&mut store, &mut hub, sid, Status::Deposited, Action::NoAction).unwrap();
    // Still before a worker has it: cancel is honored.
    report_status(&mut store, &mut hub, sid, Status::Canceled, Action::NoAction).unwrap();

    let sid2 = submit_one(&mut store);
    report_status(&mut store, &mut hub, sid2, Status::Depositing, Action::NoAction).unwrap();
    report_status(&mut store, &mut hub, sid2, Status::Deposited, Action::NoAction).unwrap();
    report_status(&mut store, &mut hub, sid2, Status::JudgerReceived, Action::NoAction).unwrap();
    assert_eq!(
        report_status(&mut store, &mut hub, sid2, Status::Canceled, Action::NoAction),
        Err(StoreError::BadTransition)
    );
}

#[test]
fn answer_report_updates_row_and_broadcasts() {
    let (mut store, mut hub) = setup();
    let sid = submit_one(&mut store);
    let mut sub = hub.subscribe(sid);
    report_answer(&mut store, &mut hub, sid, String::from("Qed")).unwrap();
    let i = store.find_submission(sid).unwrap();
    assert_eq!(store.submissions[i].answer_obj, "Qed");
    match hub.poll(&mut sub) {
        PollReply::Next(Update::Answer(a)) => assert_eq!(a, "Qed"),
        _ => panic!("expected an answer update"),
    }
}

#[test]
fn slow_subscriber_gets_explicit_lag_signal() {
    let mut hub = Hub::new();
    let mut sub = hub.subscribe(7);
    for i in 0..20u32 {
        hub.publish(7, Update::Answer(format!("a{i}")));
    }
    match hub.poll(&mut sub) {
        PollReply::Lagged(n) => assert_eq!(n, 4),
        _ => panic!("expected a lagged signal"),
    }
    // After the lag signal the remaining updates come in order.
    for i in 4..20u32 {
        match hub.poll(&mut sub) {
            PollReply::Next(Update::Answer(a)) => assert_eq!(a, format!("a{i}")),
            _ => panic!("expected an answer update"),
        }
    }
    assert!(matches!(hub.poll(&mut sub), PollReply::Empty));
}

#[test]
fn unsubscribe_tears_channel_down() {
    let mut hub = Hub::new();
    let sub1 = hub.subscribe(3);
    let sub2 = hub.subscribe(3);
    assert_eq!(hub.channels.len(), 1);
    hub.unsubscribe(sub1);
    assert_eq!(hub.channels.len(), 1);
    hub.unsubscribe(sub2);
    assert_eq!(hub.channels.len(), 0);
    let mut gone = lean4oj::fanout::Subscriber { sid: 3, cursor: 0 };
    assert!(matches!(hub.poll(&mut gone), PollReply::Closed));
}

#[test]
fn waiter_pool_draws_registered_workers() {
    let mut pool = WaiterPool::new();
    assert!(pool.pick().is_none());
    pool.register(11);
    pool.register(22);
    let first = pool.pick().unwrap();
    assert!(first == 11 || first == 22);
    let second = pool.pick().unwrap();
    assert!(second == 11 || second == 22);
    assert_ne!(first, second);
    assert!(pool.pick().is_none());
}

#[test]
fn create_rejects_unknown_problem_and_user() {
    let (mut store, _hub) = setup();
    assert_eq!(
        store.create(
            2,
            "alice",
            String::from("M"),
            String::from("t"),
            String::from(".26.0"),
            1,
            vec![0u8; 32],
        ),
        Err(StoreError::NoSuchProblem)
    );
    assert_eq!(
        store.create(
            1,
            "mallory",
            String::from("M"),
            String::from("t"),
            String::from(".26.0"),
            1,
            vec![0u8; 32],
        ),
        Err(StoreError::NoSuchUser)
    );
}

#[test]
fn submission_ids_issue_monotonically() {
    let (mut store, _hub) = setup();
    let a = submit_one(&mut store);
    let b = submit_one(&mut store);
    let c = submit_one(&mut store);
    assert!(a < b && b < c);
    let j = store.find_problem(1).unwrap();
    assert_eq!(store.problems[j].submission_count, 3);
}
