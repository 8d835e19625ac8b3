//! Tests of the submit, cancel and rejudge operations.

use lean4oj::api::{cancel, rejudge, submit, RejudgeError, SubmitError};
use lean4oj::fanout::Hub;
use lean4oj::machine::{report_status, Store, StoreError};
use lean4oj::status::{Action, Status};
use lean4oj::validate::is_dotted_id;

const BASE: u64 = 0x7000_0000;

fn put_u64(buf: &mut Vec<u8>, v: u64) {
    buf.extend_from_slice(&v.to_le_bytes());
}

fn names_array(buf: &mut Vec<u8>, names: &[&str], as_imports: bool) -> u64 {
    let mut elems = Vec::new();
    for m in names {
        let mut recur = 1u64;
        for comp in m.split('.') {
            let soff = buf.len() as u64;
            put_u64(buf, 0xf900_0001_0000_0000);
            put_u64(buf, 0);
            put_u64(buf, 0);
            put_u64(buf, comp.len() as u64);
            buf.extend_from_slice(comp.as_bytes());
            let noff = buf.len() as u64;
            put_u64(buf, 0x0102_0020_0000_0000);
            put_u64(buf, recur);
            put_u64(buf, BASE + soff);
            put_u64(buf, 0);
            recur = BASE + noff;
        }
        if as_imports {
            let eoff = buf.len() as u64;
            put_u64(buf, 0);
            put_u64(buf, recur);
            elems.push(BASE + eoff);
        } else {
            elems.push(recur);
        }
    }
    let off = buf.len() as u64;
    put_u64(buf, 0xf600_0001_0000_0000);
    put_u64(buf, elems.len() as u64);
    put_u64(buf, elems.len() as u64);
    for e in &elems {
        put_u64(buf, *e);
    }
    BASE + off
}

fn module_with(consts: &[&str], imports: &[&str]) -> Vec<u8> {
    let mut buf = Vec::new();
    buf.extend_from_slice(b"olean\x02\x014");
    let mut ver = [0u8; 32];
    ver[..5].copy_from_slice(b".26.0");
    buf.extend_from_slice(&ver);
    buf.extend_from_slice(b"d8204c9fd894f91bbb2cdfec5912ec8196fd8562");
    put_u64(&mut buf, BASE);
    put_u64(&mut buf, 0);
    let consts_arr = names_array(&mut buf, consts, false);
    let imports_arr = names_array(&mut buf, imports, true);
    let sections_pos = buf.len() as u64;
    put_u64(&mut buf, 0x0005_0038_0000_0000);
    put_u64(&mut buf, imports_arr);
    put_u64(&mut buf, consts_arr);
    for _ in 0..4 {
        put_u64(&mut buf, 0);
    }
    let addr = BASE + sections_pos;
    buf[88..96].copy_from_slice(&addr.to_le_bytes());
    buf
}

fn setup() -> (Store, Hub) {
    let mut store = Store::new();
    store.add_user(String::from("alice")).unwrap();
    store
        .add_problem(1, String::from("alice"), b"checker".to_vec(), Vec::new())
        .unwrap();
    (store, Hub::new())
}

#[test]
fn dotted_names() {
    assert!(is_dotted_id("Foo"));
    assert!(is_dotted_id("Foo.bar.baz'"));
    assert!(!is_dotted_id(""));
    assert!(!is_dotted_id(".Foo"));
    assert!(!is_dotted_id("Foo."));
    assert!(!is_dotted_id("Foo..bar"));
    assert!(!is_dotted_id("Foo.2bar"));
}

#[test]
fn submit_creates_pending_row() {
    let (mut store, _hub) = setup();
    let content = module_with(&["Mod.thm", "Mod.lemma"], &["Init.Core", "alice.Dep"]);
    let (sid, digest, imports) =
        submit(&mut store, 1, "alice", "Mod", "Mod.thm", &content).unwrap();
    assert_eq!(sid, 1);
    assert_eq!(imports, vec!["Init.Core", "alice.Dep"]);
    let i = store.find_submission(sid).unwrap();
    let row = &store.submissions[i];
    assert_eq!(row.status, Status::Pending);
    assert_eq!(row.module_name, "Mod");
    assert_eq!(row.const_name, "Mod.thm");
    assert_eq!(row.toolchain, ".26.0");
    assert_eq!(row.answer_size, content.len() as u64);
    assert_eq!(row.answer_hash, digest.to_vec());
}

#[test]
fn submit_rejects_bad_input() {
    let (mut store, _hub) = setup();
    let content = module_with(&["Mod.thm"], &[]);
    assert_eq!(
        submit(&mut store, 1, "alice", "Mod..x", "Mod.thm", &content),
        Err(SubmitError::BadName)
    );
    assert_eq!(
        submit(&mut store, 1, "alice", "Mod", "Mod.thm", b"junk"),
        Err(SubmitError::BadModule)
    );
    assert_eq!(
        submit(&mut store, 1, "alice", "Mod", "Mod.missing", &content),
        Err(SubmitError::UnknownDeclaration)
    );
    assert_eq!(
        submit(&mut store, 9, "alice", "Mod", "Mod.thm", &content),
        Err(SubmitError::Store(StoreError::NoSuchProblem))
    );
    assert_eq!(store.submissions.len(), 0);
}

#[test]
fn get_returns_the_row() {
    let (mut store, _hub) = setup();
    let content = module_with(&["Mod.thm"], &[]);
    let (sid, _, _) = submit(&mut store, 1, "alice", "Mod", "Mod.thm", &content).unwrap();
    let row = store.get(sid).unwrap();
    assert_eq!(row.sid, sid);
    assert_eq!(row.module_name, "Mod");
    assert!(store.get(sid + 1).is_none());
}

#[test]
fn cancel_window() {
    let (mut store, mut hub) = setup();
    let content = module_with(&["Mod.thm"], &[]);
    let (sid, _, _) = submit(&mut store, 1, "alice", "Mod", "Mod.thm", &content).unwrap();
    cancel(&mut store, &mut hub, sid).unwrap();
    let i = store.find_submission(sid).unwrap();
    assert_eq!(store.submissions[i].status, Status::Canceled);

    let (sid2, _, _) = submit(&mut store, 1, "alice", "Mod", "Mod.thm", &content).unwrap();
    report_status(&mut store, &mut hub, sid2, Status::Depositing, Action::NoAction).unwrap();
    report_status(&mut store, &mut hub, sid2, Status::Deposited, Action::NoAction).unwrap();
    report_status(&mut store, &mut hub, sid2, Status::JudgerReceived, Action::NoAction).unwrap();
    assert_eq!(cancel(&mut store, &mut hub, sid2), Err(StoreError::BadTransition));
    assert!(matches!(cancel(&mut store, &mut hub, 99), Err(StoreError::NoSuchSubmission)));
}

fn accept(store: &mut Store, hub: &mut Hub, sid: u32) {
    for st in [
        Status::Depositing,
        Status::Deposited,
        Status::JudgerReceived,
        Status::TypeChecking,
        Status::AxiomChecking,
        Status::Replaying,
        Status::Accepted,
    ] {
        report_status(store, hub, sid, st, Action::NoAction).unwrap();
    }
}

#[test]
fn rejudge_is_guarded() {
    let (mut store, mut hub) = setup();
    let content = module_with(&["Mod.thm"], &[]);
    let (sid, _, _) = submit(&mut store, 1, "alice", "Mod", "Mod.thm", &content).unwrap();
    // Not finished yet.
    assert_eq!(
        rejudge(&mut store, &mut hub, sid, "alice", false, Some(&content)),
        Err(RejudgeError::NotRejudgeable)
    );
    accept(&mut store, &mut hub, sid);
    // A stranger may not rejudge; the owner and a privileged role may.
    assert_eq!(
        rejudge(&mut store, &mut hub, sid, "mallory", false, Some(&content)),
        Err(RejudgeError::Forbidden)
    );
    let r = rejudge(&mut store, &mut hub, sid, "alice", false, Some(&content)).unwrap();
    assert!(r.is_some());
    let i = store.find_submission(sid).unwrap();
    assert_eq!(store.submissions[i].status, Status::Pending);
    assert_eq!(store.submissions[i].message, "");
    assert_eq!(store.submissions[i].answer_obj, "");
}

#[test]
fn rejudge_of_deleted_module_fails_terminally_with_single_rollback() {
    let (mut store, mut hub) = setup();
    let content = module_with(&["Mod.thm"], &[]);
    let (sid, _, _) = submit(&mut store, 1, "alice", "Mod", "Mod.thm", &content).unwrap();
    accept(&mut store, &mut hub, sid);
    let j = store.find_problem(1).unwrap();
    let k = store.find_user("alice").unwrap();
    assert_eq!(store.problems[j].accepted_count, 1);
    assert_eq!(store.users[k].accepted_problems, 1);

    // The module was deleted from disk: the re-read yields nothing.
    let r = rejudge(&mut store, &mut hub, sid, "alice", true, None).unwrap();
    assert!(r.is_none());
    let i = store.find_submission(sid).unwrap();
    assert_eq!(store.submissions[i].status, Status::InvalidImport);
    assert_eq!(store.submissions[i].message, "Rejudge fail.");
    // Counters rolled back exactly once, not twice.
    assert_eq!(store.problems[j].accepted_count, 0);
    assert_eq!(store.users[k].accepted_problems, 0);
}

#[test]
fn rejudge_picks_up_changed_module_content() {
    let (mut store, mut hub) = setup();
    let content = module_with(&["Mod.thm"], &[]);
    let (sid, first_digest, _) = submit(&mut store, 1, "alice", "Mod", "Mod.thm", &content).unwrap();
    accept(&mut store, &mut hub, sid);
    // The user replaced the module on disk; the rejudge silently re-reads
    // and re-hashes the current bytes.
    let changed = module_with(&["Mod.thm", "Mod.extra"], &["alice.New"]);
    let (digest, imports) = rejudge(&mut store, &mut hub, sid, "alice", true, Some(&changed))
        .unwrap()
        .unwrap();
    assert_ne!(digest.to_vec(), first_digest.to_vec());
    assert_eq!(imports, vec!["alice.New"]);
    let i = store.find_submission(sid).unwrap();
    assert_eq!(store.submissions[i].answer_hash, digest.to_vec());
    assert_eq!(store.submissions[i].answer_size, changed.len() as u64);
}

#[test]
fn rejudge_rejects_module_missing_declaration() {
    let (mut store, mut hub) = setup();
    let content = module_with(&["Mod.thm"], &[]);
    let (sid, _, _) = submit(&mut store, 1, "alice", "Mod", "Mod.thm", &content).unwrap();
    accept(&mut store, &mut hub, sid);
    // The declaration is gone from the rewritten module.
    let changed = module_with(&["Mod.other"], &[]);
    let r = rejudge(&mut store, &mut hub, sid, "alice", true, Some(&changed)).unwrap();
    assert!(r.is_none());
    let i = store.find_submission(sid).unwrap();
    assert_eq!(store.submissions[i].status, Status::InvalidImport);
}
