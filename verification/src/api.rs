//! The operations the judging core offers its callers: submitting a
//! module, cancelling a pending submission, and rejudging a finished one.
//!
//! The caller reads files and speaks HTTP; these functions take the bytes
//! and ids it hands over, validate everything, and drive the store.

use vstd::prelude::*;
use vstd::string::StringExecFns;

use crate::ext::{sha256, sha256_of};
use crate::fanout::Hub;
use crate::machine::{
    acc_contrib, report_status, spec_find_problem, spec_find_submission, Store, StoreError,
};
use crate::names::{contains_name, str_eq_chars, strictly_sorted, views_of};
use crate::olean::{
    le64_at, meta_ok, name_set_of, parse_consts, parse_imports, parse_meta,
    pinned_version_chars, root_off, spec_import_refs, spec_section_entries,
};
use crate::status::{spec_terminal, Action, Status};
use crate::validate::{dotted_id, is_dotted_id};

verus! {

/// Why a submission was not taken.
#[derive(Clone, Copy, Debug, PartialEq, Eq, Structural)]
pub enum SubmitError {
    /// The module or declaration name fails the identifier grammar.
    BadName,
    /// The uploaded buffer does not parse as a module.
    BadModule,
    /// The module exports no declaration of the given name.
    UnknownDeclaration,
    /// The store refused the row.
    Store(StoreError),
}

/// The exported declarations of a buffer, when it parses.
pub open spec fn spec_module_consts(c: Seq<u8>) -> Option<Set<Seq<char>>> {
    let base = le64_at(c, 80);
    let entries = spec_section_entries(c, base, le64_at(c, root_off(c) + 16));
    if meta_ok(c) && entries is Some {
        Some(name_set_of(c, base, entries->Some_0))
    } else {
        None
    }
}

/// The imported modules of a buffer, when they decode.
pub open spec fn spec_module_imports(c: Seq<u8>) -> Option<Set<Seq<char>>> {
    let base = le64_at(c, 80);
    let entries = spec_section_entries(c, base, le64_at(c, root_off(c) + 8));
    if meta_ok(c) && entries is Some && spec_import_refs(c, base, entries->Some_0) is Some {
        Some(name_set_of(c, base, spec_import_refs(c, base, entries->Some_0)->Some_0))
    } else {
        None
    }
}

/// Takes a submission: validates the names, parses the uploaded module,
/// checks that it exports the submitted declaration, hashes it, and
/// creates the row in `Pending`. Returns the issued id, the content
/// digest, and the module's import list for the deposit that follows.
pub fn submit(
    store: &mut Store,
    pid: i32,
    uid: &str,
    module_name: &str,
    const_name: &str,
    content: &[u8],
) -> (r: Result<(u32, [u8; 32], Vec<String>), SubmitError>)
    requires
        old(store).wf(),
        old(store).next_sid < u32::MAX,
    ensures
        final(store).wf(),
        r is Err ==> *final(store) == *old(store),
        (r == Err::<(u32, [u8; 32], Vec<String>), SubmitError>(SubmitError::BadName) <==> !(
        dotted_id(module_name@) && dotted_id(const_name@))),
        dotted_id(module_name@) && dotted_id(const_name@) ==> (r == Err::<
            (u32, [u8; 32], Vec<String>),
            SubmitError,
        >(SubmitError::BadModule) <==> (spec_module_consts(content@) is None
            || spec_module_imports(content@) is None)),
        dotted_id(module_name@) && dotted_id(const_name@) && spec_module_consts(
            content@,
        ) is Some && spec_module_imports(content@) is Some ==> (r == Err::<
            (u32, [u8; 32], Vec<String>),
            SubmitError,
        >(SubmitError::UnknownDeclaration) <==> !spec_module_consts(content@)->Some_0.contains(
            const_name@,
        )),
        r is Ok <==> dotted_id(module_name@) && dotted_id(const_name@) && spec_module_consts(
            content@,
        ) is Some && spec_module_imports(content@) is Some && spec_module_consts(
            content@,
        )->Some_0.contains(const_name@) && spec_find_problem(old(store).problems@, pid) is Some
            && crate::machine::spec_find_user(old(store).users@, uid@) is Some,
        r matches Ok((sid, digest, imports)) ==> ({
            &&& digest@ == sha256_of(content@)
            &&& strictly_sorted(imports@)
            &&& views_of(imports@) == spec_module_imports(content@)->Some_0
            &&& sid == old(store).next_sid
            &&& final(store).next_sid == old(store).next_sid + 1
            &&& final(store).submissions@.len() == old(store).submissions@.len() + 1
            &&& forall|k: int|
                0 <= k < old(store).submissions@.len() ==> final(store).submissions@[k] == old(
                    store,
                ).submissions@[k]
            &&& final(store).submissions@.last().sid == sid
            &&& final(store).submissions@.last().pid == pid
            &&& final(store).submissions@.last().submitter@ == uid@
            &&& final(store).submissions@.last().module_name@ == module_name@
            &&& final(store).submissions@.last().const_name@ == const_name@
            &&& final(store).submissions@.last().toolchain@ == pinned_version_chars()
            &&& final(store).submissions@.last().status == Status::Pending
            &&& final(store).submissions@.last().answer_size == content@.len()
            &&& final(store).submissions@.last().answer_hash@ == sha256_of(content@)
            &&& final(store).users@ == old(store).users@
        }),
{
    if !is_dotted_id(module_name) || !is_dotted_id(const_name) {
        return Err(SubmitError::BadName);
    }
    let meta = match parse_meta(content) {
        Some(m) => m,
        None => {
            return Err(SubmitError::BadModule);
        },
    };
    let consts = match parse_consts(meta) {
        Some(v) => v,
        None => {
            return Err(SubmitError::BadModule);
        },
    };
    let imports = match parse_imports(meta) {
        Some(v) => v,
        None => {
            return Err(SubmitError::BadModule);
        },
    };
    if !contains_name(&consts, const_name) {
        return Err(SubmitError::UnknownDeclaration);
    }
    let digest = sha256(content);
    let hash_vec = vstd::slice::slice_to_vec(digest.as_slice());
    let size = content.len() as u64;
    match store.create(
        pid,
        uid,
        String::from_str(module_name),
        String::from_str(const_name),
        String::from_str(meta.version),
        size,
        hash_vec,
    ) {
        Ok(sid) => Ok((sid, digest, imports)),
        Err(e) => Err(SubmitError::Store(e)),
    }
}

/// Cancels a submission, honored only strictly before a worker received
/// it.
pub fn cancel(store: &mut Store, hub: &mut Hub, sid: u32) -> (r: Result<(), StoreError>)
    requires
        old(store).wf(),
        old(hub).wf(),
    ensures
        final(store).wf(),
        final(hub).wf(),
        r is Err ==> *final(store) == *old(store) && *final(hub) == *old(hub),
        (r == Err::<(), StoreError>(StoreError::NoSuchSubmission) <==> spec_find_submission(
            old(store).submissions@,
            sid,
        ) is None),
        (spec_find_submission(old(store).submissions@, sid) matches Some(i) ==> (r is Ok <==> (
        !spec_terminal(old(store).submissions@[i].status) && crate::status::spec_ordinal(
            old(store).submissions@[i].status,
        ) < 3))),
        r is Ok ==> ({
            let i = spec_find_submission(old(store).submissions@, sid)->Some_0;
            &&& final(store).submissions@.len() == old(store).submissions@.len()
            &&& forall|m: int|
                0 <= m < old(store).submissions@.len() && m != i
                    ==> final(store).submissions@[m] == old(store).submissions@[m]
            &&& final(store).submissions@[i].status == Status::Canceled
            &&& final(store).problems@ == old(store).problems@
            &&& final(store).users@ == old(store).users@
        }),
{
    let i = match store.find_submission(sid) {
        Some(i) => i,
        None => {
            return Err(StoreError::NoSuchSubmission);
        },
    };
    if !store.submissions[i].status.can_cancel() {
        return Err(StoreError::BadTransition);
    }
    let r = report_status(store, hub, sid, Status::Canceled, Action::NoAction);
    proof {
        let fi = spec_find_submission(old(store).submissions@, sid)->Some_0;
        assert(fi == i) by {
            if fi < i {
                assert(old(store).submissions@[fi].sid < old(store).submissions@[i as int].sid);
            } else if i < fi {
                assert(old(store).submissions@[i as int].sid < old(store).submissions@[fi].sid);
            }
        }
        assert(r is Ok);
    }
    r
}

/// Why a rejudge was not taken.
#[derive(Clone, Copy, Debug, PartialEq, Eq, Structural)]
pub enum RejudgeError {
    /// Only the problem owner or a privileged role may rejudge.
    Forbidden,
    /// Only a submission that reached a verdict can be rejudged.
    NotRejudgeable,
    /// The store refused.
    Store(StoreError),
}

/// The re-read module content is fit for a rejudge of this row: it parses
/// and still exports the submitted declaration.
pub open spec fn rejudgeable_content(c: Seq<u8>, const_name: Seq<char>) -> bool {
    &&& spec_module_consts(c) is Some
    &&& spec_module_imports(c) is Some
    &&& spec_module_consts(c)->Some_0.contains(const_name)
}

/// Rejudges a finished submission: resets it to a fresh pre-judged state
/// over the module's current on-disk bytes (which may have changed since
/// the submission), rolling an accepted verdict's counters back exactly
/// once. When the module no longer reads or parses, the submission goes
/// straight back to a terminal `InvalidImport` with a fixed message, and
/// the call returns `None` instead of a new deposit's inputs.
pub fn rejudge(
    store: &mut Store,
    hub: &mut Hub,
    sid: u32,
    requester: &str,
    privileged: bool,
    content: Option<&[u8]>,
) -> (r: Result<Option<([u8; 32], Vec<String>)>, RejudgeError>)
    requires
        old(store).wf(),
        old(hub).wf(),
    ensures
        final(store).wf(),
        final(hub).wf(),
        r is Err ==> *final(store) == *old(store) && *final(hub) == *old(hub),
        (r == Err::<Option<([u8; 32], Vec<String>)>, RejudgeError>(
            RejudgeError::Store(StoreError::NoSuchSubmission),
        ) <==> spec_find_submission(old(store).submissions@, sid) is None),
        (spec_find_submission(old(store).submissions@, sid) matches Some(i) ==> {
            let old_row = old(store).submissions@[i];
            let j = spec_find_problem(old(store).problems@, old_row.pid)->Some_0;
            let authorized = privileged || old(store).problems@[j].owner@ == requester@;
            &&& (r == Err::<Option<([u8; 32], Vec<String>)>, RejudgeError>(
                RejudgeError::NotRejudgeable,
            ) <==> !spec_terminal(old_row.status))
            &&& (spec_terminal(old_row.status) ==> (r == Err::<
                Option<([u8; 32], Vec<String>)>,
                RejudgeError,
            >(RejudgeError::Forbidden) <==> !authorized))
            &&& (r is Ok <==> spec_terminal(old_row.status) && authorized)
            &&& (r is Ok ==> ({
                let new_row = final(store).submissions@[i];
                &&& final(store).submissions@.len() == old(store).submissions@.len()
                &&& forall|m: int|
                    0 <= m < old(store).submissions@.len() && m != i
                        ==> final(store).submissions@[m] == old(store).submissions@[m]
                &&& new_row.sid == old_row.sid
                &&& new_row.pid == old_row.pid
                &&& new_row.submitter == old_row.submitter
                &&& new_row.module_name == old_row.module_name
                &&& new_row.const_name == old_row.const_name
                &&& final(store).problems@.len() == old(store).problems@.len()
                &&& final(store).problems@[j].accepted_count == old(
                    store,
                ).problems@[j].accepted_count - acc_contrib(old_row, old_row.pid)
                &&& final(store).next_sid == old(store).next_sid
            }))
            &&& (r is Ok ==> match content {
                None => r == Ok::<Option<([u8; 32], Vec<String>)>, RejudgeError>(None),
                Some(c) => if rejudgeable_content(c@, old_row.const_name@) {
                    ({
                        let new_row = final(store).submissions@[i];
                        &&& r matches Ok(Some((digest, imports))) && digest@ == sha256_of(c@)
                            && strictly_sorted(imports@) && views_of(imports@)
                            == spec_module_imports(c@)->Some_0
                        &&& new_row.status == Status::Pending
                        &&& new_row.message@.len() == 0
                        &&& new_row.answer_obj@.len() == 0
                        &&& new_row.answer_size == c@.len()
                        &&& new_row.answer_hash@ == sha256_of(c@)
                        &&& new_row.toolchain@ == pinned_version_chars()
                    })
                } else {
                    ({
                        let new_row = final(store).submissions@[i];
                        &&& r == Ok::<Option<([u8; 32], Vec<String>)>, RejudgeError>(None)
                        &&& new_row.status == Status::InvalidImport
                        &&& new_row.message@ == "Rejudge fail."@
                    })
                },
            })
        }),
{
    let i = match store.find_submission(sid) {
        Some(i) => i,
        None => {
            return Err(RejudgeError::Store(StoreError::NoSuchSubmission));
        },
    };
    if !store.submissions[i].status.is_terminal() {
        return Err(RejudgeError::NotRejudgeable);
    }
    let pid = store.submissions[i].pid;
    let j = match store.find_problem(pid) {
        Some(j) => j,
        None => {
            proof {
                assert(spec_find_problem(store.problems@, pid) is Some);
                assert(false);
            }
            return Err(RejudgeError::Store(StoreError::NoSuchProblem));
        },
    };
    if !(privileged || str_eq_chars(requester, store.problems[j].owner.as_str())) {
        return Err(RejudgeError::Forbidden);
    }
    let ghost old_row = store.submissions@[i as int];
    proof {
        let fi = spec_find_submission(store.submissions@, sid)->Some_0;
        assert(fi == i) by {
            if fi < i {
                assert(store.submissions@[fi].sid < store.submissions@[i as int].sid);
            } else if i < fi {
                assert(store.submissions@[i as int].sid < store.submissions@[fi].sid);
            }
        }
    }

    // Parse the re-read content before touching the store.
    let const_name = store.submissions[i].const_name.clone();
    let mut parsed: Option<([u8; 32], Vec<String>, &'static str, u64)> = None;
    if let Some(c) = content {
        if let Some(meta) = parse_meta(c) {
            if let Some(consts) = parse_consts(meta) {
                if let Some(imports) = parse_imports(meta) {
                    if contains_name(&consts, const_name.as_str()) {
                        let digest = sha256(c);
                        parsed = Some((digest, imports, meta.version, c.len() as u64));
                    }
                }
            }
        }
    }

    let ghost subs0 = store.submissions@;
    let r1 = report_status(store, hub, sid, Status::Pending, Action::Replace(String::new()));
    proof {
        assert(r1 is Ok);
    }
    match parsed {
        Some((digest, imports, version, size)) => {
            let hash_vec = vstd::slice::slice_to_vec(digest.as_slice());
            reset_artifacts(store, sid, size, hash_vec, String::from_str(version));
            proof {
                lemma_counts_after_row_change(old(store), store, i as int);
            }
            Ok(Some((digest, imports)))
        },
        None => {
            let r2 = report_status(store, hub, sid, Status::Depositing, Action::NoAction);
            proof {
                assert(r2 is Ok);
            }
            let r3 = report_status(
                store,
                hub,
                sid,
                Status::InvalidImport,
                Action::Replace(String::from_str("Rejudge fail.")),
            );
            proof {
                assert(r3 is Ok);
                reveal_strlit("Rejudge fail.");
                lemma_counts_after_row_change(old(store), store, i as int);
            }
            Ok(None)
        },
    }
}

/// After a sequence of single-row changes, the problem's counter moved by
/// exactly the flipped contribution of that row.
proof fn lemma_counts_after_row_change(pre: &Store, post: &Store, i: int)
    requires
        pre.wf(),
        post.wf(),
        0 <= i < pre.submissions@.len(),
        post.submissions@.len() == pre.submissions@.len(),
        forall|m: int|
            0 <= m < pre.submissions@.len() && m != i ==> post.submissions@[m]
                == pre.submissions@[m],
        post.submissions@[i].pid == pre.submissions@[i].pid,
        post.problems@.len() == pre.problems@.len(),
        spec_find_problem(pre.problems@, pre.submissions@[i].pid) is Some,
        ({
            let j = spec_find_problem(pre.problems@, pre.submissions@[i].pid)->Some_0;
            post.problems@[j].pid == pre.problems@[j].pid
        }),
    ensures
        ({
            let j = spec_find_problem(pre.problems@, pre.submissions@[i].pid)->Some_0;
            post.problems@[j].accepted_count == pre.problems@[j].accepted_count - acc_contrib(
                pre.submissions@[i],
                pre.submissions@[i].pid,
            ) + acc_contrib(post.submissions@[i], pre.submissions@[i].pid)
        }),
{
    let pid = pre.submissions@[i].pid;
    let j = spec_find_problem(pre.problems@, pid)->Some_0;
    assert(post.submissions@ =~= pre.submissions@.update(i, post.submissions@[i]));
    crate::machine::lemma_count_update(pre.submissions@, i, post.submissions@[i], pid);
    assert(pre.problems@[j].accepted_count == crate::machine::count_accepted(
        pre.submissions@,
        pid,
    ));
    assert(post.problems@[j].accepted_count == crate::machine::count_accepted(
        post.submissions@,
        pid,
    ));
}

/// Replaces a row's artifact columns after a rejudge re-read: the answer
/// is cleared, the size, digest and toolchain follow the re-read bytes.
/// No column a counter depends on changes.
fn reset_artifacts(
    store: &mut Store,
    sid: u32,
    answer_size: u64,
    answer_hash: Vec<u8>,
    toolchain: String,
)
    requires
        old(store).wf(),
        spec_find_submission(old(store).submissions@, sid) is Some,
    ensures
        final(store).wf(),
        final(store).problems@ == old(store).problems@,
        final(store).users@ == old(store).users@,
        final(store).next_sid == old(store).next_sid,
        ({
            let i = spec_find_submission(old(store).submissions@, sid)->Some_0;
            let old_row = old(store).submissions@[i];
            let new_row = final(store).submissions@[i];
            &&& final(store).submissions@.len() == old(store).submissions@.len()
            &&& forall|m: int|
                0 <= m < old(store).submissions@.len() && m != i
                    ==> final(store).submissions@[m] == old(store).submissions@[m]
            &&& new_row.sid == old_row.sid
            &&& new_row.pid == old_row.pid
            &&& new_row.submitter == old_row.submitter
            &&& new_row.module_name == old_row.module_name
            &&& new_row.const_name == old_row.const_name
            &&& new_row.status == old_row.status
            &&& new_row.message == old_row.message
            &&& new_row.answer_size == answer_size
            &&& new_row.answer_hash == answer_hash
            &&& new_row.answer_obj@.len() == 0
            &&& new_row.toolchain == toolchain
        }),
{
    let i = match store.find_submission(sid) {
        Some(i) => i,
        None => {
            proof {
                assert(false);
            }
            return ;
        },
    };
    proof {
        let fi = spec_find_submission(store.submissions@, sid)->Some_0;
        assert(fi == i) by {
            if fi < i {
                assert(store.submissions@[fi].sid < store.submissions@[i as int].sid);
            } else if i < fi {
                assert(store.submissions@[i as int].sid < store.submissions@[fi].sid);
            }
        }
    }
    let ghost subs0 = store.submissions@;
    let mut row = store.submissions.remove(i);
    row.answer_size = answer_size;
    row.answer_hash = answer_hash;
    row.answer_obj = String::new();
    row.toolchain = toolchain;
    store.submissions.insert(i, row);
    proof {
        assert(store.submissions@ =~= subs0.update(i as int, store.submissions@[i as int]));
        let new_row = store.submissions@[i as int];
        assert forall|q: int|
            0 <= q < store.problems@.len() implies (#[trigger] store.problems@[
        q]).accepted_count == crate::machine::count_accepted(
            store.submissions@,
            store.problems@[q].pid,
        ) by {
            crate::machine::lemma_count_update(subs0, i as int, new_row, store.problems@[q].pid);
        }
        assert forall|q: int|
            0 <= q < store.users@.len() implies (#[trigger] store.users@[q]).accepted_problems
            == crate::machine::accepted_pids(store.submissions@, store.users@[q].uid@).len() by {
            crate::machine::lemma_accepted_pids_update_same(
                subs0,
                i as int,
                new_row,
                store.users@[q].uid@,
            );
        }
        assert forall|m: int|
            0 <= m < store.submissions@.len() implies spec_find_problem(
            store.problems@,
            (#[trigger] store.submissions@[m]).pid,
        ) is Some by {
            assert(store.submissions@[m].pid == subs0[m].pid);
        }
        assert forall|m: int|
            0 <= m < store.submissions@.len() implies crate::machine::spec_find_user(
            store.users@,
            (#[trigger] store.submissions@[m]).submitter@,
        ) is Some by {
            assert(store.submissions@[m].submitter@ == subs0[m].submitter@);
        }
    }
}

} // verus!
