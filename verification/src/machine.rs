//! The submission store and its status machine.
//!
//! The submission row is the single source of truth. `report_status` moves
//! a row along the transition graph, applies the message action, keeps the
//! owning problem's accepted counter and the submitter's distinct-accepted
//! count in step within the same call, and fans the update out to live
//! subscribers.

use vstd::prelude::*;

use crate::fanout::{clone_action, Hub, Update};
use crate::status::{apply_action, spec_allowed, Action, Status};

verus! {

/// One submission row.
pub struct SubmissionRow {
    pub sid: u32,
    pub pid: i32,
    pub submitter: String,
    pub module_name: String,
    pub const_name: String,
    pub toolchain: String,
    pub status: Status,
    pub message: String,
    pub answer_size: u64,
    pub answer_hash: Vec<u8>,
    pub answer_obj: String,
}

/// One problem row: its counters, its checker template and the trusted
/// axiom whitelist its checker accepts.
pub struct ProblemRow {
    pub pid: i32,
    pub owner: String,
    pub accepted_count: u64,
    pub submission_count: u64,
    pub checker: Vec<u8>,
    pub axioms: Vec<String>,
}

/// One user row: the distinct-accepted-problem counter.
pub struct UserRow {
    pub uid: String,
    pub accepted_problems: u64,
}

/// Failures the store surfaces to its caller.
#[derive(Clone, Copy, Debug, PartialEq, Eq, Structural)]
pub enum StoreError {
    NoSuchSubmission,
    NoSuchProblem,
    NoSuchUser,
    BadTransition,
}

/// 1 when the row is an accepted submission of `pid`, else 0.
pub open spec fn acc_contrib(r: SubmissionRow, pid: i32) -> nat {
    if r.pid == pid && r.status == Status::Accepted {
        1
    } else {
        0
    }
}

/// How many rows are accepted submissions of `pid`.
pub open spec fn count_accepted(s: Seq<SubmissionRow>, pid: i32) -> nat
    decreases s.len(),
{
    if s.len() == 0 {
        0
    } else {
        count_accepted(s.drop_last(), pid) + acc_contrib(s.last(), pid)
    }
}

/// The problems on which `uid` has an accepted submission.
pub open spec fn accepted_pids(s: Seq<SubmissionRow>, uid: Seq<char>) -> Set<int> {
    Set::new(
        |p: int|
            exists|i: int|
                0 <= i < s.len() && (#[trigger] s[i]).submitter@ == uid && s[i].pid == p
                    && s[i].status == Status::Accepted,
    )
}

/// The accepted count is bracketed by one row's contribution and the row
/// count.
pub proof fn lemma_count_split(s: Seq<SubmissionRow>, i: int, pid: i32)
    requires
        0 <= i < s.len(),
    ensures
        acc_contrib(s[i], pid) <= count_accepted(s, pid) <= s.len() - 1 + acc_contrib(s[i], pid),
    decreases s.len(),
{
    lemma_count_le_len(s.drop_last(), pid);
    if i < s.len() - 1 {
        lemma_count_split(s.drop_last(), i, pid);
    }
}

pub proof fn lemma_count_le_len(s: Seq<SubmissionRow>, pid: i32)
    ensures
        count_accepted(s, pid) <= s.len(),
    decreases s.len(),
{
    if s.len() > 0 {
        lemma_count_le_len(s.drop_last(), pid);
    }
}

/// Replacing one row changes the count by the difference of the two rows'
/// contributions.
pub proof fn lemma_count_update(s: Seq<SubmissionRow>, i: int, r: SubmissionRow, pid: i32)
    requires
        0 <= i < s.len(),
    ensures
        count_accepted(s.update(i, r), pid) == count_accepted(s, pid) - acc_contrib(s[i], pid)
            + acc_contrib(r, pid),
    decreases s.len(),
{
    lemma_count_split(s, i, pid);
    if i == s.len() - 1 {
        assert(s.update(i, r).drop_last() =~= s.drop_last());
        assert(s.update(i, r).last() == r);
    } else {
        assert(s.update(i, r).drop_last() =~= s.drop_last().update(i, r));
        assert(s.update(i, r).last() == s.last());
        lemma_count_update(s.drop_last(), i, r, pid);
    }
}

/// Appending a row adds exactly its contribution.
pub proof fn lemma_count_push(s: Seq<SubmissionRow>, r: SubmissionRow, pid: i32)
    ensures
        count_accepted(s.push(r), pid) == count_accepted(s, pid) + acc_contrib(r, pid),
{
    assert(s.push(r).drop_last() =~= s);
    assert(s.push(r).last() == r);
}

/// Replacing a row of another submitter leaves a user's accepted-problem
/// set untouched.
pub proof fn lemma_accepted_pids_update_other(
    s: Seq<SubmissionRow>,
    i: int,
    r: SubmissionRow,
    uid: Seq<char>,
)
    requires
        0 <= i < s.len(),
        s[i].submitter@ != uid,
        r.submitter@ != uid,
    ensures
        accepted_pids(s.update(i, r), uid) == accepted_pids(s, uid),
{
    let s2 = s.update(i, r);
    assert(accepted_pids(s2, uid) =~= accepted_pids(s, uid)) by {
        assert forall|p: int| accepted_pids(s2, uid).contains(p) implies accepted_pids(
            s,
            uid,
        ).contains(p) by {
            let k = choose|k: int|
                0 <= k < s2.len() && (#[trigger] s2[k]).submitter@ == uid && s2[k].pid == p
                    && s2[k].status == Status::Accepted;
            assert(k != i);
            assert(s[k].submitter@ == uid && s[k].pid == p && s[k].status == Status::Accepted);
        }
        assert forall|p: int| accepted_pids(s, uid).contains(p) implies accepted_pids(
            s2,
            uid,
        ).contains(p) by {
            let k = choose|k: int|
                0 <= k < s.len() && (#[trigger] s[k]).submitter@ == uid && s[k].pid == p
                    && s[k].status == Status::Accepted;
            assert(k != i);
            assert(s2[k].submitter@ == uid && s2[k].pid == p && s2[k].status
                == Status::Accepted);
        }
    }
}

/// Replacing a row without changing its problem, submitter or
/// accepted-ness leaves every accepted-problem set untouched.
pub proof fn lemma_accepted_pids_update_same(
    s: Seq<SubmissionRow>,
    i: int,
    r: SubmissionRow,
    uid: Seq<char>,
)
    requires
        0 <= i < s.len(),
        r.pid == s[i].pid,
        r.submitter@ == s[i].submitter@,
        (r.status == Status::Accepted) == (s[i].status == Status::Accepted),
    ensures
        accepted_pids(s.update(i, r), uid) == accepted_pids(s, uid),
{
    let s2 = s.update(i, r);
    assert(accepted_pids(s2, uid) =~= accepted_pids(s, uid)) by {
        assert forall|p: int| accepted_pids(s2, uid).contains(p) implies accepted_pids(
            s,
            uid,
        ).contains(p) by {
            let k = choose|k: int|
                0 <= k < s2.len() && (#[trigger] s2[k]).submitter@ == uid && s2[k].pid == p
                    && s2[k].status == Status::Accepted;
            if k == i {
                assert(s[k].submitter@ == uid && s[k].pid == p && s[k].status
                    == Status::Accepted);
            } else {
                assert(s[k].submitter@ == uid && s[k].pid == p && s[k].status
                    == Status::Accepted);
            }
        }
        assert forall|p: int| accepted_pids(s, uid).contains(p) implies accepted_pids(
            s2,
            uid,
        ).contains(p) by {
            let k = choose|k: int|
                0 <= k < s.len() && (#[trigger] s[k]).submitter@ == uid && s[k].pid == p
                    && s[k].status == Status::Accepted;
            if k == i {
                assert(s2[k].submitter@ == uid && s2[k].pid == p && s2[k].status
                    == Status::Accepted);
            } else {
                assert(s2[k].submitter@ == uid && s2[k].pid == p && s2[k].status
                    == Status::Accepted);
            }
        }
    }
}

/// Appending a non-accepted row leaves every accepted-problem set
/// untouched.
pub proof fn lemma_accepted_pids_push_inactive(
    s: Seq<SubmissionRow>,
    r: SubmissionRow,
    uid: Seq<char>,
)
    requires
        r.status != Status::Accepted,
    ensures
        accepted_pids(s.push(r), uid) == accepted_pids(s, uid),
{
    let s2 = s.push(r);
    assert(accepted_pids(s2, uid) =~= accepted_pids(s, uid)) by {
        assert forall|p: int| accepted_pids(s2, uid).contains(p) implies accepted_pids(
            s,
            uid,
        ).contains(p) by {
            let k = choose|k: int|
                0 <= k < s2.len() && (#[trigger] s2[k]).submitter@ == uid && s2[k].pid == p
                    && s2[k].status == Status::Accepted;
            assert(k < s.len());
            assert(s[k].submitter@ == uid && s[k].pid == p && s[k].status == Status::Accepted);
        }
        assert forall|p: int| accepted_pids(s, uid).contains(p) implies accepted_pids(
            s2,
            uid,
        ).contains(p) by {
            let k = choose|k: int|
                0 <= k < s.len() && (#[trigger] s[k]).submitter@ == uid && s[k].pid == p
                    && s[k].status == Status::Accepted;
            assert(s2[k].submitter@ == uid && s2[k].pid == p && s2[k].status
                == Status::Accepted);
        }
    }
}

/// The in-memory store: submissions, problems and users, plus the next id
/// to issue. Submission ids are issued monotonically.
pub struct Store {
    pub submissions: Vec<SubmissionRow>,
    pub problems: Vec<ProblemRow>,
    pub users: Vec<UserRow>,
    pub next_sid: u32,
}

pub open spec fn spec_find_submission(s: Seq<SubmissionRow>, sid: u32) -> Option<int> {
    if exists|i: int| 0 <= i < s.len() && (#[trigger] s[i]).sid == sid {
        Some(choose|i: int| 0 <= i < s.len() && (#[trigger] s[i]).sid == sid)
    } else {
        None
    }
}

pub open spec fn spec_find_problem(s: Seq<ProblemRow>, pid: i32) -> Option<int> {
    if exists|i: int| 0 <= i < s.len() && (#[trigger] s[i]).pid == pid {
        Some(choose|i: int| 0 <= i < s.len() && (#[trigger] s[i]).pid == pid)
    } else {
        None
    }
}

pub open spec fn spec_find_user(s: Seq<UserRow>, uid: Seq<char>) -> Option<int> {
    if exists|i: int| 0 <= i < s.len() && (#[trigger] s[i]).uid@ == uid {
        Some(choose|i: int| 0 <= i < s.len() && (#[trigger] s[i]).uid@ == uid)
    } else {
        None
    }
}

impl Store {
    /// The store's invariant: ids are unique (submission ids in issue
    /// order), every submission points at an existing problem and user,
    /// and both counters equal what a recount of the rows gives.
    pub open spec fn wf(self) -> bool {
        &&& forall|i: int, j: int|
            0 <= i < j < self.submissions@.len() ==> (#[trigger] self.submissions@[i]).sid < (
            #[trigger] self.submissions@[j]).sid
        &&& forall|i: int|
            0 <= i < self.submissions@.len() ==> (#[trigger] self.submissions@[i]).sid
                < self.next_sid
        &&& forall|i: int, j: int|
            0 <= i < j < self.problems@.len() ==> (#[trigger] self.problems@[i]).pid != (
            #[trigger] self.problems@[j]).pid
        &&& forall|i: int, j: int|
            0 <= i < j < self.users@.len() ==> (#[trigger] self.users@[i]).uid@ != (
            #[trigger] self.users@[j]).uid@
        &&& forall|i: int|
            0 <= i < self.submissions@.len() ==> spec_find_problem(
                self.problems@,
                (#[trigger] self.submissions@[i]).pid,
            ) is Some
        &&& forall|i: int|
            0 <= i < self.submissions@.len() ==> spec_find_user(
                self.users@,
                (#[trigger] self.submissions@[i]).submitter@,
            ) is Some
        &&& forall|j: int|
            0 <= j < self.problems@.len() ==> (#[trigger] self.problems@[j]).accepted_count
                == count_accepted(self.submissions@, self.problems@[j].pid)
        &&& forall|j: int|
            0 <= j < self.users@.len() ==> (#[trigger] self.users@[j]).accepted_problems
                == accepted_pids(self.submissions@, self.users@[j].uid@).len()
    }

    pub fn new() -> (s: Store)
        ensures
            s.wf(),
            s.submissions@.len() == 0,
            s.problems@.len() == 0,
            s.users@.len() == 0,
            s.next_sid == 1,
    {
        Store { submissions: Vec::new(), problems: Vec::new(), users: Vec::new(), next_sid: 1 }
    }

    pub fn find_submission(&self, sid: u32) -> (r: Option<usize>)
        ensures
            r is Some <==> spec_find_submission(self.submissions@, sid) is Some,
            r matches Some(i) ==> 0 <= i < self.submissions@.len() && self.submissions@[
                i as int
            ].sid == sid,
    {
        let n = self.submissions.len();
        let mut i: usize = 0;
        while i < n
            invariant
                0 <= i <= n,
                n == self.submissions@.len(),
                forall|k: int| 0 <= k < i ==> (#[trigger] self.submissions@[k]).sid != sid,
            decreases n - i,
        {
            if self.submissions[i].sid == sid {
                return Some(i);
            }
            i = i + 1;
        }
        proof {
            if spec_find_submission(self.submissions@, sid) is Some {
                let k = choose|k: int|
                    0 <= k < self.submissions@.len() && (#[trigger] self.submissions@[k]).sid
                        == sid;
                assert(self.submissions@[k].sid == sid);
            }
        }
        None
    }

    /// The row for a submission id, if one exists.
    pub fn get(&self, sid: u32) -> (r: Option<&SubmissionRow>)
        requires
            self.wf(),
        ensures
            r is Some <==> spec_find_submission(self.submissions@, sid) is Some,
            r matches Some(row) ==> *row == self.submissions@[spec_find_submission(
                self.submissions@,
                sid,
            )->Some_0] && row.sid == sid,
    {
        match self.find_submission(sid) {
            Some(i) => {
                let row = &self.submissions[i];
                proof {
                    let fi = spec_find_submission(self.submissions@, sid)->Some_0;
                    assert(self.submissions@[fi].sid == sid);
                    assert(fi == i) by {
                        if fi < i {
                            assert(self.submissions@[fi].sid < self.submissions@[i as int].sid);
                        } else if i < fi {
                            assert(self.submissions@[i as int].sid < self.submissions@[fi].sid);
                        }
                    }
                }
                Some(row)
            },
            None => None,
        }
    }

    pub fn find_problem(&self, pid: i32) -> (r: Option<usize>)
        ensures
            r is Some <==> spec_find_problem(self.problems@, pid) is Some,
            r matches Some(i) ==> 0 <= i < self.problems@.len() && self.problems@[i as int].pid
                == pid,
    {
        let n = self.problems.len();
        let mut i: usize = 0;
        while i < n
            invariant
                0 <= i <= n,
                n == self.problems@.len(),
                forall|k: int| 0 <= k < i ==> (#[trigger] self.problems@[k]).pid != pid,
            decreases n - i,
        {
            if self.problems[i].pid == pid {
                return Some(i);
            }
            i = i + 1;
        }
        proof {
            if spec_find_problem(self.problems@, pid) is Some {
                let k = choose|k: int|
                    0 <= k < self.problems@.len() && (#[trigger] self.problems@[k]).pid == pid;
                assert(self.problems@[k].pid == pid);
            }
        }
        None
    }

    pub fn find_user(&self, uid: &str) -> (r: Option<usize>)
        ensures
            r is Some <==> spec_find_user(self.users@, uid@) is Some,
            r matches Some(i) ==> 0 <= i < self.users@.len() && self.users@[i as int].uid@
                == uid@,
    {
        let n = self.users.len();
        let mut i: usize = 0;
        while i < n
            invariant
                0 <= i <= n,
                n == self.users@.len(),
                forall|k: int| 0 <= k < i ==> (#[trigger] self.users@[k]).uid@ != uid@,
            decreases n - i,
        {
            if crate::names::str_eq_chars(self.users[i].uid.as_str(), uid) {
                return Some(i);
            }
            i = i + 1;
        }
        proof {
            if spec_find_user(self.users@, uid@) is Some {
                let k = choose|k: int|
                    0 <= k < self.users@.len() && (#[trigger] self.users@[k]).uid@ == uid@;
                assert(self.users@[k].uid@ == uid@);
            }
        }
        None
    }
}

/// One row extends the accepted-problem set of a prefix by its problem, or
/// not at all.
proof fn lemma_accepted_pids_take_step(s: Seq<SubmissionRow>, i: int, uid: Seq<char>)
    requires
        0 <= i < s.len(),
    ensures
        accepted_pids(s.take(i + 1), uid) == if s[i].submitter@ == uid && s[i].status
            == Status::Accepted {
            accepted_pids(s.take(i), uid).insert(s[i].pid as int)
        } else {
            accepted_pids(s.take(i), uid)
        },
{
    let pre = accepted_pids(s.take(i), uid);
    let post = accepted_pids(s.take(i + 1), uid);
    if s[i].submitter@ == uid && s[i].status == Status::Accepted {
        assert(post =~= pre.insert(s[i].pid as int)) by {
            assert forall|p: int| post.contains(p) implies pre.insert(
                s[i].pid as int,
            ).contains(p) by {
                let k = choose|k: int|
                    0 <= k < s.take(i + 1).len() && (#[trigger] s.take(i + 1)[k]).submitter@
                        == uid && s.take(i + 1)[k].pid == p && s.take(i + 1)[k].status
                        == Status::Accepted;
                if k < i {
                    assert(s.take(i)[k] == s[k]);
                    assert(pre.contains(p));
                }
            }
            assert forall|p: int| pre.insert(s[i].pid as int).contains(p) implies post.contains(
                p,
            ) by {
                if p == s[i].pid as int {
                    assert(s.take(i + 1)[i] == s[i]);
                } else {
                    let k = choose|k: int|
                        0 <= k < s.take(i).len() && (#[trigger] s.take(i)[k]).submitter@ == uid
                            && s.take(i)[k].pid == p && s.take(i)[k].status == Status::Accepted;
                    assert(s.take(i + 1)[k] == s[k]);
                }
            }
        }
    } else {
        assert(post =~= pre) by {
            assert forall|p: int| post.contains(p) implies pre.contains(p) by {
                let k = choose|k: int|
                    0 <= k < s.take(i + 1).len() && (#[trigger] s.take(i + 1)[k]).submitter@
                        == uid && s.take(i + 1)[k].pid == p && s.take(i + 1)[k].status
                        == Status::Accepted;
                assert(s.take(i + 1)[k] == s[k]);
                assert(k != i);
                assert(s.take(i)[k] == s[k]);
            }
            assert forall|p: int| pre.contains(p) implies post.contains(p) by {
                let k = choose|k: int|
                    0 <= k < s.take(i).len() && (#[trigger] s.take(i)[k]).submitter@ == uid
                        && s.take(i)[k].pid == p && s.take(i)[k].status == Status::Accepted;
                assert(s.take(i + 1)[k] == s[k]);
            }
        }
    }
}

/// Whether a problem already counts among the first `i` rows as accepted
/// for `uid`.
fn seen_before(subs: &Vec<SubmissionRow>, i: usize, uid: &str, pid: i32) -> (r: bool)
    requires
        i <= subs@.len(),
    ensures
        r == accepted_pids(subs@.take(i as int), uid@).contains(pid as int),
{
    let mut j: usize = 0;
    while j < i
        invariant
            0 <= j <= i,
            i <= subs@.len(),
            forall|k: int|
                0 <= k < j ==> !((#[trigger] subs@[k]).submitter@ == uid@ && subs@[k].pid == pid
                    && subs@[k].status == Status::Accepted),
        decreases i - j,
    {
        if subs[j].pid == pid && subs[j].status == Status::Accepted
            && crate::names::str_eq_chars(subs[j].submitter.as_str(), uid) {
            proof {
                assert(subs@.take(i as int)[j as int] == subs@[j as int]);
            }
            return true;
        }
        j = j + 1;
    }
    proof {
        if accepted_pids(subs@.take(i as int), uid@).contains(pid as int) {
            let k = choose|k: int|
                0 <= k < subs@.take(i as int).len() && (#[trigger] subs@.take(
                    i as int,
                )[k]).submitter@ == uid@ && subs@.take(i as int)[k].pid == pid as int
                    && subs@.take(i as int)[k].status == Status::Accepted;
            assert(subs@.take(i as int)[k] == subs@[k]);
        }
    }
    false
}

/// Recounts the submitter's distinct accepted problems from the rows.
fn count_distinct_accepted(subs: &Vec<SubmissionRow>, uid: &str) -> (r: usize)
    ensures
        r == accepted_pids(subs@, uid@).len(),
        accepted_pids(subs@, uid@).finite(),
{
    broadcast use vstd::set::group_set_axioms;

    let n = subs.len();
    let mut count: usize = 0;
    let ghost mut seen: Set<int> = Set::empty();
    let mut i: usize = 0;
    proof {
        assert(seen =~= accepted_pids(subs@.take(0), uid@)) by {
            if exists|p: int| accepted_pids(subs@.take(0), uid@).contains(p) {
                let p = choose|p: int| accepted_pids(subs@.take(0), uid@).contains(p);
                let k = choose|k: int|
                    0 <= k < subs@.take(0).len() && (#[trigger] subs@.take(0)[k]).submitter@
                        == uid@ && subs@.take(0)[k].pid == p && subs@.take(0)[k].status
                        == Status::Accepted;
            }
        }
    }
    while i < n
        invariant
            0 <= i <= n,
            n == subs@.len(),
            seen == accepted_pids(subs@.take(i as int), uid@),
            seen.finite(),
            count == seen.len(),
            count <= i,
        decreases n - i,
    {
        proof {
            lemma_accepted_pids_take_step(subs@, i as int, uid@);
        }
        let accepted = subs[i].status == Status::Accepted;
        let mine = crate::names::str_eq_chars(subs[i].submitter.as_str(), uid);
        if accepted && mine {
            let pid = subs[i].pid;
            let dup = seen_before(subs, i, uid, pid);
            if !dup {
                count = count + 1;
            }
            proof {
                seen = seen.insert(pid as int);
            }
        }
        i = i + 1;
    }
    proof {
        assert(subs@.take(n as int) =~= subs@);
    }
    count
}

/// A problem no row refers to has accepted count zero.
proof fn lemma_count_zero(s: Seq<SubmissionRow>, pid: i32)
    requires
        forall|i: int| 0 <= i < s.len() ==> (#[trigger] s[i]).pid != pid,
    ensures
        count_accepted(s, pid) == 0,
    decreases s.len(),
{
    if s.len() > 0 {
        lemma_count_zero(s.drop_last(), pid);
    }
}

/// A user no row names has an empty accepted-problem set.
proof fn lemma_accepted_pids_empty(s: Seq<SubmissionRow>, uid: Seq<char>)
    requires
        forall|i: int| 0 <= i < s.len() ==> (#[trigger] s[i]).submitter@ != uid,
    ensures
        accepted_pids(s, uid) == Set::<int>::empty(),
        accepted_pids(s, uid).len() == 0,
{
    broadcast use vstd::set::group_set_axioms;

    assert(accepted_pids(s, uid) =~= Set::<int>::empty()) by {
        assert forall|p: int| !accepted_pids(s, uid).contains(p) by {
            if accepted_pids(s, uid).contains(p) {
                let k = choose|k: int|
                    0 <= k < s.len() && (#[trigger] s[k]).submitter@ == uid && s[k].pid == p
                        && s[k].status == Status::Accepted;
            }
        }
    }
}

/// The row after a status report: the status replaced, the message acted
/// on, every other column untouched.
pub open spec fn row_updated(
    old_row: SubmissionRow,
    new_row: SubmissionRow,
    status: Status,
    action: Action,
) -> bool {
    &&& new_row.sid == old_row.sid
    &&& new_row.pid == old_row.pid
    &&& new_row.submitter == old_row.submitter
    &&& new_row.module_name == old_row.module_name
    &&& new_row.const_name == old_row.const_name
    &&& new_row.toolchain == old_row.toolchain
    &&& new_row.status == status
    &&& new_row.message@ == apply_action(old_row.message@, action)
    &&& new_row.answer_size == old_row.answer_size
    &&& new_row.answer_hash == old_row.answer_hash
    &&& new_row.answer_obj == old_row.answer_obj
}

impl Store {
    /// Registers a problem under a fresh id, with both counters at zero.
    pub fn add_problem(
        &mut self,
        pid: i32,
        owner: String,
        checker: Vec<u8>,
        axioms: Vec<String>,
    ) -> (r: Result<(), StoreError>)
        requires
            old(self).wf(),
        ensures
            final(self).wf(),
            r is Err ==> *final(self) == *old(self),
            r is Ok <==> spec_find_problem(old(self).problems@, pid) is None,
            r is Ok ==> {
                &&& final(self).problems@.len() == old(self).problems@.len() + 1
                &&& forall|k: int|
                    0 <= k < old(self).problems@.len() ==> final(self).problems@[k] == old(
                        self,
                    ).problems@[k]
                &&& final(self).problems@.last().pid == pid
                &&& final(self).problems@.last().owner == owner
                &&& final(self).problems@.last().accepted_count == 0
                &&& final(self).problems@.last().submission_count == 0
                &&& final(self).problems@.last().checker == checker
                &&& final(self).problems@.last().axioms == axioms
                &&& final(self).submissions@ == old(self).submissions@
                &&& final(self).users@ == old(self).users@
                &&& final(self).next_sid == old(self).next_sid
            },
    {
        if self.find_problem(pid).is_some() {
            return Err(StoreError::NoSuchProblem);
        }
        proof {
            assert forall|i: int|
                0 <= i < self.submissions@.len() implies (#[trigger] self.submissions@[i]).pid
                != pid by {
                if self.submissions@[i].pid == pid {
                    assert(spec_find_problem(self.problems@, pid) is Some);
                }
            }
            lemma_count_zero(self.submissions@, pid);
        }
        self.problems.push(
            ProblemRow {
                pid,
                owner,
                accepted_count: 0,
                submission_count: 0,
                checker,
                axioms,
            },
        );
        proof {
            let n = (self.problems@.len() - 1) as int;
            assert(forall|k: int| 0 <= k < n ==> self.problems@[k] == old(self).problems@[k]);
            assert forall|i: int, j: int|
                0 <= i < j < self.problems@.len() implies (#[trigger] self.problems@[i]).pid != (
                #[trigger] self.problems@[j]).pid by {
                if j == n {
                    if self.problems@[i].pid == pid {
                        assert(spec_find_problem(old(self).problems@, pid) is Some);
                    }
                }
            }
            assert forall|i: int|
                0 <= i < self.submissions@.len() implies spec_find_problem(
                self.problems@,
                (#[trigger] self.submissions@[i]).pid,
            ) is Some by {
                let j = spec_find_problem(old(self).problems@, self.submissions@[i].pid)->Some_0;
                assert(self.problems@[j].pid == self.submissions@[i].pid);
            }
        }
        Ok(())
    }

    /// Registers a user under a fresh id, with its accepted counter at
    /// zero.
    pub fn add_user(&mut self, uid: String) -> (r: Result<(), StoreError>)
        requires
            old(self).wf(),
        ensures
            final(self).wf(),
            r is Err ==> *final(self) == *old(self),
            r is Ok <==> spec_find_user(old(self).users@, uid@) is None,
            r is Ok ==> {
                &&& final(self).users@.len() == old(self).users@.len() + 1
                &&& forall|k: int|
                    0 <= k < old(self).users@.len() ==> final(self).users@[k] == old(
                        self,
                    ).users@[k]
                &&& final(self).users@.last().uid == uid
                &&& final(self).users@.last().accepted_problems == 0
                &&& final(self).submissions@ == old(self).submissions@
                &&& final(self).problems@ == old(self).problems@
                &&& final(self).next_sid == old(self).next_sid
            },
    {
        if self.find_user(uid.as_str()).is_some() {
            return Err(StoreError::NoSuchUser);
        }
        proof {
            assert forall|i: int|
                0 <= i < self.submissions@.len() implies (#[trigger] self.submissions@[
                i]).submitter@ != uid@ by {
                if self.submissions@[i].submitter@ == uid@ {
                    assert(spec_find_user(self.users@, uid@) is Some);
                }
            }
            lemma_accepted_pids_empty(self.submissions@, uid@);
        }
        self.users.push(UserRow { uid, accepted_problems: 0 });
        proof {
            let n = (self.users@.len() - 1) as int;
            assert(forall|k: int| 0 <= k < n ==> self.users@[k] == old(self).users@[k]);
            assert forall|i: int, j: int|
                0 <= i < j < self.users@.len() implies (#[trigger] self.users@[i]).uid@ != (
                #[trigger] self.users@[j]).uid@ by {
                if j == n {
                    if self.users@[i].uid@ == self.users@[n].uid@ {
                        assert(spec_find_user(old(self).users@, self.users@[n].uid@) is Some);
                    }
                }
            }
            assert forall|i: int|
                0 <= i < self.submissions@.len() implies spec_find_user(
                self.users@,
                (#[trigger] self.submissions@[i]).submitter@,
            ) is Some by {
                let j = spec_find_user(old(self).users@, self.submissions@[i].submitter@)
                    ->Some_0;
                assert(self.users@[j].uid@ == self.submissions@[i].submitter@);
            }
        }
        Ok(())
    }

    /// Inserts a fresh submission row in `Pending`, issues its id, and
    /// counts it against the problem's submission counter.
    pub fn create(
        &mut self,
        pid: i32,
        submitter: &str,
        module_name: String,
        const_name: String,
        toolchain: String,
        answer_size: u64,
        answer_hash: Vec<u8>,
    ) -> (r: Result<u32, StoreError>)
        requires
            old(self).wf(),
            old(self).next_sid < u32::MAX,
        ensures
            final(self).wf(),
            r is Err ==> *final(self) == *old(self),
            (r == Err::<u32, StoreError>(StoreError::NoSuchProblem) <==> spec_find_problem(
                old(self).problems@,
                pid,
            ) is None),
            r is Ok <==> spec_find_problem(old(self).problems@, pid) is Some && spec_find_user(
                old(self).users@,
                submitter@,
            ) is Some,
            r matches Ok(sid) ==> {
                let j = spec_find_problem(old(self).problems@, pid)->Some_0;
                &&& sid == old(self).next_sid
                &&& final(self).next_sid == old(self).next_sid + 1
                &&& final(self).submissions@.len() == old(self).submissions@.len() + 1
                &&& forall|k: int|
                    0 <= k < old(self).submissions@.len() ==> final(self).submissions@[k]
                        == old(self).submissions@[k]
                &&& final(self).submissions@.last().sid == sid
                &&& final(self).submissions@.last().pid == pid
                &&& final(self).submissions@.last().submitter@ == submitter@
                &&& final(self).submissions@.last().module_name == module_name
                &&& final(self).submissions@.last().const_name == const_name
                &&& final(self).submissions@.last().toolchain == toolchain
                &&& final(self).submissions@.last().status == Status::Pending
                &&& final(self).submissions@.last().message@.len() == 0
                &&& final(self).submissions@.last().answer_size == answer_size
                &&& final(self).submissions@.last().answer_hash == answer_hash
                &&& final(self).submissions@.last().answer_obj@.len() == 0
                &&& final(self).problems@.len() == old(self).problems@.len()
                &&& forall|k: int|
                    0 <= k < old(self).problems@.len() && k != j ==> final(self).problems@[k]
                        == old(self).problems@[k]
                &&& final(self).problems@[j].pid == old(self).problems@[j].pid
                &&& final(self).problems@[j].submission_count == crate::fanout::sat_inc(
                    old(self).problems@[j].submission_count,
                )
                &&& final(self).problems@[j].accepted_count == old(
                    self,
                ).problems@[j].accepted_count
                &&& final(self).problems@[j].owner == old(self).problems@[j].owner
                &&& final(self).problems@[j].checker == old(self).problems@[j].checker
                &&& final(self).problems@[j].axioms == old(self).problems@[j].axioms
                &&& final(self).users@ == old(self).users@
            },
    {
        let j = match self.find_problem(pid) {
            Some(j) => j,
            None => {
                return Err(StoreError::NoSuchProblem);
            },
        };
        let k = match self.find_user(submitter) {
            Some(k) => k,
            None => {
                return Err(StoreError::NoSuchUser);
            },
        };
        let sid = self.next_sid;
        self.next_sid = sid + 1;
        let row = SubmissionRow {
            sid,
            pid,
            submitter: String::from_str(submitter),
            module_name,
            const_name,
            toolchain,
            status: Status::Pending,
            message: String::new(),
            answer_size,
            answer_hash,
            answer_obj: String::new(),
        };
        let ghost before = self.submissions@;
        self.submissions.push(row);
        let count = self.problems[j].submission_count;
        let bumped = if count < u64::MAX {
            count + 1
        } else {
            count
        };
        let mut prow = self.problems.remove(j);
        prow.submission_count = bumped;
        self.problems.insert(j, prow);
        proof {
            let n = before.len() as int;
            assert(self.problems@ =~= old(self).problems@.update(
                j as int,
                ProblemRow {
                    submission_count: crate::fanout::sat_inc(
                        old(self).problems@[j as int].submission_count,
                    ),
                    ..old(self).problems@[j as int]
                },
            ));
            assert(forall|k2: int| 0 <= k2 < n ==> self.submissions@[k2] == before[k2]);
            assert forall|q: int|
                0 <= q < self.problems@.len() implies (#[trigger] self.problems@[
            q]).accepted_count == count_accepted(self.submissions@, self.problems@[q].pid) by {
                lemma_count_push(before, self.submissions@.last(), self.problems@[q].pid);
            }
            assert forall|q: int|
                0 <= q < self.users@.len() implies (#[trigger] self.users@[q]).accepted_problems
                == accepted_pids(self.submissions@, self.users@[q].uid@).len() by {
                lemma_accepted_pids_push_inactive(
                    before,
                    self.submissions@.last(),
                    self.users@[q].uid@,
                );
            }
            assert forall|i: int|
                0 <= i < self.submissions@.len() implies spec_find_problem(
                self.problems@,
                (#[trigger] self.submissions@[i]).pid,
            ) is Some by {
                if i < n {
                    let jj = spec_find_problem(old(self).problems@, self.submissions@[i].pid)
                        ->Some_0;
                    assert(self.problems@[jj].pid == self.submissions@[i].pid);
                } else {
                    assert(self.problems@[j as int].pid == pid);
                }
            }
            assert forall|i: int|
                0 <= i < self.submissions@.len() implies spec_find_user(
                self.users@,
                (#[trigger] self.submissions@[i]).submitter@,
            ) is Some by {
                if i < n {
                } else {
                    assert(self.users@[k as int].uid@ == submitter@);
                }
            }
        }
        Ok(sid)
    }
}

/// Moves a submission along the transition graph, in one logical
/// transaction: the row's status and message change, the owning problem's
/// accepted counter moves by exactly the accepted-ness flip, the
/// submitter's distinct-accepted count is recomputed when it could change,
/// and the update is fanned out to live subscribers.
pub fn report_status(
    store: &mut Store,
    hub: &mut Hub,
    sid: u32,
    status: Status,
    action: Action,
) -> (r: Result<(), StoreError>)
    requires
        old(store).wf(),
        old(hub).wf(),
    ensures
        final(store).wf(),
        final(hub).wf(),
        r is Err ==> *final(store) == *old(store) && *final(hub) == *old(hub),
        r is Err ==> r == Err::<(), StoreError>(StoreError::NoSuchSubmission) || r == Err::<
            (),
            StoreError,
        >(StoreError::BadTransition),
        (r == Err::<(), StoreError>(StoreError::NoSuchSubmission) <==> spec_find_submission(
            old(store).submissions@,
            sid,
        ) is None),
        (spec_find_submission(old(store).submissions@, sid) matches Some(i) ==> (r == Err::<
            (),
            StoreError,
        >(StoreError::BadTransition) <==> !spec_allowed(
            old(store).submissions@[i].status,
            status,
        ))),
        r is Ok ==> ({
            let i = spec_find_submission(old(store).submissions@, sid)->Some_0;
            let old_row = old(store).submissions@[i];
            let entering = status == Status::Accepted && old_row.status != Status::Accepted;
            let leaving = old_row.status == Status::Accepted && status != Status::Accepted;
            let j = spec_find_problem(old(store).problems@, old_row.pid)->Some_0;
            let k = spec_find_user(old(store).users@, old_row.submitter@)->Some_0;
            &&& spec_allowed(old_row.status, status)
            &&& final(store).submissions@.len() == old(store).submissions@.len()
            &&& forall|m: int|
                0 <= m < old(store).submissions@.len() && m != i ==> final(store).submissions@[m] == old(store).submissions@[m]
            &&& row_updated(old_row, final(store).submissions@[i], status, action)
            &&& final(store).next_sid == old(store).next_sid
            &&& final(store).problems@.len() == old(store).problems@.len()
            &&& forall|m: int|
                0 <= m < old(store).problems@.len() && m != j ==> final(store).problems@[m]
                    == old(store).problems@[m]
            &&& final(store).problems@[j].pid == old(store).problems@[j].pid
            &&& final(store).problems@[j].owner == old(store).problems@[j].owner
            &&& final(store).problems@[j].submission_count == old(
                store,
            ).problems@[j].submission_count
            &&& final(store).problems@[j].checker == old(store).problems@[j].checker
            &&& final(store).problems@[j].axioms == old(store).problems@[j].axioms
            &&& (entering ==> final(store).problems@[j].accepted_count == old(
                store,
            ).problems@[j].accepted_count + 1)
            &&& (leaving ==> final(store).problems@[j].accepted_count == old(
                store,
            ).problems@[j].accepted_count - 1)
            &&& (!entering && !leaving ==> final(store).problems@ == old(store).problems@)
            &&& final(store).users@.len() == old(store).users@.len()
            &&& (entering || leaving ==> {
                &&& forall|m: int|
                    0 <= m < old(store).users@.len() && m != k ==> final(store).users@[m]
                        == old(store).users@[m]
                &&& final(store).users@[k].uid == old(store).users@[k].uid
                &&& final(store).users@[k].accepted_problems == accepted_pids(
                    final(store).submissions@,
                    old_row.submitter@,
                ).len()
            })
            &&& (!entering && !leaving ==> final(store).users@ == old(store).users@)
            &&& crate::fanout::published(
                *old(hub),
                *final(hub),
                sid,
                Update::Status(status, action),
            )
        }),
{
    let i = match store.find_submission(sid) {
        Some(i) => i,
        None => {
            return Err(StoreError::NoSuchSubmission);
        },
    };
    let old_status = store.submissions[i].status;
    if !old_status.can_transition(status) {
        return Err(StoreError::BadTransition);
    }
    let pid = store.submissions[i].pid;
    let uid = store.submissions[i].submitter.clone();
    let action_out = clone_action(&action);

    let ghost subs0 = store.submissions@;
    let mut row = store.submissions.remove(i);
    row.status = status;
    match action {
        Action::NoAction => {},
        Action::Replace(m) => {
            row.message = m;
        },
        Action::Append(m) => {
            row.message.append(m.as_str());
        },
    }
    store.submissions.insert(i, row);
    proof {
        assert(store.submissions@ =~= subs0.update(
            i as int,
            store.submissions@[i as int],
        ));
    }
    let ghost subs1 = store.submissions@;
    let ghost old_row = subs0[i as int];
    let ghost new_row = subs1[i as int];

    let entering = status == Status::Accepted && !(old_status == Status::Accepted);
    let leaving = old_status == Status::Accepted && !(status == Status::Accepted);

    proof {
        assert forall|q: int|
            0 <= q < store.problems@.len() implies count_accepted(subs1, (
        #[trigger] store.problems@[q]).pid) == count_accepted(subs0, store.problems@[q].pid)
            - acc_contrib(old_row, store.problems@[q].pid) + acc_contrib(
            new_row,
            store.problems@[q].pid,
        ) by {
            lemma_count_update(subs0, i as int, new_row, store.problems@[q].pid);
        }
    }

    if entering || leaving {
        let j = match store.find_problem(pid) {
            Some(j) => j,
            None => {
                proof {
                    assert(spec_find_problem(store.problems@, pid) is Some) by {
                        assert(subs0[i as int].pid == pid);
                    }
                    assert(false);
                }
                return Err(StoreError::NoSuchProblem);
            },
        };
        let pac = store.problems[j].accepted_count;
        let nsubs = store.submissions.len();
        proof {
            lemma_count_split(subs0, i as int, pid);
            lemma_count_update(subs0, i as int, new_row, pid);
            assert(subs0.len() == nsubs);
            if entering {
                assert(acc_contrib(old_row, pid) == 0);
                assert(pac < nsubs);
            } else {
                assert(acc_contrib(old_row, pid) == 1);
                assert(pac >= 1);
            }
        }
        let new_pac = if entering {
            pac + 1
        } else {
            pac - 1
        };
        let mut prow = store.problems.remove(j);
        prow.accepted_count = new_pac;
        store.problems.insert(j, prow);
        proof {
            assert(store.problems@ =~= old(store).problems@.update(
                j as int,
                store.problems@[j as int],
            ));
        }
        let k = match store.find_user(uid.as_str()) {
            Some(k) => k,
            None => {
                proof {
                    assert(spec_find_user(store.users@, uid@) is Some) by {
                        assert(subs0[i as int].submitter@ == uid@);
                    }
                    assert(false);
                }
                return Err(StoreError::NoSuchUser);
            },
        };
        let cnt = count_distinct_accepted(&store.submissions, uid.as_str());
        let mut urow = store.users.remove(k);
        urow.accepted_problems = cnt as u64;
        store.users.insert(k, urow);
        proof {
            assert(store.users@ =~= old(store).users@.update(k as int, store.users@[k as int]));
            assert forall|q: int|
                0 <= q < store.users@.len() && q != k implies (#[trigger] store.users@[
            q]).accepted_problems == accepted_pids(subs1, store.users@[q].uid@).len() by {
                assert(store.users@[q] == old(store).users@[q]);
                assert(old(store).users@[q].uid@ != uid@) by {
                    if q < k {
                        assert(old(store).users@[q].uid@ != old(store).users@[k as int].uid@);
                    } else {
                        assert(old(store).users@[k as int].uid@ != old(store).users@[q].uid@);
                    }
                }
                lemma_accepted_pids_update_other(subs0, i as int, new_row, store.users@[q].uid@);
            }
        }
    } else {
        proof {
            assert forall|q: int|
                0 <= q < store.users@.len() implies (#[trigger] store.users@[
            q]).accepted_problems == accepted_pids(subs1, store.users@[q].uid@).len() by {
                lemma_accepted_pids_update_same(subs0, i as int, new_row, store.users@[q].uid@);
            }
        }
    }

    hub.publish(sid, Update::Status(status, action_out));

    proof {
        assert forall|m: int|
            0 <= m < store.submissions@.len() implies spec_find_problem(
            store.problems@,
            (#[trigger] store.submissions@[m]).pid,
        ) is Some by {
            let jj = spec_find_problem(old(store).problems@, subs0[m].pid)->Some_0;
            assert(store.problems@[jj].pid == subs0[m].pid);
            assert(store.submissions@[m].pid == subs0[m].pid);
        }
        assert forall|m: int|
            0 <= m < store.submissions@.len() implies spec_find_user(
            store.users@,
            (#[trigger] store.submissions@[m]).submitter@,
        ) is Some by {
            let kk = spec_find_user(old(store).users@, subs0[m].submitter@)->Some_0;
            assert(store.users@[kk].uid@ == subs0[m].submitter@);
            assert(store.submissions@[m].submitter@ == subs0[m].submitter@);
        }
    }
    Ok(())
}

/// Stores a verifier-produced artifact on the row and fans it out; no
/// counter moves.
pub fn report_answer(store: &mut Store, hub: &mut Hub, sid: u32, answer: String) -> (r: Result<
    (),
    StoreError,
>)
    requires
        old(store).wf(),
        old(hub).wf(),
    ensures
        final(store).wf(),
        final(hub).wf(),
        r is Err ==> *final(store) == *old(store) && *final(hub) == *old(hub),
        (r is Err <==> spec_find_submission(old(store).submissions@, sid) is None),
        r is Ok ==> ({
            let i = spec_find_submission(old(store).submissions@, sid)->Some_0;
            let old_row = old(store).submissions@[i];
            &&& final(store).submissions@.len() == old(store).submissions@.len()
            &&& forall|m: int|
                0 <= m < old(store).submissions@.len() && m != i ==> final(store).submissions@[m] == old(store).submissions@[m]
            &&& final(store).submissions@[i].answer_obj == answer
            &&& final(store).submissions@[i].sid == old_row.sid
            &&& final(store).submissions@[i].pid == old_row.pid
            &&& final(store).submissions@[i].submitter == old_row.submitter
            &&& final(store).submissions@[i].module_name == old_row.module_name
            &&& final(store).submissions@[i].const_name == old_row.const_name
            &&& final(store).submissions@[i].toolchain == old_row.toolchain
            &&& final(store).submissions@[i].status == old_row.status
            &&& final(store).submissions@[i].message == old_row.message
            &&& final(store).submissions@[i].answer_size == old_row.answer_size
            &&& final(store).submissions@[i].answer_hash == old_row.answer_hash
            &&& final(store).problems@ == old(store).problems@
            &&& final(store).users@ == old(store).users@
            &&& final(store).next_sid == old(store).next_sid
            &&& crate::fanout::published(*old(hub), *final(hub), sid, Update::Answer(answer))
        }),
{
    let i = match store.find_submission(sid) {
        Some(i) => i,
        None => {
            return Err(StoreError::NoSuchSubmission);
        },
    };
    let answer_out = answer.clone();
    let ghost subs0 = store.submissions@;
    let mut row = store.submissions.remove(i);
    row.answer_obj = answer;
    store.submissions.insert(i, row);
    proof {
        assert(store.submissions@ =~= subs0.update(i as int, store.submissions@[i as int]));
    }
    let ghost new_row = store.submissions@[i as int];
    proof {
        assert forall|q: int|
            0 <= q < store.problems@.len() implies (#[trigger] store.problems@[
        q]).accepted_count == count_accepted(store.submissions@, store.problems@[q].pid) by {
            lemma_count_update(subs0, i as int, new_row, store.problems@[q].pid);
        }
        assert forall|q: int|
            0 <= q < store.users@.len() implies (#[trigger] store.users@[q]).accepted_problems
            == accepted_pids(store.submissions@, store.users@[q].uid@).len() by {
            lemma_accepted_pids_update_same(subs0, i as int, new_row, store.users@[q].uid@);
        }
        assert forall|m: int|
            0 <= m < store.submissions@.len() implies spec_find_problem(
            store.problems@,
            (#[trigger] store.submissions@[m]).pid,
        ) is Some by {
            assert(store.submissions@[m].pid == subs0[m].pid);
        }
        assert forall|m: int|
            0 <= m < store.submissions@.len() implies spec_find_user(
            store.users@,
            (#[trigger] store.submissions@[m]).submitter@,
        ) is Some by {
            assert(store.submissions@[m].submitter@ == subs0[m].submitter@);
        }
    }
    hub.publish(sid, Update::Answer(answer_out));
    Ok(())
}

/// A user's accepted-problem set is finite and no larger than the row
/// count.
pub proof fn lemma_accepted_pids_finite(s: Seq<SubmissionRow>, uid: Seq<char>)
    ensures
        accepted_pids(s, uid).finite(),
        accepted_pids(s, uid).len() <= s.len(),
    decreases s.len(),
{
    broadcast use vstd::set::group_set_axioms;

    if s.len() == 0 {
        assert(accepted_pids(s, uid) =~= Set::<int>::empty()) by {
            assert forall|p: int| !accepted_pids(s, uid).contains(p) by {
                if accepted_pids(s, uid).contains(p) {
                    let k = choose|k: int|
                        0 <= k < s.len() && (#[trigger] s[k]).submitter@ == uid && s[k].pid == p
                            && s[k].status == Status::Accepted;
                }
            }
        }
    } else {
        let n = s.len() as int;
        lemma_accepted_pids_finite(s.take(n - 1), uid);
        lemma_accepted_pids_take_step(s, n - 1, uid);
        assert(s.take(n) =~= s);
    }
}

/// Flipping one row's accepted-ness moves the submitter's
/// distinct-accepted-problem set by at most one problem: entering adds
/// exactly the row's problem to the set; leaving removes it at most, and
/// never more. The problem's own counter moves by exactly one either way
/// (an ensures of `report_status`).
pub proof fn lemma_distinct_accepted_flip(
    s: Seq<SubmissionRow>,
    i: int,
    r: SubmissionRow,
    uid: Seq<char>,
)
    requires
        0 <= i < s.len(),
        r.pid == s[i].pid,
        r.submitter@ == s[i].submitter@,
        s[i].submitter@ == uid,
    ensures
        r.status == Status::Accepted && s[i].status != Status::Accepted ==> accepted_pids(
            s.update(i, r),
            uid,
        ) == accepted_pids(s, uid).insert(s[i].pid as int),
        s[i].status == Status::Accepted && r.status != Status::Accepted ==> {
            let pre = accepted_pids(s, uid);
            let post = accepted_pids(s.update(i, r), uid);
            &&& post.subset_of(pre)
            &&& pre.subset_of(post.insert(s[i].pid as int))
            &&& pre.len() - 1 <= post.len() <= pre.len()
        },
{
    broadcast use vstd::set::group_set_axioms;

    let s2 = s.update(i, r);
    let pre = accepted_pids(s, uid);
    let post = accepted_pids(s2, uid);
    let pid = s[i].pid as int;
    if r.status == Status::Accepted && s[i].status != Status::Accepted {
        assert(post =~= pre.insert(pid)) by {
            assert forall|p: int| post.contains(p) implies pre.insert(pid).contains(p) by {
                let k = choose|k: int|
                    0 <= k < s2.len() && (#[trigger] s2[k]).submitter@ == uid && s2[k].pid == p
                        && s2[k].status == Status::Accepted;
                if k != i {
                    assert(s[k].submitter@ == uid && s[k].pid == p && s[k].status
                        == Status::Accepted);
                }
            }
            assert forall|p: int| pre.insert(pid).contains(p) implies post.contains(p) by {
                if p == pid {
                    assert(s2[i].submitter@ == uid && s2[i].pid == p && s2[i].status
                        == Status::Accepted);
                } else {
                    let k = choose|k: int|
                        0 <= k < s.len() && (#[trigger] s[k]).submitter@ == uid && s[k].pid == p
                            && s[k].status == Status::Accepted;
                    assert(k != i);
                    assert(s2[k].submitter@ == uid && s2[k].pid == p && s2[k].status
                        == Status::Accepted);
                }
            }
        }
    }
    if s[i].status == Status::Accepted && r.status != Status::Accepted {
        assert forall|p: int| post.contains(p) implies pre.contains(p) by {
            let k = choose|k: int|
                0 <= k < s2.len() && (#[trigger] s2[k]).submitter@ == uid && s2[k].pid == p
                    && s2[k].status == Status::Accepted;
            assert(k != i);
            assert(s[k].submitter@ == uid && s[k].pid == p && s[k].status == Status::Accepted);
        }
        assert forall|p: int| pre.contains(p) implies post.insert(pid).contains(p) by {
            let k = choose|k: int|
                0 <= k < s.len() && (#[trigger] s[k]).submitter@ == uid && s[k].pid == p
                    && s[k].status == Status::Accepted;
            if k != i {
                assert(s2[k].submitter@ == uid && s2[k].pid == p && s2[k].status
                    == Status::Accepted);
            }
        }
        lemma_accepted_pids_finite(s, uid);
        lemma_accepted_pids_finite(s2, uid);
        vstd::set_lib::lemma_len_subset(post, pre);
        vstd::set_lib::lemma_len_subset(pre, post.insert(pid));
    }
}

} // verus!
