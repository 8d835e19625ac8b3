//! Matching deposited submissions to polling workers.
//!
//! A worker that finds no work registers as a waiter. When a deposit
//! completes, the task is handed to a uniformly random waiting worker; a
//! waiter that proves dead is simply dropped and another is drawn. A
//! worker that polls pulls the oldest submission still `Deposited`,
//! flipping it to `JudgerReceived` in the same step so no task is handed
//! out twice.

use vstd::prelude::*;

use crate::ext::random_below;
use crate::fanout::Hub;
use crate::machine::{
    report_status, spec_find_problem, spec_find_submission, Store, StoreError, SubmissionRow,
};
use crate::status::{Action, Status};

verus! {

/// What a worker receives: the submission, the normalized toolchain
/// version, and the trusted-axiom whitelist of the problem.
pub struct JudgeTask {
    pub sid: u32,
    pub version: String,
    pub axioms: Vec<String>,
}

/// Row `i` is the first still waiting for a worker.
pub open spec fn is_oldest_deposited(s: Seq<SubmissionRow>, i: int) -> bool {
    &&& 0 <= i < s.len()
    &&& s[i].status == Status::Deposited
    &&& forall|k: int| 0 <= k < i ==> (#[trigger] s[k]).status != Status::Deposited
}

/// The waiting workers, each an opaque handle to a hand-off channel.
pub struct WaiterPool {
    pub waiters: Vec<u64>,
}

impl WaiterPool {
    pub fn new() -> (p: WaiterPool)
        ensures
            p.waiters@.len() == 0,
    {
        WaiterPool { waiters: Vec::new() }
    }

    /// A worker with no task to pull leaves its handle here.
    pub fn register(&mut self, worker: u64)
        ensures
            final(self).waiters@ == old(self).waiters@.push(worker),
    {
        self.waiters.push(worker);
    }

    /// Draws a uniformly random waiting worker, removing it from the pool.
    /// A failed hand-off is tolerated by drawing again.
    pub fn pick(&mut self) -> (r: Option<u64>)
        ensures
            r is None <==> old(self).waiters@.len() == 0,
            r is None ==> *final(self) == *old(self),
            r matches Some(w) ==> exists|i: int|
                0 <= i < old(self).waiters@.len() && w == old(self).waiters@[i]
                    && final(self).waiters@ == old(self).waiters@.remove(i),
    {
        let n = self.waiters.len();
        if n == 0 {
            return None;
        }
        let i = random_below(n);
        let w = self.waiters.remove(i);
        proof {
            assert(w == old(self).waiters@[i as int] && self.waiters@ == old(
                self,
            ).waiters@.remove(i as int));
        }
        Some(w)
    }
}

/// Clones a list of names.
pub fn clone_strings(v: &Vec<String>) -> (r: Vec<String>)
    ensures
        r@ == v@,
{
    let n = v.len();
    let mut out: Vec<String> = Vec::new();
    let mut i: usize = 0;
    while i < n
        invariant
            0 <= i <= n,
            n == v@.len(),
            out@.len() == i,
            forall|k: int| 0 <= k < i ==> out@[k] == v@[k],
        decreases n - i,
    {
        out.push(v[i].clone());
        i = i + 1;
    }
    proof {
        assert(out@ =~= v@);
    }
    out
}

/// The normalized version a worker sees: the toolchain tag behind its
/// major-version prefix.
pub fn versioned(toolchain: &str) -> (r: String)
    ensures
        r@ == seq!['4'] + toolchain@,
{
    let mut v = String::from_str("4");
    proof {
        reveal_strlit("4");
        assert(v@ =~= seq!['4']);
    }
    v.append(toolchain);
    v
}

/// Pulls the oldest submission currently `Deposited`, atomically flipping
/// it to `JudgerReceived`, and returns its judge task; with nothing
/// deposited the caller should register as a waiter instead.
pub fn pull_task(store: &mut Store, hub: &mut Hub) -> (r: Option<JudgeTask>)
    requires
        old(store).wf(),
        old(hub).wf(),
    ensures
        final(store).wf(),
        final(hub).wf(),
        r is None <==> !exists|i: int|
            is_oldest_deposited(old(store).submissions@, i),
        r is None ==> *final(store) == *old(store) && *final(hub) == *old(hub),
        r matches Some(t) ==> ({
            let i = choose|i: int| is_oldest_deposited(old(store).submissions@, i);
            let row = old(store).submissions@[i];
            let j = spec_find_problem(old(store).problems@, row.pid)->Some_0;
            &&& t.sid == row.sid
            &&& t.version@ == seq!['4'] + row.toolchain@
            &&& t.axioms@ == old(store).problems@[j].axioms@
            &&& forall|k: int|
                0 <= k < old(store).submissions@.len() && old(store).submissions@[k].status
                    == Status::Deposited ==> (#[trigger] old(store).submissions@[k]).sid
                    >= t.sid
            &&& final(store).submissions@.len() == old(store).submissions@.len()
            &&& forall|m: int|
                0 <= m < old(store).submissions@.len() && m != i
                    ==> final(store).submissions@[m] == old(store).submissions@[m]
            &&& crate::machine::row_updated(
                row,
                final(store).submissions@[i],
                Status::JudgerReceived,
                Action::NoAction,
            )
            &&& final(store).problems@ == old(store).problems@
            &&& final(store).users@ == old(store).users@
            &&& final(store).next_sid == old(store).next_sid
            &&& crate::fanout::published(
                *old(hub),
                *final(hub),
                row.sid,
                crate::fanout::Update::Status(Status::JudgerReceived, Action::NoAction),
            )
        }),
{
    let n = store.submissions.len();
    let mut i: usize = 0;
    while i < n
        invariant
            0 <= i <= n,
            n == store.submissions@.len(),
            forall|k: int|
                0 <= k < i ==> (#[trigger] store.submissions@[k]).status != Status::Deposited,
        ensures
            0 <= i <= n,
            n == store.submissions@.len(),
            forall|k: int|
                0 <= k < i ==> (#[trigger] store.submissions@[k]).status != Status::Deposited,
            i < n ==> store.submissions@[i as int].status == Status::Deposited,
        decreases n - i,
    {
        if store.submissions[i].status == Status::Deposited {
            break;
        }
        i = i + 1;
    }
    if i == n {
        proof {
            if exists|k: int| is_oldest_deposited(store.submissions@, k) {
                let k = choose|k: int| is_oldest_deposited(store.submissions@, k);
                assert(store.submissions@[k].status == Status::Deposited);
            }
        }
        return None;
    }
    proof {
        assert(is_oldest_deposited(store.submissions@, i as int));
    }
    let sid = store.submissions[i].sid;
    let pid = store.submissions[i].pid;
    let version = versioned(store.submissions[i].toolchain.as_str());
    let j = match store.find_problem(pid) {
        Some(j) => j,
        None => {
            proof {
                assert(spec_find_problem(store.problems@, pid) is Some);
                assert(false);
            }
            return None;
        },
    };
    let axioms = clone_strings(&store.problems[j].axioms);
    let ghost subs0 = store.submissions@;
    let res = report_status(store, hub, sid, Status::JudgerReceived, Action::NoAction);
    proof {
        assert(spec_find_submission(subs0, sid) is Some) by {
            assert(subs0[i as int].sid == sid);
        }
        let fi = spec_find_submission(subs0, sid)->Some_0;
        assert(subs0[fi].sid == sid && subs0[i as int].sid == sid);
        assert(fi == i) by {
            if fi < i {
                assert(subs0[fi].sid < subs0[i as int].sid);
            } else if i < fi {
                assert(subs0[i as int].sid < subs0[fi].sid);
            }
        }
        assert(res is Ok);
        let ci = choose|k: int| is_oldest_deposited(subs0, k);
        assert(ci == i) by {
            if ci < i {
                assert(subs0[ci].status != Status::Deposited);
            } else if i < ci {
                assert(subs0[i as int].status != Status::Deposited);
            }
        }
        assert forall|k: int|
            0 <= k < subs0.len() && subs0[k].status == Status::Deposited implies (
        #[trigger] subs0[k]).sid >= sid by {
            assert(k >= i);
            if k > i {
                assert(subs0[i as int].sid < subs0[k].sid);
            }
        }
    }
    Some(JudgeTask { sid, version, axioms })
}

/// Two successive pulls never hand out the same submission: after the
/// older one is flipped to `JudgerReceived`, whatever the next pull finds
/// deposited bears a strictly larger id, so pulled tasks come in
/// increasing id order and each deposited task is pulled exactly once.
pub proof fn lemma_pull_exactly_once(
    s1: Seq<SubmissionRow>,
    s2: Seq<SubmissionRow>,
    i: int,
)
    requires
        forall|a: int, b: int| 0 <= a < b < s1.len() ==> (#[trigger] s1[a]).sid < (
        #[trigger] s1[b]).sid,
        is_oldest_deposited(s1, i),
        s2.len() == s1.len(),
        forall|m: int| 0 <= m < s1.len() && m != i ==> s2[m] == s1[m],
        s2[i].status == Status::JudgerReceived,
        s2[i].sid == s1[i].sid,
    ensures
        forall|k: int|
            is_oldest_deposited(s2, k) ==> s2[k].sid > s1[i].sid,
{
    assert forall|k: int| is_oldest_deposited(s2, k) implies s2[k].sid > s1[i].sid by {
        assert(k != i);
        if k < i {
            assert(s1[k] == s2[k]);
            assert(s1[k].status != Status::Deposited);
        } else {
            assert(s1[i].sid < s1[k].sid);
            assert(s2[k] == s1[k]);
        }
    }
}

} // verus!
