//! Scheduler core: a ready queue of script tasks eligible to run and a
//! pending set of in-flight native futures.  Exactly one task's
//! synchronous code runs at a time; results of a future are delivered
//! only to the task that awaits that future.

use vstd::prelude::*;

use crate::ScriptValue;

verus! {

/// Identity of a script task (one VM-level coroutine).
pub type TaskId = u64;

/// Identity of a pending native future.
pub type FutureId = u64;

/// What a completed native operation hands back to its dependent task:
/// the values to resume with, or a script-level error observed at the
/// suspension point.
#[derive(Clone, PartialEq, Eq, Debug)]
pub enum Outcome {
    Success(Vec<ScriptValue>),
    Failure(String),
}

/// Whether two outcomes carry the same payload: the same values, or
/// the same failure text.
pub open spec fn outcome_eq(a: Outcome, b: Outcome) -> bool {
    match (a, b) {
        (Outcome::Success(v1), Outcome::Success(v2)) => v1@ == v2@,
        (Outcome::Failure(s1), Outcome::Failure(s2)) => s1@ == s2@,
        _ => false,
    }
}

impl Outcome {
    /// A copy of this outcome carrying the same payload.
    pub fn dup(&self) -> (r: Outcome)
        ensures
            outcome_eq(r, *self),
    {
        match self {
            Outcome::Success(values) => Outcome::Success(copy_values(values)),
            Outcome::Failure(message) => Outcome::Failure(crate::clone_string(message)),
        }
    }
}

/// An equal copy of a list of script values.
fn copy_values(v: &Vec<ScriptValue>) -> (r: Vec<ScriptValue>)
    ensures
        r@ == v@,
{
    let mut r: Vec<ScriptValue> = Vec::new();
    let n = v.len();
    let mut i: usize = 0;
    while i < n
        invariant
            n == v@.len(),
            i <= n,
            r@ == v@.subrange(0, i as int),
        decreases n - i,
    {
        r.push(v[i].dup());
        proof {
            assert(r@ =~= v@.subrange(0, i as int + 1));
        }
        i = i + 1;
    }
    proof {
        assert(v@.subrange(0, n as int) =~= v@);
    }
    r
}

/// One entry of the ready queue: a task together with the payload it
/// will be resumed with.
#[derive(Clone, PartialEq, Eq, Debug)]
pub struct ReadyEntry {
    pub task: TaskId,
    pub payload: Outcome,
}

/// One entry of the pending set: an in-flight future, optionally with
/// the task that awaits its result (a future may be detached).
#[derive(Clone, Copy, PartialEq, Eq, Debug)]
pub struct FutureEntry {
    pub future: FutureId,
    pub dependent: Option<TaskId>,
}

/// The mathematical state of a scheduler: the two bookkeeping
/// collections and the next fresh future identity.
pub ghost struct SchedModel {
    pub ready: Seq<ReadyEntry>,
    pub pending: Seq<FutureEntry>,
    pub next_future: FutureId,
}

impl SchedModel {
    /// Future identities in the pending set are fresh with respect to
    /// the counter and pairwise distinct.
    pub open spec fn wf(self) -> bool {
        &&& forall|i: int|
            0 <= i < self.pending.len() ==> (#[trigger] self.pending[i]).future < self.next_future
        &&& forall|i: int, j: int|
            0 <= i < j < self.pending.len() ==> self.pending[i].future != self.pending[j].future
    }

    /// Whether some entry of the pending set carries this future.
    pub open spec fn has_pending(self, fid: FutureId) -> bool {
        exists|i: int| 0 <= i < self.pending.len() && (#[trigger] self.pending[i]).future == fid
    }

    /// The index of the pending entry carrying this future.
    pub open spec fn pending_index(self, fid: FutureId) -> int {
        choose|i: int| 0 <= i < self.pending.len() && (#[trigger] self.pending[i]).future == fid
    }
}

/// The state after enqueueing a future, detached or with a dependent
/// task.
pub open spec fn schedule_model(m: SchedModel, dependent: Option<TaskId>) -> SchedModel {
    SchedModel {
        pending: m.pending.push(
            FutureEntry { future: m.next_future, dependent },
        ),
        next_future: (m.next_future + 1) as FutureId,
        ..m
    }
}

/// The state after the given future resolves with the given outcome:
/// its entry leaves the pending set, and its dependent task, if any,
/// joins the back of the ready queue carrying that outcome.  A future
/// that is not pending changes nothing.
pub open spec fn resolve_model(m: SchedModel, fid: FutureId, outcome: Outcome) -> SchedModel {
    if !m.has_pending(fid) {
        m
    } else {
        let i = m.pending_index(fid);
        let pending = m.pending.subrange(0, i) + m.pending.subrange(i + 1, m.pending.len() as int);
        match m.pending[i].dependent {
            None => SchedModel { pending, ..m },
            Some(t) => SchedModel {
                pending,
                ready: m.ready.push(ReadyEntry { task: t, payload: outcome }),
                ..m
            },
        }
    }
}

/// What `future_resolved` reports: the future was unknown, it was
/// detached and its result was discarded, or its result was delivered
/// to the given dependent task.
#[derive(Clone, Copy, PartialEq, Eq, Debug)]
pub enum ResolveReport {
    NotFound,
    Discarded,
    Delivered(TaskId),
}

/// Scheduler core: owns the ready queue and the pending set and is the
/// sole driver of task resumption.
pub struct Scheduler {
    pub ready: Vec<ReadyEntry>,
    pub pending: Vec<FutureEntry>,
    pub next_future: FutureId,
}

impl Scheduler {
    /// The mathematical state of this scheduler.
    pub open spec fn model(self) -> SchedModel {
        SchedModel { ready: self.ready@, pending: self.pending@, next_future: self.next_future }
    }

    pub open spec fn wf(self) -> bool {
        self.model().wf()
    }

    /// A scheduler with no runnable task and no in-flight future.
    pub fn new() -> (s: Scheduler)
        ensures
            s.wf(),
            s.ready@ =~= Seq::<ReadyEntry>::empty(),
            s.pending@ =~= Seq::<FutureEntry>::empty(),
            s.next_future == 0,
    {
        Scheduler { ready: Vec::new(), pending: Vec::new(), next_future: 0 }
    }

    /// Enqueues a detached future into the pending set: no dependent
    /// task, its eventual result is discarded.  Returns the fresh
    /// identity under which the caller must report its completion.
    pub fn schedule_future(&mut self) -> (fid: FutureId)
        requires
            old(self).wf(),
            old(self).next_future < u64::MAX,
        ensures
            final(self).wf(),
            fid == old(self).next_future,
            final(self).model() == schedule_model(old(self).model(), None),
    {
        let fid = self.next_future;
        self.pending.push(FutureEntry { future: fid, dependent: None });
        self.next_future = self.next_future + 1;
        fid
    }

    /// Enqueues a future with `task` as its dependent: when the future
    /// resolves, `task` moves to the back of the ready queue carrying
    /// the outcome.  Returns the fresh identity of the future.
    pub fn schedule_future_thread(&mut self, task: TaskId) -> (fid: FutureId)
        requires
            old(self).wf(),
            old(self).next_future < u64::MAX,
        ensures
            final(self).wf(),
            fid == old(self).next_future,
            final(self).model() == schedule_model(old(self).model(), Some(task)),
    {
        let fid = self.next_future;
        self.pending.push(FutureEntry { future: fid, dependent: Some(task) });
        self.next_future = self.next_future + 1;
        fid
    }

    /// Re-enqueues a task at the back of the ready queue with the
    /// payload to resume it with (a voluntary yield keeps the task in
    /// cooperative round-robin).
    pub fn push_back(&mut self, task: TaskId, payload: Outcome)
        requires
            old(self).wf(),
        ensures
            final(self).wf(),
            final(self).ready@ == old(self).ready@.push(ReadyEntry { task, payload }),
            final(self).pending@ == old(self).pending@,
            final(self).next_future == old(self).next_future,
    {
        self.ready.push(ReadyEntry { task, payload });
    }

    /// Pops the front of the ready queue: the next task to resume, in
    /// queue order.
    pub fn pop_next_ready(&mut self) -> (r: Option<ReadyEntry>)
        requires
            old(self).wf(),
        ensures
            final(self).wf(),
            final(self).pending@ == old(self).pending@,
            final(self).next_future == old(self).next_future,
            old(self).ready@.len() == 0 ==> r is None && final(self).ready@ == old(self).ready@,
            old(self).ready@.len() > 0 ==> r == Some(old(self).ready@[0]) && final(self).ready@
                == old(self).ready@.drop_first(),
    {
        if self.ready.len() == 0 {
            None
        } else {
            let front = self.ready.remove(0);
            assert(final(self).ready@ =~= old(self).ready@.drop_first());
            Some(front)
        }
    }

    /// Reaps one completed future: removes its entry from the pending
    /// set and, if it had a dependent task, moves that task — and no
    /// other — to the back of the ready queue with the outcome.  An
    /// unknown future changes nothing.
    pub fn future_resolved(&mut self, fid: FutureId, outcome: Outcome) -> (r: ResolveReport)
        requires
            old(self).wf(),
        ensures
            final(self).wf(),
            final(self).model() == resolve_model(old(self).model(), fid, outcome),
            !old(self).model().has_pending(fid) <==> r == ResolveReport::NotFound,
            old(self).model().has_pending(fid) ==> {
                let e = old(self).pending@[old(self).model().pending_index(fid)];
                r == (match e.dependent {
                    None => ResolveReport::Discarded,
                    Some(t) => ResolveReport::Delivered(t),
                })
            },
    {
        let n = self.pending.len();
        let mut i: usize = 0;
        while i < n
            invariant
                *self == *old(self),
                old(self).wf(),
                n == self.pending@.len(),
                i <= n,
                forall|k: int| 0 <= k < i ==> (#[trigger] self.pending@[k]).future != fid,
            decreases n - i,
        {
            if self.pending[i].future == fid {
                proof {
                    let m = old(self).model();
                    assert(m.pending[i as int].future == fid);
                    assert(m.has_pending(fid));
                    let j = m.pending_index(fid);
                    assert(0 <= j < m.pending.len() && m.pending[j].future == fid);
                    assert(j == i as int) by {
                        if j < i as int {
                            assert(m.pending[j].future != fid);
                        }
                        if j > i as int {
                            assert(m.pending[i as int].future != m.pending[j].future);
                        }
                    }
                }
                let entry = self.pending.remove(i);
                proof {
                    let m = old(self).model();
                    assert(self.pending@ =~= m.pending.subrange(0, i as int) + m.pending.subrange(
                        i as int + 1,
                        m.pending.len() as int,
                    ));
                }
                match entry.dependent {
                    None => {
                        return ResolveReport::Discarded;
                    },
                    Some(t) => {
                        self.ready.push(ReadyEntry { task: t, payload: outcome });
                        return ResolveReport::Delivered(t);
                    },
                }
            }
            i = i + 1;
        }
        proof {
            let m = old(self).model();
            assert(!m.has_pending(fid));
        }
        ResolveReport::NotFound
    }

    /// Tears the scheduler down: every in-flight future is dropped
    /// without delivering a result, and every ready task is discarded.
    /// Returns how many pending futures were aborted.
    pub fn teardown(&mut self) -> (aborted: usize)
        requires
            old(self).wf(),
        ensures
            final(self).wf(),
            final(self).ready@.len() == 0,
            final(self).pending@.len() == 0,
            final(self).next_future == old(self).next_future,
            aborted == old(self).pending@.len(),
    {
        let aborted = self.pending.len();
        self.ready.clear();
        self.pending.clear();
        aborted
    }
}

/// In a well-formed pending set, the entry found for a future is the
/// only one.
pub proof fn lemma_pending_index_unique(m: SchedModel, fid: FutureId, i: int)
    requires
        m.wf(),
        0 <= i < m.pending.len(),
        m.pending[i].future == fid,
    ensures
        m.has_pending(fid),
        m.pending_index(fid) == i,
{
    assert(m.has_pending(fid));
    let j = m.pending_index(fid);
    if j < i {
        assert(m.pending[j].future != m.pending[i].future);
    }
    if j > i {
        assert(m.pending[i].future != m.pending[j].future);
    }
}

/// Resolving a future keeps the pending set well-formed, and every
/// surviving entry is an entry of the original set that does not
/// carry the resolved future.
pub proof fn lemma_resolve_preserves_wf(m: SchedModel, fid: FutureId, outcome: Outcome)
    requires
        m.wf(),
    ensures
        resolve_model(m, fid, outcome).wf(),
        forall|x: int|
            0 <= x < resolve_model(m, fid, outcome).pending.len() ==> m.pending.contains(
                #[trigger] resolve_model(m, fid, outcome).pending[x],
            ) && resolve_model(m, fid, outcome).pending[x].future != fid,
{
    if m.has_pending(fid) {
        let i = m.pending_index(fid);
        let p2 = resolve_model(m, fid, outcome).pending;
        assert forall|x: int|
            0 <= x < resolve_model(m, fid, outcome).pending.len() implies m.pending.contains(
                #[trigger] resolve_model(m, fid, outcome).pending[x],
            ) && resolve_model(m, fid, outcome).pending[x].future != fid by {
            let y = if x < i { x } else { x + 1 };
            assert(m.pending[y] == p2[x]);
            assert(m.pending.contains(p2[x]));
            assert(m.pending[y].future != fid) by {
                if y < i {
                    assert(m.pending[y].future != m.pending[i].future);
                } else {
                    assert(m.pending[i].future != m.pending[y].future);
                }
            }
        }
        assert forall|a: int, b: int| 0 <= a < b < p2.len() implies p2[a].future != p2[b].future by {
            let ya = if a < i { a } else { a + 1 };
            let yb = if b < i { b } else { b + 1 };
            assert(m.pending[ya] == p2[a] && m.pending[yb] == p2[b]);
            assert(m.pending[ya].future != m.pending[yb].future);
        }
    } else {
        assert forall|x: int|
            0 <= x < resolve_model(m, fid, outcome).pending.len() implies m.pending.contains(
                #[trigger] resolve_model(m, fid, outcome).pending[x],
            ) && resolve_model(m, fid, outcome).pending[x].future != fid by {
            assert(m.pending[x].future != fid) by {
                if m.pending[x].future == fid {
                    assert(m.has_pending(fid));
                }
            }
            assert(m.pending[x] == resolve_model(m, fid, outcome).pending[x]);
            assert(m.pending.contains(m.pending[x]));
        }
    }
}

/// Results are delivered only to the task that initiated the
/// corresponding future: two distinct in-flight futures with dependent
/// tasks, completing in swapped order, each append exactly their own
/// dependent with their own outcome to the ready queue — no
/// cross-delivery.
pub proof fn lemma_own_result_delivery(
    m: SchedModel,
    f1: FutureId,
    t1: TaskId,
    o1: Outcome,
    f2: FutureId,
    t2: TaskId,
    o2: Outcome,
)
    requires
        m.wf(),
        m.has_pending(f1),
        m.pending[m.pending_index(f1)].dependent == Some(t1),
        m.has_pending(f2),
        m.pending[m.pending_index(f2)].dependent == Some(t2),
        f1 != f2,
    ensures
        ({
            let ma = resolve_model(m, f2, o2);
            let mb = resolve_model(ma, f1, o1);
            &&& mb.ready == m.ready.push(ReadyEntry { task: t2, payload: o2 }).push(
                ReadyEntry { task: t1, payload: o1 },
            )
            &&& mb.pending.len() == m.pending.len() - 2
        }),
{
    let i1 = m.pending_index(f1);
    let i2 = m.pending_index(f2);
    lemma_pending_index_unique(m, f1, i1);
    lemma_pending_index_unique(m, f2, i2);
    lemma_resolve_preserves_wf(m, f2, o2);
    let ma = resolve_model(m, f2, o2);
    assert(ma.ready == m.ready.push(ReadyEntry { task: t2, payload: o2 }));
    let j1 = if i1 < i2 { i1 } else { i1 - 1 };
    assert(ma.pending[j1] == m.pending[i1]);
    lemma_pending_index_unique(ma, f1, j1);
    let mb = resolve_model(ma, f1, o1);
    assert(mb.ready == ma.ready.push(ReadyEntry { task: t1, payload: o1 }));
}

/// Tearing the scheduler down delivers nothing further: once the
/// pending set is empty, the completion of any in-flight native
/// operation is not observed — no task is resumed by it.
pub proof fn lemma_teardown_no_delivery(m: SchedModel, fid: FutureId, outcome: Outcome)
    requires
        m.pending.len() == 0,
    ensures
        resolve_model(m, fid, outcome) == m,
{
}

/// One scripted step of a task: it either yields values voluntarily
/// (staying in cooperative round-robin) or completes with an outcome.
#[derive(Clone, PartialEq, Eq, Debug)]
pub enum TaskStep {
    Yield(Vec<ScriptValue>),
    Complete(Outcome),
}

/// The total number of scripted steps left in a script table.
pub open spec fn total_steps(s: Seq<(TaskId, Vec<TaskStep>)>) -> nat
    decreases s.len(),
{
    if s.len() == 0 {
        0
    } else {
        s[0].1@.len() + total_steps(s.drop_first())
    }
}

/// Replacing one script changes the total step count by the
/// difference of that script's length.
pub proof fn lemma_total_steps_update(
    s: Seq<(TaskId, Vec<TaskStep>)>,
    k: int,
    v: (TaskId, Vec<TaskStep>),
)
    requires
        0 <= k < s.len(),
    ensures
        total_steps(s.update(k, v)) + s[k].1@.len() == total_steps(s) + v.1@.len(),
    decreases s.len(),
{
    if k == 0 {
        assert(s.update(0, v).drop_first() =~= s.drop_first());
    } else {
        assert(s.update(k, v).drop_first() =~= s.drop_first().update(k - 1, v));
        lemma_total_steps_update(s.drop_first(), k - 1, v);
    }
}

/// Whether some script is recorded under the given identity.
pub open spec fn has_script(s: Seq<(TaskId, Vec<TaskStep>)>, task: TaskId) -> bool {
    exists|i: int| 0 <= i < s.len() && (#[trigger] s[i]).0 == task
}

/// The index of the first script recorded under the given identity.
pub open spec fn script_index(s: Seq<(TaskId, Vec<TaskStep>)>, task: TaskId) -> int {
    choose|i: int| 0 <= i < s.len() && (#[trigger] s[i]).0 == task
}

/// Script identities are pairwise distinct.
pub open spec fn scripts_wf(s: Seq<(TaskId, Vec<TaskStep>)>) -> bool {
    forall|a: int, b: int| 0 <= a < b < s.len() ==> (#[trigger] s[a]).0 != (#[trigger] s[b]).0
}

/// In a well-formed script table, the script found for an identity is
/// the only one.
pub proof fn lemma_script_index_unique(s: Seq<(TaskId, Vec<TaskStep>)>, task: TaskId, i: int)
    requires
        scripts_wf(s),
        0 <= i < s.len(),
        s[i].0 == task,
    ensures
        has_script(s, task),
        script_index(s, task) == i,
{
    assert(has_script(s, task));
    let j = script_index(s, task);
    if j < i {
        assert(s[j].0 != s[i].0);
    }
    if j > i {
        assert(s[i].0 != s[j].0);
    }
}

/// Consumes the next scripted step of `task`, if it has one left: the
/// front step of its script leaves the script, every other script is
/// untouched.  A task without a script, or with an exhausted one,
/// yields nothing.
fn take_step(scripts: &mut Vec<(TaskId, Vec<TaskStep>)>, task: TaskId) -> (r: Option<TaskStep>)
    requires
        scripts_wf(old(scripts)@),
    ensures
        scripts_wf(final(scripts)@),
        final(scripts)@.len() == old(scripts)@.len(),
        forall|i: int|
            0 <= i < old(scripts)@.len() ==> (#[trigger] final(scripts)@[i]).0 == old(scripts)@[i].0,
        r is None ==> old(scripts)@ == final(scripts)@,
        r is Some ==> total_steps(final(scripts)@) + 1 == total_steps(old(scripts)@),
        !has_script(old(scripts)@, task) ==> r is None,
        has_script(old(scripts)@, task) ==> ({
            let k = script_index(old(scripts)@, task);
            if old(scripts)@[k].1@.len() == 0 {
                r is None
            } else {
                &&& r == Some(old(scripts)@[k].1@[0])
                &&& final(scripts)@[k].1@ == old(scripts)@[k].1@.drop_first()
                &&& forall|i: int|
                    0 <= i < old(scripts)@.len() && i != k ==> #[trigger] final(scripts)@[i]
                        == old(scripts)@[i]
            }
        }),
{
    let n = scripts.len();
    let mut i: usize = 0;
    while i < n
        invariant
            *scripts == *old(scripts),
            scripts_wf(scripts@),
            n == scripts@.len(),
            i <= n,
            forall|t: int| 0 <= t < i ==> (#[trigger] scripts@[t]).0 != task,
        decreases n - i,
    {
        if scripts[i].0 == task {
            proof {
                lemma_script_index_unique(scripts@, task, i as int);
            }
            if scripts[i].1.len() == 0 {
                return None;
            }
            let ghost s0 = scripts@;
            let step = scripts[i].1.remove(0);
            proof {
                assert(scripts@ =~= s0.update(i as int, scripts@[i as int]));
                lemma_total_steps_update(s0, i as int, scripts@[i as int]);
                assert(scripts@[i as int].1@ =~= s0[i as int].1@.drop_first());
            }
            return Some(step);
        }
        i = i + 1;
    }
    proof {
        assert(!has_script(scripts@, task));
    }
    None
}

/// Mathematical payload of a completed task.
pub ghost enum OutcomeModel {
    Success { values: Seq<ScriptValue> },
    Failure { message: Seq<char> },
}

/// The mathematical payload an outcome carries.
pub open spec fn outcome_model(o: Outcome) -> OutcomeModel {
    match o {
        Outcome::Success(v) => OutcomeModel::Success { values: v@ },
        Outcome::Failure(m) => OutcomeModel::Failure { message: m@ },
    }
}

/// The mathematical state of a completion list.
pub open spec fn completed_model(c: Seq<(TaskId, Outcome)>) -> Seq<(TaskId, OutcomeModel)> {
    c.map_values(|p: (TaskId, Outcome)| (p.0, outcome_model(p.1)))
}

/// The mathematical state of a script table.
pub open spec fn scripts_model(s: Seq<(TaskId, Vec<TaskStep>)>) -> Seq<(TaskId, Seq<TaskStep>)> {
    s.map_values(|p: (TaskId, Vec<TaskStep>)| (p.0, p.1@))
}

/// The total number of scripted steps left, over the mathematical
/// script table.
pub open spec fn total_steps_m(s: Seq<(TaskId, Seq<TaskStep>)>) -> nat
    decreases s.len(),
{
    if s.len() == 0 {
        0
    } else {
        s[0].1.len() + total_steps_m(s.drop_first())
    }
}

proof fn lemma_total_steps_m_update(
    s: Seq<(TaskId, Seq<TaskStep>)>,
    k: int,
    v: (TaskId, Seq<TaskStep>),
)
    requires
        0 <= k < s.len(),
    ensures
        total_steps_m(s.update(k, v)) + s[k].1.len() == total_steps_m(s) + v.1.len(),
    decreases s.len(),
{
    if k == 0 {
        assert(s.update(0, v).drop_first() =~= s.drop_first());
    } else {
        assert(s.update(k, v).drop_first() =~= s.drop_first().update(k - 1, v));
        lemma_total_steps_m_update(s.drop_first(), k - 1, v);
    }
}

proof fn lemma_total_steps_model(s: Seq<(TaskId, Vec<TaskStep>)>)
    ensures
        total_steps_m(scripts_model(s)) == total_steps(s),
    decreases s.len(),
{
    if s.len() > 0 {
        assert(scripts_model(s).drop_first() =~= scripts_model(s.drop_first()));
        lemma_total_steps_model(s.drop_first());
    }
}

/// Whether the mathematical script table records this identity.
pub open spec fn has_script_m(s: Seq<(TaskId, Seq<TaskStep>)>, task: TaskId) -> bool {
    exists|i: int| 0 <= i < s.len() && (#[trigger] s[i]).0 == task
}

/// The index of the script recorded under this identity.
pub open spec fn script_index_m(s: Seq<(TaskId, Seq<TaskStep>)>, task: TaskId) -> int {
    choose|i: int| 0 <= i < s.len() && (#[trigger] s[i]).0 == task
}

/// The two script-table representations record the same identities,
/// at the same index when identities are distinct.
proof fn lemma_scripts_model_lookup(s: Seq<(TaskId, Vec<TaskStep>)>, task: TaskId)
    requires
        scripts_wf(s),
    ensures
        has_script_m(scripts_model(s), task) == has_script(s, task),
        has_script(s, task) ==> script_index_m(scripts_model(s), task) == script_index(s, task),
{
    let sm = scripts_model(s);
    if has_script(s, task) {
        let i = script_index(s, task);
        lemma_script_index_unique(s, task, i);
        assert(sm[i].0 == task);
        assert(has_script_m(sm, task));
        let j = script_index_m(sm, task);
        assert(0 <= j < sm.len() && sm[j].0 == task);
        assert(s[j].0 == task);
        lemma_script_index_unique(s, task, j);
    }
    if has_script_m(sm, task) {
        let j = script_index_m(sm, task);
        assert(s[j].0 == task);
        assert(has_script(s, task));
    }
}

/// The whole state the tick loop works on: the scheduler's two
/// collections and counter, the scripted task behaviours, and the
/// completion events still to come.
pub ghost struct RunState {
    pub ready: Seq<ReadyEntry>,
    pub pending: Seq<FutureEntry>,
    pub next_future: FutureId,
    pub scripts: Seq<(TaskId, Seq<TaskStep>)>,
    pub events: Seq<(FutureId, Outcome)>,
}

/// The run state a scheduler, a script table and an event list stand
/// in.
pub open spec fn run_state_of(
    m: SchedModel,
    scripts: Seq<(TaskId, Vec<TaskStep>)>,
    events: Seq<(FutureId, Outcome)>,
) -> RunState {
    RunState {
        ready: m.ready,
        pending: m.pending,
        next_future: m.next_future,
        scripts: scripts_model(scripts),
        events,
    }
}

pub open spec fn rm_measure(st: RunState) -> nat {
    total_steps_m(st.scripts) + st.ready.len() + st.pending.len() + st.events.len()
}

/// What the tick loop completes, in order, from a given state: the
/// front ready task is resumed — a yield re-enqueues it at the back
/// with the yielded values as its next payload, a scripted completion
/// (or an exhausted script, which completes with empty success)
/// appends the task and its final outcome — and, with no task ready,
/// the next completion event is reaped, moving the resolved future's
/// dependent, if any, to the ready queue.
pub open spec fn run_model(st: RunState) -> Seq<(TaskId, OutcomeModel)>
    decreases rm_measure(st),
    via run_model_decreases
{
    if st.ready.len() > 0 {
        let entry = st.ready[0];
        let rest = st.ready.drop_first();
        if has_script_m(st.scripts, entry.task) && st.scripts[script_index_m(
            st.scripts,
            entry.task,
        )].1.len() > 0 {
            let k = script_index_m(st.scripts, entry.task);
            let scripts2 = st.scripts.update(k, (st.scripts[k].0, st.scripts[k].1.drop_first()));
            match st.scripts[k].1[0] {
                TaskStep::Yield(vals) => run_model(
                    RunState {
                        ready: rest.push(
                            ReadyEntry { task: entry.task, payload: Outcome::Success(vals) },
                        ),
                        scripts: scripts2,
                        ..st
                    },
                ),
                TaskStep::Complete(outcome) => seq![(entry.task, outcome_model(outcome))]
                    + run_model(RunState { ready: rest, scripts: scripts2, ..st }),
            }
        } else {
            seq![(entry.task, OutcomeModel::Success { values: Seq::empty() })] + run_model(
                RunState { ready: rest, ..st },
            )
        }
    } else if st.pending.len() > 0 && st.events.len() > 0 {
        let ev = st.events[0];
        let resolved = resolve_model(
            SchedModel { ready: st.ready, pending: st.pending, next_future: st.next_future },
            ev.0,
            ev.1,
        );
        run_model(
            RunState {
                ready: resolved.ready,
                pending: resolved.pending,
                events: st.events.drop_first(),
                ..st
            },
        )
    } else {
        Seq::empty()
    }
}

#[via_fn]
proof fn run_model_decreases(st: RunState) {
    if st.ready.len() > 0 {
        let entry = st.ready[0];
        if has_script_m(st.scripts, entry.task) && st.scripts[script_index_m(
            st.scripts,
            entry.task,
        )].1.len() > 0 {
            let k = script_index_m(st.scripts, entry.task);
            lemma_total_steps_m_update(
                st.scripts,
                k,
                (st.scripts[k].0, st.scripts[k].1.drop_first()),
            );
        }
    } else if st.pending.len() > 0 && st.events.len() > 0 {
        let ev = st.events[0];
        let m = SchedModel { ready: st.ready, pending: st.pending, next_future: st.next_future };
        if m.has_pending(ev.0) {
            let i = m.pending_index(ev.0);
            assert(0 <= i < m.pending.len());
            assert(resolve_model(m, ev.0, ev.1).pending.len() == m.pending.len() - 1);
        }
    }
}

/// Every in-flight future of the pending set has a completion event
/// still to come.
pub open spec fn events_cover(p: Seq<FutureEntry>, e: Seq<(FutureId, Outcome)>) -> bool {
    forall|i: int|
        0 <= i < p.len() ==> exists|j: int|
            0 <= j < e.len() && (#[trigger] e[j]).0 == (#[trigger] p[i]).future
}

impl Scheduler {
    /// The tick loop: resumes ready tasks in queue order — a yield
    /// re-enqueues the task at the back with the yielded values as its
    /// next resume payload — and, when no task is ready, reaps the
    /// next completion event.  Task behaviour is given by a finite
    /// script per task (a task without a script left completes at
    /// once), and native completions arrive as a finite event list in
    /// an arbitrary order that covers every pending future.  The loop
    /// provably terminates, with both bookkeeping collections empty,
    /// regardless of the completion order, and returns exactly the
    /// completions `run_model` says: each task that becomes ready
    /// completes once, paired with the outcome its script ends with,
    /// in completion order.
    pub fn run(
        &mut self,
        scripts: &mut Vec<(TaskId, Vec<TaskStep>)>,
        events: &mut Vec<(FutureId, Outcome)>,
    ) -> (completed: Vec<(TaskId, Outcome)>)
        requires
            old(self).wf(),
            scripts_wf(old(scripts)@),
            events_cover(old(self).pending@, old(events)@),
        ensures
            final(self).wf(),
            final(self).ready@.len() == 0,
            final(self).pending@.len() == 0,
            final(self).next_future == old(self).next_future,
            completed_model(completed@) == run_model(
                run_state_of(old(self).model(), old(scripts)@, old(events)@),
            ),
    {
        let ghost st0 = run_state_of(old(self).model(), old(scripts)@, old(events)@);
        let mut completed: Vec<(TaskId, Outcome)> = Vec::new();
        proof {
            assert(completed_model(completed@) =~= Seq::<(TaskId, OutcomeModel)>::empty());
            assert(Seq::<(TaskId, OutcomeModel)>::empty() + run_model(st0) =~= run_model(st0));
        }
        while self.ready.len() > 0 || self.pending.len() > 0
            invariant
                self.wf(),
                self.next_future == old(self).next_future,
                scripts_wf(scripts@),
                events_cover(self.pending@, events@),
                run_model(st0) == completed_model(completed@) + run_model(
                    run_state_of(self.model(), scripts@, events@),
                ),
            decreases total_steps(scripts@) + self.ready@.len() + self.pending@.len()
                + events@.len(),
        {
            let ghost st_pre = run_state_of(self.model(), scripts@, events@);
            let ghost done_pre = completed_model(completed@);
            let front = self.pop_next_ready();
            match front {
                Some(entry) => {
                    let ghost s_pre = scripts@;
                    proof {
                        lemma_scripts_model_lookup(s_pre, entry.task);
                        assert(st_pre.ready.len() > 0 && st_pre.ready[0] == entry);
                    }
                    match take_step(scripts, entry.task) {
                        Some(TaskStep::Yield(vals)) => {
                            let ghost gvals = vals;
                            let payload = Outcome::Success(vals);
                            let ghost gp = payload;
                            self.push_back(entry.task, payload);
                            proof {
                                let k = script_index(s_pre, entry.task);
                                assert(has_script_m(st_pre.scripts, entry.task)
                                    && script_index_m(st_pre.scripts, entry.task) == k
                                    && st_pre.scripts[k].1.len() > 0);
                                assert(st_pre.scripts[k].1[0] == TaskStep::Yield(gvals));
                                assert(gp == Outcome::Success(gvals));
                                let st_next = RunState {
                                    ready: st_pre.ready.drop_first().push(
                                        ReadyEntry { task: entry.task, payload: gp },
                                    ),
                                    scripts: st_pre.scripts.update(
                                        k,
                                        (st_pre.scripts[k].0, st_pre.scripts[k].1.drop_first()),
                                    ),
                                    ..st_pre
                                };
                                assert(run_model(st_pre) == run_model(st_next));
                                assert(scripts_model(scripts@) =~= st_next.scripts);
                                assert(run_state_of(self.model(), scripts@, events@) == st_next);
                            }
                        },
                        Some(TaskStep::Complete(outcome)) => {
                            let ghost go = outcome;
                            completed.push((entry.task, outcome));
                            proof {
                                let k = script_index(s_pre, entry.task);
                                assert(has_script_m(st_pre.scripts, entry.task)
                                    && script_index_m(st_pre.scripts, entry.task) == k
                                    && st_pre.scripts[k].1.len() > 0);
                                assert(st_pre.scripts[k].1[0] == TaskStep::Complete(go));
                                let st_next = RunState {
                                    ready: st_pre.ready.drop_first(),
                                    scripts: st_pre.scripts.update(
                                        k,
                                        (st_pre.scripts[k].0, st_pre.scripts[k].1.drop_first()),
                                    ),
                                    ..st_pre
                                };
                                let x = (entry.task, outcome_model(go));
                                assert(run_model(st_pre) == seq![x] + run_model(st_next));
                                assert(scripts_model(scripts@) =~= st_next.scripts);
                                assert(run_state_of(self.model(), scripts@, events@) == st_next);
                                assert(completed_model(completed@) =~= done_pre.push(x));
                                assert(done_pre + (seq![x] + run_model(st_next)) =~= done_pre.push(
                                    x,
                                ) + run_model(st_next));
                            }
                        },
                        None => {
                            let outcome = Outcome::Success(Vec::new());
                            let ghost go = outcome;
                            completed.push((entry.task, outcome));
                            proof {
                                assert(!(has_script_m(st_pre.scripts, entry.task)
                                    && st_pre.scripts[script_index_m(
                                    st_pre.scripts,
                                    entry.task,
                                )].1.len() > 0));
                                let st_next = RunState { ready: st_pre.ready.drop_first(), ..st_pre };
                                let x = (entry.task, OutcomeModel::Success { values: Seq::empty() });
                                assert(outcome_model(go) == x.1);
                                assert(run_model(st_pre) == seq![x] + run_model(st_next));
                                assert(run_state_of(self.model(), scripts@, events@) == st_next);
                                assert(completed_model(completed@) =~= done_pre.push(x));
                                assert(done_pre + (seq![x] + run_model(st_next)) =~= done_pre.push(
                                    x,
                                ) + run_model(st_next));
                            }
                        },
                    }
                },
                None => {
                    proof {
                        assert(self.pending@.len() > 0);
                        assert(exists|j: int|
                            0 <= j < events@.len() && (#[trigger] events@[j]).0
                                == self.pending@[0].future);
                    }
                    let ghost p0 = self.model();
                    let ghost e0 = events@;
                    let ev = events.remove(0);
                    self.future_resolved(ev.0, ev.1);
                    proof {
                        assert(st_pre.ready.len() == 0 && st_pre.pending.len() > 0
                            && st_pre.events.len() > 0);
                        assert(st_pre.events[0] == ev);
                        assert(SchedModel {
                            ready: st_pre.ready,
                            pending: st_pre.pending,
                            next_future: st_pre.next_future,
                        } == p0);
                        let resolved = resolve_model(p0, ev.0, ev.1);
                        let st_next = RunState {
                            ready: resolved.ready,
                            pending: resolved.pending,
                            events: st_pre.events.drop_first(),
                            ..st_pre
                        };
                        assert(run_model(st_pre) == run_model(st_next));
                        assert(events@ =~= st_pre.events.drop_first());
                        assert(run_state_of(self.model(), scripts@, events@) == st_next);
                        lemma_resolve_preserves_wf(p0, ev.0, ev.1);
                        assert forall|i: int| 0 <= i < self.pending@.len() implies exists|j: int|
                            0 <= j < events@.len() && (#[trigger] events@[j]).0
                                == (#[trigger] self.pending@[i]).future by {
                            let e = self.pending@[i];
                            assert(resolve_model(p0, ev.0, ev.1).pending[i] == e);
                            assert(p0.pending.contains(e) && e.future != ev.0);
                            let y = choose|y: int| 0 <= y < p0.pending.len() && p0.pending[y] == e;
                            assert(p0.pending[y].future == e.future);
                            let j = choose|j: int|
                                0 <= j < e0.len() && (#[trigger] e0[j]).0 == p0.pending[y].future;
                            assert(e0[j].0 == e.future && e.future != ev.0 && e0[0].0 == ev.0);
                            assert(j != 0);
                            assert(events@[j - 1] == e0[j]);
                            assert(events@[j - 1].0 == e.future);
                        }
                    }
                },
            }
        }
        proof {
            let st_end = run_state_of(self.model(), scripts@, events@);
            assert(st_end.ready.len() == 0 && st_end.pending.len() == 0);
            assert(run_model(st_end) =~= Seq::<(TaskId, OutcomeModel)>::empty());
            assert(completed_model(completed@) + run_model(st_end) =~= completed_model(
                completed@,
            ));
        }
        completed
    }
}

} // verus!
