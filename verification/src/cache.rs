//! Module cache: maps a canonical module key to a cached result or an
//! in-progress marker, so that a module body executes at most once per
//! key and every concurrent requester observes the same terminal
//! result.  Re-entry into the requiring chain's own in-flight keys is
//! the circular-require condition.

use vstd::prelude::*;

use crate::clone_string;
use crate::errors::RequireError;
use crate::scheduler::TaskId;
use crate::ScriptValue;

verus! {

/// The state of one cache entry: a load in flight (holding the tasks
/// waiting for it), a cached exported value, or a cached failure.
#[derive(Clone, PartialEq, Eq, Debug)]
pub enum CacheEntry {
    Pending { waiters: Vec<TaskId> },
    Ready { value: ScriptValue },
    Errored { error: RequireError },
}

/// One slot of the cache: a canonical module key and its entry.
#[derive(Clone, PartialEq, Eq, Debug)]
pub struct CacheSlot {
    pub key: String,
    pub entry: CacheEntry,
}

/// Mathematical state of one cache entry.
pub ghost enum EntryModel {
    Pending { waiters: Seq<TaskId> },
    Ready { value: ScriptValue },
    Errored { error: RequireError },
}

/// Mathematical state of one cache slot.
pub ghost struct SlotModel {
    pub key: Seq<char>,
    pub entry: EntryModel,
}

pub open spec fn entry_model(e: CacheEntry) -> EntryModel {
    match e {
        CacheEntry::Pending { waiters } => EntryModel::Pending { waiters: waiters@ },
        CacheEntry::Ready { value } => EntryModel::Ready { value },
        CacheEntry::Errored { error } => EntryModel::Errored { error },
    }
}

pub open spec fn slot_model(s: CacheSlot) -> SlotModel {
    SlotModel { key: s.key@, entry: entry_model(s.entry) }
}

/// Canonical keys are pairwise distinct.
pub open spec fn cache_wf(m: Seq<SlotModel>) -> bool {
    forall|i: int, j: int| 0 <= i < j < m.len() ==> m[i].key != m[j].key
}

/// Whether some slot holds this canonical key.
pub open spec fn has_key(m: Seq<SlotModel>, k: Seq<char>) -> bool {
    exists|i: int| 0 <= i < m.len() && (#[trigger] m[i]).key == k
}

/// The index of the slot holding this canonical key.
pub open spec fn key_index(m: Seq<SlotModel>, k: Seq<char>) -> int {
    choose|i: int| 0 <= i < m.len() && (#[trigger] m[i]).key == k
}

/// In a well-formed cache, the slot found for a key is the only one.
pub proof fn lemma_key_index_unique(m: Seq<SlotModel>, k: Seq<char>, i: int)
    requires
        cache_wf(m),
        0 <= i < m.len(),
        m[i].key == k,
    ensures
        has_key(m, k),
        key_index(m, k) == i,
{
    assert(has_key(m, k));
    let j = key_index(m, k);
    if j < i {
        assert(m[j].key != m[i].key);
    }
    if j > i {
        assert(m[i].key != m[j].key);
    }
}

/// What the first cache step of a `require` reports to the caller.
#[derive(Clone, PartialEq, Eq, Debug)]
pub enum BeginOutcome {
    /// The key is already in flight in the requester's own chain: the
    /// circular-require condition, reported instead of deadlocking.
    Circular,
    /// A cached exported value, returned without re-execution.
    Hit(ScriptValue),
    /// A cached failure, returned without re-attempting the load.
    Failed(RequireError),
    /// A load for the key is in flight elsewhere; the caller was
    /// registered as a waiter and must suspend.
    Wait,
    /// The key was absent; an in-progress marker with the caller as
    /// sole waiter was inserted, and the caller must load the module
    /// body (it is the only one that ever will, for this key).
    StartLoad,
}

/// The cache after (and the outcome of) the first step of a `require`
/// for key `k` by caller `caller`, where `in_chain` says whether `k`
/// is among the in-flight keys of the caller's own require chain.
pub open spec fn begin_model(
    m: Seq<SlotModel>,
    k: Seq<char>,
    caller: TaskId,
    in_chain: bool,
) -> (Seq<SlotModel>, BeginOutcome) {
    if in_chain {
        (m, BeginOutcome::Circular)
    } else if has_key(m, k) {
        let i = key_index(m, k);
        match m[i].entry {
            EntryModel::Ready { value } => (m, BeginOutcome::Hit(value)),
            EntryModel::Errored { error } => (m, BeginOutcome::Failed(error)),
            EntryModel::Pending { waiters } => (
                m.update(
                    i,
                    SlotModel { key: m[i].key, entry: EntryModel::Pending { waiters: waiters.push(caller) } },
                ),
                BeginOutcome::Wait,
            ),
        }
    } else {
        (
            m.push(SlotModel { key: k, entry: EntryModel::Pending { waiters: seq![caller] } }),
            BeginOutcome::StartLoad,
        )
    }
}

/// The cache after the in-flight load of key `k` completes with
/// `result`, together with the waiters the result is delivered to.
pub open spec fn complete_model(
    m: Seq<SlotModel>,
    k: Seq<char>,
    result: Result<ScriptValue, RequireError>,
) -> (Seq<SlotModel>, Seq<TaskId>) {
    let i = key_index(m, k);
    let waiters = match m[i].entry {
        EntryModel::Pending { waiters } => waiters,
        _ => Seq::empty(),
    };
    let entry = match result {
        Ok(value) => EntryModel::Ready { value },
        Err(error) => EntryModel::Errored { error },
    };
    (m.update(i, SlotModel { key: m[i].key, entry }), waiters)
}

/// Module cache of one runtime instance.
pub struct ModuleCache {
    pub slots: Vec<CacheSlot>,
}

impl ModuleCache {
    /// The mathematical state of this cache.
    pub open spec fn model(self) -> Seq<SlotModel> {
        self.slots@.map_values(|s: CacheSlot| slot_model(s))
    }

    pub open spec fn wf(self) -> bool {
        cache_wf(self.model())
    }

    /// An empty cache, created once at runtime startup.
    pub fn new() -> (c: ModuleCache)
        ensures
            c.wf(),
            c.model() =~= Seq::<SlotModel>::empty(),
    {
        ModuleCache { slots: Vec::new() }
    }

    /// The index of the slot holding `key`, if any.
    fn find(&self, key: &String) -> (r: Option<usize>)
        requires
            self.wf(),
        ensures
            match r {
                None => !has_key(self.model(), key@),
                Some(i) => i < self.slots@.len() && self.slots@[i as int].key@ == key@
                    && key_index(self.model(), key@) == i && has_key(self.model(), key@),
            },
    {
        let n = self.slots.len();
        let mut j: usize = 0;
        while j < n
            invariant
                self.wf(),
                n == self.slots@.len(),
                j <= n,
                forall|t: int| 0 <= t < j ==> (#[trigger] self.model()[t]).key != key@,
            decreases n - j,
        {
            if self.slots[j].key == *key {
                proof {
                    assert(self.model()[j as int].key == key@);
                    lemma_key_index_unique(self.model(), key@, j as int);
                }
                return Some(j);
            }
            proof {
                assert(self.model()[j as int].key == self.slots@[j as int].key@);
            }
            j = j + 1;
        }
        None
    }

    /// First cache step of `require(key)` issued by `caller`:
    /// circular-require check, then hit / failure / wait / start-load
    /// according to the slot's state.  Exactly follows `begin_model`.
    pub fn begin_require(&mut self, key: &String, caller: TaskId, in_chain: bool) -> (r:
        BeginOutcome)
        requires
            old(self).wf(),
        ensures
            final(self).wf(),
            (final(self).model(), r) == begin_model(old(self).model(), key@, caller, in_chain),
    {
        if in_chain {
            return BeginOutcome::Circular;
        }
        let found = self.find(key);
        match found {
            None => {
                let ghost m0 = self.model();
                let mut ws: Vec<TaskId> = Vec::new();
                ws.push(caller);
                self.slots.push(
                    CacheSlot { key: clone_string(key), entry: CacheEntry::Pending { waiters: ws } },
                );
                proof {
                    assert(self.model() =~= m0.push(
                        SlotModel { key: key@, entry: EntryModel::Pending { waiters: seq![caller] } },
                    ));
                    assert forall|i: int, j: int| 0 <= i < j < self.model().len() implies self.model()[i].key
                        != self.model()[j].key by {
                        if j == self.model().len() - 1 {
                            assert(!has_key(m0, key@));
                            assert(m0[i].key != key@);
                        }
                    }
                }
                BeginOutcome::StartLoad
            },
            Some(i) => {
                let ghost m0 = self.model();
                let ghost gi = i as int;
                match &self.slots[i].entry {
                    CacheEntry::Ready { value } => {
                        let v = value.dup();
                        BeginOutcome::Hit(v)
                    },
                    CacheEntry::Errored { error } => {
                        let e = error.dup();
                        BeginOutcome::Failed(e)
                    },
                    CacheEntry::Pending { waiters } => {
                        let mut ws = copy_tasks(waiters);
                        ws.push(caller);
                        let k2 = clone_string(&self.slots[i].key);
                        self.slots[i] = CacheSlot { key: k2, entry: CacheEntry::Pending { waiters: ws } };
                        proof {
                            assert(self.model() =~= begin_model(m0, key@, caller, false).0);
                            assert forall|a: int, b: int| 0 <= a < b < self.model().len() implies self.model()[a].key
                                != self.model()[b].key by {
                                assert(m0[a].key != m0[b].key);
                            }
                        }
                        BeginOutcome::Wait
                    },
                }
            },
        }
    }

    /// Whether a load for `key` is recorded as in flight — the state
    /// `complete_require` asks for.
    pub fn is_pending(&self, key: &String) -> (r: bool)
        requires
            self.wf(),
        ensures
            r == (has_key(self.model(), key@) && self.model()[key_index(self.model(), key@)].entry
                is Pending),
    {
        match self.find(key) {
            None => false,
            Some(i) => match &self.slots[i].entry {
                CacheEntry::Pending { .. } => true,
                _ => false,
            },
        }
    }

    /// Completion of the in-flight load of `key`: the slot becomes
    /// `Ready` or `Errored` according to `result`, and the returned
    /// waiters — every task that required the key while the load was
    /// in flight — are the ones the (single, shared) result must now
    /// be delivered to.  Exactly follows `complete_model`.
    pub fn complete_require(&mut self, key: &String, result: Result<ScriptValue, RequireError>) -> (waiters: Vec<TaskId>)
        requires
            old(self).wf(),
            has_key(old(self).model(), key@),
            old(self).model()[key_index(old(self).model(), key@)].entry is Pending,
        ensures
            final(self).wf(),
            (final(self).model(), waiters@) == complete_model(old(self).model(), key@, result),
    {
        let ghost m0 = self.model();
        let found = self.find(key);
        match found {
            None => {
                proof {
                    assert(false);
                }
                Vec::new()
            },
            Some(i) => {
                let ghost gi = i as int;
                let ws = match &self.slots[i].entry {
                    CacheEntry::Pending { waiters } => copy_tasks(waiters),
                    _ => {
                        proof {
                            assert(false);
                        }
                        Vec::new()
                    },
                };
                let entry = match result {
                    Ok(value) => CacheEntry::Ready { value },
                    Err(error) => CacheEntry::Errored { error },
                };
                let k2 = clone_string(&self.slots[i].key);
                self.slots[i] = CacheSlot { key: k2, entry };
                proof {
                    assert(self.model() =~= complete_model(m0, key@, result).0);
                    assert forall|a: int, b: int| 0 <= a < b < self.model().len() implies self.model()[a].key
                        != self.model()[b].key by {
                        assert(m0[a].key != m0[b].key);
                    }
                }
                ws
            },
        }
    }
}

/// Two `require` calls for the same canonical key issued before the
/// first load completes cause exactly one start of a module body: the
/// first caller is told to load, the second is registered as a waiter
/// and never told to load.
pub proof fn lemma_concurrent_require_single_execution(
    m: Seq<SlotModel>,
    k: Seq<char>,
    c1: TaskId,
    c2: TaskId,
)
    requires
        cache_wf(m),
        !has_key(m, k),
    ensures
        ({
            let (m1, o1) = begin_model(m, k, c1, false);
            let (m2, o2) = begin_model(m1, k, c2, false);
            &&& o1 == BeginOutcome::StartLoad
            &&& o2 == BeginOutcome::Wait
            &&& cache_wf(m2)
        }),
{
    let (m1, o1) = begin_model(m, k, c1, false);
    assert(cache_wf(m1)) by {
        assert forall|i: int, j: int| 0 <= i < j < m1.len() implies m1[i].key != m1[j].key by {
            if j == m1.len() - 1 {
                assert(m[i].key != k);
            } else {
                assert(m[i].key != m[j].key);
            }
        }
    }
    lemma_key_index_unique(m1, k, m.len() as int);
    let (m2, o2) = begin_model(m1, k, c2, false);
    assert(cache_wf(m2)) by {
        assert forall|i: int, j: int| 0 <= i < j < m2.len() implies m2[i].key != m2[j].key by {
            assert(m1[i].key != m1[j].key);
        }
    }
}

/// Both concurrent requesters of one canonical key receive the very
/// result the single load completed with, and every later requester
/// observes the same terminal result without any re-execution.
pub proof fn lemma_concurrent_require_same_result(
    m: Seq<SlotModel>,
    k: Seq<char>,
    c1: TaskId,
    c2: TaskId,
    result: Result<ScriptValue, RequireError>,
)
    requires
        cache_wf(m),
        !has_key(m, k),
    ensures
        ({
            let (m1, o1) = begin_model(m, k, c1, false);
            let (m2, o2) = begin_model(m1, k, c2, false);
            let (m3, ws) = complete_model(m2, k, result);
            &&& ws == seq![c1, c2]
            &&& cache_wf(m3)
            &&& forall|c: TaskId| #[trigger] begin_model(m3, k, c, false).1 == (match result {
                Ok(v) => BeginOutcome::Hit(v),
                Err(e) => BeginOutcome::Failed(e),
            })
            &&& forall|c: TaskId| #[trigger] begin_model(m3, k, c, false).0 == m3
        }),
{
    lemma_concurrent_require_single_execution(m, k, c1, c2);
    let (m1, o1) = begin_model(m, k, c1, false);
    lemma_key_index_unique(m1, k, m.len() as int);
    let (m2, o2) = begin_model(m1, k, c2, false);
    lemma_key_index_unique(m2, k, m.len() as int);
    let (m3, ws) = complete_model(m2, k, result);
    assert(ws =~= seq![c1, c2]);
    assert(cache_wf(m3)) by {
        assert forall|i: int, j: int| 0 <= i < j < m3.len() implies m3[i].key != m3[j].key by {
            assert(m2[i].key != m2[j].key);
        }
    }
    lemma_key_index_unique(m3, k, m.len() as int);
    assert forall|c: TaskId| #[trigger] begin_model(m3, k, c, false).1 == (match result {
        Ok(v) => BeginOutcome::Hit(v),
        Err(e) => BeginOutcome::Failed(e),
    }) && begin_model(m3, k, c, false).0 == m3 by {
        assert(m3[key_index(m3, k)].entry == complete_model(m2, k, result).0[key_index(m3, k)].entry);
    }
}

/// A require for a key that is already among the in-flight keys of
/// the requester's own chain fails as the circular-require condition,
/// immediately and without touching the cache: no deadlock, no waiter
/// registered, no load started.
pub proof fn lemma_circular_require_fails(m: Seq<SlotModel>, k: Seq<char>, caller: TaskId)
    ensures
        begin_model(m, k, caller, true).1 == BeginOutcome::Circular,
        begin_model(m, k, caller, true).0 == m,
{
}

/// An equal copy of a list of task identities.
fn copy_tasks(v: &Vec<TaskId>) -> (r: Vec<TaskId>)
    ensures
        r@ == v@,
{
    let mut r: Vec<TaskId> = Vec::new();
    let n = v.len();
    let mut i: usize = 0;
    while i < n
        invariant
            n == v@.len(),
            i <= n,
            r@ == v@.subrange(0, i as int),
        decreases n - i,
    {
        r.push(v[i]);
        proof {
            assert(r@ =~= v@.subrange(0, i as int + 1));
        }
        i = i + 1;
    }
    proof {
        assert(v@.subrange(0, n as int) =~= v@);
    }
    r
}

} // verus!
