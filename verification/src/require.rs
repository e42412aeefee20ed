//! The `require` entry point: dispatches a requested path through the
//! resolver chain, and drives the module cache protocol so that a
//! module body executes at most once per canonical key.  Builtin
//! paths are answered from the registry alone and never touch the
//! cache or the filesystem resolution logic.

use vstd::prelude::*;

use crate::cache::{begin_model, BeginOutcome, ModuleCache};
use crate::clone_string;
use crate::errors::{RequireError, ResolveErrorKind};
use crate::resolve::{
    classify_require_path, canonicalize_path, first_slash_from, is_builtin_path, join_under,
    spec_canonical, spec_lower, PathKind,
};
use crate::scheduler::{outcome_eq, Outcome, Scheduler, TaskId};
use crate::ScriptValue;

verus! {

/// The registry name addressed by a builtin path.
pub open spec fn builtin_name_of(p: Seq<char>) -> Seq<char> {
    spec_lower(p.subrange(6, p.len() as int))
}

/// Whether a list of names contains this name.
pub open spec fn has_name(v: Seq<String>, n: Seq<char>) -> bool {
    exists|i: int| 0 <= i < v.len() && (#[trigger] v[i])@ == n
}

/// Whether an alias table defines this alias.
pub open spec fn has_alias(v: Seq<(String, String)>, a: Seq<char>) -> bool {
    exists|i: int| 0 <= i < v.len() && (#[trigger] v[i]).0@ == a
}

/// The index of the definition of this alias.
pub open spec fn alias_index(v: Seq<(String, String)>, a: Seq<char>) -> int {
    choose|i: int| 0 <= i < v.len() && (#[trigger] v[i]).0@ == a
}

/// Whether the requester's in-flight chain holds this canonical key.
pub open spec fn chain_has(c: Seq<String>, k: Seq<char>) -> bool {
    exists|i: int| 0 <= i < c.len() && (#[trigger] c[i])@ == k
}

/// Process-wide require state of one runtime instance: the builtin
/// registry names, the alias table, the configured path-resolution
/// mode with its root, and the module cache.
pub struct RequireContext {
    pub builtins: Vec<String>,
    pub aliases: Vec<(String, String)>,
    pub use_absolute: bool,
    pub root: String,
    pub cache: ModuleCache,
}

impl RequireContext {
    /// Alias names are pairwise distinct and the cache is well-formed.
    pub open spec fn wf(self) -> bool {
        &&& self.cache.wf()
        &&& forall|i: int, j: int|
            0 <= i < j < self.aliases@.len() ==> (#[trigger] self.aliases@[i]).0@
                != (#[trigger] self.aliases@[j]).0@
    }
}

/// In a well-formed alias table, the definition found for an alias is
/// the only one.
pub proof fn lemma_alias_index_unique(v: Seq<(String, String)>, a: Seq<char>, i: int)
    requires
        forall|x: int, y: int|
            0 <= x < y < v.len() ==> (#[trigger] v[x]).0@ != (#[trigger] v[y]).0@,
        0 <= i < v.len(),
        v[i].0@ == a,
    ensures
        has_alias(v, a),
        alias_index(v, a) == i,
{
    assert(has_alias(v, a));
    let j = alias_index(v, a);
    if j < i {
        assert(v[j].0@ != v[i].0@);
    }
    if j > i {
        assert(v[i].0@ != v[j].0@);
    }
}

/// Whether an alias table defines each alias at most once — what a
/// well-formed context asks of the table it is built from.
pub fn aliases_distinct(aliases: &Vec<(String, String)>) -> (r: bool)
    ensures
        r == (forall|i: int, j: int|
            0 <= i < j < aliases@.len() ==> (#[trigger] aliases@[i]).0@ != (
            #[trigger] aliases@[j]).0@),
{
    let n = aliases.len();
    let mut i: usize = 0;
    while i < n
        invariant
            n == aliases@.len(),
            i <= n,
            forall|a: int, b: int|
                0 <= a < b < i ==> (#[trigger] aliases@[a]).0@ != (#[trigger] aliases@[b]).0@,
        decreases n - i,
    {
        let mut j: usize = 0;
        while j < i
            invariant
                n == aliases@.len(),
                j <= i < n,
                forall|a: int, b: int|
                    0 <= a < b < i ==> (#[trigger] aliases@[a]).0@ != (#[trigger] aliases@[b]).0@,
                forall|a: int| 0 <= a < j ==> (#[trigger] aliases@[a]).0@ != aliases@[i as int].0@,
            decreases i - j,
        {
            if aliases[j].0 == aliases[i].0 {
                proof {
                    let gi = i as int;
                    let gj = j as int;
                    assert(aliases@[gj].0@ == aliases@[gi].0@);
                    assert(!(forall|a: int, b: int|
                        0 <= a < b < aliases@.len() ==> (#[trigger] aliases@[a]).0@ != (
                        #[trigger] aliases@[b]).0@)) by {
                        if (forall|a: int, b: int|
                            0 <= a < b < aliases@.len() ==> (#[trigger] aliases@[a]).0@ != (
                            #[trigger] aliases@[b]).0@) {
                            assert(aliases@[gj].0@ != aliases@[gi].0@);
                        }
                    }
                }
                return false;
            }
            j = j + 1;
        }
        i = i + 1;
    }
    true
}

/// Whether a list of names contains this name.
fn contains_name(v: &Vec<String>, name: &String) -> (r: bool)
    ensures
        r == has_name(v@, name@),
{
    let n = v.len();
    let mut i: usize = 0;
    while i < n
        invariant
            n == v@.len(),
            i <= n,
            forall|t: int| 0 <= t < i ==> (#[trigger] v@[t])@ != name@,
        decreases n - i,
    {
        if v[i] == *name {
            return true;
        }
        i = i + 1;
    }
    false
}

/// Whether the in-flight chain holds this key.
fn chain_contains(chain: &Vec<String>, key: &String) -> (r: bool)
    ensures
        r == chain_has(chain@, key@),
{
    let n = chain.len();
    let mut i: usize = 0;
    while i < n
        invariant
            n == chain@.len(),
            i <= n,
            forall|t: int| 0 <= t < i ==> (#[trigger] chain@[t])@ != key@,
        decreases n - i,
    {
        if chain[i] == *key {
            return true;
        }
        i = i + 1;
    }
    false
}

/// Delivers one completed load to every task that waited for it:
/// each waiter joins the back of the ready queue, in registration
/// order, and all of them carry the very same payload — the single
/// shared result of the one load.
pub fn resume_waiters(sched: &mut Scheduler, waiters: &Vec<TaskId>, payload: &Outcome)
    requires
        old(sched).wf(),
    ensures
        final(sched).wf(),
        final(sched).pending@ == old(sched).pending@,
        final(sched).next_future == old(sched).next_future,
        final(sched).ready@.len() == old(sched).ready@.len() + waiters@.len(),
        forall|i: int|
            0 <= i < old(sched).ready@.len() ==> final(sched).ready@[i] == old(sched).ready@[i],
        forall|i: int|
            0 <= i < waiters@.len() ==> (#[trigger] final(sched).ready@[old(sched).ready@.len()
                + i]).task == waiters@[i] && outcome_eq(
                final(sched).ready@[old(sched).ready@.len() + i].payload,
                *payload,
            ),
{
    let n = waiters.len();
    let mut i: usize = 0;
    while i < n
        invariant
            sched.wf(),
            n == waiters@.len(),
            i <= n,
            sched.pending@ == old(sched).pending@,
            sched.next_future == old(sched).next_future,
            sched.ready@.len() == old(sched).ready@.len() + i,
            forall|t: int|
                0 <= t < old(sched).ready@.len() ==> sched.ready@[t] == old(sched).ready@[t],
            forall|t: int|
                0 <= t < i ==> (#[trigger] sched.ready@[old(sched).ready@.len() + t]).task
                    == waiters@[t] && outcome_eq(
                    sched.ready@[old(sched).ready@.len() + t].payload,
                    *payload,
                ),
        decreases n - i,
    {
        sched.push_back(waiters[i], payload.dup());
        i = i + 1;
    }
}

/// What one `require` call asks of its driver next.
#[derive(PartialEq, Eq, Debug)]
pub enum RequireStep {
    /// A builtin module: return it from the registry directly, the
    /// cache was not touched and no module body runs.
    Builtin { name: String },
    /// The call is answered at once: a cached or immediate result.
    Done { result: Result<ScriptValue, RequireError> },
    /// A load for the key is in flight: the caller was registered as
    /// a waiter and must suspend until the load completes.
    Wait { key: String },
    /// The key was absent: the caller must load the module source and
    /// drive it as a new task, then report completion for the key.
    StartLoad { key: String },
}

/// How a `RequireStep` reflects the cache protocol's outcome for a
/// canonical key.
pub open spec fn step_matches(r: RequireStep, o: BeginOutcome, key: Seq<char>) -> bool {
    match o {
        BeginOutcome::Circular => r matches RequireStep::Done { result: Err(
            RequireError::CircularRequire { path },
        ) } && path@ == key,
        BeginOutcome::Hit(v) => r == RequireStep::Done { result: Ok(v) },
        BeginOutcome::Failed(e) => r == RequireStep::Done { result: Err(e) },
        BeginOutcome::Wait => r matches RequireStep::Wait { key: k } && k@ == key,
        BeginOutcome::StartLoad => r matches RequireStep::StartLoad { key: k } && k@ == key,
    }
}

/// The base a plain path is interpreted from: the configured root in
/// absolute mode, the requesting module's directory otherwise.
pub open spec fn plain_base(ctx: RequireContext, caller_dir: Seq<char>) -> Seq<char> {
    if ctx.use_absolute {
        ctx.root@
    } else {
        caller_dir
    }
}

impl RequireContext {
    /// The canonical key of an aliased path, given the alias target.
    pub open spec fn aliased_key(target: Seq<char>, rest: Seq<char>) -> Seq<char> {
        spec_canonical(target + seq!['/'] + rest)
    }

    /// The canonical key of a plain path.
    pub open spec fn plain_key(self, caller_dir: Seq<char>, path: Seq<char>) -> Seq<char> {
        spec_canonical(plain_base(self, caller_dir) + seq!['/'] + path)
    }

    /// One `require(path)` issued by task `caller` whose module
    /// directory is `caller_dir` and whose in-flight require chain is
    /// `chain`.  Dispatches through the resolver chain, first match
    /// wins; builtin paths are answered from the registry alone and
    /// leave the whole context — in particular the cache — untouched;
    /// malformed or unknown addressing forms fail with the exact
    /// resolution error; otherwise the canonical key runs through the
    /// cache protocol.
    pub fn require_begin(
        &mut self,
        caller: TaskId,
        caller_dir: &String,
        chain: &Vec<String>,
        path: &str,
    ) -> (r: RequireStep)
        requires
            old(self).wf(),
        ensures
            final(self).wf(),
            final(self).builtins == old(self).builtins,
            final(self).aliases == old(self).aliases,
            final(self).use_absolute == old(self).use_absolute,
            final(self).root == old(self).root,
            // Builtin prefix: registry lookup only, the cache is never touched.
            is_builtin_path(path@) ==> *final(self) == *old(self) && (if has_name(
                old(self).builtins@,
                builtin_name_of(path@),
            ) {
                r matches RequireStep::Builtin { name } && name@ == builtin_name_of(path@)
            } else {
                r matches RequireStep::Done { result: Err(RequireError::Resolution { kind, path: p }) }
                    && kind == ResolveErrorKind::UnknownBuiltin && p@ == path@
            }),
            // Aliased form with a delimiter: alias table lookup, then the cache protocol.
            !is_builtin_path(path@) && path@.len() > 0 && path@[0] == '@' && first_slash_from(
                path@,
                1,
            ) >= 0 ==> {
                let a = path@.subrange(1, first_slash_from(path@, 1));
                let rest = path@.subrange(first_slash_from(path@, 1) + 1, path@.len() as int);
                if has_alias(old(self).aliases@, a) {
                    let key = Self::aliased_key(
                        old(self).aliases@[alias_index(old(self).aliases@, a)].1@,
                        rest,
                    );
                    let step = begin_model(
                        old(self).cache.model(),
                        key,
                        caller,
                        chain_has(chain@, key),
                    );
                    final(self).cache.model() == step.0 && step_matches(r, step.1, key)
                } else {
                    *final(self) == *old(self) && (r matches RequireStep::Done {
                        result: Err(RequireError::Resolution { kind, path: p }),
                    } && kind == ResolveErrorKind::UnknownAlias && p@ == path@)
                }
            },
            // Aliased form without a delimiter: malformed, nothing touched.
            !is_builtin_path(path@) && path@.len() > 0 && path@[0] == '@' && first_slash_from(
                path@,
                1,
            ) < 0 ==> *final(self) == *old(self) && (r matches RequireStep::Done {
                result: Err(RequireError::Resolution { kind, path: p }),
            } && kind == ResolveErrorKind::MalformedPath && p@ == path@),
            // Plain path: canonical key from the configured base, then the cache protocol.
            path@.len() == 0 || path@[0] != '@' ==> {
                let key = old(self).plain_key(caller_dir@, path@);
                let step = begin_model(
                    old(self).cache.model(),
                    key,
                    caller,
                    chain_has(chain@, key),
                );
                final(self).cache.model() == step.0 && step_matches(r, step.1, key)
            },
    {
        let kind = classify_require_path(path);
        match kind {
            PathKind::Builtin { name } => {
                if contains_name(&self.builtins, &name) {
                    RequireStep::Builtin { name }
                } else {
                    RequireStep::Done {
                        result: Err(
                            RequireError::Resolution {
                                kind: ResolveErrorKind::UnknownBuiltin,
                                path: path.to_owned(),
                            },
                        ),
                    }
                }
            },
            PathKind::Aliased { alias, rest } => {
                match self.lookup_alias(&alias) {
                    Some(target) => {
                        let joined = join_under(&target, rest.as_str());
                        let key = canonicalize_path(joined.as_str());
                        self.cache_step(caller, chain, key)
                    },
                    None => RequireStep::Done {
                        result: Err(
                            RequireError::Resolution {
                                kind: ResolveErrorKind::UnknownAlias,
                                path: path.to_owned(),
                            },
                        ),
                    },
                }
            },
            PathKind::MissingDelimiter => RequireStep::Done {
                result: Err(
                    RequireError::Resolution {
                        kind: ResolveErrorKind::MalformedPath,
                        path: path.to_owned(),
                    },
                ),
            },
            PathKind::Plain => {
                let base = if self.use_absolute {
                    clone_string(&self.root)
                } else {
                    clone_string(caller_dir)
                };
                let joined = join_under(&base, path);
                let key = canonicalize_path(joined.as_str());
                self.cache_step(caller, chain, key)
            },
        }
    }

    /// The target of an alias, if the table defines it.
    fn lookup_alias(&self, alias: &String) -> (r: Option<String>)
        requires
            self.wf(),
        ensures
            match r {
                None => !has_alias(self.aliases@, alias@),
                Some(t) => has_alias(self.aliases@, alias@) && t@ == self.aliases@[alias_index(
                    self.aliases@,
                    alias@,
                )].1@,
            },
    {
        let n = self.aliases.len();
        let mut i: usize = 0;
        while i < n
            invariant
                self.wf(),
                n == self.aliases@.len(),
                i <= n,
                forall|t: int| 0 <= t < i ==> (#[trigger] self.aliases@[t]).0@ != alias@,
            decreases n - i,
        {
            if self.aliases[i].0 == *alias {
                proof {
                    lemma_alias_index_unique(self.aliases@, alias@, i as int);
                }
                return Some(clone_string(&self.aliases[i].1));
            }
            i = i + 1;
        }
        None
    }

    /// Runs a canonical key through the cache protocol and shapes the
    /// outcome for the caller.
    fn cache_step(&mut self, caller: TaskId, chain: &Vec<String>, key: String) -> (r: RequireStep)
        requires
            old(self).wf(),
        ensures
            final(self).wf(),
            final(self).builtins == old(self).builtins,
            final(self).aliases == old(self).aliases,
            final(self).use_absolute == old(self).use_absolute,
            final(self).root == old(self).root,
            ({
                let step = begin_model(
                    old(self).cache.model(),
                    key@,
                    caller,
                    chain_has(chain@, key@),
                );
                final(self).cache.model() == step.0 && step_matches(r, step.1, key@)
            }),
    {
        let in_chain = chain_contains(chain, &key);
        let outcome = self.cache.begin_require(&key, caller, in_chain);
        match outcome {
            BeginOutcome::Circular => RequireStep::Done {
                result: Err(RequireError::CircularRequire { path: key }),
            },
            BeginOutcome::Hit(v) => RequireStep::Done { result: Ok(v) },
            BeginOutcome::Failed(e) => RequireStep::Done { result: Err(e) },
            BeginOutcome::Wait => RequireStep::Wait { key },
            BeginOutcome::StartLoad => RequireStep::StartLoad { key },
        }
    }
}

} // verus!
