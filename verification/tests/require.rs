use lune_core::cache::ModuleCache;
use lune_core::errors::{RequireError, ResolveErrorKind};
use lune_core::require::{aliases_distinct, resume_waiters, RequireContext, RequireStep};
use lune_core::scheduler::{Outcome, Scheduler};
use lune_core::ScriptValue;

fn context() -> RequireContext {
    RequireContext {
        builtins: vec![
            String::from("fs"),
            String::from("net"),
            String::from("process"),
            String::from("serde"),
            String::from("stdio"),
            String::from("task"),
        ],
        aliases: vec![(String::from("alias"), String::from("opt/lib"))],
        use_absolute: false,
        root: String::from("srv/root"),
        cache: ModuleCache::new(),
    }
}

#[test]
fn builtin_require_skips_cache() {
    let mut ctx = context();
    let dir = String::from("proj");
    let r = ctx.require_begin(1, &dir, &vec![], "@lune/fs");
    assert_eq!(r, RequireStep::Builtin { name: String::from("fs") });
    // The module cache was never touched.
    assert_eq!(ctx.cache.slots.len(), 0);
}

#[test]
fn builtin_name_is_case_insensitive() {
    let mut ctx = context();
    let dir = String::from("proj");
    let r = ctx.require_begin(1, &dir, &vec![], "@lune/TaSk");
    assert_eq!(r, RequireStep::Builtin { name: String::from("task") });
    assert_eq!(ctx.cache.slots.len(), 0);
}

#[test]
fn unknown_builtin_fails_without_touching_cache() {
    let mut ctx = context();
    let dir = String::from("proj");
    let r = ctx.require_begin(1, &dir, &vec![], "@lune/nosuch");
    assert_eq!(
        r,
        RequireStep::Done {
            result: Err(RequireError::Resolution {
                kind: ResolveErrorKind::UnknownBuiltin,
                path: String::from("@lune/nosuch"),
            })
        }
    );
    assert_eq!(ctx.cache.slots.len(), 0);
}

#[test]
fn unknown_alias_fails() {
    let mut ctx = context();
    let dir = String::from("proj");
    let r = ctx.require_begin(1, &dir, &vec![], "@badalias/x");
    assert_eq!(
        r,
        RequireStep::Done {
            result: Err(RequireError::Resolution {
                kind: ResolveErrorKind::UnknownAlias,
                path: String::from("@badalias/x"),
            })
        }
    );
    assert_eq!(ctx.cache.slots.len(), 0);
}

#[test]
fn alias_without_delimiter_is_malformed() {
    let mut ctx = context();
    let dir = String::from("proj");
    let r = ctx.require_begin(1, &dir, &vec![], "@alias");
    assert_eq!(
        r,
        RequireStep::Done {
            result: Err(RequireError::Resolution {
                kind: ResolveErrorKind::MalformedPath,
                path: String::from("@alias"),
            })
        }
    );
    assert_eq!(ctx.cache.slots.len(), 0);
}

#[test]
fn aliased_require_resolves_through_table() {
    let mut ctx = context();
    let dir = String::from("proj");
    let r = ctx.require_begin(1, &dir, &vec![], "@alias/util/mod");
    assert_eq!(r, RequireStep::StartLoad { key: String::from("opt/lib/util/mod") });
}

#[test]
fn concurrent_requires_execute_module_once() {
    let mut ctx = context();
    let dir = String::from("proj");
    // First requester starts the one and only load.
    let r1 = ctx.require_begin(1, &dir, &vec![], "./mod");
    let key = match r1 {
        RequireStep::StartLoad { ref key } => key.clone(),
        ref other => panic!("expected StartLoad, got {:?}", other),
    };
    assert_eq!(key, String::from("proj/mod"));
    // A second requester of the same key before completion waits; no
    // second load starts.
    let r2 = ctx.require_begin(2, &dir, &vec![], "mod");
    assert_eq!(r2, RequireStep::Wait { key: key.clone() });
    // The load completes once; both callers are delivered the same
    // result.
    let waiters = ctx
        .cache
        .complete_require(&key, Ok(ScriptValue::Str(String::from("exports"))));
    assert_eq!(waiters, vec![1, 2]);
    // Any later require observes the cached value with no new load.
    let r3 = ctx.require_begin(3, &dir, &vec![], "./mod");
    assert_eq!(
        r3,
        RequireStep::Done { result: Ok(ScriptValue::Str(String::from("exports"))) }
    );
    assert_eq!(ctx.cache.slots.len(), 1);
}

#[test]
fn all_waiters_resume_with_the_shared_result() {
    let mut ctx = context();
    let mut sched = Scheduler::new();
    let dir = String::from("proj");
    // Two tasks require the same module while its load is in flight.
    let r1 = ctx.require_begin(1, &dir, &vec![], "./mod");
    let key = match r1 {
        RequireStep::StartLoad { key } => key,
        other => panic!("expected StartLoad, got {:?}", other),
    };
    ctx.require_begin(2, &dir, &vec![], "./mod");
    let exports = ScriptValue::Str(String::from("exports"));
    let waiters = ctx.cache.complete_require(&key, Ok(exports.clone()));
    let payload = Outcome::Success(vec![exports]);
    resume_waiters(&mut sched, &waiters, &payload);
    // Both waiters are ready, in registration order, with the one
    // shared result.
    assert_eq!(sched.ready.len(), 2);
    assert_eq!(sched.ready[0].task, 1);
    assert_eq!(sched.ready[1].task, 2);
    assert_eq!(sched.ready[0].payload, payload);
    assert_eq!(sched.ready[1].payload, payload);
}

#[test]
fn cached_failure_is_returned_without_retry() {
    let mut ctx = context();
    let dir = String::from("proj");
    let r1 = ctx.require_begin(1, &dir, &vec![], "bad");
    let key = match r1 {
        RequireStep::StartLoad { key } => key,
        other => panic!("expected StartLoad, got {:?}", other),
    };
    let err = RequireError::Load { message: String::from("syntax error") };
    let waiters = ctx.cache.complete_require(&key, Err(err.clone()));
    assert_eq!(waiters, vec![1]);
    let r2 = ctx.require_begin(2, &dir, &vec![], "bad");
    assert_eq!(r2, RequireStep::Done { result: Err(err) });
    assert_eq!(ctx.cache.slots.len(), 1);
}

#[test]
fn direct_self_require_is_circular() {
    let mut ctx = context();
    let dir = String::from("proj");
    // Module A requires itself: its own key is in the chain.
    let chain = vec![String::from("proj/a")];
    let r = ctx.require_begin(1, &dir, &chain, "./a");
    assert_eq!(
        r,
        RequireStep::Done {
            result: Err(RequireError::CircularRequire { path: String::from("proj/a") })
        }
    );
}

#[test]
fn indirect_cycle_is_circular() {
    let mut ctx = context();
    let dir = String::from("proj");
    // A starts loading, then requires B.
    let ra = ctx.require_begin(1, &dir, &vec![], "./a");
    let key_a = match ra {
        RequireStep::StartLoad { key } => key,
        other => panic!("expected StartLoad, got {:?}", other),
    };
    let chain_a = vec![key_a.clone()];
    let rb = ctx.require_begin(1, &dir, &chain_a, "./b");
    let key_b = match rb {
        RequireStep::StartLoad { key } => key,
        other => panic!("expected StartLoad, got {:?}", other),
    };
    // B in turn requires A: the chain closes.
    let chain_ab = vec![key_a.clone(), key_b];
    let r = ctx.require_begin(1, &dir, &chain_ab, "./a");
    assert_eq!(
        r,
        RequireStep::Done { result: Err(RequireError::CircularRequire { path: key_a }) }
    );
}

#[test]
fn pending_entries_are_queryable() {
    let mut ctx = context();
    let dir = String::from("proj");
    let key = String::from("proj/mod");
    assert!(!ctx.cache.is_pending(&key));
    let r = ctx.require_begin(1, &dir, &vec![], "./mod");
    assert_eq!(r, RequireStep::StartLoad { key: key.clone() });
    assert!(ctx.cache.is_pending(&key));
    ctx.cache.complete_require(&key, Ok(ScriptValue::Nil));
    assert!(!ctx.cache.is_pending(&key));
}

#[test]
fn duplicate_aliases_are_detected() {
    let distinct = vec![
        (String::from("a"), String::from("x")),
        (String::from("b"), String::from("y")),
    ];
    assert!(aliases_distinct(&distinct));
    let duplicated = vec![
        (String::from("a"), String::from("x")),
        (String::from("a"), String::from("y")),
    ];
    assert!(!aliases_distinct(&duplicated));
    assert!(aliases_distinct(&vec![]));
}

#[test]
fn error_messages_are_descriptive() {
    let e = RequireError::Resolution {
        kind: ResolveErrorKind::UnknownBuiltin,
        path: String::from("@lune/nosuch"),
    };
    assert_eq!(e.message(), String::from("unknown builtin module: @lune/nosuch"));
    let e = RequireError::Resolution {
        kind: ResolveErrorKind::UnknownAlias,
        path: String::from("@x/y"),
    };
    assert_eq!(e.message(), String::from("unknown require alias: @x/y"));
    let e = RequireError::Resolution {
        kind: ResolveErrorKind::MalformedPath,
        path: String::from("@x"),
    };
    assert_eq!(
        e.message(),
        String::from("require with custom alias must contain '/' delimiter: @x")
    );
    let e = RequireError::CircularRequire { path: String::from("proj/a") };
    assert_eq!(e.message(), String::from("circular require: proj/a"));
    let e = RequireError::Load { message: String::from("syntax") };
    assert_eq!(e.message(), String::from("load error: syntax"));
    let e = RequireError::Execution { message: String::from("boom") };
    assert_eq!(e.message(), String::from("boom"));
}

#[test]
fn invariant_violation_text() {
    let v = lune_core::errors::InvariantViolation { message: String::from("lock contended") };
    assert_eq!(
        v.message_text(),
        String::from("scheduler invariant violated: lock contended")
    );
}

#[test]
fn absolute_mode_resolves_from_root() {
    let mut ctx = context();
    ctx.use_absolute = true;
    let dir = String::from("ignored");
    let r = ctx.require_begin(1, &dir, &vec![], "pkg/mod");
    assert_eq!(r, RequireStep::StartLoad { key: String::from("srv/root/pkg/mod") });
}

#[test]
fn different_spellings_share_one_cache_entry() {
    let mut ctx = context();
    let dir = String::from("proj");
    let r1 = ctx.require_begin(1, &dir, &vec![], "./lib/../mod");
    let key = match r1 {
        RequireStep::StartLoad { key } => key,
        other => panic!("expected StartLoad, got {:?}", other),
    };
    assert_eq!(key, String::from("proj/mod"));
    let r2 = ctx.require_begin(2, &dir, &vec![], "mod");
    assert_eq!(r2, RequireStep::Wait { key });
    assert_eq!(ctx.cache.slots.len(), 1);
}
