use lune_core::globals::{builtin_exposed_as_global, GlobalNamespace};
use lune_core::luau::{classify_bytecode, load_plan, BytecodeStatus};
use lune_core::ScriptValue;

#[test]
fn globals_set_then_get() {
    let mut g = GlobalNamespace::new();
    assert!(g.set(&String::from("print"), ScriptValue::Str(String::from("fn:print"))));
    assert!(g.set(&String::from("_VERSION"), ScriptValue::Str(String::from("v1"))));
    assert_eq!(
        g.get(&String::from("print")),
        Some(ScriptValue::Str(String::from("fn:print")))
    );
    assert_eq!(g.get(&String::from("missing")), None);
}

#[test]
fn globals_redefine_before_seal() {
    let mut g = GlobalNamespace::new();
    assert!(g.set(&String::from("x"), ScriptValue::Int(1)));
    assert!(g.set(&String::from("x"), ScriptValue::Int(2)));
    assert_eq!(g.get(&String::from("x")), Some(ScriptValue::Int(2)));
    assert_eq!(g.entries.len(), 1);
}

#[test]
fn sealed_namespace_rejects_every_write() {
    let mut g = GlobalNamespace::new();
    assert!(g.set(&String::from("require"), ScriptValue::Str(String::from("fn:require"))));
    g.seal();
    assert!(!g.set(&String::from("require"), ScriptValue::Nil));
    assert!(!g.set(&String::from("new"), ScriptValue::Int(1)));
    assert_eq!(
        g.get(&String::from("require")),
        Some(ScriptValue::Str(String::from("fn:require")))
    );
    assert_eq!(g.entries.len(), 1);
    assert!(g.sealed);
}

#[test]
fn builtins_exposed_as_globals() {
    for name in ["fs", "net", "process", "stdio", "task"] {
        assert!(builtin_exposed_as_global(&String::from(name)));
    }
    assert!(!builtin_exposed_as_global(&String::from("serde")));
    assert!(!builtin_exposed_as_global(&String::from("require")));
}

#[test]
fn bytecode_classification() {
    assert_eq!(classify_bytecode(&vec![]), BytecodeStatus::Empty);
    assert_eq!(classify_bytecode(&vec![0, 65, 66]), BytecodeStatus::CompileFailure);
    assert_eq!(classify_bytecode(&vec![3, 0, 0]), BytecodeStatus::Valid);
}

#[test]
fn load_plan_decides_jit_and_environment() {
    let p = load_plan(false, true, true);
    assert!(!p.use_custom_environment);
    assert!(!p.inject_globals);
    assert!(p.jit_while_loading);
    assert!(p.jit_after_loading);

    // A custom environment disables acceleration during the load.
    let p = load_plan(true, true, true);
    assert!(p.use_custom_environment);
    assert!(p.inject_globals);
    assert!(!p.jit_while_loading);
    assert!(p.jit_after_loading);

    let p = load_plan(true, false, false);
    assert!(!p.inject_globals);
    assert!(!p.jit_while_loading);
}
