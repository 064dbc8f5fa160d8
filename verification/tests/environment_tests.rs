use lib::environment::Environment;
use lib::error::RuntimeError;

#[test]
fn get_after_set() {
    let mut env: Environment<i64> = Environment::new();
    env.set("x", 1);
    env.set("y", 2);
    assert_eq!(env.get("x"), Ok(&1));
    assert_eq!(env.get("y"), Ok(&2));
    env.set("x", 3);
    assert_eq!(env.get("x"), Ok(&3));
    assert_eq!(env.get("y"), Ok(&2));
}

#[test]
fn undefined_variable() {
    let env: Environment<i64> = Environment::new();
    assert_eq!(
        env.get("z"),
        Err(RuntimeError::UndefinedVariable { line: 0, name: "z".to_string() })
    );
}

#[test]
fn inner_scope_falls_back_and_shadows() {
    let mut outer: Environment<String> = Environment::new();
    outer.set("a", "outer".to_string());
    outer.set("b", "outer b".to_string());
    let mut inner = Environment::with_parent(outer);
    assert_eq!(inner.get("a"), Ok(&"outer".to_string()));
    inner.set("a", "inner".to_string());
    assert_eq!(inner.get("a"), Ok(&"inner".to_string()));
    assert_eq!(inner.get("b"), Ok(&"outer b".to_string()));
}

#[test]
fn assign_updates_the_innermost_binding() {
    let mut outer: Environment<i64> = Environment::new();
    outer.set("a", 1);
    let mut inner = Environment::with_parent(outer);
    assert_eq!(inner.assign("a", 5), Ok(()));
    assert_eq!(inner.get("a"), Ok(&5));
    inner.set("a", 7);
    assert_eq!(inner.assign("a", 8), Ok(()));
    assert_eq!(inner.get("a"), Ok(&8));
}

#[test]
fn assign_to_undefined_is_an_error() {
    let mut env: Environment<i64> = Environment::new();
    env.set("a", 1);
    assert_eq!(
        env.assign("b", 2),
        Err(RuntimeError::UndefinedVariable { line: 0, name: "b".to_string() })
    );
    assert_eq!(env.get("a"), Ok(&1));
    assert!(env.get("b").is_err());
}

#[test]
fn clone_is_independent() {
    let mut env: Environment<String> = Environment::new();
    env.set("a", "one".to_string());
    let mut copy = env.clone();
    copy.set("a", "two".to_string());
    assert_eq!(env.get("a"), Ok(&"one".to_string()));
    assert_eq!(copy.get("a"), Ok(&"two".to_string()));
}

#[test]
fn block_bindings_are_dropped_on_leaving() {
    let mut env: Environment<i32> = Environment::new();
    env.set("a", 1);
    let previous = env.enter_block(Environment::new());
    env.set("b", 2);
    assert!(env.get("a").is_err());
    assert_eq!(*env.get("b").unwrap(), 2);
    env.leave_block(previous);
    assert_eq!(*env.get("a").unwrap(), 1);
    assert!(env.get("b").is_err());
}
