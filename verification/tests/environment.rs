use effy::environment::{Environment, EnvironmentStack, Scopes};
use effy::runtime::InterpreterValue;

#[test]
fn get_after_add() {
    let mut scopes = Scopes::new();
    let root = Environment::new(&mut scopes);
    root.add(&mut scopes, "x", InterpreterValue::integer(1));
    let got = root.get(&scopes, "x").map(|v| v.to_display_string());
    assert_eq!(got, Some("1i64".to_string()));
    root.add(&mut scopes, "x", InterpreterValue::integer(2));
    let got = root.get(&scopes, "x").map(|v| v.to_display_string());
    assert_eq!(got, Some("2i64".to_string()));
}

#[test]
fn missing_name() {
    let mut scopes = Scopes::new();
    let root = Environment::new(&mut scopes);
    assert!(root.get(&scopes, "nothing").is_none());
}

#[test]
fn child_sees_parent_and_later_bindings() {
    let mut scopes = Scopes::new();
    let root = Environment::new(&mut scopes);
    let child = root.new_child(&mut scopes);
    assert!(child.get(&scopes, "late").is_none());
    root.add(&mut scopes, "late", InterpreterValue::bool(true));
    let got = child.get(&scopes, "late").map(|v| v.to_display_string());
    assert_eq!(got, Some("#true".to_string()));
}

#[test]
fn child_bindings_shadow_and_stay_inside() {
    let mut scopes = Scopes::new();
    let root = Environment::new(&mut scopes);
    let child = root.new_child(&mut scopes);
    root.add(&mut scopes, "x", InterpreterValue::integer(1));
    child.add(&mut scopes, "x", InterpreterValue::integer(2));
    child.add(&mut scopes, "y", InterpreterValue::integer(3));
    assert_eq!(child.get(&scopes, "x").map(|v| v.to_display_string()), Some("2i64".to_string()));
    assert_eq!(root.get(&scopes, "x").map(|v| v.to_display_string()), Some("1i64".to_string()));
    assert!(root.get(&scopes, "y").is_none());
}

#[test]
fn adding_keeps_other_names() {
    let mut scopes = Scopes::new();
    let root = Environment::new(&mut scopes);
    root.add(&mut scopes, "a", InterpreterValue::integer(1));
    root.add(&mut scopes, "b", InterpreterValue::integer(2));
    assert_eq!(root.get(&scopes, "a").map(|v| v.to_display_string()), Some("1i64".to_string()));
}

#[test]
fn stack_push_and_pop() {
    let mut scopes = Scopes::new();
    let mut stack = EnvironmentStack::new(&mut scopes);
    assert_eq!(stack.len(), 1);
    let root = *stack.top();
    let child = root.new_child(&mut scopes);
    stack.push(child);
    assert_eq!(stack.len(), 2);
    child.add(&mut scopes, "inner", InterpreterValue::unit());
    assert!(stack.top().get(&scopes, "inner").is_some());
    stack.pop();
    assert_eq!(stack.len(), 1);
    assert!(stack.top().get(&scopes, "inner").is_none());
}
