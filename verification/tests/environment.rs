use cflox::interpreter::environment::{EnvError, Environment, Environments};

#[derive(Debug, PartialEq)]
enum Value {
    Nil,
    Boolean(bool),
    Number(f64),
}

fn undefined(name: &str) -> EnvError {
    EnvError::UndefinedVariable { name: name.to_owned() }
}

#[test]
fn basic_environment_operations() {
    let mut envs = Environments::new();
    let env = Environment::new(&mut envs);

    // Undefined keys trigger an error
    assert_eq!(env.get(&envs, "hello"), Err(undefined("hello")));
    assert_eq!(env.assign(&mut envs, "hello", Value::Boolean(true)), Err(undefined("hello")));

    env.define(&mut envs, "hello", Value::Nil);
    assert_eq!(env.get(&envs, "hello").unwrap(), &Value::Nil);

    env.assign(&mut envs, "hello", Value::Number(7.0)).unwrap();
    assert_eq!(env.get(&envs, "hello").unwrap(), &Value::Number(7.0));
}

#[test]
fn inheriting_from_parent_environments() {
    let mut envs = Environments::new();
    let a = Environment::new(&mut envs);
    a.define(&mut envs, "a1", Value::Nil);

    let b = a.child(&mut envs);
    b.define(&mut envs, "b1", Value::Boolean(true));

    let c = b.child(&mut envs);
    c.define(&mut envs, "c1", Value::Number(7.0));

    assert_eq!(c.get(&envs, "a1").unwrap(), &Value::Nil);
    assert_eq!(c.get(&envs, "b1").unwrap(), &Value::Boolean(true));
    assert_eq!(c.get(&envs, "c1").unwrap(), &Value::Number(7.0));

    // Definition leaves parent environments unmodified
    c.define(&mut envs, "a1", Value::Boolean(false));
    assert_eq!(b.get(&envs, "a1").unwrap(), &Value::Nil);
    assert_eq!(c.get(&envs, "a1").unwrap(), &Value::Boolean(false));

    // Assignment can impact parent environments, though
    c.assign(&mut envs, "b1", Value::Number(14.0)).unwrap();
    assert_eq!(b.get(&envs, "b1").unwrap(), &Value::Number(14.0));
    assert_eq!(c.get(&envs, "b1").unwrap(), &Value::Number(14.0));
}

#[test]
fn specifying_distance() {
    let mut envs = Environments::new();
    let a = Environment::new(&mut envs);
    let b = a.child(&mut envs);
    let c = b.child(&mut envs);
    let d = c.child(&mut envs);

    c.define(&mut envs, "hello", Value::Number(1.0));
    assert_eq!(d.get_at(&envs, 1, "hello"), Ok(&Value::Number(1.0)));
    assert_eq!(d.get_at(&envs, 2, "hello"), Err(undefined("hello")));
}

#[test]
fn ancestors_stop_at_the_root() {
    let mut envs: Environments<Value> = Environments::new();
    let a = Environment::new(&mut envs);
    let b = a.child(&mut envs);
    assert_eq!(b.ancestor(&envs, 1), Some(a));
    assert_eq!(b.ancestor(&envs, 0), Some(b));
    assert_eq!(b.ancestor(&envs, 2), None);
}

#[test]
fn assign_at_reaches_the_right_environment() {
    let mut envs = Environments::new();
    let a = Environment::new(&mut envs);
    let b = a.child(&mut envs);
    a.define(&mut envs, "x", Value::Nil);
    b.define(&mut envs, "x", Value::Nil);
    b.assign_at(&mut envs, 1, "x", Value::Boolean(true)).unwrap();
    assert_eq!(a.get(&envs, "x").unwrap(), &Value::Boolean(true));
    assert_eq!(b.get(&envs, "x").unwrap(), &Value::Nil);
}
