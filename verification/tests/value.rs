use symbolic::value::boolean;
use symbolic::value::{Database, Value, Variable};

#[test]
fn mod_new() {
    let mut value = Database::new();
    assert_eq!(value.name_count(), 0);
    assert_eq!(value.len(), 0);

    value.get_key("a");

    let value = Database::new();
    assert_eq!(value.name_count(), 0);
    assert_eq!(value.len(), 0);

    let value = Variable::new(String::from("x"));
    assert_eq!(value.get_name(), "x");
}

#[test]
fn get_key() {
    let mut value = Database::new();

    assert_eq!(value.get_key("a"), 0);
    assert_eq!(value.get_key("a"), 0);
    assert_eq!(value.get_key("b"), 1);
    assert_eq!(value.get_key("a"), 0);
    assert_eq!(value.get_key("c"), 2);
    assert_eq!(value.get_key("b"), 1);
    assert_eq!(value.get_key("c"), 2);

    assert_eq!(value.name_count(), 3);
    assert_eq!(value.len(), 3);
}

#[test]
fn get_variable() {
    let mut value = Database::new();
    value.get_key("a");
    value.get_key("b");

    let variable = value.get_variable(0);
    if let None = variable {
        panic!("Variable must not be None")
    }

    let variable = value.get_variable(1);
    if let None = variable {
        panic!("Variable must not be None")
    }

    let variable = value.get_variable(2);
    if let Some(_) = variable {
        panic!("Variable must not be Some")
    }
}

#[test]
fn get_name() {
    let value = Variable::new(String::from("x"));
    assert_eq!(value.get_name(), "x");
}

#[test]
fn get_variable_gives_the_name_of_the_key() {
    let mut value = Database::new();
    for name in ["a", "b", "a", "", "c"] {
        let key = value.get_key(name);
        assert_eq!(value.get_variable(key).map(|variable| variable.get_name()), Some(name));
    }
    assert_eq!(value.len(), 4);
    assert!(value.get_variable(4).is_none());
    assert!(value.get_variable(usize::MAX).is_none());
}

#[test]
fn keys_are_stable() {
    let mut value = Database::new();
    let first = value.get_key("first");
    for name in ["x", "y", "first", "z"] {
        value.get_key(name);
        assert_eq!(value.get_key("first"), first);
    }
    assert_eq!(value.len(), 4);
}

#[test]
fn value_holds_a_boolean() {
    let value = Value::Boolean(boolean::Boolean::Constant(boolean::Constant::new(true)));
    match value {
        Value::Boolean(boolean::Boolean::Constant(constant)) => assert!(constant.export()),
    }
}
