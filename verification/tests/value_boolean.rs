use symbolic::value::boolean::{Constant, Variable};
use symbolic::value::Database;

#[test]
fn boolean_new() {
    let value = Constant::new(true);
    assert_eq!(value.export(), true);

    let value = Constant::new(false);
    assert_eq!(value.export(), false);
}

#[test]
fn new() {
    let mut database1 = Database::new();
    let mut database2 = Database::new();

    let x1 = Variable::new("x", &mut database1);
    assert_eq!(x1.id(), 0);

    let y1 = Variable::new("y", &mut database1);
    assert_eq!(y1.id(), 1);

    let x2 = Variable::new("x", &mut database1);
    assert_eq!(x2.id(), 0);

    let y2 = Variable::new("y", &mut database2);
    assert_eq!(y2.id(), 0);
}

#[test]
fn export() {
    let value = Constant::new(true);
    assert_eq!(value.export(), true);

    let value = Constant::new(false);
    assert_eq!(value.export(), false);
}

#[test]
fn boolean_to_string() {
    let value = Constant::new(true);
    assert_eq!(value.to_string(), "1");

    let value = Constant::new(false);
    assert_eq!(value.to_string(), "0");
}

#[test]
fn variable_new_enters_the_name_once() {
    let mut database = Database::new();
    Variable::new("x", &mut database);
    Variable::new("x", &mut database);
    assert_eq!(database.len(), 1);
    assert_eq!(database.name_count(), 1);
    assert_eq!(database.get_variable(0).map(|variable| variable.get_name()), Some("x"));
}
