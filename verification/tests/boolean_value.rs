use symbolic::boolean::value::{Constant, Reference, Variable};
use symbolic::boolean::Boolean;
use symbolic::traits;
use symbolic::{Database, DeclareError, Expression, SymError};

fn constant(value: bool) -> Expression {
    Expression::Boolean(Boolean::Constant(Constant::new(value)))
}

fn reference(id: usize) -> Expression {
    Expression::Boolean(Boolean::Reference(Reference::new(id)))
}

#[test]
fn value_new() {
    let value_true = Constant::new(true);
    assert_eq!(value_true.value(), true);

    let value_true = Constant::new(false);
    assert_eq!(value_true.value(), false);
}

#[test]
fn to_bool() {
    let database = Database::new();

    let value_true = Constant::new(true);
    assert_eq!(value_true.to_bool(&database), Constant::new(true));

    let value_false = Constant::new(false);
    assert_eq!(value_false.to_bool(&database), Constant::new(false));
}

#[test]
fn value_to_string() {
    let value_true = Constant::new(true);
    assert_eq!(value_true.to_string(), "1");

    let value_false = Constant::new(false);
    assert_eq!(value_false.to_string(), "0");
}

#[test]
fn constant_ignores_the_table() {
    let mut database = Database::new();
    database.declare("x", constant(false)).unwrap();
    assert_eq!(Constant::new(true).to_bool(&database), Constant::new(true));
    assert_eq!(
        Boolean::Constant(Constant::new(true)).to_bool(&database),
        Ok(Constant::new(true))
    );
}

#[test]
fn reference_new_keeps_identity() {
    assert_eq!(Reference::new(0).id(), 0);
    assert_eq!(Reference::new(17).id(), 17);
    assert_eq!(Reference::new(usize::MAX).id(), usize::MAX);
}

#[test]
fn reference_to_string_is_decimal_identity() {
    assert_eq!(Reference::new(0).to_string(), "0");
    assert_eq!(Reference::new(7).to_string(), "7");
    assert_eq!(Reference::new(10).to_string(), "10");
    assert_eq!(Reference::new(1234567890).to_string(), "1234567890");
    assert_eq!(Reference::new(usize::MAX).to_string(), format!("{}", usize::MAX));
}

#[test]
fn reference_resolves_one_hop() {
    let mut database = Database::new();
    database.declare("x", constant(true)).unwrap();
    database.declare("y", constant(false)).unwrap();
    assert_eq!(Reference::new(0).to_bool(&database), Ok(Constant::new(true)));
    assert_eq!(Reference::new(1).to_bool(&database), Ok(Constant::new(false)));
}

#[test]
fn reference_to_missing_identity_fails() {
    let mut database = Database::new();
    assert_eq!(Reference::new(0).to_bool(&database), Err(SymError::IdentityMissing));
    database.declare("x", constant(true)).unwrap();
    assert_eq!(Reference::new(1).to_bool(&database), Err(SymError::IdentityMissing));
    assert_eq!(
        Reference::new(usize::MAX).to_bool(&database),
        Err(SymError::IdentityMissing)
    );
}

#[test]
fn variable_new_declares_the_name() {
    let mut database = Database::new();
    database.declare("a", constant(true)).unwrap();

    let x = Variable::new(String::from("x"), &mut database).unwrap();
    assert_eq!(x.name(), "x");
    assert_eq!(x.id(), Some(1));
    assert_eq!(database.len(), 2);
    assert_eq!(database.get_key("x"), Ok(1));
    assert_eq!(database.get_name(1), Ok("x"));

    let y = Variable::new(String::from("y"), &mut database).unwrap();
    assert_eq!(y.id(), Some(2));
    assert_eq!(database.len(), 3);
}

#[test]
fn variable_new_refuses_a_taken_name() {
    let mut database = Database::new();
    Variable::new(String::from("x"), &mut database).unwrap();
    assert_eq!(
        Variable::new(String::from("x"), &mut database),
        Err(DeclareError::NameExists)
    );
    assert_eq!(database.len(), 1);
    assert_eq!(database.name_count(), 1);

    database.declare("y", constant(true)).unwrap();
    assert_eq!(
        Variable::new(String::from("y"), &mut database),
        Err(DeclareError::NameExists)
    );
    assert_eq!(database.len(), 2);
}

#[test]
fn variable_is_bound_to_itself() {
    let mut database = Database::new();
    let x = Variable::new(String::from("x"), &mut database).unwrap();
    match database.get_variable(0) {
        Ok(Expression::Boolean(Boolean::Variable(stored))) => {
            assert_eq!(stored.name(), "x");
            assert_eq!(stored.id(), Some(0));
            assert_eq!(*stored, x);
        }
        other => panic!("the entry is not the variable: {:?}", other),
    }
    assert_eq!(x.to_bool(&database), Err(SymError::CycleDetected));
}

#[test]
fn variable_resolves_like_a_reference() {
    let mut database = Database::new();
    database.declare("a", reference(2)).unwrap();
    let x = Variable::new(String::from("x"), &mut database).unwrap();
    database.declare("c", constant(true)).unwrap();
    database.declare("d", Expression::Boolean(Boolean::Variable(x))).unwrap();

    // d -> x -> x: the unknown stands for no constant.
    assert_eq!(Reference::new(3).to_bool(&database), Err(SymError::CycleDetected));
    // a -> c -> true
    assert_eq!(Reference::new(0).to_bool(&database), Ok(Constant::new(true)));
}

#[test]
fn variable_to_string_is_its_name() {
    let mut database = Database::new();
    let x = Variable::new(String::from("alpha"), &mut database).unwrap();
    assert_eq!(x.to_string(), "alpha");
    assert_eq!(Boolean::Variable(x).to_string(), "alpha");
}

#[test]
fn variable_trait_gives_the_name() {
    let mut database = Database::new();
    let x = Variable::new(String::from("x"), &mut database).unwrap();
    assert_eq!(traits::Variable::get_name(&x), "x");
}

#[test]
fn boolean_to_string_of_each_kind() {
    assert_eq!(Boolean::Constant(Constant::new(true)).to_string(), "1");
    assert_eq!(Boolean::Constant(Constant::new(false)).to_string(), "0");
    assert_eq!(Boolean::Reference(Reference::new(42)).to_string(), "42");
}
