use symbolic::boolean::value::{Constant, Reference, Variable};
use symbolic::boolean::Boolean;
use symbolic::{Database, Expression, SymError};

fn constant(value: bool) -> Expression {
    Expression::Boolean(Boolean::Constant(Constant::new(value)))
}

fn reference(id: usize) -> Expression {
    Expression::Boolean(Boolean::Reference(Reference::new(id)))
}

#[test]
fn scenario_reference_to_constant() {
    let mut database = Database::new();
    assert_eq!(database.declare("x", reference(1)), Ok(0));
    assert_eq!(database.declare("y", constant(true)), Ok(1));

    let resolved = Reference::new(0).to_bool(&database);
    assert_eq!(resolved, Ok(Constant::new(true)));
    assert_eq!(resolved.unwrap().to_string(), "1");
}

#[test]
fn chain_of_three_resolves_to_its_constant() {
    // A -> B -> C -> Constant(true)
    let mut database = Database::new();
    let a = database.declare("A", reference(1)).unwrap();
    database.declare("B", reference(2)).unwrap();
    database.declare("C", constant(true)).unwrap();
    assert_eq!(Reference::new(a).to_bool(&database), Ok(Constant::new(true)));

    // the same with false, and declared in the other order
    let mut database = Database::new();
    database.declare("C", constant(false)).unwrap();
    database.declare("B", reference(0)).unwrap();
    let a = database.declare("A", reference(1)).unwrap();
    assert_eq!(Reference::new(a).to_bool(&database), Ok(Constant::new(false)));
}

#[test]
fn chain_through_every_entry_resolves() {
    // 0 -> 1 -> ... -> 49 -> true: as many hops as the table allows
    let mut database = Database::new();
    for id in 0..49 {
        database.declare(&format!("v{}", id), reference(id + 1)).unwrap();
    }
    database.declare("end", constant(true)).unwrap();
    assert_eq!(database.len(), 50);
    for id in 0..50 {
        assert_eq!(Reference::new(id).to_bool(&database), Ok(Constant::new(true)));
    }
}

#[test]
fn missing_identity_is_reported_not_defaulted() {
    let database = Database::new();
    assert_eq!(Reference::new(0).to_bool(&database), Err(SymError::IdentityMissing));
    assert_eq!(
        Boolean::Reference(Reference::new(3)).to_bool(&database),
        Err(SymError::IdentityMissing)
    );
}

#[test]
fn missing_identity_propagates_through_the_chain() {
    let mut database = Database::new();
    database.declare("a", reference(1)).unwrap();
    database.declare("b", reference(2)).unwrap();
    database.declare("c", reference(7)).unwrap();
    assert_eq!(Reference::new(0).to_bool(&database), Err(SymError::IdentityMissing));
    assert_eq!(Reference::new(1).to_bool(&database), Err(SymError::IdentityMissing));
    assert_eq!(Reference::new(2).to_bool(&database), Err(SymError::IdentityMissing));
}

#[test]
fn self_reference_is_a_cycle() {
    let mut database = Database::new();
    database.declare("a", reference(0)).unwrap();
    assert_eq!(Reference::new(0).to_bool(&database), Err(SymError::CycleDetected));
}

#[test]
fn cycle_of_two_is_detected() {
    let mut database = Database::new();
    database.declare("a", reference(1)).unwrap();
    database.declare("b", reference(0)).unwrap();
    assert_eq!(Reference::new(0).to_bool(&database), Err(SymError::CycleDetected));
    assert_eq!(Reference::new(1).to_bool(&database), Err(SymError::CycleDetected));
}

#[test]
fn chain_into_a_cycle_is_detected() {
    // 0 -> 1 -> 2 -> 3 -> 1, and 4 is a constant beside it
    let mut database = Database::new();
    database.declare("a", reference(1)).unwrap();
    database.declare("b", reference(2)).unwrap();
    database.declare("c", reference(3)).unwrap();
    database.declare("d", reference(1)).unwrap();
    database.declare("e", constant(true)).unwrap();
    for id in 0..4 {
        assert_eq!(Reference::new(id).to_bool(&database), Err(SymError::CycleDetected));
    }
    assert_eq!(Reference::new(4).to_bool(&database), Ok(Constant::new(true)));
}

#[test]
fn cycle_through_every_entry_is_detected() {
    let mut database = Database::new();
    for id in 0..20 {
        database.declare(&format!("v{}", id), reference((id + 1) % 20)).unwrap();
    }
    for id in 0..20 {
        assert_eq!(Reference::new(id).to_bool(&database), Err(SymError::CycleDetected));
    }
}

#[test]
fn chain_through_a_variable_resolves() {
    let mut database = Database::new();
    let x = Variable::new(String::from("x"), &mut database).unwrap();
    database.declare("y", constant(false)).unwrap();
    // x is an unknown: it stands for no constant
    assert_eq!(x.to_bool(&database), Err(SymError::CycleDetected));
    assert_eq!(Boolean::Variable(x).to_bool(&database), Err(SymError::CycleDetected));
    assert_eq!(Reference::new(1).to_bool(&database), Ok(Constant::new(false)));
}

#[test]
fn resolution_does_not_depend_on_later_declarations() {
    let mut database = Database::new();
    database.declare("a", reference(1)).unwrap();
    assert_eq!(Reference::new(0).to_bool(&database), Err(SymError::IdentityMissing));
    database.declare("b", constant(true)).unwrap();
    assert_eq!(Reference::new(0).to_bool(&database), Ok(Constant::new(true)));
    database.declare("c", reference(0)).unwrap();
    assert_eq!(Reference::new(0).to_bool(&database), Ok(Constant::new(true)));
    assert_eq!(Reference::new(2).to_bool(&database), Ok(Constant::new(true)));
}
