use cute_lib::binding::Binding;
use cute_lib::environment::{Environment, EvalError};
use cute_lib::types::{Number, Value};

fn bind(name: &str, n: i64) -> Binding {
    Binding { name: name.to_string(), value: Value::Number(Number(n)) }
}

#[test]
fn a_stored_value_is_found_again() {
    let mut environment = Environment::new();
    environment.store_binding(bind("i", 13));
    assert_eq!(environment.get_binding("i"), Ok(Value::Number(Number(13))));
}

#[test]
fn an_unbound_name_is_an_error() {
    let environment = Environment::new();
    assert_eq!(environment.get_binding("j"), Err(EvalError::UnboundName("j".to_string())));
    let mut environment = Environment::new();
    environment.store_binding(bind("i", 13));
    assert_eq!(environment.get_binding("j"), Err(EvalError::UnboundName("j".to_string())));
    assert_eq!(environment.get_binding(""), Err(EvalError::UnboundName("".to_string())));
}

#[test]
fn the_last_value_stored_under_a_name_wins() {
    let mut environment = Environment::new();
    environment.store_binding(bind("i", 1));
    environment.store_binding(bind("j", 2));
    environment.store_binding(bind("i", 3));
    assert_eq!(environment.get_binding("i"), Ok(Value::Number(Number(3))));
    assert_eq!(environment.get_binding("j"), Ok(Value::Number(Number(2))));
    environment.store_binding(bind("j", -4));
    assert_eq!(environment.get_binding("i"), Ok(Value::Number(Number(3))));
    assert_eq!(environment.get_binding("j"), Ok(Value::Number(Number(-4))));
}
