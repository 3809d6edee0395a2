use async_graphql::types::{optional_value, InputType, InputValueError};
use async_graphql::error::{Pos, ServerError};
use async_graphql::value::Value;

#[test]
fn test_optional_type() {
    assert_eq!(Option::<i32>::graphql_type_name(), "Int");
    assert_eq!(Option::<i32>::qualified_type_name(), "Int");
    assert_eq!(&Option::<i32>::graphql_type_name(), "Int");
    assert_eq!(&Option::<i32>::qualified_type_name(), "Int");
}

#[test]
fn optional_parses_null_and_missing_as_none() {
    assert_eq!(Option::<i32>::parse(Some(Value::Null)), Ok(None));
    assert_eq!(Option::<i32>::parse(None), Ok(None));
}

#[test]
fn optional_parses_present_value_as_inner() {
    assert_eq!(Option::<i32>::parse(Some(Value::Number(7))), Ok(Some(7)));
    assert_eq!(
        Option::<i32>::parse(Some(Value::Boolean(true))),
        Err(InputValueError::ExpectedType { found: Value::Boolean(true) })
    );
    assert_eq!(
        Option::<i32>::parse(Some(Value::Number(1i64 << 40))),
        Err(InputValueError::OutOfRange { value: 1i64 << 40 })
    );
}

#[test]
fn i32_rejects_missing_and_out_of_range() {
    assert_eq!(i32::parse(None), Err(InputValueError::ExpectedType { found: Value::Null }));
    assert_eq!(i32::parse(Some(Value::Number(-2147483648))), Ok(i32::MIN));
    assert_eq!(
        i32::parse(Some(Value::Number(2147483648))),
        Err(InputValueError::OutOfRange { value: 2147483648 })
    );
}

#[test]
fn optional_to_value_and_raw_value() {
    assert_eq!(Some(5i32).to_value(), Value::Number(5));
    assert_eq!(None::<i32>.to_value(), Value::Null);
    assert_eq!(Some(5i32).as_raw_value(), Some(&5));
    assert_eq!(None::<i32>.as_raw_value(), None);
}

#[test]
fn i32_round_trips_through_its_value() {
    for x in [0i32, 1, -1, i32::MAX, i32::MIN] {
        assert_eq!(i32::parse(Some(x.to_value())), Ok(x));
    }
}

#[test]
fn optional_value_records_inner_error_as_null() {
    let mut errors: Vec<ServerError> = Vec::new();
    assert_eq!(optional_value(None, &mut errors), Value::Null);
    assert!(errors.is_empty());
    assert_eq!(optional_value(Some(Ok(Value::Number(3))), &mut errors), Value::Number(3));
    assert!(errors.is_empty());
    let err = ServerError::new("boom".to_string(), Some(Pos { line: 1, column: 2 }));
    assert_eq!(optional_value(Some(Err(err)), &mut errors), Value::Null);
    assert_eq!(errors.len(), 1);
    assert_eq!(errors[0].message, "boom");
}

#[test]
fn optional_round_trips_through_its_value() {
    assert_eq!(Option::<i32>::parse(Some(Some(5i32).to_value())), Ok(Some(5)));
    assert_eq!(Option::<i32>::parse(Some(None::<i32>.to_value())), Ok(None));
}
