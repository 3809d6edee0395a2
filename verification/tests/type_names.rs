use async_graphql::query::SchemaEnv;
use async_graphql::types::{list_type_names, register_type, OutputType};

fn empty_schema() -> SchemaEnv {
    SchemaEnv { implements: Vec::new(), types: Vec::new() }
}

#[test]
fn list_names_mark_elements_non_null() {
    assert_eq!(Vec::<i32>::graphql_type_name(), "[Int!]");
    assert_eq!(Vec::<i32>::qualified_type_name(), "[Int!]!");
    assert_eq!(Vec::<Option<i32>>::graphql_type_name(), "[Int]");
    let (parent, item) = list_type_names::<i32>();
    assert_eq!(parent, "[Int!]");
    assert_eq!(item, "Int!");
}

#[test]
fn output_optional_names() {
    assert_eq!(<Option<i32> as OutputType>::graphql_type_name(), "Int");
    assert_eq!(<Option<i32> as OutputType>::qualified_type_name(), "Int");
}

#[test]
fn create_type_info_registers_once() {
    let mut schema = empty_schema();
    assert_eq!(<Option<i32> as OutputType>::create_type_info(&mut schema), "Int");
    assert_eq!(schema.types.len(), 1);
    assert_eq!(schema.types[0].0, "Int");
    assert_eq!(<i32 as OutputType>::create_type_info(&mut schema), "Int!");
    assert_eq!(schema.types.len(), 1);
    assert_eq!(<Vec<i32> as OutputType>::create_type_info(&mut schema), "[Int!]!");
    assert_eq!(schema.types.len(), 2);
    assert_eq!(schema.types[1].0, "[Int!]");
    register_type(&mut schema, "Int");
    assert_eq!(schema.types.len(), 2);
}
