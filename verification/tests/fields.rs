use async_graphql::container::{
    check_field_in_schema, container_value, field_entry, typename_entry, ContainerInfo,
    ContainerType, DynContainer, EmptyMutation, FieldTask, Fields, resolves_directly, spreads_within,
};
use async_graphql::error::{Pos, ServerError};
use async_graphql::query::{
    Field, FragmentDefinition, FragmentSpread, InlineFragment, QueryEnv, SchemaEnv, Selection,
    SelectionSet,
};
use async_graphql::merge::create_value_object;
use async_graphql::value::Value;

fn s(x: &str) -> String {
    x.to_string()
}

fn pos(line: usize) -> Pos {
    Pos { line, column: 1 }
}

fn field(name: &str, alias: Option<&str>, line: usize) -> Field {
    Field {
        alias: alias.map(s),
        name: s(name),
        directives: Vec::new(),
        selection_set: SelectionSet { items: Vec::new() },
        pos: pos(line),
    }
}

fn set(items: Vec<Selection>) -> SelectionSet {
    SelectionSet { items }
}

fn schema() -> SchemaEnv {
    SchemaEnv {
        implements: vec![(s("Dog"), vec![s("Pet"), s("Named")])],
        types: vec![(s("Dog"), vec![s("name"), s("barks")]), (s("Pet"), vec![s("name")])],
    }
}

fn pet_root() -> ContainerInfo {
    ContainerInfo { selected_type: s("Pet"), introspection_type_name: s("Dog") }
}

fn resolve_names(tasks: &[FieldTask<'_>]) -> Vec<(String, String)> {
    tasks
        .iter()
        .map(|t| match t {
            FieldTask::Typename { response_key, concrete_type } => (response_key.clone(), concrete_type.clone()),
            FieldTask::Resolve { field, parent_type } => (field.name.clone(), parent_type.clone()),
        })
        .collect()
}

#[test]
fn fields_and_typename_in_order() {
    let env = QueryEnv { fragments: Vec::new(), has_extensions: false };
    let sel = set(vec![
        Selection::Field(field("name", None, 1)),
        Selection::Field(field("__typename", Some("kind"), 2)),
    ]);
    let mut fields = Fields::new();
    assert_eq!(fields.add_set(&env, &schema(), &sel, &pet_root()), Ok(()));
    let tasks = fields.into_tasks();
    assert_eq!(resolve_names(&tasks), vec![(s("name"), s("Pet")), (s("kind"), s("Dog"))]);
}

#[test]
fn fragments_apply_by_type_condition() {
    let frag = FragmentDefinition {
        type_condition: s("Named"),
        selection_set: set(vec![Selection::Field(field("name", None, 7))]),
    };
    let env = QueryEnv { fragments: vec![(s("F"), frag)], has_extensions: false };
    let sel = set(vec![
        Selection::InlineFragment(InlineFragment {
            type_condition: Some(s("Dog")),
            selection_set: set(vec![Selection::Field(field("barks", None, 3))]),
        }),
        Selection::InlineFragment(InlineFragment {
            type_condition: Some(s("Cat")),
            selection_set: set(vec![Selection::Field(field("meows", None, 4))]),
        }),
        Selection::InlineFragment(InlineFragment {
            type_condition: None,
            selection_set: set(vec![Selection::Field(field("name", None, 5))]),
        }),
        Selection::InlineFragment(InlineFragment {
            type_condition: Some(s("Pet")),
            selection_set: set(vec![Selection::Field(field("age", None, 6))]),
        }),
        Selection::FragmentSpread(FragmentSpread { fragment_name: s("F"), pos: pos(8) }),
    ]);
    let mut fields = Fields::new();
    assert_eq!(fields.add_set(&env, &schema(), &sel, &pet_root()), Ok(()));
    let tasks = fields.into_tasks();
    assert_eq!(
        resolve_names(&tasks),
        vec![
            (s("barks"), s("Dog")),
            (s("name"), s("Pet")),
            (s("age"), s("Dog")),
            (s("name"), s("Dog")),
        ]
    );
}

#[test]
fn unknown_fragment_stops_collection() {
    let env = QueryEnv { fragments: Vec::new(), has_extensions: false };
    let sel = set(vec![
        Selection::Field(field("name", None, 1)),
        Selection::FragmentSpread(FragmentSpread { fragment_name: s("Missing"), pos: pos(2) }),
        Selection::Field(field("barks", None, 3)),
    ]);
    let mut fields = Fields::new();
    let r = fields.add_set(&env, &schema(), &sel, &pet_root());
    assert_eq!(
        r,
        Err(ServerError { message: s("Unknown fragment \"Missing\"."), locations: vec![pos(2)], path: Vec::new() })
    );
    assert_eq!(fields.into_tasks().len(), 1);
}

#[test]
fn field_must_exist_in_schema() {
    let f = field("meows", Some("sound"), 4);
    assert_eq!(check_field_in_schema(&schema(), &s("Dog"), &field("barks", None, 1)), Ok(()));
    let e = check_field_in_schema(&schema(), &s("Dog"), &f).unwrap_err();
    assert_eq!(e.message, "Cannot query field \"sound\" on type \"Dog\".");
    assert_eq!(e.locations, vec![pos(4)]);
    assert!(check_field_in_schema(&schema(), &s("Cat"), &field("name", None, 1)).is_err());
}

#[test]
fn field_entries() {
    assert_eq!(field_entry(s("a"), Ok(Some(Value::Number(1)))), Ok((s("a"), Value::Number(1))));
    assert_eq!(field_entry(s("a"), Ok(None)), Ok((s("a"), Value::Null)));
    let e = ServerError::new(s("bad"), None);
    assert_eq!(field_entry(s("a"), Err(ServerError::new(s("bad"), None))), Err(e));
    assert_eq!(typename_entry(s("t"), s("Dog")), (s("t"), Value::String(s("Dog"))));
}

#[test]
fn container_value_first_error_wins() {
    let ok = container_value(vec![Ok((s("a"), Value::Number(1))), Ok((s("a"), Value::Number(2)))]);
    assert_eq!(ok, Ok(Value::Object(vec![(s("a"), Value::Number(1))])));
    let err = container_value(vec![
        Ok((s("a"), Value::Number(1))),
        Err(ServerError::new(s("first"), None)),
        Err(ServerError::new(s("second"), None)),
    ]);
    assert_eq!(err.unwrap_err().message, "first");
}

#[test]
fn empty_mutation_collects_on_itself() {
    let env = QueryEnv { fragments: Vec::new(), has_extensions: false };
    let sel = set(vec![Selection::Field(field("__typename", None, 1))]);
    let mut fields = Fields::new();
    assert_eq!(EmptyMutation.collect_all_fields(&env, &schema(), &sel, &mut fields), Ok(()));
    assert_eq!(resolve_names(&fields.into_tasks()), vec![(s("__typename"), s("EmptyMutation"))]);
    assert!(EmptyMutation::is_empty());
    assert_eq!(
        EmptyMutation.container_info(),
        ContainerInfo { selected_type: s("EmptyMutation"), introspection_type_name: s("EmptyMutation") }
    );
    let boxed: Box<EmptyMutation> = Box::new(EmptyMutation);
    assert_eq!(boxed.introspection_type_name(), "EmptyMutation");
    assert_eq!(<Box<EmptyMutation> as ContainerType>::graphql_type_name(), "EmptyMutation");
}

#[test]
fn fragment_spread_depth_is_checked() {
    let looping = FragmentDefinition {
        type_condition: s("Dog"),
        selection_set: set(vec![Selection::FragmentSpread(FragmentSpread { fragment_name: s("A"), pos: pos(1) })]),
    };
    let cyclic = QueryEnv { fragments: vec![(s("A"), looping)], has_extensions: false };
    let sel = set(vec![Selection::FragmentSpread(FragmentSpread { fragment_name: s("A"), pos: pos(2) })]);
    assert!(!spreads_within(&cyclic, &sel, 5));
    let flat = FragmentDefinition { type_condition: s("Dog"), selection_set: set(vec![Selection::Field(field("name", None, 1))]) };
    let env = QueryEnv { fragments: vec![(s("A"), flat)], has_extensions: false };
    assert!(spreads_within(&env, &sel, 1));
    assert!(!spreads_within(&env, &sel, 0));
    assert!(spreads_within(&env, &set(vec![Selection::Field(field("x", None, 1))]), 0));
}

#[test]
fn direct_resolution() {
    let plain = QueryEnv { fragments: Vec::new(), has_extensions: false };
    let with_ext = QueryEnv { fragments: Vec::new(), has_extensions: true };
    let mut f = field("name", None, 1);
    assert!(resolves_directly(&plain, &f));
    assert!(!resolves_directly(&with_ext, &f));
    f.directives.push(s("upper"));
    assert!(!resolves_directly(&plain, &f));
}

#[test]
fn serial_prefix_gives_same_result_as_all() {
    let all = || {
        vec![
            Ok((s("a"), Value::Number(1))),
            Err(ServerError::new(s("first"), None)),
            Ok((s("b"), Value::Number(2))),
            Err(ServerError::new(s("second"), None)),
        ]
    };
    let prefix: Vec<_> = all().into_iter().take(2).collect();
    assert_eq!(container_value(prefix), container_value(all()));
    let fine = || vec![Ok((s("a"), Value::Number(1))), Ok((s("b"), Value::Number(2)))];
    let entries: Vec<(String, Value)> = fine().into_iter().map(|r| r.unwrap()).collect();
    assert_eq!(container_value(fine()), Ok(create_value_object(entries)));
}

#[test]
fn unconditional_fragment_flattens_in_place() {
    let env = QueryEnv { fragments: Vec::new(), has_extensions: false };
    let nested = set(vec![
        Selection::Field(field("x", None, 1)),
        Selection::InlineFragment(InlineFragment {
            type_condition: None,
            selection_set: set(vec![
                Selection::Field(field("y", None, 2)),
                Selection::Field(field("__typename", Some("z"), 3)),
            ]),
        }),
        Selection::Field(field("w", None, 4)),
    ]);
    let flat = set(vec![
        Selection::Field(field("x", None, 1)),
        Selection::Field(field("y", None, 2)),
        Selection::Field(field("__typename", Some("z"), 3)),
        Selection::Field(field("w", None, 4)),
    ]);
    let mut a = Fields::new();
    let mut b = Fields::new();
    assert_eq!(a.add_set(&env, &schema(), &nested, &pet_root()), Ok(()));
    assert_eq!(b.add_set(&env, &schema(), &flat, &pet_root()), Ok(()));
    let ta = a.into_tasks();
    let tb = b.into_tasks();
    assert_eq!(ta, tb);
    assert_eq!(
        resolve_names(&ta),
        vec![(s("x"), s("Pet")), (s("y"), s("Pet")), (s("z"), s("Dog")), (s("w"), s("Pet"))]
    );
}

#[test]
fn parallel_and_serial_build_the_same_object() {
    let entries = || vec![(s("a"), Value::Number(1)), (s("b"), Value::Null), (s("a"), Value::Number(3))];
    let serial = container_value(entries().into_iter().map(Ok).collect());
    let parallel = create_value_object(entries());
    assert_eq!(serial, Ok(parallel));
}
