use async_graphql::codegen::{
    crate_path_from_lookup, extract_directive_call_path, extract_input_args, find_graphql_attr,
    gen_directive_calls, generate_default, generate_default_with, get_cfg_attrs, get_crate_path, get_rustdoc,
    get_type_path_and_name, parse_complexity_expr, type_is_wf, remove_graphql_attrs, ArgAction, ArgError,
    ArgShape, ArgType, AttrPath, CallPath, CratePath, DefaultError, DefaultExpr, DefaultValue, DirectiveExpr,
    DocAttr, DocPiece, LitValue, PathSeg, RemoveLifetime, TypeShape,
};

fn s(x: &str) -> String {
    x.to_string()
}

fn path(segs: &[&str]) -> AttrPath {
    AttrPath { leading_colon: false, segments: segs.iter().map(|x| s(x)).collect() }
}

#[test]
fn cfg_and_graphql_attrs() {
    let attrs = vec![path(&["doc"]), path(&["cfg"]), path(&["graphql"]), path(&["cfg_attr"]), path(&["graphql"])];
    assert_eq!(get_cfg_attrs(&attrs), vec![1]);
    assert_eq!(find_graphql_attr(&attrs), Some(2));
    let mut attrs2 = attrs.clone();
    remove_graphql_attrs(&mut attrs2);
    assert_eq!(attrs2.len(), 4);
    assert_eq!(attrs2[2], path(&["cfg_attr"]));
    let colon = AttrPath { leading_colon: true, segments: vec![s("graphql")] };
    assert_eq!(find_graphql_attr(&vec![colon.clone(), path(&["a", "graphql"])]), None);
    let mut unchanged = vec![colon];
    remove_graphql_attrs(&mut unchanged);
    assert_eq!(unchanged.len(), 1);
}

#[test]
fn rustdoc_joins_trimmed_lines() {
    assert_eq!(get_rustdoc(&Vec::new()), None);
    assert_eq!(get_rustdoc(&vec![DocAttr::Other]), None);
    let docs = get_rustdoc(&vec![DocAttr::Text(s(" First line ")), DocAttr::Text(s("second"))]).unwrap();
    assert_eq!(docs, vec![DocPiece::Text(s("\nFirst line\nsecond"))]);
    let docs = get_rustdoc(&vec![
        DocAttr::Text(s("a")),
        DocAttr::Macro(1),
        DocAttr::Macro(2),
        DocAttr::Text(s(" b")),
    ])
    .unwrap();
    assert_eq!(
        docs,
        vec![DocPiece::Text(s("\na\n")), DocPiece::Macro(1), DocPiece::Macro(2), DocPiece::Text(s("\nb"))]
    );
}

#[test]
fn defaults() {
    assert_eq!(generate_default(&None, &None), Ok(None));
    assert_eq!(generate_default(&Some(DefaultValue::Default), &Some(s("1 + 1"))), Ok(Some(DefaultExpr::DefaultTrait)));
    assert_eq!(generate_default(&None, &Some(s("1 + 1"))), Ok(Some(DefaultExpr::With(s("1 + 1")))));
    assert_eq!(generate_default(&None, &Some(s(")"))), Err(DefaultError::WithDoesNotLex));
    assert_eq!(generate_default(&None, &Some(s("\"open"))), Err(DefaultError::WithDoesNotLex));
    assert_eq!(generate_default(&Some(DefaultValue::Default), &Some(s(")"))), Ok(Some(DefaultExpr::DefaultTrait)));
    assert_eq!(
        generate_default(&Some(DefaultValue::Value(LitValue::Int(s("2147483647")))), &None),
        Ok(Some(DefaultExpr::Int(2147483647)))
    );
    assert_eq!(
        generate_default(&Some(DefaultValue::Value(LitValue::Int(s("2147483648")))), &None),
        Err(DefaultError::IntTooLarge)
    );
    assert_eq!(
        generate_default(&Some(DefaultValue::Value(LitValue::Str(s("hi")))), &None),
        Ok(Some(DefaultExpr::Str(s("hi"))))
    );
    assert_eq!(
        generate_default(&Some(DefaultValue::Value(LitValue::Bool(true))), &None),
        Ok(Some(DefaultExpr::Bool(true)))
    );
    assert_eq!(
        generate_default(&Some(DefaultValue::Value(LitValue::Float(s("1.5")))), &None),
        Ok(Some(DefaultExpr::Float(s("1.5"))))
    );
    assert_eq!(
        generate_default(&Some(DefaultValue::Value(LitValue::Other)), &None),
        Err(DefaultError::UnsupportedLiteral)
    );
}

#[test]
fn type_names() {
    let t = TypeShape::Path(vec![s("std"), s("vec"), s("Vec")]);
    assert_eq!(get_type_path_and_name(&t).unwrap().1, "Vec");
    let g = TypeShape::Group(Box::new(TypeShape::Path(vec![s("MyObj")])));
    let (inner, name) = get_type_path_and_name(&g).unwrap();
    assert_eq!(name, "MyObj");
    assert_eq!(*inner, TypeShape::Path(vec![s("MyObj")]));
    let d = TypeShape::TraitObject(vec![None, Some(vec![s("core"), s("Node")]), Some(vec![s("Send")])]);
    assert_eq!(get_type_path_and_name(&d).unwrap().1, "Node");
    assert!(get_type_path_and_name(&TypeShape::Other).is_err());
}

#[test]
fn complexity_variables() {
    let vars = parse_complexity_expr(&vec![s("first"), s("child_complexity"), s("last"), s("first")]);
    assert_eq!(vars, vec![s("first"), s("last")]);
    assert!(parse_complexity_expr(&vec![s("child_complexity")]).is_empty());
}

#[test]
fn input_args() {
    let other = |ident| ArgShape::Typed { ident_pattern: ident, ty: ArgType::Other };
    assert_eq!(extract_input_args(&Vec::new()), (Vec::new(), Err(ArgError::NoReceiver)));
    let (actions, r) = extract_input_args(&vec![
        ArgShape::Receiver,
        ArgShape::Typed { ident_pattern: true, ty: ArgType::RefToPath(s("Context")) },
        other(true),
        ArgShape::Typed { ident_pattern: true, ty: ArgType::RefToPath(s("str")) },
        ArgShape::Typed { ident_pattern: true, ty: ArgType::RefToOther },
    ]);
    assert_eq!(r, Ok(false));
    assert_eq!(
        actions,
        vec![ArgAction { index: 2, remove_attrs: true }, ArgAction { index: 3, remove_attrs: false }]
    );
    let (actions, r) = extract_input_args(&vec![ArgShape::Receiver, other(true)]);
    assert_eq!(r, Ok(true));
    assert_eq!(actions, vec![ArgAction { index: 1, remove_attrs: true }]);
    let (_, r) = extract_input_args(&vec![ArgShape::Receiver, other(true), other(false), ArgShape::Receiver]);
    assert_eq!(r, Err(ArgError::InvalidArgument(2)));
    let (_, r) = extract_input_args(&vec![other(true)]);
    assert_eq!(r, Err(ArgError::TypedFirst));
    let (actions, r) = extract_input_args(&vec![ArgShape::Receiver, other(true), ArgShape::Receiver]);
    assert_eq!(r, Err(ArgError::ReceiverNotFirst(2)));
    assert_eq!(actions.len(), 1);
    let ctx_late = ArgShape::Typed { ident_pattern: true, ty: ArgType::RefToPath(s("Context")) };
    let (actions, r) = extract_input_args(&vec![ArgShape::Receiver, other(true), ctx_late]);
    assert_eq!(r, Ok(true));
    assert_eq!(actions.len(), 2);
}

fn seg(ident: &str, arguments: &str) -> PathSeg {
    PathSeg { ident: s(ident), arguments: s(arguments) }
}

fn call(leading_colon: bool, segments: Vec<PathSeg>) -> DirectiveExpr {
    DirectiveExpr::CallPath(CallPath { leading_colon, segments })
}

#[test]
fn directive_paths() {
    let e = call(false, vec![seg("my", ""), seg("Dir", ""), seg("apply", "")]);
    assert_eq!(
        extract_directive_call_path(&e),
        Some(CallPath { leading_colon: false, segments: vec![seg("my", ""), seg("Dir", "")] })
    );
    let g = call(true, vec![seg("my", ""), seg("Dir", ":: < T >"), seg("apply", ":: < u8 >")]);
    assert_eq!(
        extract_directive_call_path(&g),
        Some(CallPath { leading_colon: true, segments: vec![seg("my", ""), seg("Dir", ":: < T >")] })
    );
    assert_eq!(extract_directive_call_path(&call(false, vec![seg("apply", "")])), None);
    assert_eq!(extract_directive_call_path(&call(true, vec![seg("apply", "")])), None);
    assert_eq!(extract_directive_call_path(&call(false, vec![seg("Dir", ""), seg("call", "")])), None);
    assert_eq!(extract_directive_call_path(&DirectiveExpr::Other), None);
    assert_eq!(
        gen_directive_calls(&vec![e, g]),
        vec![
            CallPath { leading_colon: false, segments: vec![seg("my", ""), seg("Dir", "")] },
            CallPath { leading_colon: true, segments: vec![seg("my", ""), seg("Dir", ":: < T >")] },
        ]
    );
}

#[test]
fn crate_paths() {
    assert_eq!(get_crate_path(&Some(vec![s("x")]), true), Some(CratePath::Crate));
    assert_eq!(get_crate_path(&Some(vec![s("x")]), false), Some(CratePath::Given(vec![s("x")])));
    assert_eq!(get_crate_path(&None, false), None);
    assert_eq!(crate_path_from_lookup(Some(s("gql"))), CratePath::Absolute(s("gql")));
    assert_eq!(crate_path_from_lookup(None), CratePath::Absolute(s("async_graphql")));
    assert_eq!(RemoveLifetime.lifetime_ident(), "_");
}

#[test]
fn default_with_lexes_its_text() {
    let tokens = generate_default_with(&s("vec![1, 2]")).unwrap();
    assert_eq!(tokens.to_string(), "vec ! [1 , 2]");
    assert_eq!(generate_default_with(&s("(1 + ")).unwrap_err(), DefaultError::WithDoesNotLex);
}

#[test]
fn integer_defaults_at_the_edges() {
    assert_eq!(
        generate_default(&Some(DefaultValue::Value(LitValue::Int(s("0")))), &None),
        Ok(Some(DefaultExpr::Int(0)))
    );
    assert_eq!(
        generate_default(&Some(DefaultValue::Value(LitValue::Int(s("0042")))), &None),
        Ok(Some(DefaultExpr::Int(42)))
    );
    assert_eq!(
        generate_default(&Some(DefaultValue::Value(LitValue::Int(s("99999999999999999999")))), &None),
        Err(DefaultError::IntTooLarge)
    );
}

#[test]
fn types_that_can_be_named() {
    assert!(type_is_wf(&TypeShape::Path(vec![s("a"), s("B")])));
    assert!(!type_is_wf(&TypeShape::Path(Vec::new())));
    assert!(type_is_wf(&TypeShape::Group(Box::new(TypeShape::Other))));
    assert!(type_is_wf(&TypeShape::TraitObject(vec![None, Some(vec![s("Tr")]), Some(Vec::new())])));
    assert!(!type_is_wf(&TypeShape::TraitObject(vec![None, Some(Vec::new())])));
    assert!(!type_is_wf(&TypeShape::TraitObject(vec![None])));
}

#[test]
fn rustdoc_trims_unicode_white_space() {
    let docs = get_rustdoc(&vec![
        DocAttr::Text(s("\u{3000}\tx y\u{a0}")),
        DocAttr::Text(s(" \u{2003} ")),
        DocAttr::Text(s("z")),
    ])
    .unwrap();
    assert_eq!(docs, vec![DocPiece::Text(s("\nx y\n\nz"))]);
}
