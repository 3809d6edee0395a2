//! The parts of an executable query document that field collection reads,
//! and the execution context of a selection set.
use vstd::prelude::*;
use crate::value::Name;
use crate::error::{Pos, PathSegment, ServerError};

verus! {

/// A field of a selection set.
#[derive(Debug, PartialEq)]
pub struct Field {
    pub alias: Option<Name>,
    pub name: Name,
    /// The names of the directives applied to the field.
    pub directives: Vec<Name>,
    pub selection_set: SelectionSet,
    pub pos: Pos,
}

/// A spread of a named fragment.
#[derive(Clone, Debug, PartialEq)]
pub struct FragmentSpread {
    pub fragment_name: Name,
    pub pos: Pos,
}

/// A fragment written in place, with an optional type condition.
#[derive(Debug, PartialEq)]
pub struct InlineFragment {
    pub type_condition: Option<Name>,
    pub selection_set: SelectionSet,
}

/// One selection of a selection set.
#[derive(Debug, PartialEq)]
pub enum Selection {
    Field(Field),
    FragmentSpread(FragmentSpread),
    InlineFragment(InlineFragment),
}

/// A selection set.
#[derive(Debug, PartialEq)]
pub struct SelectionSet {
    pub items: Vec<Selection>,
}

/// A named fragment of the document.
#[derive(Debug, PartialEq)]
pub struct FragmentDefinition {
    pub type_condition: Name,
    pub selection_set: SelectionSet,
}

/// What a query carries through its execution.
#[derive(Debug, PartialEq)]
pub struct QueryEnv {
    /// The named fragments of the document.
    pub fragments: Vec<(Name, FragmentDefinition)>,
    /// Whether any extension takes part in field resolution.
    pub has_extensions: bool,
}

/// What field collection reads of the schema.
#[derive(Clone, Debug, PartialEq)]
pub struct SchemaEnv {
    /// For each object type, the interfaces it implements.
    pub implements: Vec<(Name, Vec<Name>)>,
    /// For each type, the names of its fields.
    pub types: Vec<(Name, Vec<Name>)>,
}

/// The key of a field in the response: its alias, or its name.
pub open spec fn response_key(f: Field) -> Seq<char> {
    match f.alias {
        Some(a) => a@,
        None => f.name@,
    }
}

/// The response key of a field, as the string the field holds.
pub open spec fn key_string(f: Field) -> Name {
    match f.alias {
        Some(a) => a,
        None => f.name,
    }
}

impl Field {
    /// The key of this field in the response: its alias, or its name.
    pub fn response_key(&self) -> (r: &Name)
        ensures
            *r == key_string(*self),
            r@ == response_key(*self),
    {
        match &self.alias {
            Some(a) => a,
            None => &self.name,
        }
    }
}

/// Whether `s` holds exactly the characters of `lit`.
pub fn string_is(s: &String, lit: &str) -> (r: bool)
    ensures
        r == (s@ == lit@),
{
    *s == lit.to_owned()
}

impl Clone for PathSegment {
    fn clone(&self) -> (r: Self)
        ensures
            r == *self,
    {
        match self {
            PathSegment::Field(n) => PathSegment::Field(n.clone()),
            PathSegment::Index(i) => PathSegment::Index(*i),
        }
    }
}

/// A copy of a path.
pub fn clone_path(path: &Vec<PathSegment>) -> (r: Vec<PathSegment>)
    ensures
        r@ == path@,
{
    let mut r: Vec<PathSegment> = Vec::new();
    let n = path.len();
    for i in 0..n
        invariant
            n == path@.len(),
            r@ == path@.take(i as int),
    {
        r.push(path[i].clone());
        assert(r@ =~= path@.take(i + 1));
    }
    assert(path@.take(n as int) =~= path@);
    r
}

/// A copy of a list of names.
pub fn clone_names(names: &Vec<Name>) -> (r: Vec<Name>)
    ensures
        r@ == names@,
{
    let mut r: Vec<Name> = Vec::new();
    let n = names.len();
    for i in 0..n
        invariant
            n == names@.len(),
            r@ == names@.take(i as int),
    {
        r.push(names[i].clone());
        assert(r@ =~= names@.take(i + 1));
    }
    assert(names@.take(n as int) =~= names@);
    r
}

/// Where in the response a value is being resolved, and the position of
/// the field it belongs to.
#[derive(Debug, PartialEq)]
pub struct Context {
    /// The path from the root of the response, or `None` at the root itself.
    pub path: Option<Vec<PathSegment>>,
    pub pos: Pos,
}

impl Context {
    /// The model of this context's path: empty at the root.
    pub open spec fn path_view(&self) -> Seq<PathSegment> {
        match self.path {
            Some(p) => p@,
            None => Seq::empty(),
        }
    }

    /// `err` with the path of this context, when it has one.
    pub fn set_error_path(&self, err: ServerError) -> (r: ServerError)
        ensures
            r.message == err.message,
            r.locations == err.locations,
            r.path@ == (match self.path {
                Some(p) => p@,
                None => err.path@,
            }),
    {
        match &self.path {
            Some(p) => err.with_path(clone_path(p)),
            None => err,
        }
    }

    /// The context of the field with response key `key`, at `pos`.
    pub fn with_field(&self, key: &Name, pos: Pos) -> (r: Context)
        ensures
            r.path is Some,
            r.path_view() == self.path_view().push(PathSegment::Field(*key)),
            r.pos == pos,
    {
        let mut p = match &self.path {
            Some(p) => clone_path(p),
            None => Vec::new(),
        };
        p.push(PathSegment::Field(key.clone()));
        Context { path: Some(p), pos }
    }

    /// The context of the element at `idx` of the list of this context.
    pub fn with_index(&self, idx: usize) -> (r: Context)
        ensures
            r.path is Some,
            r.path_view() == self.path_view().push(PathSegment::Index(idx)),
            r.pos == self.pos,
    {
        let mut p = match &self.path {
            Some(p) => clone_path(p),
            None => Vec::new(),
        };
        p.push(PathSegment::Index(idx));
        Context { path: Some(p), pos: self.pos }
    }
}

} // verus!
