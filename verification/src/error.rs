//! Errors and responses.
use vstd::prelude::*;
use crate::value::{Name, Value};

verus! {

/// A position in the query document.
#[derive(Clone, Copy, PartialEq, Eq, Structural, Debug)]
pub struct Pos {
    pub line: usize,
    pub column: usize,
}

/// One step of the path from the root of the response to a value.
#[derive(Debug, PartialEq)]
pub enum PathSegment {
    /// A field, by its response key.
    Field(Name),
    /// An element of a list, by its index.
    Index(usize),
}

/// An error raised by a resolver, before it is tied to a place in the query.
#[derive(Debug, PartialEq)]
pub struct ResolverError {
    pub message: String,
}

/// An error as it is reported in a response.
#[derive(Debug, PartialEq)]
pub struct ServerError {
    pub message: String,
    pub locations: Vec<Pos>,
    pub path: Vec<PathSegment>,
}

impl ServerError {
    /// An error with the given message, located at `pos` when there is one,
    /// and with an empty path.
    pub fn new(message: String, pos: Option<Pos>) -> (r: ServerError)
        ensures
            r.message == message,
            r.locations@ == (match pos {
                Some(p) => seq![p],
                None => Seq::<Pos>::empty(),
            }),
            r.path@.len() == 0,
    {
        let mut locations: Vec<Pos> = Vec::new();
        match pos {
            Some(p) => locations.push(p),
            None => {},
        }
        ServerError { message, locations, path: Vec::new() }
    }

    /// This error with its path replaced by `path`.
    pub fn with_path(self, path: Vec<PathSegment>) -> (r: ServerError)
        ensures
            r.message == self.message,
            r.locations == self.locations,
            r.path == path,
    {
        ServerError { message: self.message, locations: self.locations, path }
    }
}

impl ResolverError {
    /// The error located at `pos`, with an empty path.
    pub fn into_server_error(self, pos: Pos) -> (r: ServerError)
        ensures
            r.message == self.message,
            r.locations@ == seq![pos],
            r.path@.len() == 0,
    {
        ServerError::new(self.message, Some(pos))
    }
}

/// The response to a query: its data and the errors raised on the way.
#[derive(Debug, PartialEq)]
pub struct Response {
    pub data: Value,
    pub errors: Vec<ServerError>,
}

impl Response {
    /// A response with the given data and no error.
    pub fn new(data: Value) -> (r: Response)
        ensures
            r.data == data,
            r.errors@.len() == 0,
    {
        Response { data, errors: Vec::new() }
    }

    /// A response with no data and the given errors.
    pub fn from_errors(errors: Vec<ServerError>) -> (r: Response)
        ensures
            r.data == Value::Null,
            r.errors == errors,
    {
        Response { data: Value::Null, errors }
    }
}

} // verus!
