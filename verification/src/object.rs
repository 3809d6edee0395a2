//! Helpers for the resolvers of objects.
use vstd::prelude::*;
use crate::value::{Name, Value};
use crate::error::{ResolverError, ServerError};
use crate::query::Context;
use crate::container::{find_first, first_index};

verus! {

/// The message of the error raised when entity parameters carry no
/// `__typename` string.
pub open spec fn typename_missing_message() -> Seq<char> {
    "\"__typename\" must be an existing string."@
}

/// The error of a resolver, located at the field and with the field's path.
pub fn field_error(ctx: &Context, err: ResolverError) -> (r: ServerError)
    ensures
        r.message == err.message,
        r.locations@ == seq![ctx.pos],
        r.path@ == ctx.path_view(),
{
    ctx.set_error_path(err.into_server_error(ctx.pos))
}

/// The value of a field whose resolver ran: the value, or the error with
/// the field's path.
pub fn simple_field_result(ctx: &Context, r: Result<Value, ServerError>) -> (out: Result<
    Option<Value>,
    ServerError,
>)
    ensures
        match r {
            Ok(v) => out == Ok::<Option<Value>, ServerError>(Some(v)),
            Err(e) => out matches Err(f) && f.message == e.message && f.locations == e.locations
                && f.path@ == (match ctx.path {
                Some(p) => p@,
                None => e.path@,
            }),
        },
{
    match r {
        Ok(v) => Ok(Some(v)),
        Err(e) => Err(ctx.set_error_path(e)),
    }
}

/// The parameters of an entity lookup: none when they are not an object,
/// and an error when the object carries no `__typename` string; otherwise
/// the object and its type name.
pub fn find_entity_params<'a>(ctx: &Context, params: &'a Value) -> (r: Result<
    Option<(&'a Vec<(Name, Value)>, &'a String)>,
    ServerError,
>)
    ensures
        !(params is Object) ==> r == Ok::<Option<(&'a Vec<(Name, Value)>, &'a String)>, ServerError>(None),
        params is Object ==> ({
            let entries = params->Object_0;
            let i = first_index(entries@, "__typename"@);
            if i >= 0 && entries@[i].1 is String {
                r == Ok::<Option<(&'a Vec<(Name, Value)>, &'a String)>, ServerError>(
                    Some((&entries, &entries@[i].1->String_0)),
                )
            } else {
                r matches Err(e) && e.message@ == typename_missing_message() && e.locations@ == seq![
                    ctx.pos,
                ] && e.path@.len() == 0
            }
        }),
{
    match params {
        Value::Object(entries) => {
            let key = "__typename".to_owned();
            match find_first(entries, &key) {
                Some(Value::String(typename)) => Ok(Some((entries, typename))),
                _ => Err(
                    ServerError::new(
                        "\"__typename\" must be an existing string.".to_owned(),
                        Some(ctx.pos),
                    ),
                ),
            }
        },
        _ => Ok(None),
    }
}

} // verus!
