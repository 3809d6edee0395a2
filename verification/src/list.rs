//! Resolution of list values.
use vstd::prelude::*;
use crate::value::{Value, SpecValue, list_view};
use crate::error::ServerError;
use crate::query::Context;
use crate::container::{all_ok, first_error};

verus! {

/// The result of one element of a list, with an error located at the
/// element's path.
pub fn list_item_result(ctx_idx: &Context, r: Result<Value, ServerError>) -> (out: Result<
    Value,
    ServerError,
>)
    ensures
        match r {
            Ok(v) => out == Ok::<Value, ServerError>(v),
            Err(e) => out matches Err(f) && f.message == e.message && f.locations == e.locations
                && f.path@ == (match ctx_idx.path {
                Some(p) => p@,
                None => e.path@,
            }),
        },
{
    match r {
        Ok(v) => Ok(v),
        Err(e) => Err(ctx_idx.set_error_path(e)),
    }
}

/// The result of one element of a list once the extensions have seen it.
/// The element was resolved to a value, so the extensions hand one back.
pub fn extension_item_result(r: Result<Option<Value>, ServerError>) -> (out: Result<
    Value,
    ServerError,
>)
    requires
        r matches Ok(v) ==> v is Some,
    ensures
        match r {
            Ok(v) => out == Ok::<Value, ServerError>(v->Some_0),
            Err(e) => out == Err::<Value, ServerError>(e),
        },
{
    match r {
        Ok(Some(v)) => Ok(v),
        Ok(None) => Err(ServerError::new(String::new(), None)),
        Err(e) => Err(e),
    }
}

/// The list value built from the results of its elements, in order: the
/// first element that failed makes the whole list fail.
pub fn list_value(results: Vec<Result<Value, ServerError>>) -> (r: Result<Value, ServerError>)
    ensures
        first_error(results@) >= 0 ==> r == Err::<Value, ServerError>(
            results@[first_error(results@)]->Err_0,
        ),
        first_error(results@) < 0 ==> (r matches Ok(v) && v@ == SpecValue::List(
            list_view(Seq::new(results@.len(), |i: int| results@[i]->Ok_0)),
        )),
{
    match all_ok(results) {
        Ok(values) => Ok(Value::List(values)),
        Err(e) => Err(e),
    }
}

} // verus!
