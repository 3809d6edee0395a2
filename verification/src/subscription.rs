//! Subscriptions: the fields of a subscription selection set and the
//! responses made from the messages of their streams.
use vstd::prelude::*;
use crate::value::{Name, Value};
use crate::error::{PathSegment, Response, ServerError};
use crate::query::{Field, Selection, SelectionSet, response_key};
use crate::container::unknown_field_message;

verus! {

/// A GraphQL subscription root.
pub trait SubscriptionType {
    /// The name of the type.
    spec fn spec_graphql_type_name() -> Seq<char>;

    /// The name of the type.
    fn graphql_type_name() -> (r: String)
        ensures
            r@ == Self::spec_graphql_type_name(),
    ;

    /// The name of the type, marked as non-null.
    fn qualified_type_name() -> (r: String)
        ensures
            r@ == Self::spec_graphql_type_name() + "!"@,
    {
        let mut s = Self::graphql_type_name();
        s.append("!");
        s
    }

    /// Whether this is the type of an empty subscription root.
    fn is_empty() -> (r: bool)
        default_ensures
            !r,
    {
        false
    }
}

/// The fields among `items`, in order; fragments are not followed.
pub open spec fn subscription_fields(items: Seq<Selection>) -> Seq<Field>
    decreases items.len(),
{
    if items.len() == 0 {
        Seq::empty()
    } else {
        let p = subscription_fields(items.drop_last());
        match items.last() {
            Selection::Field(f) => p.push(f),
            _ => p,
        }
    }
}

/// The fields of a subscription selection set for which streams are made,
/// in order.
pub fn collect_subscription_fields<'a>(set: &'a SelectionSet) -> (r: Vec<&'a Field>)
    ensures
        r@.len() == subscription_fields(set.items@).len(),
        forall|i: int| 0 <= i < r@.len() ==> *(#[trigger] r@[i]) == subscription_fields(set.items@)[i],
{
    let ghost items = set.items@;
    let mut r: Vec<&'a Field> = Vec::new();
    let n = set.items.len();
    for j in 0..n
        invariant
            n == items.len(),
            items == set.items@,
            r@.len() == subscription_fields(items.take(j as int)).len(),
            forall|i: int| 0 <= i < r@.len() ==> *(#[trigger] r@[i]) == subscription_fields(items.take(j as int))[i],
    {
        assert(items.take(j + 1).drop_last() =~= items.take(j as int));
        assert(items.take(j + 1).last() == items[j as int]);
        match &set.items[j] {
            Selection::Field(f) => {
                r.push(f);
            },
            _ => {},
        }
    }
    assert(items.take(n as int) =~= items);
    r
}

/// The response sent for a subscription field that the root does not
/// provide a stream for: an error located at the field, with the field's
/// response key as its path.
pub fn missing_field_response(field: &Field, root_type: &Name) -> (r: Response)
    ensures
        r.data == Value::Null,
        r.errors@.len() == 1,
        r.errors@[0].message@ == unknown_field_message(response_key(*field), root_type@),
        r.errors@[0].locations@ == seq![field.pos],
        r.errors@[0].path@.len() == 1,
        r.errors@[0].path@[0] matches PathSegment::Field(k) && k@ == response_key(*field),
{
    let key = field.response_key();
    let mut m = String::from_str("Cannot query field \"");
    m.append(key.as_str());
    m.append("\" on type \"");
    m.append(root_type.as_str());
    m.append("\".");
    let mut path: Vec<PathSegment> = Vec::new();
    path.push(PathSegment::Field(key.clone()));
    let err = ServerError::new(m, Some(field.pos)).with_path(path);
    let mut errors: Vec<ServerError> = Vec::new();
    errors.push(err);
    Response::from_errors(errors)
}

/// The response for one message of a subscription stream: an object with
/// the field's value under its name (null when the field resolved to
/// nothing), or the error; followed by the errors raised on the way.
pub fn message_response(
    field_name: Name,
    resolved: Result<Option<Value>, ServerError>,
    pending: Vec<ServerError>,
) -> (r: Response)
    ensures
        match resolved {
            Ok(v) => (r.data matches Value::Object(entries) && entries@ == seq![
                (field_name, match v {
                    Some(x) => x,
                    None => Value::Null,
                }),
            ]) && r.errors@ == pending@,
            Err(e) => r.data == Value::Null && r.errors@ == seq![e] + pending@,
        },
{
    let mut resp = match resolved {
        Ok(v) => {
            let value = match v {
                Some(x) => x,
                None => Value::Null,
            };
            let mut entries: Vec<(Name, Value)> = Vec::new();
            entries.push((field_name, value));
            Response::new(Value::Object(entries))
        },
        Err(e) => {
            let mut errors: Vec<ServerError> = Vec::new();
            errors.push(e);
            Response::from_errors(errors)
        },
    };
    let mut pending = pending;
    resp.errors.append(&mut pending);
    resp
}

} // verus!

verus! {

/// The subscription root of a schema that has no subscriptions.
#[derive(Clone, Copy, Debug, Default)]
pub struct EmptySubscription;

impl SubscriptionType for EmptySubscription {
    open spec fn spec_graphql_type_name() -> Seq<char> {
        "EmptySubscription"@
    }

    fn graphql_type_name() -> (r: String) {
        "EmptySubscription".to_owned()
    }

    fn is_empty() -> (r: bool)
        ensures
            r,
    {
        true
    }
}

} // verus!

verus! {

/// Whether a selection is a field.
pub open spec fn is_field_selection() -> spec_fn(Selection) -> bool {
    |s: Selection| s is Field
}

/// The field of a field selection.
pub open spec fn selected_field() -> spec_fn(Selection) -> Field {
    |s: Selection| s->Field_0
}

/// The fields for which a subscription makes streams are exactly the field
/// selections of its selection set, in order, whatever they select
/// themselves; fragments make none.
pub proof fn law_subscription_fields_are_the_fields(items: Seq<Selection>)
    ensures
        subscription_fields(items) == items.filter(is_field_selection()).map_values(
            selected_field(),
        ),
    decreases items.len(),
{
    reveal(Seq::filter);
    if items.len() > 0 {
        let p = items.drop_last();
        law_subscription_fields_are_the_fields(p);
        let fp = p.filter(is_field_selection());
        assert(items.filter(is_field_selection()) == (if is_field_selection()(items.last()) {
            fp.push(items.last())
        } else {
            fp
        }));
        if items.last() is Field {
            assert(fp.push(items.last()).map_values(selected_field()) =~= fp.map_values(
                selected_field(),
            ).push(items.last()->Field_0));
        }
    } else {
        assert(items.filter(is_field_selection()).map_values(selected_field()) =~= Seq::<
            Field,
        >::empty());
    }
}

} // verus!
