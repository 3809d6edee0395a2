//! Input and output types, and the optional type built on any of them.
use vstd::prelude::*;
use crate::value::Value;
use crate::error::ServerError;
use crate::query::SchemaEnv;
use crate::container::{find_first, first_index, lemma_first_index};

verus! {

/// Why an input value could not be read as the expected type.
#[derive(Debug, PartialEq)]
pub enum InputValueError {
    /// The input is not a value of the type being read.
    ExpectedType { found: Value },
    /// The input is an integer outside the range of the type.
    OutOfRange { value: i64 },
    /// Another failure, described by its message.
    Custom { message: String },
}

/// The schema knows a type of this name.
pub open spec fn has_type(registry: SchemaEnv, name: Seq<char>) -> bool {
    first_index(registry.types@, name) >= 0
}

/// `after` knows every type that `before` knew, with the same fields (the
/// types of `before` come first in `after`, unchanged), and knows `name`;
/// what the schema records of implementations is unchanged.
pub open spec fn registered(before: SchemaEnv, after: SchemaEnv, name: Seq<char>) -> bool {
    &&& has_type(after, name)
    &&& before.types@.len() <= after.types@.len()
    &&& forall|i: int| 0 <= i < before.types@.len() ==> after.types@[i] == before.types@[i]
    &&& after.implements == before.implements
}

/// A type known to a schema is known to every schema whose types begin
/// with the first schema's types.
pub proof fn law_registration_keeps_known_types(before: SchemaEnv, after: SchemaEnv, name: Seq<char>, k: Seq<char>)
    requires
        registered(before, after, name),
        has_type(before, k),
    ensures
        has_type(after, k),
{
    lemma_first_index(before.types@, k);
    lemma_first_index(after.types@, k);
    let i = first_index(before.types@, k);
    assert(after.types@[i] == before.types@[i]);
}

/// Records in the schema a type without fields, unless it is known already:
/// a new type is added after the known ones.
pub fn register_type(registry: &mut SchemaEnv, name: &str)
    ensures
        registered(*old(registry), *final(registry), name@),
        has_type(*old(registry), name@) ==> *final(registry) == *old(registry),
        !has_type(*old(registry), name@) ==> final(registry).types@.len() == old(registry).types@.len() + 1
            && final(registry).types@.last().0@ == name@
            && final(registry).types@.last().1@.len() == 0,
{
    let key = name.to_owned();
    proof {
        lemma_first_index(registry.types@, name@);
    }
    match find_first(&registry.types, &key) {
        Some(_) => {},
        None => {
            registry.types.push((key, Vec::new()));
            let ghost t = registry.types@;
            proof {
                lemma_first_index(t, name@);
                lemma_first_index(old(registry).types@, name@);
                assert(t[t.len() - 1].0@ == name@);
            }
        },
    }
}

/// A type of values that a query can take as input.
pub trait InputType: Sized {
    /// The value that the input reads as.
    type RawValueType;

    /// The name of the type.
    spec fn spec_graphql_type_name() -> Seq<char>;

    /// The name of the type as it appears where a value of it is expected.
    spec fn spec_qualified_type_name() -> Seq<char>;

    /// The result of reading `value`, absent when the input gave none.
    spec fn spec_parse(value: Option<Value>) -> Result<Self, InputValueError>;

    /// The input value that this value is written as.
    spec fn spec_to_value(&self) -> Value;

    /// The raw value of this value, if it has one.
    spec fn spec_raw_value(&self) -> Option<Self::RawValueType>;

    /// The name of the type.
    fn graphql_type_name() -> (r: String)
        ensures
            r@ == Self::spec_graphql_type_name(),
    ;

    /// The name of the type as it appears where a value of it is expected.
    fn qualified_type_name() -> (r: String)
        ensures
            r@ == Self::spec_qualified_type_name(),
    ;

    /// Records the type in the schema and returns its qualified name.
    fn create_type_info(registry: &mut SchemaEnv) -> (r: String)
        ensures
            r@ == Self::spec_qualified_type_name(),
            registered(*old(registry), *final(registry), Self::spec_graphql_type_name()),
    ;

    /// Reads an input value.
    fn parse(value: Option<Value>) -> (r: Result<Self, InputValueError>)
        ensures
            r == Self::spec_parse(value),
    ;

    /// The input value that this value is written as.
    fn to_value(&self) -> (r: Value)
        ensures
            r == self.spec_to_value(),
    ;

    /// The raw value of this value, if it has one.
    fn as_raw_value(&self) -> (r: Option<&Self::RawValueType>)
        ensures
            match r {
                Some(x) => self.spec_raw_value() == Some(*x),
                None => self.spec_raw_value() is None,
            },
    ;
}

/// A type of values that a query can produce.
pub trait OutputType {
    /// The name of the type.
    spec fn spec_graphql_type_name() -> Seq<char>;

    /// The name of the type as it appears where a value of it is produced.
    spec fn spec_qualified_type_name() -> Seq<char>;

    /// The name of the type.
    fn graphql_type_name() -> (r: String)
        ensures
            r@ == Self::spec_graphql_type_name(),
    ;

    /// The name of the type as it appears where a value of it is produced.
    fn qualified_type_name() -> (r: String)
        ensures
            r@ == Self::spec_qualified_type_name(),
    ;

    /// Records the type in the schema and returns its qualified name.
    fn create_type_info(registry: &mut SchemaEnv) -> (r: String)
        ensures
            r@ == Self::spec_qualified_type_name(),
            registered(*old(registry), *final(registry), Self::spec_graphql_type_name()),
    ;
}

/// `i32` reads from integer values within its range.
pub open spec fn parse_i32(value: Option<Value>) -> Result<i32, InputValueError> {
    match value {
        Some(Value::Number(n)) => if i32::MIN <= n <= i32::MAX {
            Ok(n as i32)
        } else {
            Err(InputValueError::OutOfRange { value: n })
        },
        Some(v) => Err(InputValueError::ExpectedType { found: v }),
        None => Err(InputValueError::ExpectedType { found: Value::Null }),
    }
}

impl InputType for i32 {
    type RawValueType = i32;

    open spec fn spec_graphql_type_name() -> Seq<char> {
        "Int"@
    }

    open spec fn spec_qualified_type_name() -> Seq<char> {
        "Int!"@
    }

    open spec fn spec_parse(value: Option<Value>) -> Result<i32, InputValueError> {
        parse_i32(value)
    }

    open spec fn spec_to_value(&self) -> Value {
        Value::Number(*self as i64)
    }

    open spec fn spec_raw_value(&self) -> Option<i32> {
        Some(*self)
    }

    fn graphql_type_name() -> (r: String) {
        "Int".to_owned()
    }

    fn qualified_type_name() -> (r: String) {
        "Int!".to_owned()
    }

    fn create_type_info(registry: &mut SchemaEnv) -> (r: String) {
        register_type(registry, "Int");
        "Int!".to_owned()
    }

    fn parse(value: Option<Value>) -> (r: Result<i32, InputValueError>) {
        match value {
            Some(Value::Number(n)) => if -2147483648 <= n && n <= 2147483647 {
                Ok(n as i32)
            } else {
                Err(InputValueError::OutOfRange { value: n })
            },
            Some(v) => Err(InputValueError::ExpectedType { found: v }),
            None => Err(InputValueError::ExpectedType { found: Value::Null }),
        }
    }

    fn to_value(&self) -> (r: Value) {
        Value::Number(*self as i64)
    }

    fn as_raw_value(&self) -> (r: Option<&i32>) {
        Some(self)
    }
}

impl OutputType for i32 {
    open spec fn spec_graphql_type_name() -> Seq<char> {
        "Int"@
    }

    open spec fn spec_qualified_type_name() -> Seq<char> {
        "Int!"@
    }

    fn graphql_type_name() -> (r: String) {
        "Int".to_owned()
    }

    fn qualified_type_name() -> (r: String) {
        "Int!".to_owned()
    }

    fn create_type_info(registry: &mut SchemaEnv) -> (r: String) {
        register_type(registry, "Int");
        "Int!".to_owned()
    }
}

/// An absent input, or an explicit null, reads as `None`; any other value
/// reads as the inner type does. Since `Option<T>` carries `T`'s type name, an
/// error of `T` is reported as it is.
pub open spec fn parse_optional<T: InputType>(value: Option<Value>) -> Result<
    Option<T>,
    InputValueError,
> {
    match value {
        None => Ok(None),
        Some(Value::Null) => Ok(None),
        Some(v) => match T::spec_parse(Some(v)) {
            Ok(x) => Ok(Some(x)),
            Err(e) => Err(e),
        },
    }
}

impl<T: InputType> InputType for Option<T> {
    type RawValueType = T::RawValueType;

    open spec fn spec_graphql_type_name() -> Seq<char> {
        T::spec_graphql_type_name()
    }

    open spec fn spec_qualified_type_name() -> Seq<char> {
        T::spec_graphql_type_name()
    }

    open spec fn spec_parse(value: Option<Value>) -> Result<Option<T>, InputValueError> {
        parse_optional::<T>(value)
    }

    open spec fn spec_to_value(&self) -> Value {
        match self {
            Some(v) => v.spec_to_value(),
            None => Value::Null,
        }
    }

    open spec fn spec_raw_value(&self) -> Option<T::RawValueType> {
        match self {
            Some(v) => v.spec_raw_value(),
            None => None,
        }
    }

    fn graphql_type_name() -> (r: String) {
        T::graphql_type_name()
    }

    fn qualified_type_name() -> (r: String) {
        T::graphql_type_name()
    }

    fn create_type_info(registry: &mut SchemaEnv) -> (r: String) {
        T::create_type_info(registry);
        T::graphql_type_name()
    }

    fn parse(value: Option<Value>) -> (r: Result<Option<T>, InputValueError>) {
        let v = match value {
            Some(v) => v,
            None => Value::Null,
        };
        match v {
            Value::Null => Ok(None),
            v => match T::parse(Some(v)) {
                Ok(x) => Ok(Some(x)),
                Err(e) => Err(e),
            },
        }
    }

    fn to_value(&self) -> (r: Value) {
        match self {
            Some(v) => v.to_value(),
            None => Value::Null,
        }
    }

    fn as_raw_value(&self) -> (r: Option<&T::RawValueType>) {
        match self {
            Some(v) => v.as_raw_value(),
            None => None,
        }
    }
}

impl<T: OutputType> OutputType for Option<T> {
    open spec fn spec_graphql_type_name() -> Seq<char> {
        T::spec_graphql_type_name()
    }

    open spec fn spec_qualified_type_name() -> Seq<char> {
        T::spec_graphql_type_name()
    }

    fn graphql_type_name() -> (r: String) {
        T::graphql_type_name()
    }

    fn qualified_type_name() -> (r: String) {
        T::graphql_type_name()
    }

    fn create_type_info(registry: &mut SchemaEnv) -> (r: String) {
        T::create_type_info(registry);
        T::graphql_type_name()
    }
}

impl<T: OutputType> OutputType for Vec<T> {
    open spec fn spec_graphql_type_name() -> Seq<char> {
        "["@ + T::spec_qualified_type_name() + "]"@
    }

    open spec fn spec_qualified_type_name() -> Seq<char> {
        "["@ + T::spec_qualified_type_name() + "]!"@
    }

    fn graphql_type_name() -> (r: String) {
        let mut s = "[".to_owned();
        s.append(T::qualified_type_name().as_str());
        s.append("]");
        s
    }

    fn qualified_type_name() -> (r: String) {
        let mut s = "[".to_owned();
        s.append(T::qualified_type_name().as_str());
        s.append("]!");
        s
    }

    fn create_type_info(registry: &mut SchemaEnv) -> (r: String) {
        T::create_type_info(registry);
        let mut s = "[".to_owned();
        s.append(T::qualified_type_name().as_str());
        s.append("]");
        register_type(registry, s.as_str());
        s.append("!");
        proof {
            reveal_strlit("]");
            reveal_strlit("!");
            reveal_strlit("]!");
            assert(s@ =~= "["@ + T::spec_qualified_type_name() + "]!"@);
        }
        s
    }
}

/// The value of an optional field: nothing resolves to null, and an inner
/// error is recorded among the query's errors while the field itself
/// resolves to null.
pub fn optional_value(inner: Option<Result<Value, ServerError>>, errors: &mut Vec<ServerError>) -> (r: Value)
    ensures
        match inner {
            None => r == Value::Null && final(errors)@ == old(errors)@,
            Some(Ok(v)) => r == v && final(errors)@ == old(errors)@,
            Some(Err(e)) => r == Value::Null && final(errors)@ == old(errors)@.push(e),
        },
{
    match inner {
        None => Value::Null,
        Some(Ok(v)) => v,
        Some(Err(e)) => {
            errors.push(e);
            Value::Null
        },
    }
}

/// The names under which the extensions see each element of a list of `T`:
/// the list's type and the element's type.
pub fn list_type_names<T: OutputType>() -> (r: (String, String))
    ensures
        r.0@ == Vec::<T>::spec_graphql_type_name(),
        r.1@ == T::spec_qualified_type_name(),
{
    (Vec::<T>::graphql_type_name(), T::qualified_type_name())
}

} // verus!

verus! {

/// An optional type has the name of its inner type, and is nullable: its
/// qualified name is that name, without the non-null mark.
pub proof fn law_optional_input_names<T: InputType>()
    ensures
        Option::<T>::spec_graphql_type_name() == T::spec_graphql_type_name(),
        Option::<T>::spec_qualified_type_name() == T::spec_graphql_type_name(),
{
}

/// An optional output type has the name of its inner type, and is
/// nullable.
pub proof fn law_optional_output_names<T: OutputType>()
    ensures
        Option::<T>::spec_graphql_type_name() == T::spec_graphql_type_name(),
        Option::<T>::spec_qualified_type_name() == T::spec_graphql_type_name(),
{
}

/// An optional input reads null, and a missing value, as `None`, and writes
/// `None` as null.
pub proof fn law_optional_null<T: InputType>()
    ensures
        Option::<T>::spec_parse(Some(Value::Null)) == Ok::<Option<T>, InputValueError>(None),
        Option::<T>::spec_parse(None) == Ok::<Option<T>, InputValueError>(None),
        (None::<T>).spec_to_value() == Value::Null,
{
}

/// A present optional value is read and written as its inner type reads and
/// writes it.
pub proof fn law_optional_present<T: InputType>(v: Value, x: T)
    requires
        !(v is Null),
    ensures
        Option::<T>::spec_parse(Some(v)) == (match T::spec_parse(Some(v)) {
            Ok(y) => Ok::<Option<T>, InputValueError>(Some(y)),
            Err(e) => Err(e),
        }),
        Some(x).spec_to_value() == x.spec_to_value(),
{
}

/// An optional value reads back as itself from the value it is written as,
/// whenever its inner type does so and does not write null.
pub proof fn law_optional_round_trip<T: InputType>(x: T)
    requires
        T::spec_parse(Some(x.spec_to_value())) == Ok::<T, InputValueError>(x),
        !(x.spec_to_value() is Null),
    ensures
        Option::<T>::spec_parse(Some(Some(x).spec_to_value())) == Ok::<Option<T>, InputValueError>(Some(x)),
        Option::<T>::spec_parse(Some((None::<T>).spec_to_value())) == Ok::<Option<T>, InputValueError>(None),
{
}

/// Reading back the value an `i32` is written as gives the same `i32`.
pub proof fn law_i32_round_trip(x: i32)
    ensures
        i32::spec_parse(Some(x.spec_to_value())) == Ok::<i32, InputValueError>(x),
{
}

} // verus!
