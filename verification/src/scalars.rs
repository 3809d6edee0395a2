//! Date, time and duration scalars, read and written as strings.
use vstd::prelude::*;
use vstd::string::StrSliceExecFns;
use crate::value::Value;
use crate::types::InputValueError;

verus! {

#[verifier::external_type_specification]
#[verifier::external_body]
pub struct ExTimestamp(jiff::Timestamp);

#[verifier::external_type_specification]
#[verifier::external_body]
pub struct ExZoned(jiff::Zoned);

#[verifier::external_type_specification]
#[verifier::external_body]
pub struct ExSpan(jiff::Span);

#[verifier::external_type_specification]
#[verifier::external_body]
pub struct ExJiffError(jiff::Error);

/// Whether jiff reads the string as an instant (an RFC 3339 date and time
/// with an offset; a time zone annotation is checked for its form only).
pub uninterp spec fn timestamp_parses(s: Seq<char>) -> bool;

/// Whether jiff reads the string as a span (ISO 8601 duration or jiff's
/// friendly duration format).
pub uninterp spec fn span_parses(s: Seq<char>) -> bool;

/// The instant jiff reads from the string, when it reads one.
pub uninterp spec fn timestamp_of(s: Seq<char>) -> jiff::Timestamp;

/// The error jiff gives for a string it does not read as an instant.
pub uninterp spec fn timestamp_error_of(s: Seq<char>) -> jiff::Error;

/// The span jiff reads from the string, when it reads one.
pub uninterp spec fn span_of(s: Seq<char>) -> jiff::Span;

/// The error jiff gives for a string it does not read as a span.
pub uninterp spec fn span_error_of(s: Seq<char>) -> jiff::Error;

/// Whether jiff's RFC 9557 reader accepts the text as a zoned date and time
/// (its form only: whether the time zone it names is known is another
/// matter).
pub uninterp spec fn zoned_syntax_ok(s: Seq<char>) -> bool;

/// The message jiff writes for the error `e`.
pub uninterp spec fn error_text_of(e: jiff::Error) -> Seq<char>;

/// The text jiff writes for the instant `t` (RFC 3339, in UTC).
pub uninterp spec fn timestamp_text_of(t: jiff::Timestamp) -> Seq<char>;

/// The text jiff writes for the zoned date and time `t` (RFC 9557: the
/// date, time and offset, then the time zone in brackets).
pub uninterp spec fn zoned_text_of(t: jiff::Zoned) -> Seq<char>;

/// The text jiff writes for the span `t` (ISO 8601 duration).
pub uninterp spec fn span_text_of(t: jiff::Span) -> Seq<char>;

/// `<jiff::Timestamp as FromStr>::from_str`. What it gives depends on the
/// string alone: whether it succeeds, the instant read and the error are
/// named.
#[verifier::external_body]
fn parse_timestamp(s: &str) -> (r: Result<jiff::Timestamp, jiff::Error>)
    ensures
        r is Ok <==> timestamp_parses(s@),
        r matches Ok(t) ==> t == timestamp_of(s@),
        r matches Err(e) ==> e == timestamp_error_of(s@),
{
    s.parse::<jiff::Timestamp>()
}

/// `<jiff::Zoned as FromStr>::from_str`. It reads the text first and then
/// looks up the time zone it names in the machine's database, so only
/// this is claimed: it succeeds only on text of the right form.
#[verifier::external_body]
fn parse_zoned(s: &str) -> (r: Result<jiff::Zoned, jiff::Error>)
    ensures
        r is Ok ==> zoned_syntax_ok(s@),
{
    s.parse::<jiff::Zoned>()
}

/// `<jiff::Span as FromStr>::from_str`. What it gives depends on the
/// string alone: whether it succeeds, the span read and the error are
/// named.
#[verifier::external_body]
fn parse_span(s: &str) -> (r: Result<jiff::Span, jiff::Error>)
    ensures
        r is Ok <==> span_parses(s@),
        r matches Ok(t) ==> t == span_of(s@),
        r matches Err(e) ==> e == span_error_of(s@),
{
    s.parse::<jiff::Span>()
}

/// `<jiff::Timestamp as Display>::fmt`, through `to_string`: the RFC 3339
/// text of the instant, which depends on the instant alone; it is named
/// `timestamp_text_of`. jiff renders the fraction of a second with the
/// precision needed to render the instant losslessly, so reading the text
/// back gives the same instant.
#[verifier::external_body]
fn timestamp_text(t: &jiff::Timestamp) -> (r: String)
    ensures
        r@ == timestamp_text_of(*t),
        timestamp_parses(r@),
        timestamp_of(r@) == *t,
{
    t.to_string()
}

/// `<jiff::Zoned as Display>::fmt`, through `to_string`: the RFC 9557 text
/// of the zoned date and time, which depends on that value alone; it is
/// named `zoned_text_of`.
#[verifier::external_body]
fn zoned_text(t: &jiff::Zoned) -> (r: String)
    ensures
        r@ == zoned_text_of(*t),
{
    t.to_string()
}

/// `<jiff::Span as Display>::fmt`, through `to_string`: the ISO 8601 text of
/// the span, which depends on the span alone; it is named `span_text_of`.
#[verifier::external_body]
fn span_text(t: &jiff::Span) -> (r: String)
    ensures
        r@ == span_text_of(*t),
{
    t.to_string()
}

/// `<jiff::Error as Display>::fmt`, through `to_string`: the message of a
/// parse error, which depends on the error alone; it is named
/// `error_text_of`.
#[verifier::external_body]
fn error_text(e: &jiff::Error) -> (r: String)
    ensures
        r@ == error_text_of(*e),
{
    e.to_string()
}

/// The zoned date and time of the instant `t` in UTC.
pub uninterp spec fn zoned_in_utc_of(t: jiff::Timestamp) -> jiff::Zoned;

/// `jiff::Timestamp::to_zoned` with the time zone `UTC`, which jiff holds
/// itself: the result depends on the instant alone, and is named
/// `zoned_in_utc_of`.
#[verifier::external_body]
fn in_utc(t: &jiff::Timestamp) -> (r: jiff::Zoned)
    ensures
        r == zoned_in_utc_of(*t),
{
    t.to_zoned(jiff::tz::TimeZone::UTC)
}

/// Whether the text holds a bracket, which opens a time zone annotation.
fn has_annotation(s: &str) -> (r: bool)
    ensures
        r == s@.contains('['),
{
    let n = s.unicode_len();
    let mut i: usize = 0;
    while i < n
        invariant
            n == s@.len(),
            i <= n,
            forall|k: int| 0 <= k < i ==> s@[k] != '[',
        decreases n - i,
    {
        if s.get_char(i) == '[' {
            assert(s@[i as int] == '[');
            return true;
        }
        i = i + 1;
    }
    false
}

/// A scalar type: read from, and written as, a single input value.
pub trait ScalarType: Sized {
    /// Reads the scalar from an input value.
    fn parse(value: Value) -> Result<Self, InputValueError>;

    /// The value the scalar is written as.
    fn to_value(&self) -> Value;
}

/// What reading a date, time or duration scalar promises: a string is
/// handed to jiff, and gives what jiff reads from it or a failure with
/// jiff's message; anything else is not of the expected type.
pub open spec fn string_scalar_read<T>(
    value: Value,
    r: Result<T, InputValueError>,
    parses: spec_fn(Seq<char>) -> bool,
    read: spec_fn(Seq<char>) -> T,
    error: spec_fn(Seq<char>) -> jiff::Error,
) -> bool {
    match value {
        Value::String(s) => if parses(s@) {
            r == Ok::<T, InputValueError>(read(s@))
        } else {
            r matches Err(InputValueError::Custom { message }) && message@ == error_text_of(
                error(s@),
            )
        },
        _ => r == Err::<T, InputValueError>(InputValueError::ExpectedType { found: value }),
    }
}

/// Scalar `DateTime`: a string in RFC 3339 format.
impl ScalarType for jiff::Timestamp {
    fn parse(value: Value) -> (r: Result<jiff::Timestamp, InputValueError>)
        ensures
            string_scalar_read(
                value,
                r,
                |s: Seq<char>| timestamp_parses(s),
                |s: Seq<char>| timestamp_of(s),
                |s: Seq<char>| timestamp_error_of(s),
            ),
    {
        match value {
            Value::String(s) => match parse_timestamp(s.as_str()) {
                Ok(t) => Ok(t),
                Err(e) => Err(InputValueError::Custom { message: error_text(&e) }),
            },
            other => Err(InputValueError::ExpectedType { found: other }),
        }
    }

    /// The instant's RFC 3339 text, which reads back as the same instant.
    fn to_value(&self) -> (r: Value)
        ensures
            r matches Value::String(s) && s@ == timestamp_text_of(*self),
            string_scalar_read(
                r,
                Ok::<jiff::Timestamp, InputValueError>(*self),
                |s: Seq<char>| timestamp_parses(s),
                |s: Seq<char>| timestamp_of(s),
                |s: Seq<char>| timestamp_error_of(s),
            ),
    {
        Value::String(timestamp_text(self))
    }
}

/// Scalar `DateTime`: a string in RFC 3339 format; one with a time zone
/// annotation (RFC 9557) keeps its time zone.
impl ScalarType for jiff::Zoned {
    /// A string with a time zone annotation is read as jiff reads a zoned
    /// date and time; a plain RFC 3339 string, which jiff's zoned reader
    /// refuses for its lack of a time zone, is read as an instant and put
    /// in UTC.
    fn parse(value: Value) -> (r: Result<jiff::Zoned, InputValueError>)
        ensures
            !(value is String) ==> r == Err::<jiff::Zoned, InputValueError>(
                InputValueError::ExpectedType { found: value },
            ),
            value matches Value::String(s) ==> (r is Ok ==> zoned_syntax_ok(s@) || (!s@.contains(
                '[',
            ) && timestamp_parses(s@) && r == Ok::<jiff::Zoned, InputValueError>(
                zoned_in_utc_of(timestamp_of(s@)),
            ))),
            value matches Value::String(s) ==> (!s@.contains('[') && timestamp_parses(s@) ==> r is Ok),
            value is String && r is Err ==> (r->Err_0 matches InputValueError::Custom { message }
                && exists|e: jiff::Error| message@ == #[trigger] error_text_of(e)),
    {
        match value {
            Value::String(s) => match parse_zoned(s.as_str()) {
                Ok(t) => Ok(t),
                Err(e) => {
                    if !has_annotation(s.as_str()) {
                        match parse_timestamp(s.as_str()) {
                            Ok(t) => {
                                return Ok(in_utc(&t));
                            },
                            Err(_) => {},
                        }
                    }
                    let message = error_text(&e);
                    assert(message@ == error_text_of(e));
                    Err(InputValueError::Custom { message })
                },
            },
            other => Err(InputValueError::ExpectedType { found: other }),
        }
    }

    fn to_value(&self) -> (r: Value)
        ensures
            r matches Value::String(s) && s@ == zoned_text_of(*self),
    {
        Value::String(zoned_text(self))
    }
}

/// Scalar `Duration`: a string in ISO 8601 format.
impl ScalarType for jiff::Span {
    fn parse(value: Value) -> (r: Result<jiff::Span, InputValueError>)
        ensures
            string_scalar_read(
                value,
                r,
                |s: Seq<char>| span_parses(s),
                |s: Seq<char>| span_of(s),
                |s: Seq<char>| span_error_of(s),
            ),
    {
        match value {
            Value::String(s) => match parse_span(s.as_str()) {
                Ok(t) => Ok(t),
                Err(e) => Err(InputValueError::Custom { message: error_text(&e) }),
            },
            other => Err(InputValueError::ExpectedType { found: other }),
        }
    }

    fn to_value(&self) -> (r: Value)
        ensures
            r matches Value::String(s) && s@ == span_text_of(*self),
    {
        Value::String(span_text(self))
    }
}

} // verus!
