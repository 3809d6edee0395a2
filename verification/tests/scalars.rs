use async_graphql::scalars::ScalarType;
use async_graphql::types::InputValueError;
use async_graphql::value::Value;

fn s(x: &str) -> String {
    x.to_string()
}

#[test]
fn timestamp_reads_and_writes_rfc3339() {
    let t = jiff::Timestamp::parse(Value::String(s("2024-03-10T02:05-04"))).unwrap();
    assert_eq!(t.to_value(), Value::String(s("2024-03-10T06:05:00Z")));
}

#[test]
fn timestamp_rejects_bad_text_and_non_strings() {
    assert!(matches!(
        jiff::Timestamp::parse(Value::String(s("yesterday"))),
        Err(InputValueError::Custom { .. })
    ));
    assert_eq!(
        jiff::Timestamp::parse(Value::Number(5)).unwrap_err(),
        InputValueError::ExpectedType { found: Value::Number(5) }
    );
}

#[test]
fn span_reads_and_writes_iso8601() {
    let d = jiff::Span::parse(Value::String(s("P1DT2H"))).unwrap();
    assert_eq!(d.to_value(), Value::String(s("P1DT2H")));
    assert_eq!(
        jiff::Span::parse(Value::Boolean(true)).unwrap_err(),
        InputValueError::ExpectedType { found: Value::Boolean(true) }
    );
    assert!(matches!(jiff::Span::parse(Value::String(s("soon"))), Err(InputValueError::Custom { .. })));
}

#[test]
fn zoned_reads_offset_datetime() {
    let z = jiff::Zoned::parse(Value::String(s("2024-03-10T02:05:00-04:00[-04:00]"))).unwrap();
    assert_eq!(z.to_value(), Value::String(s("2024-03-10T02:05:00-04:00[-04:00]")));
    assert_eq!(
        jiff::Zoned::parse(Value::Null).unwrap_err(),
        InputValueError::ExpectedType { found: Value::Null }
    );
}

#[test]
fn timestamp_reads_back_what_it_writes() {
    for text in ["2024-03-10T02:05:00.123456789-04", "1970-01-01T00:00:00Z", "2005-08-07T23:19:49.5Z"] {
        let t: jiff::Timestamp = text.parse().unwrap();
        assert_eq!(jiff::Timestamp::parse(t.to_value()), Ok(t));
    }
}

#[test]
fn scalar_errors_carry_jiff_messages() {
    let expected = "yesterday".parse::<jiff::Timestamp>().unwrap_err().to_string();
    assert_eq!(
        jiff::Timestamp::parse(Value::String(s("yesterday"))).unwrap_err(),
        InputValueError::Custom { message: expected }
    );
    let expected = "soon".parse::<jiff::Span>().unwrap_err().to_string();
    assert_eq!(
        jiff::Span::parse(Value::String(s("soon"))).unwrap_err(),
        InputValueError::Custom { message: expected }
    );
    assert!(matches!(
        jiff::Zoned::parse(Value::String(s("not a date"))),
        Err(InputValueError::Custom { .. })
    ));
}

#[test]
fn zoned_reads_plain_rfc3339_in_utc() {
    let z = jiff::Zoned::parse(Value::String(s("2024-03-10T02:05:00-04:00"))).unwrap();
    let t: jiff::Timestamp = "2024-03-10T06:05:00Z".parse().unwrap();
    assert_eq!(z, t.to_zoned(jiff::tz::TimeZone::UTC));
    assert_eq!(z.timestamp(), t);
    // A time zone annotation is read by jiff's zoned reader alone.
    assert!(matches!(
        jiff::Zoned::parse(Value::String(s("2024-03-10T02:05:00-04:00[Not/AZone]"))),
        Err(InputValueError::Custom { .. })
    ));
    assert!(matches!(
        jiff::Zoned::parse(Value::String(s("tomorrow"))),
        Err(InputValueError::Custom { .. })
    ));
}
