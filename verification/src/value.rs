//! GraphQL values and their mathematical model.
use vstd::prelude::*;

verus! {

/// The name of a field or of an object entry.
pub type Name = String;

/// A resolved GraphQL value. Objects keep their entries in insertion order.
#[derive(Debug, PartialEq)]
pub enum Value {
    Null,
    Number(i64),
    String(String),
    Boolean(bool),
    Binary(Vec<u8>),
    Enum(Name),
    List(Vec<Value>),
    Object(Vec<(Name, Value)>),
}

/// The mathematical model of a [`Value`].
pub enum SpecValue {
    Null,
    Number(i64),
    String(Seq<char>),
    Boolean(bool),
    Binary(Seq<u8>),
    Enum(Seq<char>),
    List(Seq<SpecValue>),
    Object(Seq<(Seq<char>, SpecValue)>),
}

/// The model of a value.
pub open spec fn value_view(v: Value) -> SpecValue
    decreases v, 1nat,
{
    match v {
        Value::Null => SpecValue::Null,
        Value::Number(n) => SpecValue::Number(n),
        Value::String(s) => SpecValue::String(s@),
        Value::Boolean(b) => SpecValue::Boolean(b),
        Value::Binary(b) => SpecValue::Binary(b@),
        Value::Enum(e) => SpecValue::Enum(e@),
        Value::List(l) => SpecValue::List(list_view(l@)),
        Value::Object(o) => SpecValue::Object(entries_view(o@)),
    }
}

/// The models of a sequence of values.
pub open spec fn list_view(s: Seq<Value>) -> Seq<SpecValue>
    decreases s, 0nat,
{
    if s.len() == 0 {
        Seq::empty()
    } else {
        list_view(s.drop_last()).push(value_view(s.last()))
    }
}

/// The models of a sequence of object entries.
pub open spec fn entries_view(s: Seq<(Name, Value)>) -> Seq<(Seq<char>, SpecValue)>
    decreases s, 0nat,
{
    if s.len() == 0 {
        Seq::empty()
    } else {
        entries_view(s.drop_last()).push((s.last().0@, value_view(s.last().1)))
    }
}

impl View for Value {
    type V = SpecValue;

    open spec fn view(&self) -> SpecValue {
        value_view(*self)
    }
}

} // verus!

verus! {

/// The model of a sequence of values is taken element by element.
pub broadcast proof fn lemma_list_view(s: Seq<Value>)
    ensures
        (#[trigger] list_view(s)).len() == s.len(),
        forall|i: int|
            #![trigger list_view(s)[i]]
            #![trigger s[i]]
            0 <= i < s.len() ==> list_view(s)[i] == value_view(s[i]),
    decreases s.len(),
{
    if s.len() > 0 {
        let p = s.drop_last();
        lemma_list_view(p);
        assert forall|i: int| 0 <= i < s.len() implies list_view(s)[i] == value_view(
            #[trigger] s[i],
        ) by {
            if i < s.len() - 1 {
                assert(p[i] == s[i]);
            }
        }
    }
}

/// The model of a sequence of entries is taken entry by entry.
pub broadcast proof fn lemma_entries_view(s: Seq<(Name, Value)>)
    ensures
        (#[trigger] entries_view(s)).len() == s.len(),
        forall|i: int|
            #![trigger entries_view(s)[i]]
            #![trigger s[i]]
            0 <= i < s.len() ==> entries_view(s)[i] == (s[i].0@, value_view(s[i].1)),
    decreases s.len(),
{
    if s.len() > 0 {
        let p = s.drop_last();
        lemma_entries_view(p);
        assert forall|i: int| 0 <= i < s.len() implies entries_view(s)[i] == (
            (#[trigger] s[i]).0@,
            value_view(s[i].1),
        ) by {
            if i < s.len() - 1 {
                assert(p[i] == s[i]);
            }
        }
    }
}

pub broadcast group group_value_view {
    lemma_list_view,
    lemma_entries_view,
}

} // verus!
