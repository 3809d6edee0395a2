//! Building the response object of a container from its resolved fields.
//!
//! Fields that share a response key (a field selected twice, or once
//! directly and once through a fragment) are merged: objects are merged entry
//! by entry, lists of objects element by element, and in every other case the
//! value that arrived first is kept.
use vstd::prelude::*;
use crate::value::{Name, SpecValue, Value, entries_view, list_view, value_view, group_value_view};
use crate::search::{first_where, lemma_first_where};

verus! {

broadcast use group_value_view;

/// Entries of an object, in the model.
pub type SpecEntries = Seq<(Seq<char>, SpecValue)>;

/// Index of the first entry with key `k`, or `-1` when there is none.
pub open spec fn key_index(s: SpecEntries, k: Seq<char>) -> int {
    first_where(s, entry_has_key(k))
}

/// Whether an entry has the key `k`.
pub open spec fn entry_has_key(k: Seq<char>) -> spec_fn((Seq<char>, SpecValue)) -> bool {
    |e: (Seq<char>, SpecValue)| e.0 == k
}

/// The first entry with key `k` is at `key_index(s, k)`; there is none when
/// it is `-1`.
pub proof fn lemma_key_index(s: SpecEntries, k: Seq<char>)
    ensures
        -1 <= key_index(s, k) < s.len(),
        key_index(s, k) == -1 ==> forall|i: int| 0 <= i < s.len() ==> (#[trigger] s[i]).0 != k,
        key_index(s, k) >= 0 ==> s[key_index(s, k)].0 == k && forall|i: int|
            0 <= i < key_index(s, k) ==> (#[trigger] s[i]).0 != k,
{
    lemma_first_where(s, entry_has_key(k));
}

/// `new` merged into `prev`, the value that arrived first.
pub open spec fn merge_value(prev: SpecValue, new: SpecValue) -> SpecValue
    decreases new, 0nat,
{
    match prev {
        SpecValue::Object(t) => match new {
            SpecValue::Object(o) => SpecValue::Object(insert_entries(t, o)),
            _ => prev,
        },
        SpecValue::List(tl) => match new {
            SpecValue::List(l) => SpecValue::List(merge_list(tl, l)),
            _ => prev,
        },
        _ => prev,
    }
}

/// The entry `(k, v)` inserted into `t`: appended when `k` is new, merged
/// into the existing entry otherwise.
pub open spec fn insert_entry(t: SpecEntries, k: Seq<char>, v: SpecValue) -> SpecEntries
    decreases v, 1nat,
{
    let i = key_index(t, k);
    if i < 0 {
        t.push((k, v))
    } else {
        t.update(i, (t[i].0, merge_value(t[i].1, v)))
    }
}

/// The entries of `o` inserted into `t` one after the other.
pub open spec fn insert_entries(t: SpecEntries, o: SpecEntries) -> SpecEntries
    decreases o, 0nat,
{
    if o.len() == 0 {
        t
    } else {
        insert_entry(insert_entries(t, o.drop_last()), o.last().0, o.last().1)
    }
}

/// The list `l` merged into `tl`: each object of `l` is merged into the
/// object at the same position of `tl`; everything else of `l` is dropped.
pub open spec fn merge_list(tl: Seq<SpecValue>, l: Seq<SpecValue>) -> Seq<SpecValue>
    decreases l, 0nat,
{
    if l.len() == 0 {
        tl
    } else {
        let r = merge_list(tl, l.drop_last());
        let i = l.len() - 1;
        if i < r.len() && r[i] is Object && l[i] is Object {
            r.update(i, SpecValue::Object(insert_entries(r[i]->Object_0, l[i]->Object_0)))
        } else {
            r
        }
    }
}

} // verus!

verus! {

/// Position of the first entry of `target` whose key is `name`.
fn find_key(target: &Vec<(Name, Value)>, name: &Name) -> (r: Option<usize>)
    ensures
        match r {
            Some(i) => i < target.len() && i == key_index(entries_view(target@), name@),
            None => key_index(entries_view(target@), name@) == -1,
        },
{
    let ghost t = entries_view(target@);
    let n = target.len();
    let mut i: usize = 0;
    while i < n
        invariant
            n == target.len(),
            t == entries_view(target@),
            i <= n,
            forall|m: int| 0 <= m < i ==> (#[trigger] t[m]).0 != name@,
        decreases n - i,
    {
        proof {
            lemma_key_index(t, name@);
        }
        if target[i].0 == *name {
            return Some(i);
        }
        i = i + 1;
    }
    proof {
        lemma_key_index(t, name@);
    }
    None
}

/// Inserts the entry `(name, value)` into the object entries `target`:
/// appends it when no entry has that key, and merges `value` into the
/// existing entry otherwise.
pub fn insert_value(target: &mut Vec<(Name, Value)>, name: Name, value: Value)
    ensures
        entries_view(final(target)@) == insert_entry(entries_view(old(target)@), name@, value@),
    decreases value, 1nat,
{
    match find_key(target, &name) {
        None => {
            target.push((name, value));
            assert(entries_view(target@) =~= entries_view(old(target)@).push((name@, value@)));
        },
        Some(i) => {
            let (k, prev) = target.remove(i);
            let merged = merge_values(prev, value);
            target.insert(i, (k, merged));
            let ghost t = entries_view(old(target)@);
            assert(entries_view(target@) =~= t.update(i as int, (t[i as int].0, merge_value(t[i as int].1, value@))));
        },
    }
}

/// `value` merged into `prev`, the value that arrived first.
fn merge_values(prev: Value, value: Value) -> (r: Value)
    ensures
        r@ == merge_value(prev@, value@),
    decreases value, 0nat,
{
    match prev {
        Value::Object(mut tm) => match value {
            Value::Object(obj) => {
                insert_values(&mut tm, obj);
                Value::Object(tm)
            },
            _ => Value::Object(tm),
        },
        Value::List(mut tl) => match value {
            Value::List(l) => {
                merge_list_values(&mut tl, l);
                Value::List(tl)
            },
            _ => Value::List(tl),
        },
        other => other,
    }
}

/// Inserts every entry of `obj`, in order, into `target`.
fn insert_values(target: &mut Vec<(Name, Value)>, obj: Vec<(Name, Value)>)
    ensures
        entries_view(final(target)@) == insert_entries(entries_view(old(target)@), entries_view(obj@)),
    decreases obj, 0nat,
{
    let ghost t0 = entries_view(target@);
    let ghost o = obj@;
    for e in it: obj
        invariant
            it.seq() == o,
            entries_view(target@) == insert_entries(t0, entries_view(o.take(it.index() as int))),
    {
        let ghost j = it.index() as int;
        let ghost before = entries_view(target@);
        assert(o.take(j + 1).drop_last() =~= o.take(j));
        assert(o.take(j + 1).last() == o[j]);
        assert(e == o[j]);
        let (k, v) = e;
        insert_value(target, k, v);
        assert(entries_view(target@) == insert_entry(before, o[j].0@, value_view(o[j].1)));
        assert(before == insert_entries(t0, entries_view(o.take(j))));
        let ghost x = entries_view(o.take(j + 1));
        assert(x.drop_last() =~= entries_view(o.take(j)));
        assert(x.last() == (o[j].0@, value_view(o[j].1)));
        assert(entries_view(o.take(j + 1)) == entries_view(o.take(j)).push((o[j].0@, value_view(o[j].1))));
    }
    assert(o.take(o.len() as int) =~= o);
}

/// Merges each object of `l` into the object at the same position of `tl`.
fn merge_list_values(tl: &mut Vec<Value>, l: Vec<Value>)
    ensures
        list_view(final(tl)@) == merge_list(list_view(old(tl)@), list_view(l@)),
    decreases l, 0nat,
{
    let ghost t0 = list_view(tl@);
    let ghost s = l@;
    let n = l.len();
    let mut idx: usize = 0;
    for item in it: l
        invariant
            it.seq() == s,
            idx == it.index(),
            idx <= s.len(),
            s.len() == n,
            list_view(tl@) == merge_list(t0, list_view(s.take(idx as int))),
    {
        let ghost before = list_view(tl@);
        assert(s.take(idx + 1).drop_last() =~= s.take(idx as int));
        assert(s.take(idx + 1).last() == s[idx as int]);
        assert(list_view(s.take(idx + 1)) == list_view(s.take(idx as int)).push(value_view(s[idx as int])));
        let ghost x = list_view(s.take(idx + 1));
        assert(x.drop_last() =~= list_view(s.take(idx as int)));
        assert(x.last() == value_view(s[idx as int]));
        assert(item == s[idx as int]);
        assert(idx < s.len());
        if idx < tl.len() {
            match item {
                Value::Object(obj) => {
                    let slot = tl.remove(idx);
                    match slot {
                        Value::Object(mut tm) => {
                            insert_values(&mut tm, obj);
                            tl.insert(idx, Value::Object(tm));
                        },
                        other => {
                            tl.insert(idx, other);
                        },
                    }
                },
                _ => {},
            }
        }
        idx = idx + 1;
    }
    assert(s.take(s.len() as int) =~= s);
}

/// The object built from the resolved fields of a container, in the order
/// the fields were selected.
pub fn create_value_object(values: Vec<(Name, Value)>) -> (r: Value)
    ensures
        r@ == SpecValue::Object(insert_entries(Seq::empty(), entries_view(values@))),
{
    let mut map: Vec<(Name, Value)> = Vec::new();
    assert(entries_view(map@) =~= Seq::<(Seq<char>, SpecValue)>::empty());
    insert_values(&mut map, values);
    Value::Object(map)
}

} // verus!

verus! {

/// No two entries share a key.
pub open spec fn keys_distinct(e: SpecEntries) -> bool {
    forall|i: int, j: int| 0 <= i < j < e.len() ==> (#[trigger] e[i]).0 != (#[trigger] e[j]).0
}

/// Some entry of `e` has key `k`.
pub open spec fn has_key(e: SpecEntries, k: Seq<char>) -> bool {
    exists|i: int| 0 <= i < e.len() && (#[trigger] e[i]).0 == k
}

/// Inserting an entry keeps the keys already there, in their places, and
/// adds the new key at the end when it was absent.
proof fn lemma_insert_entry_keys(t: SpecEntries, k: Seq<char>, v: SpecValue)
    ensures
        ({
            let r = insert_entry(t, k, v);
            &&& has_key(t, k) ==> r.len() == t.len()
            &&& !has_key(t, k) ==> r == t.push((k, v))
            &&& t.len() <= r.len()
            &&& forall|i: int| 0 <= i < t.len() ==> (#[trigger] r[i]).0 == t[i].0
            &&& has_key(r, k)
            &&& forall|q: Seq<char>| has_key(r, q) <==> (has_key(t, q) || q == k)
            &&& keys_distinct(t) ==> keys_distinct(r)
        }),
{
    lemma_key_index(t, k);
    let r = insert_entry(t, k, v);
    let i = key_index(t, k);
    if i >= 0 {
        assert(has_key(t, k));
        assert(r[i].0 == k);
        assert forall|q: Seq<char>| has_key(r, q) <==> (has_key(t, q) || q == k) by {
            if has_key(r, q) {
                let j = choose|j: int| 0 <= j < r.len() && (#[trigger] r[j]).0 == q;
                assert(t[j].0 == q);
            }
            if has_key(t, q) {
                let j = choose|j: int| 0 <= j < t.len() && (#[trigger] t[j]).0 == q;
                assert(r[j].0 == q);
            }
        }
    } else {
        assert(!has_key(t, k));
        assert(r[t.len() as int].0 == k);
        assert forall|q: Seq<char>| has_key(r, q) <==> (has_key(t, q) || q == k) by {
            if has_key(r, q) {
                let j = choose|j: int| 0 <= j < r.len() && (#[trigger] r[j]).0 == q;
                if j < t.len() {
                    assert(t[j].0 == q);
                }
            }
            if has_key(t, q) {
                let j = choose|j: int| 0 <= j < t.len() && (#[trigger] t[j]).0 == q;
                assert(r[j].0 == q);
            }
        }
    }
}

/// Inserting entries keeps the keys already there, in their places; the
/// keys afterwards are those of `t` and those of `o`; and the keys stay
/// distinct.
pub proof fn lemma_insert_entries_keys(t: SpecEntries, o: SpecEntries)
    ensures
        ({
            let r = insert_entries(t, o);
            &&& t.len() <= r.len()
            &&& forall|i: int| 0 <= i < t.len() ==> (#[trigger] r[i]).0 == t[i].0
            &&& forall|q: Seq<char>| has_key(r, q) <==> (has_key(t, q) || has_key(o, q))
            &&& keys_distinct(t) ==> keys_distinct(r)
        }),
    decreases o.len(),
{
    if o.len() > 0 {
        let p = o.drop_last();
        lemma_insert_entries_keys(t, p);
        let m = insert_entries(t, p);
        lemma_insert_entry_keys(m, o.last().0, o.last().1);
        assert forall|q: Seq<char>| has_key(o, q) <==> (has_key(p, q) || q == o.last().0) by {
            if has_key(o, q) {
                let j = choose|j: int| 0 <= j < o.len() && (#[trigger] o[j]).0 == q;
                if j < p.len() {
                    assert(p[j] == o[j]);
                }
            }
            if has_key(p, q) {
                let j = choose|j: int| 0 <= j < p.len() && (#[trigger] p[j]).0 == q;
                assert(p[j] == o[j]);
            }
            if q == o.last().0 {
                assert(o[o.len() - 1].0 == q);
            }
        }
    }
}

/// Entries with distinct keys inserted into an object that has none of
/// them are appended as they are.
pub proof fn lemma_insert_entries_fresh(t: SpecEntries, o: SpecEntries)
    requires
        keys_distinct(o),
        forall|q: Seq<char>| has_key(o, q) ==> !has_key(t, q),
    ensures
        insert_entries(t, o) == t + o,
    decreases o.len(),
{
    if o.len() > 0 {
        let p = o.drop_last();
        assert forall|i: int, j: int| 0 <= i < j < p.len() implies (#[trigger] p[i]).0 != (
        #[trigger] p[j]).0 by {
            assert(p[i] == o[i] && p[j] == o[j]);
        }
        assert forall|q: Seq<char>| has_key(p, q) implies !has_key(t, q) by {
            let j = choose|j: int| 0 <= j < p.len() && (#[trigger] p[j]).0 == q;
            assert(o[j].0 == q);
        }
        lemma_insert_entries_fresh(t, p);
        let k = o.last().0;
        assert(o[o.len() - 1].0 == k);
        assert(has_key(o, k));
        assert(!has_key(t + p, k)) by {
            if has_key(t + p, k) {
                let j = choose|j: int| 0 <= j < (t + p).len() && (#[trigger] (t + p)[j]).0 == k;
                if j < t.len() {
                    assert(t[j].0 == k);
                } else {
                    assert(p[j - t.len()] == o[j - t.len()]);
                }
            }
        }
        lemma_insert_entry_keys(t + p, k, o.last().1);
        assert((t + p).push(o.last()) =~= t + o);
    }
}

/// The keys of the object built from a container's fields are distinct,
/// and they are exactly the response keys of the fields.
pub proof fn law_object_keys(values: Seq<(Name, Value)>)
    ensures
        ({
            let r = insert_entries(Seq::empty(), entries_view(values));
            &&& keys_distinct(r)
            &&& forall|q: Seq<char>| has_key(r, q) <==> has_key(entries_view(values), q)
        }),
{
    lemma_insert_entries_keys(Seq::empty(), entries_view(values));
}

/// Fields whose response keys are all distinct are returned as they are,
/// in the order in which they were selected.
pub proof fn law_distinct_fields_unchanged(values: Seq<(Name, Value)>)
    requires
        keys_distinct(entries_view(values)),
    ensures
        insert_entries(Seq::empty(), entries_view(values)) == entries_view(values),
{
    let e: SpecEntries = Seq::empty();
    lemma_insert_entries_fresh(e, entries_view(values));
    assert(e + entries_view(values) =~= entries_view(values));
}

} // verus!

verus! {

/// When a response key is selected more than once, a value that is neither
/// an object nor a list is kept as it first arrived.
pub proof fn law_first_leaf_value_kept(prev: SpecValue, new: SpecValue)
    requires
        !(prev is Object),
        !(prev is List),
    ensures
        merge_value(prev, new) == prev,
{
}

/// Merging an object into an object keeps the keys of the first in their
/// places; the keys afterwards are those of either.
pub proof fn law_object_merge_keys(t: SpecEntries, o: SpecEntries)
    ensures
        ({
            let r = match merge_value(SpecValue::Object(t), SpecValue::Object(o)) {
                SpecValue::Object(r) => r,
                _ => Seq::empty(),
            };
            &&& forall|i: int| 0 <= i < t.len() ==> (#[trigger] r[i]).0 == t[i].0
            &&& forall|q: Seq<char>| has_key(r, q) <==> (has_key(t, q) || has_key(o, q))
            &&& keys_distinct(t) ==> keys_distinct(r)
        }),
{
    lemma_insert_entries_keys(t, o);
}

} // verus!

verus! {

/// A value whose objects, at every depth, have distinct keys.
pub open spec fn value_wf(v: SpecValue) -> bool
    decreases v,
{
    match v {
        SpecValue::Object(e) => keys_distinct(e) && forall|i: int|
            0 <= i < e.len() ==> value_wf(#[trigger] e[i].1),
        SpecValue::List(l) => forall|i: int| 0 <= i < l.len() ==> value_wf(#[trigger] l[i]),
        _ => true,
    }
}

/// A field selected twice under one response key gives what it gives when
/// selected once: a well-formed value merged into itself is unchanged.
pub proof fn law_merge_idempotent(v: SpecValue)
    requires
        value_wf(v),
    ensures
        merge_value(v, v) == v,
    decreases v, 1nat, 0int,
{
    match v {
        SpecValue::Object(e) => {
            lemma_insert_self(e, e.len() as int);
            assert(e.take(e.len() as int) =~= e);
        },
        SpecValue::List(l) => {
            lemma_merge_list_self(l, l.len() as int);
            assert(l.take(l.len() as int) =~= l);
        },
        _ => {},
    }
}

/// Inserting the first `m` entries of a well-formed object into itself
/// leaves it unchanged.
proof fn lemma_insert_self(e: SpecEntries, m: int)
    requires
        keys_distinct(e),
        forall|i: int| 0 <= i < e.len() ==> value_wf(#[trigger] e[i].1),
        0 <= m <= e.len(),
    ensures
        insert_entries(e, e.take(m)) == e,
    decreases SpecValue::Object(e), 0nat, m,
{
    if m > 0 {
        lemma_insert_self(e, m - 1);
        assert(e.take(m).drop_last() =~= e.take(m - 1));
        assert(e.take(m).last() == e[m - 1]);
        let k = e[m - 1].0;
        lemma_key_index(e, k);
        assert(key_index(e, k) == m - 1);
        let ov = SpecValue::Object(e);
        assert(decreases_to!(ov => ov->Object_0));
        assert(decreases_to!(e => e[m - 1]));
        assert(decreases_to!(e[m - 1] => e[m - 1].1));
        law_merge_idempotent(e[m - 1].1);
        assert(insert_entries(e, e.take(m)) == insert_entry(e, k, e[m - 1].1));
        assert(e.update(m - 1, (e[m - 1].0, merge_value(e[m - 1].1, e[m - 1].1))) =~= e);
    } else {
        assert(e.take(0) =~= Seq::<(Seq<char>, SpecValue)>::empty());
    }
}

/// Merging the first `m` elements of a well-formed list into itself leaves
/// it unchanged.
proof fn lemma_merge_list_self(l: Seq<SpecValue>, m: int)
    requires
        forall|i: int| 0 <= i < l.len() ==> value_wf(#[trigger] l[i]),
        0 <= m <= l.len(),
    ensures
        merge_list(l, l.take(m)) == l,
    decreases SpecValue::List(l), 0nat, m,
{
    if m > 0 {
        lemma_merge_list_self(l, m - 1);
        let s = l.take(m);
        assert(s.drop_last() =~= l.take(m - 1));
        assert(s[m - 1] == l[m - 1]);
        if l[m - 1] is Object {
            let lv = SpecValue::List(l);
            assert(decreases_to!(lv => lv->List_0));
            assert(decreases_to!(l => l[m - 1]));
            law_merge_idempotent(l[m - 1]);
            assert(l.update(m - 1, SpecValue::Object(insert_entries(l[m - 1]->Object_0, l[m - 1]->Object_0))) =~= l);
        }
    } else {
        assert(l.take(0) =~= Seq::<SpecValue>::empty());
    }
}

} // verus!

verus! {

/// Merging the list `l` into the list `tl` works position by position: the
/// result is as long as `tl`; at each position where both lists hold an
/// object, it holds `tl`'s object with `l`'s entries inserted; everywhere
/// else it holds what `tl` held.
pub proof fn law_merge_list_pointwise(tl: Seq<SpecValue>, l: Seq<SpecValue>)
    ensures
        merge_list(tl, l).len() == tl.len(),
        forall|i: int|
            0 <= i < tl.len() ==> #[trigger] merge_list(tl, l)[i] == (if i < l.len() && tl[i] is Object
                && l[i] is Object {
                SpecValue::Object(insert_entries(tl[i]->Object_0, l[i]->Object_0))
            } else {
                tl[i]
            }),
    decreases l.len(),
{
    if l.len() > 0 {
        let p = l.drop_last();
        law_merge_list_pointwise(tl, p);
        let r = merge_list(tl, p);
        let n = l.len() - 1;
        assert forall|i: int| 0 <= i < tl.len() implies #[trigger] merge_list(tl, l)[i] == (if i
            < l.len() && tl[i] is Object && l[i] is Object {
            SpecValue::Object(insert_entries(tl[i]->Object_0, l[i]->Object_0))
        } else {
            tl[i]
        }) by {
            assert(r[i] == (if i < p.len() && tl[i] is Object && p[i] is Object {
                SpecValue::Object(insert_entries(tl[i]->Object_0, p[i]->Object_0))
            } else {
                tl[i]
            }));
            if i < p.len() {
                assert(p[i] == l[i]);
            }
        }
    }
}

} // verus!
