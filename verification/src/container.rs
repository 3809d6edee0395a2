//! Containers (objects, interfaces, unions) and the collection of the
//! fields that a selection set selects on them.
use vstd::prelude::*;
use crate::value::{Name, SpecValue, Value, entries_view};
use crate::search::{first_where, lemma_first_where};
use crate::merge::{create_value_object, insert_entries};
use crate::error::ServerError;
use crate::query::{
    Field, FragmentDefinition, FragmentSpread, InlineFragment, QueryEnv, SchemaEnv, Selection,
    SelectionSet, key_string, response_key, string_is,
};

verus! {

/// What field collection reads of the container being resolved.
#[derive(Clone, Debug, PartialEq)]
pub struct ContainerInfo {
    /// The type through which the container is selected (for an interface,
    /// the interface).
    pub selected_type: Name,
    /// The name of the concrete object type of the value.
    pub introspection_type_name: Name,
}

/// A field to produce for the response.
#[derive(Debug, PartialEq)]
pub enum FieldTask<'a> {
    /// A `__typename` field: its value is the name of the concrete type.
    Typename { response_key: Name, concrete_type: Name },
    /// A field to resolve on the container whose type is `parent_type`.
    Resolve { field: &'a Field, parent_type: Name },
}

/// The set of fields of a container that are being selected.
pub struct Fields<'a> {
    tasks: Vec<FieldTask<'a>>,
}

impl<'a> View for Fields<'a> {
    type V = Seq<FieldTask<'a>>;

    closed spec fn view(&self) -> Seq<FieldTask<'a>> {
        self.tasks@
    }
}

/// Whether a pair has the key `k`.
pub open spec fn pair_has_key<V>(k: Seq<char>) -> spec_fn((Name, V)) -> bool {
    |e: (Name, V)| e.0@ == k
}

/// Index of the first pair whose key is `k`, or `-1`.
pub open spec fn first_index<V>(s: Seq<(Name, V)>, k: Seq<char>) -> int {
    first_where(s, pair_has_key(k))
}

/// The first pair with key `k` is at `first_index(s, k)`.
pub proof fn lemma_first_index<V>(s: Seq<(Name, V)>, k: Seq<char>)
    ensures
        -1 <= first_index(s, k) < s.len(),
        first_index(s, k) == -1 ==> forall|i: int| 0 <= i < s.len() ==> (#[trigger] s[i]).0@ != k,
        first_index(s, k) >= 0 ==> s[first_index(s, k)].0@ == k && forall|i: int|
            0 <= i < first_index(s, k) ==> (#[trigger] s[i]).0@ != k,
{
    lemma_first_where(s, pair_has_key::<V>(k));
}

/// Position of the first pair of `s` whose key is `k`.
pub fn find_first<'b, V>(s: &'b Vec<(Name, V)>, k: &Name) -> (r: Option<&'b V>)
    ensures
        first_index(s@, k@) >= 0 ==> r == Some(&s@[first_index(s@, k@)].1),
        first_index(s@, k@) < 0 ==> r is None,
{
    let n = s.len();
    let mut i: usize = 0;
    while i < n
        invariant
            n == s@.len(),
            i <= n,
            forall|m: int| 0 <= m < i ==> (#[trigger] s@[m]).0@ != k@,
        decreases n - i,
    {
        proof {
            lemma_first_index(s@, k@);
        }
        if s[i].0 == *k {
            return Some(&s[i].1);
        }
        i = i + 1;
    }
    proof {
        lemma_first_index(s@, k@);
    }
    None
}

/// Whether the schema records that `object_type` implements `interface`.
pub open spec fn implements(schema: SchemaEnv, object_type: Seq<char>, interface: Seq<char>) -> bool {
    let i = first_index(schema.implements@, object_type);
    i >= 0 && exists|j: int|
        0 <= j < schema.implements@[i].1@.len() && (#[trigger] schema.implements@[i].1@[j])@
            == interface
}

/// Whether a fragment with this type condition applies to the concrete
/// object type of the container.
pub open spec fn applies_to_concrete(
    schema: SchemaEnv,
    root: ContainerInfo,
    type_condition: Option<Name>,
) -> bool {
    match type_condition {
        Some(c) => c@ == root.introspection_type_name@ || implements(
            schema,
            root.introspection_type_name@,
            c@,
        ),
        None => false,
    }
}

/// Whether a fragment with this type condition applies to the type
/// through which the container is selected.
pub open spec fn applies_to_selected(root: ContainerInfo, type_condition: Option<Name>) -> bool {
    match type_condition {
        Some(c) => c@ == root.selected_type@,
        None => true,
    }
}

/// The concrete object of a container, on which its fields are resolved
/// once a fragment on the object type applies.
pub open spec fn concrete(root: ContainerInfo) -> ContainerInfo {
    ContainerInfo {
        selected_type: root.introspection_type_name,
        introspection_type_name: root.introspection_type_name,
    }
}

/// The named fragment that a spread refers to.
pub open spec fn spread_target(env: QueryEnv, name: Seq<char>) -> Option<FragmentDefinition> {
    let i = first_index(env.fragments@, name);
    if i >= 0 {
        Some(env.fragments@[i].1)
    } else {
        None
    }
}

/// Every chain of fragment spreads met from `items` is at most `d` long.
pub open spec fn spreads_bounded(env: QueryEnv, items: Seq<Selection>, d: nat) -> bool
    decreases d, items, 0nat,
{
    if items.len() == 0 {
        true
    } else {
        spreads_bounded(env, items.drop_last(), d) && selection_bounded(env, items.last(), d)
    }
}

/// Every chain of fragment spreads met from `sel` is at most `d` long.
pub open spec fn selection_bounded(env: QueryEnv, sel: Selection, d: nat) -> bool
    decreases d, sel, 1nat,
{
    match sel {
        Selection::Field(_) => true,
        Selection::InlineFragment(f) => spreads_bounded(env, f.selection_set.items@, d),
        Selection::FragmentSpread(s) => match spread_target(env, s.fragment_name@) {
            Some(fd) => d > 0 && spreads_bounded(env, fd.selection_set.items@, (d - 1) as nat),
            None => true,
        },
    }
}

/// The fragments reached from `items` do not spread one another in a cycle.
pub open spec fn spreads_terminate(env: QueryEnv, items: Seq<Selection>) -> bool {
    exists|d: nat| spreads_bounded(env, items, d)
}

/// A bound on the chains of fragment spreads met from `items`.
pub open spec fn spread_depth(env: QueryEnv, items: Seq<Selection>) -> nat {
    choose|d: nat| spreads_bounded(env, items, d)
}

/// The fields that `items` select on `root`, in order, and the spread of an
/// unknown fragment at which collection stopped, if any.
pub open spec fn collect_items<'a>(
    env: QueryEnv,
    schema: SchemaEnv,
    items: Seq<Selection>,
    root: ContainerInfo,
    d: nat,
) -> (Seq<FieldTask<'a>>, Option<FragmentSpread>)
    decreases d, items, 0nat,
{
    if items.len() == 0 {
        (Seq::empty(), None)
    } else {
        let p = collect_items(env, schema, items.drop_last(), root, d);
        if p.1 is Some {
            p
        } else {
            let l = collect_selection(env, schema, items.last(), root, d);
            (p.0 + l.0, l.1)
        }
    }
}

/// The fields that one selection selects on `root`.
pub open spec fn collect_selection<'a>(
    env: QueryEnv,
    schema: SchemaEnv,
    sel: Selection,
    root: ContainerInfo,
    d: nat,
) -> (Seq<FieldTask<'a>>, Option<FragmentSpread>)
    decreases d, sel, 1nat,
{
    match sel {
        Selection::Field(f) => if f.name@ == "__typename"@ {
            (
                seq![
                    FieldTask::Typename {
                        response_key: key_string(f),
                        concrete_type: root.introspection_type_name,
                    },
                ],
                None,
            )
        } else {
            (seq![FieldTask::Resolve { field: &f, parent_type: root.selected_type }], None)
        },
        Selection::InlineFragment(f) => if applies_to_concrete(schema, root, f.type_condition) {
            collect_items(env, schema, f.selection_set.items@, concrete(root), d)
        } else if applies_to_selected(root, f.type_condition) {
            collect_items(env, schema, f.selection_set.items@, root, d)
        } else {
            (Seq::empty(), None)
        },
        Selection::FragmentSpread(s) => match spread_target(env, s.fragment_name@) {
            Some(fd) => if d == 0 {
                (Seq::empty(), None)
            } else if applies_to_concrete(schema, root, Some(fd.type_condition)) {
                collect_items(env, schema, fd.selection_set.items@, concrete(root), (d - 1) as nat)
            } else if applies_to_selected(root, Some(fd.type_condition)) {
                collect_items(env, schema, fd.selection_set.items@, root, (d - 1) as nat)
            } else {
                (Seq::empty(), None)
            },
            None => (Seq::empty(), Some(s)),
        },
    }
}

} // verus!

verus! {

/// The message of the error raised by the spread of an unknown fragment.
pub open spec fn unknown_fragment_message(name: Seq<char>) -> Seq<char> {
    "Unknown fragment \""@ + name + "\"."@
}

/// `e` is the error raised by the spread `s` of an unknown fragment.
pub open spec fn is_unknown_fragment_error(e: ServerError, s: FragmentSpread) -> bool {
    &&& e.message@ == unknown_fragment_message(s.fragment_name@)
    &&& e.locations@ == seq![s.pos]
    &&& e.path@.len() == 0
}

/// What `add_set` promises: the tasks it appends, and its result.
pub open spec fn collected<'a>(
    c: (Seq<FieldTask<'a>>, Option<FragmentSpread>),
    before: Seq<FieldTask<'a>>,
    after: Seq<FieldTask<'a>>,
    r: Result<(), ServerError>,
) -> bool {
    &&& after == before + c.0
    &&& match c.1 {
        None => r is Ok,
        Some(s) => r matches Err(e) && is_unknown_fragment_error(e, s),
    }
}

/// Each selection of a bounded selection set is bounded.
proof fn lemma_bounded_items(env: QueryEnv, items: Seq<Selection>, d: nat)
    requires
        spreads_bounded(env, items, d),
    ensures
        forall|j: int| 0 <= j < items.len() ==> selection_bounded(env, #[trigger] items[j], d),
    decreases items.len(),
{
    if items.len() > 0 {
        let p = items.drop_last();
        lemma_bounded_items(env, p, d);
        assert(items.last() == items[items.len() - 1]);
        assert forall|j: int| #![trigger p[j]] #![trigger items[j]] 0 <= j < p.len() implies p[j]
            == items[j] by {}
    }
}

/// Once collection has stopped at an unknown fragment, the selections that
/// follow add nothing.
proof fn lemma_collect_stops<'a>(
    env: QueryEnv,
    schema: SchemaEnv,
    items: Seq<Selection>,
    root: ContainerInfo,
    d: nat,
    k: int,
    m: int,
)
    requires
        0 <= k <= m <= items.len(),
        collect_items::<'a>(env, schema, items.take(k), root, d).1 is Some,
    ensures
        collect_items::<'a>(env, schema, items.take(m), root, d) == collect_items::<'a>(
            env,
            schema,
            items.take(k),
            root,
            d,
        ),
    decreases m - k,
{
    if m > k {
        lemma_collect_stops(env, schema, items, root, d, k, m - 1);
        assert(items.take(m).drop_last() =~= items.take(m - 1));
    }
}

/// The error raised by the spread `s` of an unknown fragment.
fn unknown_fragment(s: &FragmentSpread) -> (e: ServerError)
    ensures
        is_unknown_fragment_error(e, *s),
{
    let mut m = String::from_str("Unknown fragment \"");
    m.append(s.fragment_name.as_str());
    m.append("\".");
    ServerError::new(m, Some(s.pos))
}

/// Whether the schema records that `object_type` implements `interface`.
fn implements_exec(schema: &SchemaEnv, object_type: &Name, interface: &Name) -> (r: bool)
    ensures
        r == implements(*schema, object_type@, interface@),
{
    match find_first(&schema.implements, object_type) {
        None => false,
        Some(list) => {
            let ghost i = first_index(schema.implements@, object_type@);
            proof {
                lemma_first_index(schema.implements@, object_type@);
            }
            let n = list.len();
            let mut j: usize = 0;
            while j < n
                invariant
                    0 <= i < schema.implements@.len(),
                    i == first_index(schema.implements@, object_type@),
                    *list == schema.implements@[i].1,
                    n == list@.len(),
                    j <= n,
                    forall|m: int| 0 <= m < j ==> (#[trigger] list@[m])@ != interface@,
                decreases n - j,
            {
                if list[j] == *interface {
                    assert(schema.implements@[i].1@[j as int]@ == interface@);
                    return true;
                }
                j = j + 1;
            }
            false
        },
    }
}

impl<'a> Fields<'a> {
    /// An empty set of fields.
    pub fn new() -> (r: Fields<'a>)
        ensures
            r@.len() == 0,
    {
        Fields { tasks: Vec::new() }
    }

    /// The fields collected so far, in order.
    pub fn into_tasks(self) -> (r: Vec<FieldTask<'a>>)
        ensures
            r@ == self@,
    {
        self.tasks
    }

    /// Adds the fields that the selection set `set` selects on `root`.
    ///
    /// Fields are added in the order of the selections. A fragment whose type
    /// condition names the concrete object type (or an interface that type
    /// implements) adds its fields as selected on the concrete object; one
    /// without a type condition, or on the type through which the container
    /// is selected, adds them as selected on that type; any other fragment
    /// adds nothing. The spread of an unknown fragment stops the collection
    /// with an error.
    pub fn add_set(
        &mut self,
        env: &'a QueryEnv,
        schema: &SchemaEnv,
        set: &'a SelectionSet,
        root: &ContainerInfo,
    ) -> (r: Result<(), ServerError>)
        requires
            spreads_terminate(*env, set.items@),
        ensures
            collected(
                collect_items(*env, *schema, set.items@, *root, spread_depth(*env, set.items@)),
                old(self)@,
                final(self)@,
                r,
            ),
    {
        let ghost d = spread_depth(*env, set.items@);
        self.add_items(env, schema, set, root, Ghost(d))
    }

    fn add_items(
        &mut self,
        env: &'a QueryEnv,
        schema: &SchemaEnv,
        set: &'a SelectionSet,
        root: &ContainerInfo,
        Ghost(d): Ghost<nat>,
    ) -> (r: Result<(), ServerError>)
        requires
            spreads_bounded(*env, set.items@, d),
        ensures
            collected(collect_items(*env, *schema, set.items@, *root, d), old(self)@, final(self)@, r),
        decreases d, set, 0nat,
    {
        let ghost items = set.items@;
        let ghost start = self@;
        proof {
            lemma_bounded_items(*env, items, d);
        }
        let n = set.items.len();
        let mut j: usize = 0;
        while j < n
            invariant
                n == items.len(),
                items == set.items@,
                start == old(self)@,
                j <= n,
                forall|k: int| 0 <= k < items.len() ==> selection_bounded(*env, #[trigger] items[k], d),
                collect_items::<'a>(*env, *schema, items.take(j as int), *root, d).1 is None,
                self@ == start + collect_items::<'a>(*env, *schema, items.take(j as int), *root, d).0,
            decreases n - j,
        {
            let ghost before = self@;
            assert(items.take(j + 1).drop_last() =~= items.take(j as int));
            assert(items.take(j + 1).last() == items[j as int]);
            let sel = &set.items[j];
            match sel {
                Selection::Field(f) => {
                    if string_is(&f.name, "__typename") {
                        let key = f.response_key().clone();
                        self.tasks.push(
                            FieldTask::Typename {
                                response_key: key,
                                concrete_type: root.introspection_type_name.clone(),
                            },
                        );
                    } else {
                        self.tasks.push(
                            FieldTask::Resolve { field: f, parent_type: root.selected_type.clone() },
                        );
                    }
                },
                Selection::InlineFragment(f) => {
                    let tc = match &f.type_condition {
                        Some(c) => Some(c),
                        None => None,
                    };
                    assert(match tc {
                        Some(c) => Some(*c),
                        None => None,
                    } == f.type_condition);
                    let r = self.add_fragment(env, schema, tc, &f.selection_set, root, Ghost(d));
                    assert(collect_selection::<'a>(*env, *schema, items[j as int], *root, d) == 
                        (if applies_to_concrete(*schema, *root, f.type_condition) {
                        collect_items(*env, *schema, f.selection_set.items@, concrete(*root), d)
                    } else if applies_to_selected(*root, f.type_condition) {
                        collect_items(*env, *schema, f.selection_set.items@, *root, d)
                    } else {
                        (Seq::empty(), None)
                    }));
                    if r.is_err() {
                        assert(collect_items::<'a>(*env, *schema, items.take(j + 1), *root, d).1 is Some);
                        proof {
                            lemma_collect_stops(*env, *schema, items, *root, d, j + 1, items.len() as int);
                            assert(items.take(items.len() as int) =~= items);
                            assert(self@ =~= start + collect_items::<'a>(*env, *schema, items, *root, d).0);
                        }
                        return r;
                    }
                },
                Selection::FragmentSpread(s) => {
                    match find_first(&env.fragments, &s.fragment_name) {
                        None => {
                            proof {
                                lemma_collect_stops(*env, *schema, items, *root, d, j + 1, items.len() as int);
                                assert(items.take(items.len() as int) =~= items);
                                assert(self@ =~= start + collect_items::<'a>(*env, *schema, items, *root, d).0);
                            }
                            return Err(unknown_fragment(s));
                        },
                        Some(fd) => {
                            let r = self.add_fragment(
                                env,
                                schema,
                                Some(&fd.type_condition),
                                &fd.selection_set,
                                root,
                                Ghost((d - 1) as nat),
                            );
                            assert(d > 0);
                            assert(collect_selection::<'a>(*env, *schema, items[j as int], *root, d) == 
                                (if applies_to_concrete(*schema, *root, Some(fd.type_condition)) {
                                collect_items(*env, *schema, fd.selection_set.items@, concrete(*root), (d - 1) as nat)
                            } else if applies_to_selected(*root, Some(fd.type_condition)) {
                                collect_items(*env, *schema, fd.selection_set.items@, *root, (d - 1) as nat)
                            } else {
                                (Seq::empty(), None)
                            }));
                            if r.is_err() {
                                assert(collect_items::<'a>(*env, *schema, items.take(j + 1), *root, d).1 is Some);
                                proof {
                                    lemma_collect_stops(*env, *schema, items, *root, d, j + 1, items.len() as int);
                                    assert(items.take(items.len() as int) =~= items);
                                    assert(self@ =~= start + collect_items::<'a>(*env, *schema, items, *root, d).0);
                                }
                                return r;
                            }
                        },
                    }
                },
            }
            j = j + 1;
        }
        assert(items.take(n as int) =~= items);
        Ok(())
    }

    fn add_fragment(
        &mut self,
        env: &'a QueryEnv,
        schema: &SchemaEnv,
        type_condition: Option<&Name>,
        set: &'a SelectionSet,
        root: &ContainerInfo,
        Ghost(d): Ghost<nat>,
    ) -> (r: Result<(), ServerError>)
        requires
            spreads_bounded(*env, set.items@, d),
        ensures
            ({
                let tc = match type_condition {
                    Some(c) => Some(*c),
                    None => None,
                };
                collected(
                    if applies_to_concrete(*schema, *root, tc) {
                        collect_items(*env, *schema, set.items@, concrete(*root), d)
                    } else if applies_to_selected(*root, tc) {
                        collect_items(*env, *schema, set.items@, *root, d)
                    } else {
                        (Seq::empty(), None)
                    },
                    old(self)@,
                    final(self)@,
                    r,
                )
            }),
        decreases d, set, 1nat,
    {
        let applies_concrete = match type_condition {
            Some(c) => *c == root.introspection_type_name || implements_exec(
                schema,
                &root.introspection_type_name,
                c,
            ),
            None => false,
        };
        if applies_concrete {
            let inner = ContainerInfo {
                selected_type: root.introspection_type_name.clone(),
                introspection_type_name: root.introspection_type_name.clone(),
            };
            self.add_items(env, schema, set, &inner, Ghost(d))
        } else {
            let applies_selected = match type_condition {
                Some(c) => *c == root.selected_type,
                None => true,
            };
            if applies_selected {
                self.add_items(env, schema, set, root, Ghost(d))
            } else {
                assert(old(self)@ + Seq::<FieldTask<'a>>::empty() =~= self@);
                Ok(())
            }
        }
    }
}

} // verus!

verus! {

/// A GraphQL container type: an object, an interface or a union.
pub trait ContainerType {
    /// The name of the type.
    spec fn spec_graphql_type_name() -> Seq<char>;

    /// The name of the concrete object type of this value.
    spec fn spec_introspection_type_name(&self) -> Seq<char>;

    /// Whether this is the type of an empty mutation root.
    fn is_empty() -> (r: bool)
        default_ensures
            !r,
    {
        false
    }

    /// The name of the type.
    fn graphql_type_name() -> (r: String)
        ensures
            r@ == Self::spec_graphql_type_name(),
    ;

    /// The name of the concrete object type of this value.
    fn introspection_type_name(&self) -> (r: String)
        ensures
            r@ == self.spec_introspection_type_name(),
    ;

    /// Adds the fields that `set` selects on this container to `fields`.
    fn collect_all_fields<'a>(
        &self,
        env: &'a QueryEnv,
        schema: &SchemaEnv,
        set: &'a SelectionSet,
        fields: &mut Fields<'a>,
    ) -> (r: Result<(), ServerError>)
        requires
            spreads_terminate(*env, set.items@),
        ensures
            exists|root: ContainerInfo|
                root.selected_type@ == Self::spec_graphql_type_name()
                    && root.introspection_type_name@ == self.spec_introspection_type_name()
                    && collected(
                    #[trigger] collect_items(*env, *schema, set.items@, root, spread_depth(*env, set.items@)),
                    old(fields)@,
                    final(fields)@,
                    r,
                ),
    {
        let root = ContainerInfo {
            selected_type: Self::graphql_type_name(),
            introspection_type_name: self.introspection_type_name(),
        };
        fields.add_set(env, schema, set, &root)
    }
}

/// The view of a container that field collection works with, taken from the
/// value itself.
pub trait DynContainer {
    /// What field collection reads of this container.
    fn container_info(&self) -> (r: ContainerInfo);
}

impl<T: ContainerType> DynContainer for T {
    fn container_info(&self) -> (r: ContainerInfo)
        ensures
            r.selected_type@ == T::spec_graphql_type_name(),
            r.introspection_type_name@ == self.spec_introspection_type_name(),
    {
        ContainerInfo {
            selected_type: T::graphql_type_name(),
            introspection_type_name: self.introspection_type_name(),
        }
    }
}

impl<T: ContainerType> ContainerType for Box<T> {
    open spec fn spec_graphql_type_name() -> Seq<char> {
        T::spec_graphql_type_name()
    }

    open spec fn spec_introspection_type_name(&self) -> Seq<char> {
        (**self).spec_introspection_type_name()
    }

    fn graphql_type_name() -> (r: String) {
        T::graphql_type_name()
    }

    fn introspection_type_name(&self) -> (r: String) {
        (**self).introspection_type_name()
    }
}

/// The message of the error raised when a field is not a field of its type.
pub open spec fn unknown_field_message(field: Seq<char>, ty: Seq<char>) -> Seq<char> {
    "Cannot query field \""@ + field + "\" on type \""@ + ty + "\"."@
}

/// Whether the schema records `field` as a field of the type `ty`.
pub open spec fn has_field(schema: SchemaEnv, ty: Seq<char>, field: Seq<char>) -> bool {
    let i = first_index(schema.types@, ty);
    i >= 0 && exists|j: int|
        0 <= j < schema.types@[i].1@.len() && (#[trigger] schema.types@[i].1@[j])@ == field
}

/// Checks, before extensions or directives see a field, that the schema
/// records it as a field of its parent type; otherwise the error names the
/// field by its response key and is located at the field.
pub fn check_field_in_schema(schema: &SchemaEnv, parent_type: &Name, field: &Field) -> (r: Result<
    (),
    ServerError,
>)
    ensures
        has_field(*schema, parent_type@, field.name@) ==> r is Ok,
        !has_field(*schema, parent_type@, field.name@) ==> (r matches Err(e) && e.message@
            == unknown_field_message(response_key(*field), parent_type@) && e.locations@ == seq![
            field.pos,
        ] && e.path@.len() == 0),
{
    match find_first(&schema.types, parent_type) {
        Some(list) => {
            let ghost i = first_index(schema.types@, parent_type@);
            proof {
                lemma_first_index(schema.types@, parent_type@);
            }
            let n = list.len();
            let mut j: usize = 0;
            while j < n
                invariant
                    0 <= i < schema.types@.len(),
                    i == first_index(schema.types@, parent_type@),
                    *list == schema.types@[i].1,
                    n == list@.len(),
                    j <= n,
                    forall|m: int| 0 <= m < j ==> (#[trigger] list@[m])@ != field.name@,
                decreases n - j,
            {
                if list[j] == field.name {
                    assert(schema.types@[i].1@[j as int]@ == field.name@);
                    return Ok(());
                }
                j = j + 1;
            }
        },
        None => {},
    }
    let mut m = String::from_str("Cannot query field \"");
    m.append(field.response_key().as_str());
    m.append("\" on type \"");
    m.append(parent_type.as_str());
    m.append("\".");
    Err(ServerError::new(m, Some(field.pos)))
}

/// The entry that a field contributes to the response object, from what
/// its resolver returned: a field that resolved to nothing is null.
pub fn field_entry(key: Name, resolved: Result<Option<Value>, ServerError>) -> (r: Result<
    (Name, Value),
    ServerError,
>)
    ensures
        match resolved {
            Ok(Some(v)) => r == Ok::<(Name, Value), ServerError>((key, v)),
            Ok(None) => r == Ok::<(Name, Value), ServerError>((key, Value::Null)),
            Err(e) => r == Err::<(Name, Value), ServerError>(e),
        },
{
    match resolved {
        Ok(Some(v)) => Ok((key, v)),
        Ok(None) => Ok((key, Value::Null)),
        Err(e) => Err(e),
    }
}

/// The entry of a `__typename` field: the name of the concrete type.
pub fn typename_entry(response_key: Name, concrete_type: Name) -> (r: (Name, Value))
    ensures
        r == (response_key, Value::String(concrete_type)),
{
    (response_key, Value::String(concrete_type))
}

/// Index of the first error among `results`, or `-1`.
pub open spec fn first_error<T>(results: Seq<Result<T, ServerError>>) -> int {
    first_where(results, |r: Result<T, ServerError>| r is Err)
}

/// The first error is at `first_error(s)`; there is none when it is `-1`.
pub proof fn lemma_first_error<T>(s: Seq<Result<T, ServerError>>)
    ensures
        -1 <= first_error(s) < s.len(),
        first_error(s) == -1 ==> forall|i: int| 0 <= i < s.len() ==> (#[trigger] s[i]) is Ok,
        first_error(s) >= 0 ==> s[first_error(s)] is Err && forall|i: int|
            0 <= i < first_error(s) ==> (#[trigger] s[i]) is Ok,
{
    lemma_first_where(s, |r: Result<T, ServerError>| r is Err);
}

/// The values of `results`, in order, or the first error among them.
pub(crate) fn all_ok<T>(results: Vec<Result<T, ServerError>>) -> (r: Result<Vec<T>, ServerError>)
    ensures
        first_error(results@) >= 0 ==> r == Err::<Vec<T>, ServerError>(
            results@[first_error(results@)]->Err_0,
        ),
        first_error(results@) < 0 ==> (r matches Ok(v) && v@ == Seq::new(
            results@.len(),
            |i: int| results@[i]->Ok_0,
        )),
{
    let ghost s = results@;
    let mut values: Vec<T> = Vec::new();
    proof {
        lemma_first_error(s);
    }
    for r in it: results
        invariant
            it.seq() == s,
            values@ == Seq::new(it.index() as nat, |i: int| s[i]->Ok_0),
            forall|i: int| 0 <= i < it.index() ==> (#[trigger] s[i]) is Ok,
            -1 <= first_error(s) < s.len(),
            first_error(s) == -1 ==> forall|i: int| 0 <= i < s.len() ==> (#[trigger] s[i]) is Ok,
            first_error(s) >= 0 ==> s[first_error(s)] is Err && forall|i: int|
                0 <= i < first_error(s) ==> (#[trigger] s[i]) is Ok,
    {
        let ghost j = it.index() as int;
        match r {
            Ok(v) => {
                values.push(v);
                assert(values@ =~= Seq::new((j + 1) as nat, |i: int| s[i]->Ok_0));
            },
            Err(e) => {
                assert(s[j] is Err);
                assert(first_error(s) == j);
                return Err(e);
            },
        }
    }
    assert(Seq::new(s.len(), |i: int| s[i]->Ok_0) =~= values@);
    Ok(values)
}

/// The object of a container, built from the entries of its fields taken in
/// order: the first field that failed makes the whole container fail.
pub fn container_value(results: Vec<Result<(Name, Value), ServerError>>) -> (r: Result<
    Value,
    ServerError,
>)
    ensures
        first_error(results@) >= 0 ==> r == Err::<Value, ServerError>(
            results@[first_error(results@)]->Err_0,
        ),
        first_error(results@) < 0 ==> (r matches Ok(v) && v@ == SpecValue::Object(
            insert_entries(
                Seq::empty(),
                entries_view(Seq::new(results@.len(), |i: int| results@[i]->Ok_0)),
            ),
        )),
{
    match all_ok(results) {
        Ok(values) => Ok(create_value_object(values)),
        Err(e) => Err(e),
    }
}

} // verus!

verus! {

/// An inline fragment without a type condition selects exactly what its
/// selections select, on the same container.
pub proof fn law_unconditional_fragment_inlines<'a>(
    env: QueryEnv,
    schema: SchemaEnv,
    f: InlineFragment,
    root: ContainerInfo,
    d: nat,
)
    requires
        f.type_condition is None,
    ensures
        collect_selection::<'a>(env, schema, Selection::InlineFragment(f), root, d)
            == collect_items::<'a>(env, schema, f.selection_set.items@, root, d),
{
}

/// A fragment whose type condition names neither the concrete type of the
/// container, nor an interface it implements, nor the type through which it
/// is selected, selects nothing.
pub proof fn law_foreign_fragment_selects_nothing<'a>(
    env: QueryEnv,
    schema: SchemaEnv,
    f: InlineFragment,
    root: ContainerInfo,
    d: nat,
)
    requires
        f.type_condition matches Some(c) && c@ != root.introspection_type_name@ && c@
            != root.selected_type@ && !implements(schema, root.introspection_type_name@, c@),
    ensures
        collect_selection::<'a>(env, schema, Selection::InlineFragment(f), root, d) == (
            Seq::<FieldTask<'a>>::empty(),
            Option::<FragmentSpread>::None,
        ),
{
}

/// A `__typename` field is answered with the name of the concrete object
/// type, under the field's response key, whatever the container is selected
/// as.
pub proof fn law_typename_is_concrete<'a>(
    env: QueryEnv,
    schema: SchemaEnv,
    f: Field,
    root: ContainerInfo,
    d: nat,
)
    requires
        f.name@ == "__typename"@,
    ensures
        collect_selection::<'a>(env, schema, Selection::Field(f), root, d) == (
            seq![
                FieldTask::Typename {
                    response_key: key_string(f),
                    concrete_type: root.introspection_type_name,
                },
            ],
            Option::<FragmentSpread>::None,
        ),
{
}

/// Fields selected inside a fragment on the concrete object type are
/// resolved on the concrete object, even when the container is selected
/// through an interface.
pub proof fn law_concrete_fragment_resolves_on_object<'a>(
    env: QueryEnv,
    schema: SchemaEnv,
    f: InlineFragment,
    root: ContainerInfo,
    d: nat,
)
    requires
        f.type_condition matches Some(c) && c@ == root.introspection_type_name@,
    ensures
        collect_selection::<'a>(env, schema, Selection::InlineFragment(f), root, d)
            == collect_items::<'a>(env, schema, f.selection_set.items@, concrete(root), d),
{
}

} // verus!

verus! {

/// The mutation root of a schema that has no mutations.
#[derive(Clone, Copy, Debug, Default)]
pub struct EmptyMutation;

impl ContainerType for EmptyMutation {
    open spec fn spec_graphql_type_name() -> Seq<char> {
        "EmptyMutation"@
    }

    open spec fn spec_introspection_type_name(&self) -> Seq<char> {
        "EmptyMutation"@
    }

    fn is_empty() -> (r: bool)
        ensures
            r,
    {
        true
    }

    fn graphql_type_name() -> (r: String) {
        "EmptyMutation".to_owned()
    }

    fn introspection_type_name(&self) -> (r: String) {
        "EmptyMutation".to_owned()
    }
}

} // verus!

verus! {

/// Whether every chain of fragment spreads met from `set` is at most `d`
/// long; when it is, collecting the fields of `set` terminates.
pub fn spreads_within(env: &QueryEnv, set: &SelectionSet, d: usize) -> (r: bool)
    ensures
        r == spreads_bounded(*env, set.items@, d as nat),
    decreases d, set,
{
    let ghost items = set.items@;
    let n = set.items.len();
    let mut j: usize = 0;
    while j < n
        invariant
            n == items.len(),
            items == set.items@,
            j <= n,
            spreads_bounded(*env, items.take(j as int), d as nat),
        decreases n - j,
    {
        assert(items.take(j + 1).drop_last() =~= items.take(j as int));
        assert(items.take(j + 1).last() == items[j as int]);
        let ok = match &set.items[j] {
            Selection::Field(_) => true,
            Selection::InlineFragment(f) => spreads_within(env, &f.selection_set, d),
            Selection::FragmentSpread(s) => match find_first(&env.fragments, &s.fragment_name) {
                None => true,
                Some(fd) => d > 0 && spreads_within(env, &fd.selection_set, d - 1),
            },
        };
        assert(ok == selection_bounded(*env, items[j as int], d as nat));
        if !ok {
            proof {
                lemma_bounded_prefix(*env, items, d as nat, j + 1);
                assert(items.take(items.len() as int) =~= items);
            }
            return false;
        }
        j = j + 1;
    }
    assert(items.take(n as int) =~= items);
    true
}

/// A selection set is bounded only if each of its prefixes is.
proof fn lemma_bounded_prefix(env: QueryEnv, items: Seq<Selection>, d: nat, k: int)
    requires
        0 <= k <= items.len(),
        !spreads_bounded(env, items.take(k), d),
    ensures
        !spreads_bounded(env, items, d),
    decreases items.len() - k,
{
    if k < items.len() {
        assert(items.take(k + 1).drop_last() =~= items.take(k));
        lemma_bounded_prefix(env, items, d, k + 1);
    } else {
        assert(items.take(k) =~= items);
    }
}

} // verus!

verus! {

/// Whether a field is resolved directly by its container, with no extension
/// or directive taking part; otherwise the schema must first record it as a
/// field of its parent type.
pub fn resolves_directly(env: &QueryEnv, field: &Field) -> (r: bool)
    ensures
        r == (!env.has_extensions && field.directives@.len() == 0),
{
    !env.has_extensions && field.directives.len() == 0
}

} // verus!

verus! {

/// The fields collected do not depend on which bound on the chains of
/// fragment spreads is used, as long as it is one.
pub proof fn law_collect_independent_of_bound<'a>(
    env: QueryEnv,
    schema: SchemaEnv,
    items: Seq<Selection>,
    root: ContainerInfo,
    d1: nat,
    d2: nat,
)
    requires
        spreads_bounded(env, items, d1),
        spreads_bounded(env, items, d2),
    ensures
        collect_items::<'a>(env, schema, items, root, d1) == collect_items::<'a>(
            env,
            schema,
            items,
            root,
            d2,
        ),
    decreases d1, items, 0nat,
{
    if items.len() > 0 {
        law_collect_independent_of_bound(env, schema, items.drop_last(), root, d1, d2);
        lemma_collect_selection_bound(env, schema, items.last(), root, d1, d2);
    }
}

proof fn lemma_collect_selection_bound<'a>(
    env: QueryEnv,
    schema: SchemaEnv,
    sel: Selection,
    root: ContainerInfo,
    d1: nat,
    d2: nat,
)
    requires
        selection_bounded(env, sel, d1),
        selection_bounded(env, sel, d2),
    ensures
        collect_selection::<'a>(env, schema, sel, root, d1) == collect_selection::<'a>(
            env,
            schema,
            sel,
            root,
            d2,
        ),
    decreases d1, sel, 1nat,
{
    match sel {
        Selection::Field(_) => {},
        Selection::InlineFragment(f) => {
            law_collect_independent_of_bound(env, schema, f.selection_set.items@, root, d1, d2);
            law_collect_independent_of_bound(
                env,
                schema,
                f.selection_set.items@,
                concrete(root),
                d1,
                d2,
            );
        },
        Selection::FragmentSpread(s) => match spread_target(env, s.fragment_name@) {
            Some(fd) => {
                law_collect_independent_of_bound(
                    env,
                    schema,
                    fd.selection_set.items@,
                    root,
                    (d1 - 1) as nat,
                    (d2 - 1) as nat,
                );
                law_collect_independent_of_bound(
                    env,
                    schema,
                    fd.selection_set.items@,
                    concrete(root),
                    (d1 - 1) as nat,
                    (d2 - 1) as nat,
                );
            },
            None => {},
        },
    }
}

} // verus!

verus! {

/// Resolving the fields of a container in turn, and stopping at the first
/// that fails, gives what resolving them all gives: the results up to and
/// through the first error have that same first error, so `container_value`
/// returns the same error on them as on all the results (and, where no
/// field fails, both build the object from all the entries).
pub proof fn law_serial_stops_at_first_error<T>(s: Seq<Result<T, ServerError>>, k: int)
    requires
        0 <= first_error(s) < k <= s.len(),
    ensures
        first_error(s.take(k)) == first_error(s),
        s.take(k)[first_error(s)] == s[first_error(s)],
{
    lemma_first_error(s);
    lemma_first_error(s.take(k));
    let j = first_error(s);
    let jk = first_error(s.take(k));
    assert(s.take(k)[j] == s[j]);
    if jk >= 0 {
        assert(s.take(k)[jk] == s[jk]);
    }
}

} // verus!

verus! {

/// When every field succeeds, the serial driver (which hands all the
/// results to `container_value`) and the parallel one (which builds the
/// object with `create_value_object` from the entries that it gathers in
/// order) build the object from the same entries, in the same order: no
/// result is an error, and the entries `container_value` takes are exactly
/// those of the results.
pub proof fn law_parallel_agrees_with_serial(
    s: Seq<Result<(Name, Value), ServerError>>,
    v: Seq<(Name, Value)>,
)
    requires
        s.len() == v.len(),
        forall|i: int| 0 <= i < s.len() ==> #[trigger] s[i] == Ok::<(Name, Value), ServerError>(v[i]),
    ensures
        first_error(s) < 0,
        Seq::new(s.len(), |i: int| s[i]->Ok_0) == v,
{
    lemma_first_error(s);
    if first_error(s) >= 0 {
        assert(s[first_error(s)] == Ok::<(Name, Value), ServerError>(v[first_error(s)]));
    }
    assert(Seq::new(s.len(), |i: int| s[i]->Ok_0) =~= v);
}

/// What collecting `p` and then `q` gives: collection stops at the first
/// unknown fragment.
pub open spec fn then_collect<'a>(
    p: (Seq<FieldTask<'a>>, Option<FragmentSpread>),
    q: (Seq<FieldTask<'a>>, Option<FragmentSpread>),
) -> (Seq<FieldTask<'a>>, Option<FragmentSpread>) {
    if p.1 is Some {
        p
    } else {
        (p.0 + q.0, q.1)
    }
}

/// Collecting two selection sets one after the other is collecting the
/// first, then the second.
proof fn lemma_collect_append<'a>(
    env: QueryEnv,
    schema: SchemaEnv,
    a: Seq<Selection>,
    b: Seq<Selection>,
    root: ContainerInfo,
    d: nat,
)
    ensures
        collect_items::<'a>(env, schema, a + b, root, d) == then_collect(
            collect_items::<'a>(env, schema, a, root, d),
            collect_items::<'a>(env, schema, b, root, d),
        ),
    decreases b.len(),
{
    if b.len() == 0 {
        assert(a + b =~= a);
        let p = collect_items::<'a>(env, schema, a, root, d);
        assert(p.0 + Seq::<FieldTask<'a>>::empty() =~= p.0);
    } else {
        lemma_collect_append(env, schema, a, b.drop_last(), root, d);
        assert((a + b).drop_last() =~= a + b.drop_last());
        assert((a + b).last() == b.last());
        let pa = collect_items::<'a>(env, schema, a, root, d);
        let q = collect_items::<'a>(env, schema, b.drop_last(), root, d);
        let l = collect_selection::<'a>(env, schema, b.last(), root, d);
        assert(pa.0 + q.0 + l.0 =~= pa.0 + (q.0 + l.0));
    }
}

/// A single selection collects what it selects.
proof fn lemma_collect_single<'a>(
    env: QueryEnv,
    schema: SchemaEnv,
    x: Selection,
    root: ContainerInfo,
    d: nat,
)
    ensures
        collect_items::<'a>(env, schema, seq![x], root, d) == collect_selection::<'a>(
            env,
            schema,
            x,
            root,
            d,
        ),
        spreads_bounded(env, seq![x], d) == selection_bounded(env, x, d),
{
    let s = seq![x];
    let e = Seq::<Selection>::empty();
    assert(s.drop_last() =~= e);
    assert(s.last() == x);
    assert(collect_items::<'a>(env, schema, e, root, d) == (
        Seq::<FieldTask<'a>>::empty(),
        Option::<FragmentSpread>::None,
    ));
    assert(spreads_bounded(env, e, d));
    let l = collect_selection::<'a>(env, schema, x, root, d);
    assert(Seq::<FieldTask<'a>>::empty() + l.0 =~= l.0);
}

/// Two selection sets one after the other are bounded when each is.
proof fn lemma_bounded_append(env: QueryEnv, a: Seq<Selection>, b: Seq<Selection>, d: nat)
    ensures
        spreads_bounded(env, a + b, d) == (spreads_bounded(env, a, d) && spreads_bounded(
            env,
            b,
            d,
        )),
    decreases b.len(),
{
    if b.len() == 0 {
        assert(a + b =~= a);
    } else {
        lemma_bounded_append(env, a, b.drop_last(), d);
        assert((a + b).drop_last() =~= a + b.drop_last());
        assert((a + b).last() == b.last());
    }
}

/// An inline fragment without a type condition, met among other
/// selections, selects what its selections would select in its place:
/// `{ x ... { y z } w }` collects the same fields, in the same order, as
/// `{ x y z w }`, and one of them stops at an unknown fragment exactly when
/// the other does.
pub proof fn law_fragment_flattens<'a>(
    env: QueryEnv,
    schema: SchemaEnv,
    pre: Seq<Selection>,
    f: InlineFragment,
    post: Seq<Selection>,
    root: ContainerInfo,
)
    requires
        f.type_condition is None,
        spreads_terminate(env, pre + seq![Selection::InlineFragment(f)] + post),
    ensures
        ({
            let a = pre + seq![Selection::InlineFragment(f)] + post;
            let b = pre + f.selection_set.items@ + post;
            &&& spreads_terminate(env, b)
            &&& collect_items::<'a>(env, schema, a, root, spread_depth(env, a)) == collect_items::<'a>(
                env,
                schema,
                b,
                root,
                spread_depth(env, b),
            )
        }),
{
    let x = Selection::InlineFragment(f);
    let a = pre + seq![x] + post;
    let b = pre + f.selection_set.items@ + post;
    let da = spread_depth(env, a);
    assert forall|d: nat| spreads_bounded(env, a, d) == spreads_bounded(env, b, d) by {
        lemma_bounded_append(env, pre + seq![x], post, d);
        lemma_bounded_append(env, pre, seq![x], d);
        lemma_bounded_append(env, pre + f.selection_set.items@, post, d);
        lemma_bounded_append(env, pre, f.selection_set.items@, d);
        lemma_collect_single(env, schema, x, root, d);
    }
    assert(spreads_bounded(env, a, da));
    assert(spreads_bounded(env, b, da));
    let db = spread_depth(env, b);
    assert(spreads_bounded(env, b, db));
    lemma_collect_append(env, schema, pre + seq![x], post, root, da);
    lemma_collect_append(env, schema, pre, seq![x], root, da);
    lemma_collect_single(env, schema, x, root, da);
    lemma_collect_append(env, schema, pre + f.selection_set.items@, post, root, da);
    lemma_collect_append(env, schema, pre, f.selection_set.items@, root, da);
    law_collect_independent_of_bound(env, schema, b, root, da, db);
}

} // verus!

verus! {

/// A spread of a known fragment collects what an inline fragment with the
/// fragment's type condition and selections collects in its place, one
/// step further down the chain of spreads.
pub proof fn law_spread_is_inline_fragment<'a>(
    env: QueryEnv,
    schema: SchemaEnv,
    s: FragmentSpread,
    root: ContainerInfo,
    d: nat,
)
    requires
        spread_target(env, s.fragment_name@) is Some,
        d > 0,
    ensures
        ({
            let fd = spread_target(env, s.fragment_name@)->Some_0;
            collect_selection::<'a>(env, schema, Selection::FragmentSpread(s), root, d)
                == collect_selection::<'a>(
                env,
                schema,
                Selection::InlineFragment(
                    InlineFragment {
                        type_condition: Some(fd.type_condition),
                        selection_set: fd.selection_set,
                    },
                ),
                root,
                (d - 1) as nat,
            )
        }),
{
}

/// A spread of a known fragment on the concrete object type of the
/// container collects, on the concrete object, exactly what the fragment's
/// selections collect.
pub proof fn law_concrete_spread_resolves_on_object<'a>(
    env: QueryEnv,
    schema: SchemaEnv,
    s: FragmentSpread,
    root: ContainerInfo,
    d: nat,
)
    requires
        spread_target(env, s.fragment_name@) matches Some(fd) && fd.type_condition@
            == root.introspection_type_name@,
        d > 0,
    ensures
        ({
            let fd = spread_target(env, s.fragment_name@)->Some_0;
            collect_selection::<'a>(env, schema, Selection::FragmentSpread(s), root, d)
                == collect_items::<'a>(
                env,
                schema,
                fd.selection_set.items@,
                concrete(root),
                (d - 1) as nat,
            )
        }),
{
}

} // verus!
