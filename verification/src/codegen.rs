//! The decisions behind the code generated for derived GraphQL types: which
//! attributes apply, how doc comments are gathered, how default values and
//! resolver arguments are read, and which path a directive call names.
//!
//! The syntax trees themselves are read into the plain shapes below; the
//! tokens are written from the decisions taken here.
use vstd::prelude::*;
use vstd::string::StrSliceExecFns;
use crate::query::{clone_names, string_is};
use crate::search::{first_where, lemma_first_where};

verus! {

/// The path of an attribute, such as `cfg` in `#[cfg(test)]`.
#[derive(Clone, Debug, PartialEq)]
pub struct AttrPath {
    /// Whether the path starts with `::`.
    pub leading_colon: bool,
    /// The identifiers of its segments.
    pub segments: Vec<String>,
}

/// The path is the single identifier `name`.
pub open spec fn path_is_ident(p: AttrPath, name: Seq<char>) -> bool {
    !p.leading_colon && p.segments@.len() == 1 && p.segments@[0]@ == name
}

/// The attribute is a `cfg` attribute.
pub open spec fn is_cfg_attr(p: AttrPath) -> bool {
    p.segments@.len() > 0 && p.segments@[0]@ == "cfg"@
}

/// Positions of the `cfg` attributes among `attrs`, in order.
pub open spec fn cfg_indices(attrs: Seq<AttrPath>) -> Seq<usize>
    decreases attrs.len(),
{
    if attrs.len() == 0 {
        Seq::empty()
    } else {
        let p = cfg_indices(attrs.drop_last());
        if is_cfg_attr(attrs.last()) {
            p.push((attrs.len() - 1) as usize)
        } else {
            p
        }
    }
}

/// Whether `p` is the single identifier `name`.
fn attr_is_ident(p: &AttrPath, name: &str) -> (r: bool)
    ensures
        r == path_is_ident(*p, name@),
{
    !p.leading_colon && p.segments.len() == 1 && string_is(&p.segments[0], name)
}

/// The positions of the `cfg` attributes, which are carried over to the
/// generated items.
pub fn get_cfg_attrs(attrs: &Vec<AttrPath>) -> (r: Vec<usize>)
    ensures
        r@ == cfg_indices(attrs@),
{
    let mut r: Vec<usize> = Vec::new();
    let n = attrs.len();
    for i in 0..n
        invariant
            n == attrs@.len(),
            r@ == cfg_indices(attrs@.take(i as int)),
    {
        assert(attrs@.take(i + 1).drop_last() =~= attrs@.take(i as int));
        assert(attrs@.take(i + 1).last() == attrs@[i as int]);
        let p = &attrs[i];
        if p.segments.len() > 0 && string_is(&p.segments[0], "cfg") {
            r.push(i);
        }
    }
    assert(attrs@.take(n as int) =~= attrs@);
    r
}

/// Index of the first attribute whose path is the single identifier
/// `graphql`, or `-1`.
pub open spec fn graphql_attr_index(attrs: Seq<AttrPath>) -> int {
    first_where(attrs, |a: AttrPath| path_is_ident(a, "graphql"@))
}

/// The `#[graphql(...)]` attribute that the arguments of a derived item are
/// read from, and the one removed from the item: the first one.
pub fn find_graphql_attr(attrs: &Vec<AttrPath>) -> (r: Option<usize>)
    ensures
        match r {
            Some(i) => i < attrs@.len() && i == graphql_attr_index(attrs@),
            None => graphql_attr_index(attrs@) == -1,
        },
{
    let n = attrs.len();
    for i in 0..n
        invariant
            n == attrs@.len(),
            graphql_attr_index(attrs@.take(i as int)) == -1,
    {
        assert(attrs@.take(i + 1).drop_last() =~= attrs@.take(i as int));
        assert(attrs@.take(i + 1).last() == attrs@[i as int]);
        if attr_is_ident(&attrs[i], "graphql") {
            proof {
                lemma_graphql_attr_prefix(attrs@, i + 1, n as int);
                assert(attrs@.take(n as int) =~= attrs@);
            }
            return Some(i);
        }
    }
    assert(attrs@.take(n as int) =~= attrs@);
    None
}

/// Once a `graphql` attribute is found in a prefix, longer prefixes find
/// the same one.
proof fn lemma_graphql_attr_prefix(attrs: Seq<AttrPath>, k: int, m: int)
    requires
        0 <= k <= m <= attrs.len(),
        graphql_attr_index(attrs.take(k)) >= 0,
    ensures
        graphql_attr_index(attrs.take(m)) == graphql_attr_index(attrs.take(k)),
    decreases m - k,
{
    if m > k {
        lemma_graphql_attr_prefix(attrs, k, m - 1);
        assert(attrs.take(m).drop_last() =~= attrs.take(m - 1));
    }
}

/// The attributes of the item with the first `graphql` attribute removed.
pub fn remove_graphql_attrs(attrs: &mut Vec<AttrPath>)
    ensures
        graphql_attr_index(old(attrs)@) == -1 ==> final(attrs)@ == old(attrs)@,
        graphql_attr_index(old(attrs)@) >= 0 ==> final(attrs)@ == old(attrs)@.remove(
            graphql_attr_index(old(attrs)@),
        ),
{
    match find_graphql_attr(attrs) {
        Some(i) => {
            attrs.remove(i);
        },
        None => {},
    }
}

} // verus!

verus! {

/// A `#[doc = ...]` attribute, as the doc gathering reads it.
#[derive(Clone, Debug, PartialEq)]
pub enum DocAttr {
    /// A string literal: a line of the doc comment.
    Text(String),
    /// A macro call (such as `include_str!`), identified by its position.
    Macro(usize),
    /// Any other attribute, or a doc attribute of another form.
    Other,
}

/// A piece of the gathered documentation.
#[derive(Clone, Debug, PartialEq)]
pub enum DocPiece {
    /// Literal text.
    Text(String),
    /// The macro call at the given position, kept as it is.
    Macro(usize),
}

/// The model of a [`DocPiece`].
pub enum SpecDocPiece {
    Text(Seq<char>),
    Macro(usize),
}

/// The model of a piece.
pub open spec fn doc_piece_view(p: DocPiece) -> SpecDocPiece {
    match p {
        DocPiece::Text(t) => SpecDocPiece::Text(t@),
        DocPiece::Macro(m) => SpecDocPiece::Macro(m),
    }
}

/// A character with the Unicode `White_Space` property, which is what
/// `char::is_whitespace` tests.
pub open spec fn is_white_space(c: char) -> bool {
    ||| '\u{9}' <= c <= '\u{d}'
    ||| c == ' '
    ||| c == '\u{85}'
    ||| c == '\u{a0}'
    ||| c == '\u{1680}'
    ||| '\u{2000}' <= c <= '\u{200a}'
    ||| c == '\u{2028}'
    ||| c == '\u{2029}'
    ||| c == '\u{202f}'
    ||| c == '\u{205f}'
    ||| c == '\u{3000}'
}

/// The number of white space characters that `s` starts with.
pub open spec fn leading_white_space(s: Seq<char>) -> nat
    decreases s.len(),
{
    if s.len() > 0 && is_white_space(s[0]) {
        1 + leading_white_space(s.drop_first())
    } else {
        0
    }
}

/// The number of white space characters that `s` ends with.
pub open spec fn trailing_white_space(s: Seq<char>) -> nat
    decreases s.len(),
{
    if s.len() > 0 && is_white_space(s.last()) {
        1 + trailing_white_space(s.drop_last())
    } else {
        0
    }
}

/// `s` without its leading and trailing white space.
pub open spec fn trimmed(s: Seq<char>) -> Seq<char> {
    let a = leading_white_space(s);
    if a >= s.len() {
        Seq::empty()
    } else {
        s.subrange(a as int, s.len() - trailing_white_space(s))
    }
}

/// Whether `c` is white space, as `char::is_whitespace` tells.
fn is_white_space_char(c: char) -> (r: bool)
    ensures
        r == is_white_space(c),
{
    ('\u{9}' <= c && c <= '\u{d}') || c == ' ' || c == '\u{85}' || c == '\u{a0}' || c
        == '\u{1680}' || ('\u{2000}' <= c && c <= '\u{200a}') || c == '\u{2028}' || c
        == '\u{2029}' || c == '\u{202f}' || c == '\u{205f}' || c == '\u{3000}'
}

/// `s` starts with exactly `a` white space characters.
proof fn lemma_leading_white_space(s: Seq<char>, a: int)
    requires
        0 <= a <= s.len(),
        forall|k: int| 0 <= k < a ==> is_white_space(#[trigger] s[k]),
        a == s.len() || !is_white_space(s[a]),
    ensures
        leading_white_space(s) == a,
    decreases a,
{
    if a > 0 {
        let t = s.drop_first();
        assert forall|k: int| 0 <= k < a - 1 implies is_white_space(#[trigger] t[k]) by {
            assert(t[k] == s[k + 1]);
        }
        if a - 1 < t.len() {
            assert(t[a - 1] == s[a]);
        }
        lemma_leading_white_space(t, a - 1);
        assert(is_white_space(s[0]));
    }
}

/// `s` ends with exactly `t` white space characters.
proof fn lemma_trailing_white_space(s: Seq<char>, t: int)
    requires
        0 <= t <= s.len(),
        forall|k: int| s.len() - t <= k < s.len() ==> is_white_space(#[trigger] s[k]),
        t == s.len() || !is_white_space(s[s.len() - t - 1]),
    ensures
        trailing_white_space(s) == t,
    decreases t,
{
    if t > 0 {
        let q = s.drop_last();
        assert forall|k: int| q.len() - (t - 1) <= k < q.len() implies is_white_space(
            #[trigger] q[k],
        ) by {
            assert(q[k] == s[k]);
        }
        if t - 1 < q.len() {
            assert(q[q.len() - (t - 1) - 1] == s[s.len() - t - 1]);
        }
        lemma_trailing_white_space(q, t - 1);
        assert(is_white_space(s[s.len() - 1]));
    }
}

/// The string with its leading and trailing white space removed, white
/// space being what `char::is_whitespace` accepts (as `str::trim` does).
fn trim(s: &str) -> (r: &str)
    ensures
        r@ == trimmed(s@),
{
    let n = s.unicode_len();
    let mut a: usize = 0;
    while a < n
        invariant
            n == s@.len(),
            a <= n,
            forall|k: int| 0 <= k < a ==> is_white_space(#[trigger] s@[k]),
        ensures
            a == n || !is_white_space(s@[a as int]),
        decreases n - a,
    {
        if !is_white_space_char(s.get_char(a)) {
            break;
        }
        a = a + 1;
    }
    proof {
        lemma_leading_white_space(s@, a as int);
    }
    if a == n {
        let r = s.substring_char(0, 0);
        assert(r@ =~= trimmed(s@));
        return r;
    }
    let mut b: usize = n;
    while b > a + 1
        invariant
            n == s@.len(),
            a < b <= n,
            !is_white_space(s@[a as int]),
            forall|k: int| b <= k < n ==> is_white_space(#[trigger] s@[k]),
        ensures
            !is_white_space(s@[b - 1]),
        decreases b,
    {
        if !is_white_space_char(s.get_char(b - 1)) {
            break;
        }
        b = b - 1;
    }
    proof {
        lemma_trailing_white_space(s@, (n - b) as int);
    }
    s.substring_char(a, b)
}

/// The pieces gathered from `attrs`, and the text not yet closed.
pub open spec fn doc_state(attrs: Seq<DocAttr>) -> (Seq<SpecDocPiece>, Seq<char>)
    decreases attrs.len(),
{
    if attrs.len() == 0 {
        (Seq::empty(), Seq::empty())
    } else {
        let (p, c) = doc_state(attrs.drop_last());
        match attrs.last() {
            DocAttr::Text(t) => (p, c + "\n"@ + trimmed(t@)),
            DocAttr::Macro(m) => if c.len() > 0 {
                (p.push(SpecDocPiece::Text(c + "\n"@)).push(SpecDocPiece::Macro(m)), Seq::empty())
            } else {
                (p.push(SpecDocPiece::Macro(m)), Seq::empty())
            },
            DocAttr::Other => (p, c),
        }
    }
}

/// The documentation of an item: its doc lines, each trimmed and preceded
/// by a line break, joined into one text between the macro calls, which are
/// kept in place; none when there is nothing.
pub open spec fn rustdoc(attrs: Seq<DocAttr>) -> Option<Seq<SpecDocPiece>> {
    let (p, c) = doc_state(attrs);
    let q = if c.len() > 0 {
        p.push(SpecDocPiece::Text(c))
    } else {
        p
    };
    if q.len() == 0 {
        None
    } else {
        Some(q)
    }
}

/// Gathers the documentation of an item from its attributes.
pub fn get_rustdoc(attrs: &Vec<DocAttr>) -> (r: Option<Vec<DocPiece>>)
    ensures
        match r {
            None => rustdoc(attrs@) is None,
            Some(v) => rustdoc(attrs@) == Some(v@.map_values(|p: DocPiece| doc_piece_view(p))),
        },
{
    let mut full: Vec<DocPiece> = Vec::new();
    let mut combined = String::new();
    let n = attrs.len();
    for i in 0..n
        invariant
            n == attrs@.len(),
            doc_state(attrs@.take(i as int)) == (
                full@.map_values(|p: DocPiece| doc_piece_view(p)),
                combined@,
            ),
    {
        assert(attrs@.take(i + 1).drop_last() =~= attrs@.take(i as int));
        assert(attrs@.take(i + 1).last() == attrs@[i as int]);
        let ghost before = full@.map_values(|p: DocPiece| doc_piece_view(p));
        match &attrs[i] {
            DocAttr::Text(doc) => {
                combined.append("\n");
                combined.append(trim(doc.as_str()));
            },
            DocAttr::Macro(m) => {
                if !combined.as_str().is_empty() {
                    combined.append("\n");
                    let text = combined;
                    full.push(DocPiece::Text(text));
                    combined = String::new();
                }
                full.push(DocPiece::Macro(*m));
            },
            DocAttr::Other => {},
        }
        assert(full@.map_values(|p: DocPiece| doc_piece_view(p)) =~= doc_state(
            attrs@.take(i + 1),
        ).0);
    }
    assert(attrs@.take(n as int) =~= attrs@);
    if !combined.as_str().is_empty() {
        full.push(DocPiece::Text(combined));
    }
    if full.len() == 0 {
        None
    } else {
        Some(full)
    }
}

} // verus!

verus! {

/// A literal written as a default value.
#[derive(Clone, Debug, PartialEq)]
pub enum LitValue {
    /// A string literal, by its value.
    Str(String),
    /// An integer literal, by its decimal digits (without sign, separators
    /// or suffix).
    Int(String),
    /// A floating-point literal, by its decimal text.
    Float(String),
    Bool(bool),
    /// Any other literal.
    Other,
}

/// The `default` argument of a field or input argument.
#[derive(Clone, Debug, PartialEq)]
pub enum DefaultValue {
    /// `default`: the type's `Default`.
    Default,
    /// `default = <literal>`.
    Value(LitValue),
}

/// The expression that produces a default value.
#[derive(Clone, Debug, PartialEq)]
pub enum DefaultExpr {
    /// `Default::default()`.
    DefaultTrait,
    /// The string, converted to the field's type.
    Str(String),
    /// The integer, converted to the field's type (or its default when it
    /// does not fit).
    Int(i32),
    /// The floating-point number with this text, converted likewise.
    Float(String),
    Bool(bool),
    /// The expression written in `default_with`, by its source text, which
    /// lexes.
    With(String),
}

/// Why a default value cannot be generated.
#[derive(Clone, Debug, PartialEq)]
pub enum DefaultError {
    /// An integer literal too large for an `i32`.
    IntTooLarge,
    /// A literal that is neither a string, an integer, a float nor a bool.
    UnsupportedLiteral,
    /// A `default_with` text that is not a sequence of Rust tokens.
    WithDoesNotLex,
}

#[verifier::external_type_specification]
#[verifier::external_body]
pub struct ExTokenStream(proc_macro2::TokenStream);

#[verifier::external_type_specification]
#[verifier::external_body]
pub struct ExLexError(proc_macro2::LexError);

/// Whether proc-macro2's own lexer reads the text as a sequence of Rust
/// tokens (every delimiter closed, every literal and comment well formed).
pub uninterp spec fn text_lexes(s: Seq<char>) -> bool;

/// `<proc_macro2::TokenStream as FromStr>::from_str`. Outside a procedural
/// macro proc-macro2's own lexer reads the text; inside one, the text must
/// pass that lexer and then the compiler's, which may still refuse it. So
/// only this is claimed: it succeeds only on text that proc-macro2's lexer
/// reads. The tokens read are not stated (their spans differ from one call
/// to the next).
#[verifier::external_body]
fn lex_tokens(text: &str) -> (r: Result<proc_macro2::TokenStream, proc_macro2::LexError>)
    ensures
        r is Ok ==> text_lexes(text@),
{
    text.parse::<proc_macro2::TokenStream>()
}

/// The tokens of the expression written in `default_with`.
pub fn generate_default_with(text: &String) -> (r: Result<proc_macro2::TokenStream, DefaultError>)
    ensures
        r is Ok ==> text_lexes(text@),
        r matches Err(e) ==> e == DefaultError::WithDoesNotLex,
{
    match lex_tokens(text.as_str()) {
        Ok(tokens) => Ok(tokens),
        Err(_) => Err(DefaultError::WithDoesNotLex),
    }
}

/// Every character of `d` is a decimal digit, and there is one at least.
pub open spec fn is_digits(d: Seq<char>) -> bool {
    d.len() > 0 && forall|i: int| 0 <= i < d.len() ==> '0' <= #[trigger] d[i] <= '9'
}

/// The number that the decimal digits `d` denote.
pub open spec fn digits_value(d: Seq<char>) -> nat
    decreases d.len(),
{
    if d.len() == 0 {
        0
    } else {
        digits_value(d.drop_last()) * 10 + ((d.last() as nat) - ('0' as nat)) as nat
    }
}

/// The value of the first `k` digits is at most that of all of them.
proof fn lemma_digits_prefix(d: Seq<char>, k: int)
    requires
        0 <= k <= d.len(),
    ensures
        digits_value(d.take(k)) <= digits_value(d),
    decreases d.len() - k,
{
    if k < d.len() {
        lemma_digits_prefix(d, k + 1);
        assert(d.take(k + 1).drop_last() =~= d.take(k));
    } else {
        assert(d.take(k) =~= d);
    }
}

/// The `i32` that the decimal digits `d` denote, as `str::parse` reads it:
/// the number when it fits, and none otherwise.
fn parse_i32_digits(d: &str) -> (r: Option<i32>)
    requires
        is_digits(d@),
    ensures
        digits_value(d@) <= i32::MAX ==> r == Some(digits_value(d@) as i32),
        digits_value(d@) > i32::MAX ==> r is None,
{
    let n = d.unicode_len();
    let mut acc: i32 = 0;
    let mut i: usize = 0;
    assert(d@.take(0) =~= Seq::<char>::empty());
    while i < n
        invariant
            n == d@.len(),
            is_digits(d@),
            i <= n,
            acc as int == digits_value(d@.take(i as int)),
        decreases n - i,
    {
        let c = d.get_char(i);
        assert(d@.take(i + 1).drop_last() =~= d@.take(i as int));
        assert(d@.take(i + 1).last() == c);
        assert('0' <= c <= '9');
        let digit: i32 = ((c as u32) - 48) as i32;
        match acc.checked_mul(10) {
            None => {
                proof {
                    lemma_digits_prefix(d@, i + 1);
                }
                return None;
            },
            Some(m) => match m.checked_add(digit) {
                None => {
                    proof {
                        lemma_digits_prefix(d@, i + 1);
                    }
                    return None;
                },
                Some(v) => {
                    acc = v;
                },
            },
        }
        i = i + 1;
    }
    assert(d@.take(n as int) =~= d@);
    Some(acc)
}

/// The integer literals are written with decimal digits.
pub open spec fn lit_wf(lit: LitValue) -> bool {
    lit matches LitValue::Int(d) ==> is_digits(d@)
}

/// The expression for a literal default value.
pub open spec fn default_from_lit(lit: LitValue) -> Result<DefaultExpr, DefaultError> {
    match lit {
        LitValue::Str(s) => Ok(DefaultExpr::Str(s)),
        LitValue::Int(d) => if digits_value(d@) <= i32::MAX {
            Ok(DefaultExpr::Int(digits_value(d@) as i32))
        } else {
            Err(DefaultError::IntTooLarge)
        },
        LitValue::Float(t) => Ok(DefaultExpr::Float(t)),
        LitValue::Bool(b) => Ok(DefaultExpr::Bool(b)),
        LitValue::Other => Err(DefaultError::UnsupportedLiteral),
    }
}

/// What generating the default of a field may give: `default` wins over
/// `default_with`; the expression of `default_with` is kept only when its
/// text lexes, and is refused otherwise (the compiler's lexer, inside a
/// procedural macro, may refuse a text that proc-macro2's accepts).
pub open spec fn spec_default(
    default: Option<DefaultValue>,
    default_with: Option<String>,
    r: Result<Option<DefaultExpr>, DefaultError>,
) -> bool {
    match default {
        Some(DefaultValue::Default) => r == Ok::<Option<DefaultExpr>, DefaultError>(
            Some(DefaultExpr::DefaultTrait),
        ),
        Some(DefaultValue::Value(lit)) => r == match default_from_lit(lit) {
            Ok(e) => Ok(Some(e)),
            Err(e) => Err(e),
        },
        None => match default_with {
            Some(w) => (r == Ok::<Option<DefaultExpr>, DefaultError>(Some(DefaultExpr::With(w)))
                || r == Err::<Option<DefaultExpr>, DefaultError>(DefaultError::WithDoesNotLex))
                && (r is Ok ==> text_lexes(w@)),
            None => r == Ok::<Option<DefaultExpr>, DefaultError>(None),
        },
    }
}

fn generate_default_value(lit: &LitValue) -> (r: Result<DefaultExpr, DefaultError>)
    requires
        lit_wf(*lit),
    ensures
        r == default_from_lit(*lit),
{
    match lit {
        LitValue::Str(s) => Ok(DefaultExpr::Str(s.clone())),
        LitValue::Int(d) => match parse_i32_digits(d.as_str()) {
            Some(v) => Ok(DefaultExpr::Int(v)),
            None => Err(DefaultError::IntTooLarge),
        },
        LitValue::Float(t) => Ok(DefaultExpr::Float(t.clone())),
        LitValue::Bool(b) => Ok(DefaultExpr::Bool(*b)),
        LitValue::Other => Err(DefaultError::UnsupportedLiteral),
    }
}

/// The expression that produces the default value of a field or argument.
pub fn generate_default(default: &Option<DefaultValue>, default_with: &Option<String>) -> (r: Result<
    Option<DefaultExpr>,
    DefaultError,
>)
    requires
        *default matches Some(DefaultValue::Value(lit)) ==> lit_wf(lit),
    ensures
        spec_default(*default, *default_with, r),
{
    match default {
        Some(DefaultValue::Default) => Ok(Some(DefaultExpr::DefaultTrait)),
        Some(DefaultValue::Value(lit)) => match generate_default_value(lit) {
            Ok(e) => Ok(Some(e)),
            Err(e) => Err(e),
        },
        None => match default_with {
            Some(w) => match generate_default_with(w) {
                Ok(_) => Ok(Some(DefaultExpr::With(w.clone()))),
                Err(e) => Err(e),
            },
            None => Ok(None),
        },
    }
}

/// A type, as reading its name sees it.
#[derive(Debug, PartialEq)]
pub enum TypeShape {
    /// A path type, by the identifiers of its segments.
    Path(Vec<String>),
    /// A type in invisible delimiters.
    Group(Box<TypeShape>),
    /// A trait object, by its bounds: the path of each trait bound, and
    /// `None` for any other bound.
    TraitObject(Vec<Option<Vec<String>>>),
    /// Any other type.
    Other,
}

/// Index of the first trait bound, or `-1`.
pub open spec fn first_trait_bound(bounds: Seq<Option<Vec<String>>>) -> int {
    first_where(bounds, |b: Option<Vec<String>>| b is Some)
}

/// Paths have segments, and a trait object has a trait bound with a path.
pub open spec fn type_wf(t: TypeShape) -> bool
    decreases t,
{
    match t {
        TypeShape::Path(s) => s@.len() > 0,
        TypeShape::Group(inner) => type_wf(*inner),
        TypeShape::TraitObject(b) => {
            let j = first_trait_bound(b@);
            j >= 0 && b@[j]->Some_0@.len() > 0
        },
        TypeShape::Other => true,
    }
}

/// The type a name is taken from, and the name: the last segment of a path,
/// or of the first trait bound of a trait object; groups are looked
/// through; any other type has none.
pub open spec fn type_ident(t: TypeShape) -> Option<(TypeShape, Seq<char>)>
    decreases t,
{
    match t {
        TypeShape::Path(s) => Some((t, s@.last()@)),
        TypeShape::Group(inner) => type_ident(*inner),
        TypeShape::TraitObject(b) => Some((t, b@[first_trait_bound(b@)]->Some_0@.last()@)),
        TypeShape::Other => None,
    }
}

/// The first trait bound is at `first_trait_bound(b)`.
proof fn lemma_first_trait_bound(b: Seq<Option<Vec<String>>>)
    ensures
        -1 <= first_trait_bound(b) < b.len(),
        first_trait_bound(b) == -1 ==> forall|i: int| 0 <= i < b.len() ==> (#[trigger] b[i]) is None,
        first_trait_bound(b) >= 0 ==> b[first_trait_bound(b)] is Some && forall|i: int|
            0 <= i < first_trait_bound(b) ==> (#[trigger] b[i]) is None,
{
    lemma_first_where(b, |x: Option<Vec<String>>| x is Some);
}

/// Whether the type can be named: its paths have segments, and a trait
/// object has a trait bound with a path.
pub fn type_is_wf(ty: &TypeShape) -> (r: bool)
    ensures
        r == type_wf(*ty),
    decreases ty,
{
    match ty {
        TypeShape::Path(segments) => segments.len() > 0,
        TypeShape::Group(inner) => type_is_wf(inner),
        TypeShape::TraitObject(bounds) => {
            proof {
                lemma_first_trait_bound(bounds@);
            }
            let n = bounds.len();
            let mut i: usize = 0;
            while i < n
                invariant
                    *ty == TypeShape::TraitObject(*bounds),
                    n == bounds@.len(),
                    i <= n,
                    -1 <= first_trait_bound(bounds@) < n,
                    first_trait_bound(bounds@) == -1 ==> forall|k: int|
                        0 <= k < n ==> (#[trigger] bounds@[k]) is None,
                    first_trait_bound(bounds@) >= 0 ==> bounds@[first_trait_bound(bounds@)] is Some,
                    forall|k: int| 0 <= k < first_trait_bound(bounds@) ==> (#[trigger] bounds@[k]) is None,
                    forall|k: int| 0 <= k < i ==> (#[trigger] bounds@[k]) is None,
                decreases n - i,
            {
                match &bounds[i] {
                    Some(path) => {
                        assert(i == first_trait_bound(bounds@));
                        return path.len() > 0;
                    },
                    None => {},
                }
                i = i + 1;
            }
            false
        },
        TypeShape::Other => true,
    }
}

/// The type that names a resolver's type, and its name; an error for a type
/// that has none.
pub fn get_type_path_and_name(ty: &TypeShape) -> (r: Result<(&TypeShape, String), ()>)
    requires
        type_wf(*ty),
    ensures
        match type_ident(*ty) {
            Some((t, name)) => r matches Ok((u, n)) && *u == t && n@ == name,
            None => r is Err,
        },
    decreases ty,
{
    match ty {
        TypeShape::Path(segments) => {
            assert(segments@.last() == segments@[segments@.len() - 1]);
            let last = segments[segments.len() - 1].clone();
            Ok((ty, last))
        },
        TypeShape::Group(inner) => get_type_path_and_name(inner),
        TypeShape::TraitObject(bounds) => {
            proof {
                lemma_first_trait_bound(bounds@);
            }
            let n = bounds.len();
            let mut i: usize = 0;
            while i < n
                invariant
                    *ty == TypeShape::TraitObject(*bounds),
                    n == bounds@.len(),
                    i <= n,
                    0 <= first_trait_bound(bounds@) < n,
                    forall|k: int| 0 <= k < i ==> (#[trigger] bounds@[k]) is None,
                    bounds@[first_trait_bound(bounds@)] is Some,
                    forall|k: int| 0 <= k < first_trait_bound(bounds@) ==> (#[trigger] bounds@[k]) is None,
                    bounds@[first_trait_bound(bounds@)]->Some_0@.len() > 0,
                decreases n - i,
            {
                match &bounds[i] {
                    Some(path) => {
                        assert(i == first_trait_bound(bounds@));
                        assert(path@.last() == path@[path@.len() - 1]);
                        let last = path[path.len() - 1].clone();
                        return Ok((ty, last));
                    },
                    None => {},
                }
                i = i + 1;
            }
            Err(())
        },
        TypeShape::Other => Err(()),
    }
}

} // verus!

verus! {

/// Some string of `s` has the characters `x`.
pub open spec fn names_contain(s: Seq<String>, x: Seq<char>) -> bool {
    exists|i: int| 0 <= i < s.len() && (#[trigger] s[i])@ == x
}

/// The variables of a complexity expression, from the single identifiers
/// used as paths in it (in the order met): each once, `child_complexity`
/// left out.
pub fn parse_complexity_expr(idents: &Vec<String>) -> (r: Vec<String>)
    ensures
        forall|x: Seq<char>| names_contain(r@, x) <==> (names_contain(idents@, x) && x != "child_complexity"@),
        forall|i: int, j: int| 0 <= i < j < r@.len() ==> (#[trigger] r@[i])@ != (#[trigger] r@[j])@,
{
    let mut r: Vec<String> = Vec::new();
    let n = idents.len();
    for k in 0..n
        invariant
            n == idents@.len(),
            forall|x: Seq<char>| names_contain(r@, x) <==> (names_contain(idents@.take(k as int), x) && x != "child_complexity"@),
            forall|i: int, j: int| 0 <= i < j < r@.len() ==> (#[trigger] r@[i])@ != (#[trigger] r@[j])@,
    {
        let ghost before = r@;
        let id = &idents[k];
        if !string_is(id, "child_complexity") {
            let mut seen = false;
            let m = r.len();
            for q in 0..m
                invariant
                    m == r@.len(),
                    seen == (exists|i: int| 0 <= i < q && (#[trigger] r@[i])@ == id@),
            {
                if r[q] == *id {
                    seen = true;
                }
            }
            if !seen {
                r.push(id.clone());
                assert forall|i: int| 0 <= i < before.len() implies r@[i] == before[i] by {}
                assert forall|i: int, j: int| 0 <= i < j < r@.len() implies (#[trigger] r@[i])@ != (
                #[trigger] r@[j])@ by {
                    if j == before.len() {
                        assert(r@[i] == before[i]);
                    } else {
                        assert(r@[i] == before[i] && r@[j] == before[j]);
                    }
                }
            } else {
                assert(exists|i: int| 0 <= i < before.len() && (#[trigger] before[i])@ == id@);
            }
        }
        assert forall|x: Seq<char>| names_contain(r@, x) <==> (names_contain(idents@.take(k + 1), x) && x != "child_complexity"@) by {
            let t = idents@.take(k + 1);
            let p = idents@.take(k as int);
            assert(t[k as int] == idents@[k as int]);
            assert(names_contain(t, x) <==> (names_contain(p, x) || x == id@)) by {
                if names_contain(p, x) {
                    let i = choose|i: int| 0 <= i < p.len() && (#[trigger] p[i])@ == x;
                    assert(t[i] == p[i]);
                }
                if names_contain(t, x) {
                    let i = choose|i: int| 0 <= i < t.len() && (#[trigger] t[i])@ == x;
                    if i < k {
                        assert(p[i] == t[i]);
                    }
                }
            }
            assert(names_contain(r@, x) <==> (names_contain(before, x) || (x == id@ && x != "child_complexity"@))) by {
                if names_contain(r@, x) {
                    let i = choose|i: int| 0 <= i < r@.len() && (#[trigger] r@[i])@ == x;
                    if i < before.len() {
                        assert(r@[i] == before[i]);
                    }
                }
                if names_contain(before, x) {
                    let i = choose|i: int| 0 <= i < before.len() && (#[trigger] before[i])@ == x;
                    assert(r@[i] == before[i]);
                }
                if x == id@ && x != "child_complexity"@ {
                    if r@.len() > before.len() {
                        assert(r@[before.len() as int]@ == x);
                    } else {
                        assert(r@ == before);
                        let i = choose|i: int| 0 <= i < before.len() && (#[trigger] before[i])@ == id@;
                        assert(before[i]@ == x);
                    }
                }
            }
        }
    }
    assert(idents@.take(n as int) =~= idents@);
    r
}

} // verus!

verus! {

/// The type of a typed resolver argument, as argument extraction reads it.
#[derive(Clone, Debug, PartialEq)]
pub enum ArgType {
    /// A reference to a path type, by the last segment of the path.
    RefToPath(String),
    /// A reference to a type of another kind.
    RefToOther,
    /// A type that is not a reference.
    Other,
}

/// A parameter of a resolver method.
#[derive(Clone, Debug, PartialEq)]
pub enum ArgShape {
    /// The `self` receiver.
    Receiver,
    /// A typed parameter: whether its pattern is a plain identifier, and its
    /// type.
    Typed { ident_pattern: bool, ty: ArgType },
}

/// A parameter taken as a GraphQL argument: its position, and whether its
/// `graphql` attribute is removed from the method afterwards.
#[derive(Clone, Debug, PartialEq)]
pub struct ArgAction {
    pub index: usize,
    pub remove_attrs: bool,
}

/// Why the parameters of a resolver method are refused.
#[derive(Clone, Debug, PartialEq)]
pub enum ArgError {
    /// The method has no parameters.
    NoReceiver,
    /// A receiver that is not the first parameter, at this position.
    ReceiverNotFirst(usize),
    /// A typed parameter in the first position.
    TypedFirst,
    /// A parameter whose pattern is not a plain identifier, at this position.
    InvalidArgument(usize),
}

/// What one parameter does.
pub enum ArgStep {
    /// It is taken as an argument.
    Take(bool),
    /// It is the context parameter, so none is inserted.
    Context,
    /// It is passed over.
    Skip,
    /// It is refused.
    Fail(ArgError),
}

/// What the parameter at `idx` does.
pub open spec fn arg_step(idx: usize, a: ArgShape) -> ArgStep {
    match a {
        ArgShape::Receiver => if idx != 0 {
            ArgStep::Fail(ArgError::ReceiverNotFirst(idx))
        } else {
            ArgStep::Skip
        },
        ArgShape::Typed { ident_pattern, ty } => if idx == 0 {
            ArgStep::Fail(ArgError::TypedFirst)
        } else if !ident_pattern {
            ArgStep::Fail(ArgError::InvalidArgument(idx))
        } else {
            match ty {
                ArgType::RefToPath(last) => if idx != 1 || last@ != "Context"@ {
                    ArgStep::Take(false)
                } else {
                    ArgStep::Context
                },
                ArgType::RefToOther => ArgStep::Skip,
                ArgType::Other => ArgStep::Take(true),
            }
        },
    }
}

/// The parameters taken as arguments, in order, and whether a context
/// parameter must be inserted; or the first refusal.
pub open spec fn arg_plan(args: Seq<ArgShape>) -> (Seq<ArgAction>, Result<bool, ArgError>)
    decreases args.len(),
{
    if args.len() == 0 {
        (Seq::empty(), Ok(true))
    } else {
        let (a, r) = arg_plan(args.drop_last());
        let idx = (args.len() - 1) as usize;
        if r is Err {
            (a, r)
        } else {
            match arg_step(idx, args.last()) {
                ArgStep::Take(rm) => (a.push(ArgAction { index: idx, remove_attrs: rm }), r),
                ArgStep::Context => (a, Ok(false)),
                ArgStep::Skip => (a, r),
                ArgStep::Fail(e) => (a, Err(e)),
            }
        }
    }
}

/// Once a refusal is met, later parameters change nothing.
proof fn lemma_arg_plan_stops(args: Seq<ArgShape>, k: int, m: int)
    requires
        0 <= k <= m <= args.len(),
        arg_plan(args.take(k)).1 is Err,
    ensures
        arg_plan(args.take(m)) == arg_plan(args.take(k)),
    decreases m - k,
{
    if m > k {
        lemma_arg_plan_stops(args, k, m - 1);
        assert(args.take(m).drop_last() =~= args.take(m - 1));
    }
}

/// Reads the parameters of a resolver method: which are GraphQL arguments
/// (in order, each to have its `graphql` attribute read), and whether a
/// context parameter must be inserted after the receiver.
///
/// The actions come before the refusal they precede: the arguments are read
/// in order until the refusal is reached.
pub fn extract_input_args(args: &Vec<ArgShape>) -> (r: (Vec<ArgAction>, Result<bool, ArgError>))
    ensures
        args@.len() == 0 ==> r.0@.len() == 0 && r.1 == Err::<bool, ArgError>(ArgError::NoReceiver),
        args@.len() > 0 ==> (r.0@, r.1) == arg_plan(args@),
{
    let mut actions: Vec<ArgAction> = Vec::new();
    if args.len() == 0 {
        return (actions, Err(ArgError::NoReceiver));
    }
    let mut create_ctx = true;
    let n = args.len();
    for idx in 0..n
        invariant
            n == args@.len(),
            arg_plan(args@.take(idx as int)) == (actions@, Ok::<bool, ArgError>(create_ctx)),
    {
        assert(args@.take(idx + 1).drop_last() =~= args@.take(idx as int));
        assert(args@.take(idx + 1).last() == args@[idx as int]);
        let step_err: Option<ArgError> = match &args[idx] {
            ArgShape::Receiver => if idx != 0 {
                Some(ArgError::ReceiverNotFirst(idx))
            } else {
                None
            },
            ArgShape::Typed { ident_pattern, ty } => if idx == 0 {
                Some(ArgError::TypedFirst)
            } else if !*ident_pattern {
                Some(ArgError::InvalidArgument(idx))
            } else {
                match ty {
                    ArgType::RefToPath(last) => {
                        if idx != 1 || !string_is(last, "Context") {
                            actions.push(ArgAction { index: idx, remove_attrs: false });
                        } else {
                            create_ctx = false;
                        }
                    },
                    ArgType::RefToOther => {},
                    ArgType::Other => {
                        actions.push(ArgAction { index: idx, remove_attrs: true });
                    },
                }
                None
            },
        };
        match step_err {
            Some(e) => {
                proof {
                    lemma_arg_plan_stops(args@, idx + 1, n as int);
                    assert(args@.take(n as int) =~= args@);
                }
                return (actions, Err(e));
            },
            None => {},
        }
    }
    assert(args@.take(n as int) =~= args@);
    (actions, Ok(create_ctx))
}

/// A segment of a path: its identifier and its generic arguments, as
/// written (empty when it has none).
#[derive(Clone, Debug, PartialEq)]
pub struct PathSeg {
    pub ident: String,
    pub arguments: String,
}

/// A path, as written in an expression.
#[derive(Clone, Debug, PartialEq)]
pub struct CallPath {
    /// Whether the path starts with `::`.
    pub leading_colon: bool,
    pub segments: Vec<PathSeg>,
}

/// A directive invocation on a type.
#[derive(Clone, Debug, PartialEq)]
pub enum DirectiveExpr {
    /// A call whose callee is a path.
    CallPath(CallPath),
    /// Any other expression.
    Other,
}

/// The path of the directive that `e` applies: the callee's path without
/// its last segment (the leading `::` and the generic arguments of the
/// other segments kept), when that segment's identifier is `apply` and
/// others precede it.
pub open spec fn directive_path(e: DirectiveExpr) -> Option<(bool, Seq<PathSeg>)> {
    match e {
        DirectiveExpr::CallPath(p) => if p.segments@.len() >= 2 && p.segments@.last().ident@
            == "apply"@ {
            Some((p.leading_colon, p.segments@.drop_last()))
        } else {
            None
        },
        DirectiveExpr::Other => None,
    }
}

/// A copy of a path segment.
fn clone_seg(x: &PathSeg) -> (r: PathSeg)
    ensures
        r == *x,
{
    PathSeg { ident: x.ident.clone(), arguments: x.arguments.clone() }
}

/// The path of the directive that a `<directive>::apply(...)` invocation
/// applies, or none for an expression of another form.
pub fn extract_directive_call_path(e: &DirectiveExpr) -> (r: Option<CallPath>)
    ensures
        match directive_path(*e) {
            Some(p) => r matches Some(v) && v.leading_colon == p.0 && v.segments@ == p.1,
            None => r is None,
        },
{
    match e {
        DirectiveExpr::CallPath(c) => {
            let s = &c.segments;
            if s.len() < 2 {
                return None;
            }
            if !string_is(&s[s.len() - 1].ident, "apply") {
                return None;
            }
            let mut path: Vec<PathSeg> = Vec::new();
            let n = s.len() - 1;
            for i in 0..n
                invariant
                    n == s@.len() - 1,
                    path@ == s@.take(i as int),
            {
                path.push(clone_seg(&s[i]));
                assert(path@ =~= s@.take(i + 1));
            }
            assert(s@.take(n as int) =~= s@.drop_last());
            Some(CallPath { leading_colon: c.leading_colon, segments: path })
        },
        DirectiveExpr::Other => None,
    }
}

/// The paths of the directives applied to a type, in order. Every
/// invocation must be of the form `<directive>::apply(...)`.
pub fn gen_directive_calls(exprs: &Vec<DirectiveExpr>) -> (r: Vec<CallPath>)
    requires
        forall|i: int| 0 <= i < exprs@.len() ==> directive_path(#[trigger] exprs@[i]) is Some,
    ensures
        r@.len() == exprs@.len(),
        forall|i: int|
            0 <= i < r@.len() ==> Some(((#[trigger] r@[i]).leading_colon, r@[i].segments@))
                == directive_path(exprs@[i]),
{
    let mut r: Vec<CallPath> = Vec::new();
    let n = exprs.len();
    for i in 0..n
        invariant
            n == exprs@.len(),
            forall|k: int| 0 <= k < exprs@.len() ==> directive_path(#[trigger] exprs@[k]) is Some,
            r@.len() == i,
            forall|k: int|
                0 <= k < i ==> Some(((#[trigger] r@[k]).leading_colon, r@[k].segments@))
                    == directive_path(exprs@[k]),
    {
        let p = extract_directive_call_path(&exprs[i]);
        match p {
            Some(v) => r.push(v),
            None => {
                assert(directive_path(exprs@[i as int]) is Some);
                r.push(CallPath { leading_colon: false, segments: Vec::new() });
            },
        }
    }
    r
}

/// Replaces every lifetime of a type with the anonymous lifetime `'_`.
#[derive(Clone, Copy, Debug, Default)]
pub struct RemoveLifetime;

impl RemoveLifetime {
    /// The identifier every lifetime is renamed to.
    pub fn lifetime_ident(&self) -> (r: String)
        ensures
            r@ == "_"@,
    {
        "_".to_owned()
    }
}

/// How the generated code names the library crate.
#[derive(Clone, Debug, PartialEq)]
pub enum CratePath {
    /// `crate`, inside the library itself.
    Crate,
    /// The path given by the `crate` argument, by its segments.
    Given(Vec<String>),
    /// `::<name>`, the name under which the item's crate depends on the
    /// library.
    Absolute(String),
}

/// The path by which the generated code names the library, when it does not
/// depend on the item's `Cargo.toml`: `crate` inside the library, else the
/// path given; none when the dependency has to be looked up.
pub fn get_crate_path(crate_path: &Option<Vec<String>>, internal: bool) -> (r: Option<CratePath>)
    ensures
        internal ==> r == Some(CratePath::Crate),
        !internal && crate_path is Some ==> (r matches Some(CratePath::Given(p)) && p@ == crate_path->Some_0@),
        !internal && crate_path is None ==> r is None,
{
    if internal {
        Some(CratePath::Crate)
    } else {
        match crate_path {
            Some(p) => Some(CratePath::Given(clone_names(p))),
            None => None,
        }
    }
}

/// The path by which the generated code names the library, from the name
/// under which the item's crate depends on it: that name when it is found,
/// and `async_graphql` when the crate is the library itself or the lookup
/// failed.
pub fn crate_path_from_lookup(found: Option<String>) -> (r: CratePath)
    ensures
        match found {
            Some(n) => r == CratePath::Absolute(n),
            None => r matches CratePath::Absolute(n) && n@ == "async_graphql"@,
        },
{
    match found {
        Some(n) => CratePath::Absolute(n),
        None => CratePath::Absolute("async_graphql".to_owned()),
    }
}

} // verus!

verus! {

/// Whether an attribute is a doc attribute or a doc macro.
pub open spec fn is_doc_attr() -> spec_fn(DocAttr) -> bool {
    |a: DocAttr| !(a is Other)
}

/// Attributes other than doc attributes do not touch the documentation
/// gathered: it is what the doc attributes alone give.
pub proof fn law_rustdoc_ignores_other_attrs(attrs: Seq<DocAttr>)
    ensures
        doc_state(attrs) == doc_state(attrs.filter(is_doc_attr())),
        rustdoc(attrs) == rustdoc(attrs.filter(is_doc_attr())),
    decreases attrs.len(),
{
    reveal(Seq::filter);
    if attrs.len() > 0 {
        let p = attrs.drop_last();
        law_rustdoc_ignores_other_attrs(p);
        let fp = p.filter(is_doc_attr());
        if !(attrs.last() is Other) {
            let f = fp.push(attrs.last());
            assert(f.drop_last() =~= fp);
            assert(f.last() == attrs.last());
        }
    } else {
        assert(attrs.filter(is_doc_attr()) =~= attrs);
    }
}

/// A literal default is generated with the literal's own value: a string,
/// a float or a bool is carried as it is, and an integer that fits an
/// `i32` by the number its digits denote.
pub proof fn law_literal_default_keeps_value(
    lit: LitValue,
    default_with: Option<String>,
    r: Result<Option<DefaultExpr>, DefaultError>,
)
    requires
        spec_default(Some(DefaultValue::Value(lit)), default_with, r),
    ensures
        lit matches LitValue::Bool(b) ==> r == Ok::<Option<DefaultExpr>, DefaultError>(
            Some(DefaultExpr::Bool(b)),
        ),
        lit matches LitValue::Str(s) ==> r == Ok::<Option<DefaultExpr>, DefaultError>(
            Some(DefaultExpr::Str(s)),
        ),
        lit matches LitValue::Float(t) ==> r == Ok::<Option<DefaultExpr>, DefaultError>(
            Some(DefaultExpr::Float(t)),
        ),
        lit matches LitValue::Int(d) ==> (digits_value(d@) <= i32::MAX ==> (r matches Ok(
            Some(DefaultExpr::Int(v)),
        ) && v == digits_value(d@))),
{
}

} // verus!
