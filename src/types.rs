//! Field types, objects and the field-type expression parser.
use vstd::prelude::*;
use crate::marker::{marker, marker_str, Marker};
use crate::number::{i32_text, parse_i32};
use crate::text::{
    contains, contains_str, ends_with, ends_with_str, find, find_from, find_str, find_str_from,
    lemma_find_from_bounds, lemma_trim_len, same_text, slice, split, split_char, starts_with,
    starts_with_str, str_len, strings_model, trim, trim_str,
};

verus! {

/// Ordering hint of an object.
#[derive(Debug, Clone, Copy, PartialEq, Eq, Structural)]
pub enum Sort {
    Default,
    Ascending,
    Descending,
}

/// The sort that a header's parenthesized text selects.
pub open spec fn sort_of(s: Seq<char>) -> Sort {
    if s == seq!['>'] {
        Sort::Descending
    } else if s == seq!['<'] {
        Sort::Ascending
    } else {
        Sort::Default
    }
}

impl<'a> From<&'a str> for Sort {
    fn from(s: &'a str) -> (r: Sort)
        ensures
            r == sort_of(s@),
    {
        if s.unicode_len() == 1 {
            let c = s.get_char(0);
            if c == '>' {
                assert(s@ =~= seq!['>']);
                return Sort::Descending;
            } else if c == '<' {
                assert(s@ =~= seq!['<']);
                return Sort::Ascending;
            }
        }
        Sort::Default
    }
}

impl<'a> vstd::std_specs::convert::FromSpecImpl<&'a str> for Sort {
    open spec fn obeys_from_spec() -> bool {
        true
    }

    open spec fn from_spec(s: &'a str) -> Sort {
        sort_of(s@)
    }
}

/// A projection of the enclosing object onto some of its fields.
#[derive(Debug, PartialEq)]
pub struct SparsedObject {
    pub fields: Vec<String>,
    pub parent: Option<Box<SparsedObject>>,
}

/// A named record type.
#[derive(Debug, PartialEq)]
pub struct Object {
    pub name: String,
    pub fields: Vec<Field>,
    pub parent: Option<Box<Object>>,
    pub sort: Sort,
    pub has_sparsed_fields: bool,
}

/// A named, typed member of an object.
#[derive(Debug, PartialEq)]
pub struct Field {
    pub name: String,
    pub type_: Type,
}

/// A field type.
#[derive(Debug, PartialEq)]
pub enum Type {
    Str,
    Int,
    Float,
    Bool,
    List(Box<Type>),
    Dict(Box<Type>, Box<Type>),
    Epoch,
    Path,
    Reducer { which: Box<Type>, start: i32, end: i32 },
    ThisRef { object_field_name: String, append_type: Option<Box<Type>> },
    Ref { object_name: String, field_name: String },
    This { sparsed_object: SparsedObject },
    Object { object_name: String },
    Null,
    NullType { which: Box<Type> },
}

/// Why a type expression was refused.
#[derive(Debug, Clone, Copy, PartialEq, Eq, Structural)]
pub enum Reason {
    /// Nothing but whitespace.
    EmptyToken,
    /// A delimiter that the form needs is not there.
    MissingDelimiter,
    /// A name that the form needs is empty.
    EmptySegment,
    /// The fixed prefix of the form is missing or too short.
    MissingPrefix,
}

/// A type expression that could not be read.
#[derive(Debug, Clone, PartialEq)]
pub enum TypeError {
    MalformedTypeExpression { token: String, reason: Reason },
    MalformedReducerBounds { token: String },
}

pub enum SparsedModel {
    Node { fields: Seq<Seq<char>>, parent: Option<Box<SparsedModel>> },
}

/// What a `Type` denotes.
pub enum TypeModel {
    Str,
    Int,
    Float,
    Bool,
    List(Box<TypeModel>),
    Dict(Box<TypeModel>, Box<TypeModel>),
    Epoch,
    Path,
    Reducer { which: Box<TypeModel>, start: int, end: int },
    ThisRef { object_field_name: Seq<char>, append_type: Option<Box<TypeModel>> },
    Ref { object_name: Seq<char>, field_name: Seq<char> },
    This { sparsed_object: SparsedModel },
    Object { object_name: Seq<char> },
    Null,
    NullType { which: Box<TypeModel> },
}

pub enum TypeErrorModel {
    Malformed { token: Seq<char>, reason: Reason },
    Bounds { token: Seq<char> },
}

pub open spec fn sparsed_model(o: SparsedObject) -> SparsedModel
    decreases o,
{
    SparsedModel::Node {
        fields: strings_model(o.fields@),
        parent: match o.parent {
            Some(p) => Some(Box::new(sparsed_model(*p))),
            None => None,
        },
    }
}

pub open spec fn type_model(t: Type) -> TypeModel
    decreases t,
{
    match t {
        Type::Str => TypeModel::Str,
        Type::Int => TypeModel::Int,
        Type::Float => TypeModel::Float,
        Type::Bool => TypeModel::Bool,
        Type::List(e) => TypeModel::List(Box::new(type_model(*e))),
        Type::Dict(k, v) => TypeModel::Dict(Box::new(type_model(*k)), Box::new(type_model(*v))),
        Type::Epoch => TypeModel::Epoch,
        Type::Path => TypeModel::Path,
        Type::Reducer { which, start, end } => TypeModel::Reducer {
            which: Box::new(type_model(*which)),
            start: start as int,
            end: end as int,
        },
        Type::ThisRef { object_field_name, append_type } => TypeModel::ThisRef {
            object_field_name: object_field_name@,
            append_type: match append_type {
                Some(a) => Some(Box::new(type_model(*a))),
                None => None,
            },
        },
        Type::Ref { object_name, field_name } => TypeModel::Ref {
            object_name: object_name@,
            field_name: field_name@,
        },
        Type::This { sparsed_object } => TypeModel::This {
            sparsed_object: sparsed_model(sparsed_object),
        },
        Type::Object { object_name } => TypeModel::Object { object_name: object_name@ },
        Type::Null => TypeModel::Null,
        Type::NullType { which } => TypeModel::NullType { which: Box::new(type_model(*which)) },
    }
}

impl View for Type {
    type V = TypeModel;

    open spec fn view(&self) -> TypeModel {
        type_model(*self)
    }
}

impl View for SparsedObject {
    type V = SparsedModel;

    open spec fn view(&self) -> SparsedModel {
        sparsed_model(*self)
    }
}

impl View for TypeError {
    type V = TypeErrorModel;

    open spec fn view(&self) -> TypeErrorModel {
        match self {
            TypeError::MalformedTypeExpression { token, reason } => TypeErrorModel::Malformed {
                token: token@,
                reason: *reason,
            },
            TypeError::MalformedReducerBounds { token } => TypeErrorModel::Bounds {
                token: token@,
            },
        }
    }
}

pub open spec fn result_model<T: View, E: View>(r: Result<T, E>) -> Result<T::V, E::V> {
    match r {
        Ok(t) => Ok(t@),
        Err(e) => Err(e@),
    }
}

pub open spec fn malformed(t: Seq<char>, reason: Reason) -> Result<TypeModel, TypeErrorModel> {
    Err(TypeErrorModel::Malformed { token: t, reason })
}

/// The primitive or null type that a keyword names.
pub open spec fn keyword_type(t: Seq<char>) -> Option<TypeModel> {
    if t == marker(Marker::KwInt) {
        Some(TypeModel::Int)
    } else if t == marker(Marker::KwFloat) {
        Some(TypeModel::Float)
    } else if t == marker(Marker::KwStr) {
        Some(TypeModel::Str)
    } else if t == marker(Marker::KwBool) {
        Some(TypeModel::Bool)
    } else if t == marker(Marker::KwEpoch) {
        Some(TypeModel::Epoch)
    } else if t == marker(Marker::KwPath) {
        Some(TypeModel::Path)
    } else if t == marker(Marker::Bang) {
        Some(TypeModel::Null)
    } else {
        None
    }
}

pub open spec fn is_primitive_spec(t: Seq<char>) -> bool {
    keyword_type(t) is Some && t != marker(Marker::Bang)
}

pub open spec fn can_be_reduced_spec(t: Seq<char>) -> bool {
    if starts_with(t, marker(Marker::KwStr)) || starts_with(t, marker(Marker::KwInt))
        || starts_with(t, marker(Marker::KwFloat)) || starts_with(t, marker(Marker::KwEpoch))
        || starts_with(t, marker(Marker::KwPath)) {
        true
    } else {
        starts_with(t, marker(Marker::Open)) && !contains(t, marker(Marker::Range))
    }
}

pub open spec fn has_reducer_spec(t: Seq<char>) -> bool {
    can_be_reduced_spec(t) && contains(t, marker(Marker::Range))
}

/// Index of the last `c` in `s` before index `j`.
pub open spec fn rfind_char(s: Seq<char>, c: char, j: int) -> Option<int>
    decreases j,
{
    if j <= 0 || j > s.len() {
        None
    } else if s[j - 1] == c {
        Some(j - 1)
    } else {
        rfind_char(s, c, j - 1)
    }
}

/// The pieces of `base[start..end]`: the base text and the two bound texts.
pub open spec fn reducer_parts(t: Seq<char>) -> Option<(Seq<char>, Seq<char>, Seq<char>)> {
    match find(t, marker(Marker::Range)) {
        Some(i) => if 0 <= i && i + 2 <= t.len() {
            match rfind_char(t, '[', i) {
                Some(b) => if 0 <= b < i {
                    let right = t.subrange(i + 2, t.len() as int);
                    match find(right, marker(Marker::Close)) {
                        Some(e) => if 0 <= e <= right.len() {
                            Some((t.subrange(0, b), t.subrange(b + 1, i), right.subrange(0, e)))
                        } else {
                            None
                        },
                        None => None,
                    }
                } else {
                    None
                },
                None => None,
            }
        } else {
            None
        },
        None => None,
    }
}

/// The bounds of `base[start..end]`; an absent start is 0.
pub open spec fn reducer_bounds(t: Seq<char>) -> Result<(int, int), TypeErrorModel> {
    match reducer_parts(t) {
        None => Err(TypeErrorModel::Malformed { token: t, reason: Reason::MissingDelimiter }),
        Some((_, st, en)) => {
            let start = if st.len() == 0 {
                Some(0int)
            } else {
                i32_text(st)
            };
            match (start, i32_text(en)) {
                (Some(a), Some(b)) => Ok((a, b)),
                _ => Err(TypeErrorModel::Bounds { token: t }),
            }
        },
    }
}

/// Reads `base[start..end]`: the first `..` splits it, the last `[` before it ends the base,
/// and the first `]` after it ends the end bound.
pub open spec fn parse_reducer(t: Seq<char>) -> Result<TypeModel, TypeErrorModel>
    decreases t.len(), 0int,
{
    match reducer_bounds(t) {
        Err(e) => Err(e),
        Ok((a, b)) => match reducer_parts(t) {
            Some((base, _, _)) => if base.len() < t.len() {
                match parse_type(base) {
                    Ok(w) => Ok(TypeModel::Reducer { which: Box::new(w), start: a, end: b }),
                    Err(e) => Err(e),
                }
            } else {
                malformed(t, Reason::MissingDelimiter)
            },
            None => malformed(t, Reason::MissingDelimiter),
        },
    }
}

/// Reads a trimmed token that no reference marker and no range selects: a keyword; `!name`,
/// nullable (a primitive keyword after `!` is read as that primitive, anything else as an
/// object name); `[@key:value]`, cut at the first `:`; `[element]`; and otherwise a bare
/// name, which refers to an object.
pub open spec fn parse_plain(t: Seq<char>) -> Result<TypeModel, TypeErrorModel>
    decreases t.len(), 0int,
{
    match keyword_type(t) {
        Some(k) => Ok(k),
        None => if t.len() == 0 {
            malformed(t, Reason::EmptyToken)
        } else if t[0] == '!' {
            let rest = t.subrange(1, t.len() as int);
            if is_primitive_spec(rest) {
                Ok(TypeModel::NullType { which: Box::new(keyword_type(rest)->0) })
            } else {
                Ok(TypeModel::NullType { which: Box::new(TypeModel::Object { object_name: rest }) })
            }
        } else if contains(t, marker(Marker::Colon)) {
            let k = find(t, marker(Marker::Colon))->0;
            if !starts_with(t, marker(Marker::MapOpen)) {
                malformed(t, Reason::MissingPrefix)
            } else if !ends_with(t, marker(Marker::Close)) || !(2 <= k && k + 1 < t.len()) {
                malformed(t, Reason::MissingDelimiter)
            } else {
                match parse_type(t.subrange(2, k)) {
                    Err(e) => Err(e),
                    Ok(kt) => match parse_type(t.subrange(k + 1, t.len() - 1)) {
                        Err(e) => Err(e),
                        Ok(vt) => Ok(TypeModel::Dict(Box::new(kt), Box::new(vt))),
                    },
                }
            }
        } else if t[0] == '[' {
            if t.len() >= 2 && t[t.len() - 1] == ']' {
                match parse_type(t.subrange(1, t.len() - 1)) {
                    Err(e) => Err(e),
                    Ok(e) => Ok(TypeModel::List(Box::new(e))),
                }
            } else {
                malformed(t, Reason::MissingDelimiter)
            }
        } else {
            Ok(TypeModel::Object { object_name: t })
        },
    }
}

/// Reads `{this.field.append}`.
pub open spec fn parse_this_ref(t: Seq<char>) -> Result<TypeModel, TypeErrorModel>
    decreases t.len(), 0int,
{
    match find(t, marker(Marker::SelfRef)) {
        Some(i) => if 0 <= i && i + 6 <= t.len() {
            match find_from(t, marker(Marker::Dot), i + 6) {
                Some(d) => if i + 6 <= d && d < t.len() {
                    let name = t.subrange(i + 6, d);
                    if name.len() == 0 {
                        malformed(t, Reason::EmptySegment)
                    } else if t[t.len() - 1] != '}' || d + 1 > t.len() - 1 {
                        malformed(t, Reason::MissingDelimiter)
                    } else if d + 1 == t.len() - 1 {
                        Ok(TypeModel::ThisRef { object_field_name: name, append_type: None })
                    } else {
                        match parse_type(t.subrange(d + 1, t.len() - 1)) {
                            Err(e) => Err(e),
                            Ok(a) => Ok(
                                TypeModel::ThisRef {
                                    object_field_name: name,
                                    append_type: Some(Box::new(a)),
                                },
                            ),
                        }
                    }
                } else {
                    malformed(t, Reason::MissingDelimiter)
                },
                None => malformed(t, Reason::MissingDelimiter),
            }
        } else {
            malformed(t, Reason::MissingDelimiter)
        },
        None => malformed(t, Reason::MissingDelimiter),
    }
}

/// Reads `this.(a,b,...)`.
pub open spec fn parse_sparse(t: Seq<char>) -> Result<TypeModel, TypeErrorModel> {
    match find(t, marker(Marker::Sparse)) {
        Some(i) => if 0 <= i && i + 5 + 2 <= t.len() && t[i + 5] == '(' && t[t.len() - 1]
            == ')' {
            Ok(
                TypeModel::This {
                    sparsed_object: SparsedModel::Node {
                        fields: split(t.subrange(i + 6, t.len() - 1), ','),
                        parent: None,
                    },
                },
            )
        } else {
            malformed(t, Reason::MissingDelimiter)
        },
        None => malformed(t, Reason::MissingDelimiter),
    }
}

/// Reads `{@ref:Object}.field`, cut at the first `}.`: the object name starts six characters
/// in, after the fixed prefix, and the field name is all that follows the `}.`.
pub open spec fn parse_field_ref(t: Seq<char>) -> Result<TypeModel, TypeErrorModel> {
    match find(t, marker(Marker::FieldRef)) {
        Some(i) => if 0 <= i && i + 2 <= t.len() {
            if i < 6 {
                malformed(t, Reason::MissingPrefix)
            } else if i == 6 || i + 2 == t.len() {
                malformed(t, Reason::EmptySegment)
            } else {
                Ok(
                    TypeModel::Ref {
                        object_name: t.subrange(6, i),
                        field_name: t.subrange(i + 2, t.len() as int),
                    },
                )
            }
        } else {
            malformed(t, Reason::MissingDelimiter)
        },
        None => malformed(t, Reason::MissingDelimiter),
    }
}

/// Reads a trimmed type expression.
pub open spec fn parse_trimmed(t: Seq<char>) -> Result<TypeModel, TypeErrorModel>
    decreases t.len(), 1int,
{
    let reduced = can_be_reduced_spec(t) && has_reducer_spec(t);
    let field_ref = contains(t, marker(Marker::FieldRef));
    let self_ref = contains(t, marker(Marker::SelfRef));
    let sparse = !self_ref && contains(t, marker(Marker::Sparse));
    if !reduced && !field_ref && !self_ref && !sparse {
        parse_plain(t)
    } else if self_ref {
        parse_this_ref(t)
    } else if sparse {
        parse_sparse(t)
    } else if field_ref {
        parse_field_ref(t)
    } else {
        parse_reducer(t)
    }
}

/// What a type expression denotes, read after trimming whitespace.
pub open spec fn parse_type(s: Seq<char>) -> Result<TypeModel, TypeErrorModel>
    decreases s.len(), 2int,
{
    let t = trim(s);
    if t.len() <= s.len() {
        parse_trimmed(t)
    } else {
        malformed(t, Reason::EmptyToken)
    }
}

fn malformed_error(t: &str, reason: Reason) -> (r: TypeError)
    ensures
        r@ == (TypeErrorModel::Malformed { token: t@, reason }),
{
    TypeError::MalformedTypeExpression { token: String::from_str(t), reason }
}

/// Index of the last `c` in `s` before index `j`.
fn rfind_char_str(s: &str, c: char, j: usize) -> (r: Option<usize>)
    requires
        j <= s@.len(),
    ensures
        match r {
            Some(k) => rfind_char(s@, c, j as int) == Some(k as int),
            None => rfind_char(s@, c, j as int) is None,
        },
{
    let mut k: usize = j;
    while k > 0
        invariant
            k <= j <= s@.len(),
            rfind_char(s@, c, j as int) == rfind_char(s@, c, k as int),
        decreases k,
    {
        if s.get_char(k - 1) == c {
            return Some(k - 1);
        }
        k = k - 1;
    }
    None
}

/// Where the pieces of `base[start..end]` lie: the `[`, the `..`, and the `]` counted
/// from just after the `..`.
fn reducer_split(t: &str) -> (r: Option<(usize, usize, usize)>)
    ensures
        match r {
            Some((b, i, e)) => b < i && i + 2 + e <= t@.len() && reducer_parts(t@) == Some(
                (
                    t@.subrange(0, b as int),
                    t@.subrange(b + 1, i as int),
                    t@.subrange(i + 2, i + 2 + e),
                ),
            ),
            None => reducer_parts(t@) is None,
        },
{
    let n = str_len(t);
    match find_str(t, marker_str(Marker::Range)) {
        None => None,
        Some(i) => {
            proof {
                lemma_find_from_bounds(t@, marker(Marker::Range), 0);
            }
            match rfind_char_str(t, '[', i) {
                None => None,
                Some(b) => {
                    let right = t.substring_char(i + 2, n);
                    match find_str(right, marker_str(Marker::Close)) {
                        None => None,
                        Some(e) => {
                            proof {
                                lemma_rfind_bounds(t@, '[', i as int);
                                lemma_find_from_bounds(right@, marker(Marker::Close), 0);
                                assert(right@.subrange(0, e as int) =~= t@.subrange(
                                    i + 2,
                                    i + 2 + e,
                                ));
                            }
                            Some((b, i, e))
                        },
                    }
                },
            }
        },
    }
}

proof fn lemma_rfind_bounds(s: Seq<char>, c: char, j: int)
    ensures
        rfind_char(s, c, j) matches Some(k) ==> 0 <= k < j,
    decreases j,
{
    if !(j <= 0 || j > s.len()) && s[j - 1] != c {
        lemma_rfind_bounds(s, c, j - 1);
    }
}

impl Type {
    /// The primitive or null type that a keyword names.
    fn keyword(t: &str) -> (r: Option<Type>)
        ensures
            match r {
                Some(x) => keyword_type(t@) == Some(x@),
                None => keyword_type(t@) is None,
            },
    {
        if same_text(t, marker_str(Marker::KwInt)) {
            Some(Type::Int)
        } else if same_text(t, marker_str(Marker::KwFloat)) {
            Some(Type::Float)
        } else if same_text(t, marker_str(Marker::KwStr)) {
            Some(Type::Str)
        } else if same_text(t, marker_str(Marker::KwBool)) {
            Some(Type::Bool)
        } else if same_text(t, marker_str(Marker::KwEpoch)) {
            Some(Type::Epoch)
        } else if same_text(t, marker_str(Marker::KwPath)) {
            Some(Type::Path)
        } else if same_text(t, marker_str(Marker::Bang)) {
            Some(Type::Null)
        } else {
            None
        }
    }

    /// Whether `s` is exactly one of `str`, `int`, `float`, `bool`, `{@epoch}`, `{@path}`.
    pub fn is_primitive(s: &str) -> (r: bool)
        ensures
            r == is_primitive_spec(s@),
    {
        Type::keyword(s).is_some() && !same_text(s, marker_str(Marker::Bang))
    }

    /// Whether `s` may carry a range: it starts with a reducible keyword, or with `[`
    /// and holds no `..`.
    pub fn can_be_reduced_str(s: &str) -> (r: bool)
        ensures
            r == can_be_reduced_spec(s@),
    {
        if starts_with_str(s, marker_str(Marker::KwStr)) || starts_with_str(
            s,
            marker_str(Marker::KwInt),
        ) || starts_with_str(s, marker_str(Marker::KwFloat)) || starts_with_str(
            s,
            marker_str(Marker::KwEpoch),
        ) || starts_with_str(s, marker_str(Marker::KwPath)) {
            true
        } else {
            starts_with_str(s, marker_str(Marker::Open)) && !contains_str(
                s,
                marker_str(Marker::Range),
            )
        }
    }

    /// Whether `s` may carry a range and holds `..`.
    pub fn has_reducer(s: &str) -> (r: bool)
        ensures
            r == has_reducer_spec(s@),
    {
        Type::can_be_reduced_str(s) && contains_str(s, marker_str(Marker::Range))
    }

    /// Whether `s` holds a `:`.
    pub fn is_map(s: &str) -> (r: bool)
        ensures
            r == contains(s@, marker(Marker::Colon)),
    {
        contains_str(s, marker_str(Marker::Colon))
    }

    /// The bounds of `base[start..end]`; an absent start is 0.
    pub fn get_reducer(s: &str) -> (r: Result<(i32, i32), TypeError>)
        ensures
            match r {
                Ok((a, b)) => reducer_bounds(s@) == Ok::<(int, int), TypeErrorModel>(
                    (a as int, b as int),
                ),
                Err(e) => reducer_bounds(s@) == Err::<(int, int), TypeErrorModel>(e@),
            },
    {
        match reducer_split(s) {
            None => Err(malformed_error(s, Reason::MissingDelimiter)),
            Some((b, i, e)) => {
                let n = str_len(s);
                assert(i + 2 + e <= n);
                let start = if b + 1 == i {
                    Some(0i32)
                } else {
                    parse_i32(s.substring_char(b + 1, i))
                };
                let end = parse_i32(s.substring_char(i + 2, i + 2 + e));
                match (start, end) {
                    (Some(x), Some(y)) => Ok((x, y)),
                    _ => Err(TypeError::MalformedReducerBounds { token: String::from_str(s) }),
                }
            },
        }
    }

    /// Reads `base[start..end]`.
    pub fn get_reduced_type_from_str(s: &str) -> (r: Result<Type, TypeError>)
        ensures
            result_model(r) == parse_reducer(s@),
        decreases s@.len(), 0int,
    {
        match Type::get_reducer(s) {
            Err(e) => Err(e),
            Ok((a, b)) => match reducer_split(s) {
                None => Err(malformed_error(s, Reason::MissingDelimiter)),
                Some((bi, _, _)) => {
                    let base = s.substring_char(0, bi);
                    match Type::from_str(base) {
                        Err(e) => Err(e),
                        Ok(w) => Ok(Type::Reducer { which: Box::new(w), start: a, end: b }),
                    }
                },
            },
        }
    }

    fn parse_plain_str(t: &str) -> (r: Result<Type, TypeError>)
        ensures
            result_model(r) == parse_plain(t@),
        decreases t@.len(), 0int,
    {
        if let Some(k) = Type::keyword(t) {
            return Ok(k);
        }
        let n = str_len(t);
        if n == 0 {
            return Err(malformed_error(t, Reason::EmptyToken));
        }
        if t.get_char(0) == '!' {
            let rest = t.substring_char(1, n);
            let which = match Type::keyword(rest) {
                Some(k) => if Type::is_primitive(rest) {
                    k
                } else {
                    Type::Object { object_name: String::from_str(rest) }
                },
                None => Type::Object { object_name: String::from_str(rest) },
            };
            let r = Type::NullType { which: Box::new(which) };
            assert(rest@ == t@.subrange(1, t@.len() as int));
            assert(r@ == (TypeModel::NullType { which: Box::new(which@) }));
            return Ok(r);
        }
        if let Some(k) = find_str(t, marker_str(Marker::Colon)) {
            if !starts_with_str(t, marker_str(Marker::MapOpen)) {
                return Err(malformed_error(t, Reason::MissingPrefix));
            }
            if !ends_with_str(t, marker_str(Marker::Close)) || !(2 <= k && k < n - 1) {
                return Err(malformed_error(t, Reason::MissingDelimiter));
            }
            let kt = Type::from_str(t.substring_char(2, k))?;
            let vt = Type::from_str(t.substring_char(k + 1, n - 1))?;
            return Ok(Type::Dict(Box::new(kt), Box::new(vt)));
        }
        if t.get_char(0) == '[' {
            if n >= 2 && t.get_char(n - 1) == ']' {
                let e = Type::from_str(t.substring_char(1, n - 1))?;
                Ok(Type::List(Box::new(e)))
            } else {
                Err(malformed_error(t, Reason::MissingDelimiter))
            }
        } else {
            Ok(Type::Object { object_name: String::from_str(t) })
        }
    }

    fn parse_this_ref_str(t: &str) -> (r: Result<Type, TypeError>)
        ensures
            result_model(r) == parse_this_ref(t@),
        decreases t@.len(), 0int,
    {
        let n = str_len(t);
        let i = match find_str(t, marker_str(Marker::SelfRef)) {
            Some(i) => i,
            None => return Err(malformed_error(t, Reason::MissingDelimiter)),
        };
        if !(i <= n && 6 <= n - i) {
            return Err(malformed_error(t, Reason::MissingDelimiter));
        }
        let d = match find_str_from(t, marker_str(Marker::Dot), i + 6) {
            Some(d) => d,
            None => return Err(malformed_error(t, Reason::MissingDelimiter)),
        };
        if !(i + 6 <= d && d < n) {
            return Err(malformed_error(t, Reason::MissingDelimiter));
        }
        if d == i + 6 {
            return Err(malformed_error(t, Reason::EmptySegment));
        }
        if t.get_char(n - 1) != '}' || d + 1 > n - 1 {
            return Err(malformed_error(t, Reason::MissingDelimiter));
        }
        let name = slice(t, i + 6, d);
        if d + 1 == n - 1 {
            Ok(Type::ThisRef { object_field_name: name, append_type: None })
        } else {
            let a = Type::from_str(t.substring_char(d + 1, n - 1))?;
            Ok(Type::ThisRef { object_field_name: name, append_type: Some(Box::new(a)) })
        }
    }

    fn parse_sparse_str(t: &str) -> (r: Result<Type, TypeError>)
        ensures
            result_model(r) == parse_sparse(t@),
    {
        let n = str_len(t);
        match find_str(t, marker_str(Marker::Sparse)) {
            Some(i) => {
                if i <= n && 7 <= n - i && t.get_char(i + 5) == '(' && t.get_char(n - 1) == ')' {
                    let fields = split_char(t.substring_char(i + 6, n - 1), ',');
                    let sparsed_object = SparsedObject { fields, parent: None };
                    Ok(Type::This { sparsed_object })
                } else {
                    Err(malformed_error(t, Reason::MissingDelimiter))
                }
            },
            None => Err(malformed_error(t, Reason::MissingDelimiter)),
        }
    }

    fn parse_field_ref_str(t: &str) -> (r: Result<Type, TypeError>)
        ensures
            result_model(r) == parse_field_ref(t@),
    {
        let n = str_len(t);
        match find_str(t, marker_str(Marker::FieldRef)) {
            Some(i) => {
                if !(i <= n && 2 <= n - i) {
                    Err(malformed_error(t, Reason::MissingDelimiter))
                } else if i < 6 {
                    Err(malformed_error(t, Reason::MissingPrefix))
                } else if i == 6 || i + 2 == n {
                    Err(malformed_error(t, Reason::EmptySegment))
                } else {
                    Ok(Type::Ref { object_name: slice(t, 6, i), field_name: slice(t, i + 2, n) })
                }
            },
            None => Err(malformed_error(t, Reason::MissingDelimiter)),
        }
    }

    fn parse_trimmed_str(t: &str) -> (r: Result<Type, TypeError>)
        ensures
            result_model(r) == parse_trimmed(t@),
        decreases t@.len(), 1int,
    {
        let reduced = Type::can_be_reduced_str(t) && Type::has_reducer(t);
        let field_ref = contains_str(t, marker_str(Marker::FieldRef));
        let self_ref = contains_str(t, marker_str(Marker::SelfRef));
        let sparse = !self_ref && contains_str(t, marker_str(Marker::Sparse));
        if !reduced && !field_ref && !self_ref && !sparse {
            Type::parse_plain_str(t)
        } else if self_ref {
            Type::parse_this_ref_str(t)
        } else if sparse {
            Type::parse_sparse_str(t)
        } else if field_ref {
            Type::parse_field_ref_str(t)
        } else {
            Type::get_reduced_type_from_str(t)
        }
    }

    /// Reads a type expression; surrounding whitespace is ignored.
    pub fn from_str(s: &str) -> (r: Result<Type, TypeError>)
        ensures
            result_model(r) == parse_type(s@),
        decreases s@.len(), 2int,
    {
        proof {
            lemma_trim_len(s@);
        }
        Type::parse_trimmed_str(trim_str(s))
    }
}

} // verus!
