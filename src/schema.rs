//! Schema documents: objects declared line by line, each field typed by a type expression.
use vstd::prelude::*;
use crate::marker::{marker, marker_str, Marker};
use crate::text::{
    ends_with, ends_with_str, find, find_str, split, split_char, starts_with, starts_with_str,
    str_len, strings_model, trim, trim_str,
};
use crate::types::{
    parse_type, result_model, sort_of, Field, Object, Sort, SparsedObject, Type, TypeError,
    TypeErrorModel, TypeModel,
};

verus! {

/// A parsed schema document.
#[derive(Debug, Clone, PartialEq)]
pub struct Schema {
    pub path: String,
    pub objects: Vec<Object>,
}

/// Why a schema document was refused.
#[derive(Debug, Clone, PartialEq)]
pub enum SchemeError {
    /// The document's path names no file.
    PathNotExists,
    /// A header names a parent that no earlier object has.
    ParentNotFound { name: String },
    /// A header line of the wrong shape.
    InvalidHeaderFormat { line: String },
    /// An object body that is never closed.
    UnterminatedObject,
    /// A field line whose type expression could not be read.
    InvalidFieldType(TypeError),
}

pub struct FieldModel {
    pub name: Seq<char>,
    pub type_: TypeModel,
}

pub struct ObjectModel {
    pub name: Seq<char>,
    pub fields: Seq<FieldModel>,
    pub parent: Option<Box<ObjectModel>>,
    pub sort: Sort,
    pub has_sparsed_fields: bool,
}

pub struct SchemaModel {
    pub path: Seq<char>,
    pub objects: Seq<ObjectModel>,
}

pub enum SchemeErrorModel {
    PathNotExists,
    ParentNotFound { name: Seq<char> },
    InvalidHeaderFormat { line: Seq<char> },
    UnterminatedObject,
    InvalidFieldType(TypeErrorModel),
}

impl View for Field {
    type V = FieldModel;

    open spec fn view(&self) -> FieldModel {
        FieldModel { name: self.name@, type_: self.type_@ }
    }
}

pub open spec fn fields_model(v: Seq<Field>) -> Seq<FieldModel> {
    v.map_values(|f: Field| f@)
}

pub open spec fn object_model(o: Object) -> ObjectModel
    decreases o,
{
    ObjectModel {
        name: o.name@,
        fields: fields_model(o.fields@),
        parent: match o.parent {
            Some(p) => Some(Box::new(object_model(*p))),
            None => None,
        },
        sort: o.sort,
        has_sparsed_fields: o.has_sparsed_fields,
    }
}

impl View for Object {
    type V = ObjectModel;

    open spec fn view(&self) -> ObjectModel {
        object_model(*self)
    }
}

pub open spec fn objects_model(v: Seq<Object>) -> Seq<ObjectModel> {
    v.map_values(|o: Object| o@)
}

impl View for Schema {
    type V = SchemaModel;

    open spec fn view(&self) -> SchemaModel {
        SchemaModel { path: self.path@, objects: objects_model(self.objects@) }
    }
}

impl View for SchemeError {
    type V = SchemeErrorModel;

    open spec fn view(&self) -> SchemeErrorModel {
        match self {
            SchemeError::PathNotExists => SchemeErrorModel::PathNotExists,
            SchemeError::ParentNotFound { name } => SchemeErrorModel::ParentNotFound {
                name: name@,
            },
            SchemeError::InvalidHeaderFormat { line } => SchemeErrorModel::InvalidHeaderFormat {
                line: line@,
            },
            SchemeError::UnterminatedObject => SchemeErrorModel::UnterminatedObject,
            SchemeError::InvalidFieldType(e) => SchemeErrorModel::InvalidFieldType(e@),
        }
    }
}

/// An object whose header has been read and whose body is still open.
pub struct PendingModel {
    pub name: Seq<char>,
    pub sort: Sort,
    pub parent: Option<ObjectModel>,
    pub fields: Seq<FieldModel>,
}

/// Where the line-by-line reading of a document stands.
pub struct DocModel {
    pub objects: Seq<ObjectModel>,
    pub open: Option<PendingModel>,
}

/// Some field of `fields` is a sparse projection of its object.
pub open spec fn any_sparse(fields: Seq<FieldModel>) -> bool {
    exists|i: int| 0 <= i < fields.len() && (#[trigger] fields[i]).type_ is This
}

/// The object that a finished declaration stands for.
pub open spec fn finish(p: PendingModel) -> ObjectModel {
    ObjectModel {
        name: p.name,
        fields: p.fields,
        parent: match p.parent {
            Some(o) => Some(Box::new(o)),
            None => None,
        },
        sort: p.sort,
        has_sparsed_fields: any_sparse(p.fields),
    }
}

/// The first of `objects` from index `i` on that is named `name`.
pub open spec fn find_object_from(objects: Seq<ObjectModel>, name: Seq<char>, i: int) -> Option<
    ObjectModel,
>
    decreases objects.len() - i,
{
    if i < 0 || i >= objects.len() {
        None
    } else if objects[i].name == name {
        Some(objects[i])
    } else {
        find_object_from(objects, name, i + 1)
    }
}

pub open spec fn header_error(line: Seq<char>) -> SchemeErrorModel {
    SchemeErrorModel::InvalidHeaderFormat { line }
}

/// Reads a header line `(sort) name: {` or `(sort) name(:parent)`, against the objects
/// finished so far. The sort is the text between `(` and the first `)`. If the rest holds
/// `(:`, the name comes before it and the parent's name after it, up to the next `)`; the
/// parent is the first finished object of that name, copied. Otherwise the rest is cut at
/// its first `:`, and what follows must end with `{`. The flag says whether the line ends
/// with `{` and so opens a body.
pub open spec fn parse_header(line: Seq<char>, objects: Seq<ObjectModel>) -> Result<
    (PendingModel, bool),
    SchemeErrorModel,
> {
    let has_body = ends_with(line, marker(Marker::BraceOpen));
    match find(line, marker(Marker::ParenClose)) {
        None => Err(header_error(line)),
        Some(c) => if 1 <= c < line.len() {
            let sort = sort_of(line.subrange(1, c));
            let after = line.subrange(c + 1, line.len() as int);
            match find(after, marker(Marker::Extends)) {
                Some(x) => if 0 <= x && x + 2 <= after.len() {
                    let name = trim(after.subrange(0, x));
                    let tail = after.subrange(x + 2, after.len() as int);
                    let parent_text = match find(tail, marker(Marker::ParenClose)) {
                        Some(d) => if 0 <= d <= tail.len() {
                            tail.subrange(0, d)
                        } else {
                            tail
                        },
                        None => tail,
                    };
                    let parent_name = trim(parent_text);
                    match find_object_from(objects, parent_name, 0) {
                        None => Err(SchemeErrorModel::ParentNotFound { name: parent_name }),
                        Some(o) => Ok(
                            (PendingModel { name, sort, parent: Some(o), fields: seq![] }, has_body),
                        ),
                    }
                } else {
                    Err(header_error(line))
                },
                None => match find(after, marker(Marker::Colon)) {
                    Some(k) => if 0 <= k < after.len() && ends_with(
                        after.subrange(k + 1, after.len() as int),
                        marker(Marker::BraceOpen),
                    ) {
                        let name = trim(after.subrange(0, k));
                        Ok((PendingModel { name, sort, parent: None, fields: seq![] }, has_body))
                    } else {
                        Err(header_error(line))
                    },
                    None => Err(header_error(line)),
                },
            }
        } else {
            Err(header_error(line))
        },
    }
}

/// Reads a field line `name: type`.
pub open spec fn parse_field(line: Seq<char>) -> Result<FieldModel, SchemeErrorModel> {
    match find(line, marker(Marker::Colon)) {
        None => Err(
            SchemeErrorModel::InvalidFieldType(
                TypeErrorModel::Malformed {
                    token: line,
                    reason: crate::types::Reason::MissingDelimiter,
                },
            ),
        ),
        Some(k) => if 0 <= k < line.len() {
            match parse_type(line.subrange(k + 1, line.len() as int)) {
                Ok(t) => Ok(FieldModel { name: trim(line.subrange(0, k)), type_: t }),
                Err(e) => Err(SchemeErrorModel::InvalidFieldType(e)),
            }
        } else {
            Err(
                SchemeErrorModel::InvalidFieldType(
                    TypeErrorModel::Malformed {
                        token: line,
                        reason: crate::types::Reason::MissingDelimiter,
                    },
                ),
            )
        },
    }
}

/// One line of a document. Comments and blank lines are skipped. A header is read first in
/// any state: its own error comes first; a well-formed header while a body is still open
/// fails with `UnterminatedObject`; otherwise it opens or finishes an object. Inside a body,
/// `}` finishes the object and any other line adds a field; outside a body other lines are
/// ignored.
pub open spec fn step(st: DocModel, raw: Seq<char>) -> Result<DocModel, SchemeErrorModel> {
    let line = trim(raw);
    if line.len() == 0 || starts_with(line, marker(Marker::Comment)) {
        Ok(st)
    } else if line[0] == '(' {
        match parse_header(line, st.objects) {
            Err(e) => Err(e),
            Ok((p, body)) => if st.open is Some {
                Err(SchemeErrorModel::UnterminatedObject)
            } else if body {
                Ok(DocModel { objects: st.objects, open: Some(p) })
            } else {
                Ok(DocModel { objects: st.objects.push(finish(p)), open: None })
            },
        }
    } else {
        match st.open {
            None => Ok(st),
            Some(p) => if line[0] == '}' {
                Ok(DocModel { objects: st.objects.push(finish(p)), open: None })
            } else {
                match parse_field(line) {
                    Err(e) => Err(e),
                    Ok(f) => Ok(
                        DocModel {
                            objects: st.objects,
                            open: Some(PendingModel { fields: p.fields.push(f), ..p }),
                        },
                    ),
                }
            },
        }
    }
}

/// The state after the first `n` lines, or the first error among them.
pub open spec fn run(lines: Seq<Seq<char>>, n: int) -> Result<DocModel, SchemeErrorModel>
    decreases n,
{
    if n <= 0 || n > lines.len() {
        Ok(DocModel { objects: seq![], open: None })
    } else {
        match run(lines, n - 1) {
            Ok(st) => step(st, lines[n - 1]),
            Err(e) => Err(e),
        }
    }
}

/// The schema that `content` declares, read from `path`.
pub open spec fn parse_document(path: Seq<char>, content: Seq<char>) -> Result<
    SchemaModel,
    SchemeErrorModel,
> {
    let lines = split(content, '\n');
    match run(lines, lines.len() as int) {
        Err(e) => Err(e),
        Ok(st) => if st.open is Some {
            Err(SchemeErrorModel::UnterminatedObject)
        } else {
            Ok(SchemaModel { path, objects: st.objects })
        },
    }
}

impl Type {
    /// A copy of this type.
    pub fn copy(&self) -> (r: Type)
        ensures
            r@ == self@,
        decreases self,
    {
        match self {
            Type::Str => Type::Str,
            Type::Int => Type::Int,
            Type::Float => Type::Float,
            Type::Bool => Type::Bool,
            Type::List(e) => Type::List(Box::new((**e).copy())),
            Type::Dict(k, v) => Type::Dict(Box::new((**k).copy()), Box::new((**v).copy())),
            Type::Epoch => Type::Epoch,
            Type::Path => Type::Path,
            Type::Reducer { which, start, end } => Type::Reducer {
                which: Box::new((**which).copy()),
                start: *start,
                end: *end,
            },
            Type::ThisRef { object_field_name, append_type } => Type::ThisRef {
                object_field_name: object_field_name.clone(),
                append_type: match append_type {
                    Some(a) => Some(Box::new((**a).copy())),
                    None => None,
                },
            },
            Type::Ref { object_name, field_name } => Type::Ref {
                object_name: object_name.clone(),
                field_name: field_name.clone(),
            },
            Type::This { sparsed_object } => Type::This { sparsed_object: sparsed_object.copy() },
            Type::Object { object_name } => Type::Object { object_name: object_name.clone() },
            Type::Null => Type::Null,
            Type::NullType { which } => Type::NullType { which: Box::new((**which).copy()) },
        }
    }
}

impl Clone for Type {
    fn clone(&self) -> (r: Type)
        ensures
            r@ == self@,
    {
        self.copy()
    }
}

fn copy_strings(v: &Vec<String>) -> (r: Vec<String>)
    ensures
        r@ == v@,
{
    let mut r: Vec<String> = Vec::new();
    let mut i: usize = 0;
    while i < v.len()
        invariant
            i <= v@.len(),
            r@ == v@.subrange(0, i as int),
        decreases v@.len() - i,
    {
        r.push(v[i].clone());
        i = i + 1;
        assert(r@ =~= v@.subrange(0, i as int));
    }
    assert(v@.subrange(0, v@.len() as int) =~= v@);
    r
}

impl SparsedObject {
    /// A copy of this projection.
    pub fn copy(&self) -> (r: SparsedObject)
        ensures
            r@ == self@,
        decreases self,
    {
        let parent = match &self.parent {
            Some(p) => Some(Box::new((**p).copy())),
            None => None,
        };
        SparsedObject { fields: copy_strings(&self.fields), parent }
    }
}

impl Clone for SparsedObject {
    fn clone(&self) -> (r: SparsedObject)
        ensures
            r@ == self@,
    {
        self.copy()
    }
}

impl Field {
    /// A copy of this field.
    pub fn copy(&self) -> (r: Field)
        ensures
            r@ == self@,
    {
        Field { name: self.name.clone(), type_: self.type_.copy() }
    }
}

impl Clone for Field {
    fn clone(&self) -> (r: Field)
        ensures
            r@ == self@,
    {
        self.copy()
    }
}

fn copy_fields(v: &Vec<Field>) -> (r: Vec<Field>)
    ensures
        fields_model(r@) == fields_model(v@),
{
    let mut r: Vec<Field> = Vec::new();
    let mut i: usize = 0;
    while i < v.len()
        invariant
            i <= v@.len(),
            fields_model(r@) == fields_model(v@.subrange(0, i as int)),
        decreases v@.len() - i,
    {
        let f = v[i].copy();
        proof {
            assert(fields_model(r@.push(f)) =~= fields_model(r@).push(f@));
            assert(fields_model(v@.subrange(0, i + 1)) =~= fields_model(v@.subrange(0, i as int)).push(
                v@[i as int]@,
            ));
        }
        r.push(f);
        i = i + 1;
    }
    assert(v@.subrange(0, v@.len() as int) =~= v@);
    r
}

impl Object {
    /// A copy of this object, its parent included.
    pub fn copy(&self) -> (r: Object)
        ensures
            r@ == self@,
        decreases self,
    {
        let parent = match &self.parent {
            Some(p) => Some(Box::new((**p).copy())),
            None => None,
        };
        Object {
            name: self.name.clone(),
            fields: copy_fields(&self.fields),
            parent,
            sort: self.sort,
            has_sparsed_fields: self.has_sparsed_fields,
        }
    }
}

/// An object whose header has been read and whose body is still open.
struct Pending {
    name: String,
    sort: Sort,
    parent: Option<Object>,
    fields: Vec<Field>,
}

impl View for Pending {
    type V = PendingModel;

    closed spec fn view(&self) -> PendingModel {
        PendingModel {
            name: self.name@,
            sort: self.sort,
            parent: match self.parent {
                Some(o) => Some(o@),
                None => None,
            },
            fields: fields_model(self.fields@),
        }
    }
}

/// Where the line-by-line reading of a document stands.
struct Doc {
    objects: Vec<Object>,
    open: Option<Pending>,
}

impl View for Doc {
    type V = DocModel;

    closed spec fn view(&self) -> DocModel {
        DocModel {
            objects: objects_model(self.objects@),
            open: match self.open {
                Some(p) => Some(p@),
                None => None,
            },
        }
    }
}

fn finish_object(p: Pending) -> (r: Object)
    ensures
        r@ == finish(p@),
{
    let mut found = false;
    let mut i: usize = 0;
    while i < p.fields.len()
        invariant
            i <= p.fields@.len(),
            found == exists|j: int| 0 <= j < i && (#[trigger] p.fields@[j]).type_ is This,
        decreases p.fields@.len() - i,
    {
        if matches!(p.fields[i].type_, Type::This { .. }) {
            found = true;
        }
        i = i + 1;
    }
    proof {
        let m = fields_model(p.fields@);
        assert forall|j: int| 0 <= j < m.len() implies (#[trigger] m[j]).type_ is This == (
        p.fields@[j].type_ is This) by {
            assert(m[j] == p.fields@[j]@);
        }
        if found {
            let j = choose|j: int| 0 <= j < i && (#[trigger] p.fields@[j]).type_ is This;
            assert(m[j].type_ is This);
        }
        if any_sparse(m) {
            let j = choose|j: int| 0 <= j < m.len() && (#[trigger] m[j]).type_ is This;
            assert(p.fields@[j].type_ is This);
        }
    }
    let parent = match p.parent {
        Some(o) => Some(Box::new(o)),
        None => None,
    };
    Object { name: p.name, fields: p.fields, parent, sort: p.sort, has_sparsed_fields: found }
}

/// Index of the first object named `name`.
fn find_object(objects: &Vec<Object>, name: &String) -> (r: Option<usize>)
    ensures
        match r {
            Some(i) => i < objects@.len() && find_object_from(objects_model(objects@), name@, 0)
                == Some(objects@[i as int]@),
            None => find_object_from(objects_model(objects@), name@, 0) is None,
        },
{
    let ghost m = objects_model(objects@);
    let mut i: usize = 0;
    while i < objects.len()
        invariant
            i <= objects@.len(),
            m == objects_model(objects@),
            find_object_from(m, name@, 0) == find_object_from(m, name@, i as int),
        decreases objects@.len() - i,
    {
        assert(m[i as int] == objects@[i as int]@);
        if objects[i].name == *name {
            return Some(i);
        }
        i = i + 1;
    }
    None
}

fn header_err(line: &str) -> (r: SchemeError)
    ensures
        r@ == header_error(line@),
{
    SchemeError::InvalidHeaderFormat { line: String::from_str(line) }
}

/// Reads a header line against the objects finished so far.
fn parse_header_line(line: &str, objects: &Vec<Object>) -> (r: Result<(Pending, bool), SchemeError>)
    ensures
        match r {
            Ok((p, b)) => parse_header(line@, objects_model(objects@)) == Ok::<
                (PendingModel, bool),
                SchemeErrorModel,
            >((p@, b)),
            Err(e) => parse_header(line@, objects_model(objects@)) == Err::<
                (PendingModel, bool),
                SchemeErrorModel,
            >(e@),
        },
{
    let n = str_len(line);
    let has_body = ends_with_str(line, marker_str(Marker::BraceOpen));
    let c = match find_str(line, marker_str(Marker::ParenClose)) {
        Some(c) => c,
        None => return Err(header_err(line)),
    };
    if !(1 <= c && c < n) {
        return Err(header_err(line));
    }
    let sort = Sort::from(line.substring_char(1, c));
    assert(sort == sort_of(line@.subrange(1, c as int)));
    let after = line.substring_char(c + 1, n);
    let an = str_len(after);
    match find_str(after, marker_str(Marker::Extends)) {
        Some(x) => {
            if !(x <= an && 2 <= an - x) {
                return Err(header_err(line));
            }
            let name = String::from_str(trim_str(after.substring_char(0, x)));
            let tail = after.substring_char(x + 2, an);
            let tn = str_len(tail);
            let parent_text = match find_str(tail, marker_str(Marker::ParenClose)) {
                Some(d) => if d <= tn {
                    tail.substring_char(0, d)
                } else {
                    tail
                },
                None => tail,
            };
            let parent_name = String::from_str(trim_str(parent_text));
            match find_object(objects, &parent_name) {
                None => Err(SchemeError::ParentNotFound { name: parent_name }),
                Some(i) => {
                    let parent = objects[i].copy();
                    let fields: Vec<Field> = Vec::new();
                    assert(fields_model(fields@) =~= seq![]);
                    assert(objects_model(objects@)[i as int] == objects@[i as int]@);
                    Ok((Pending { name, sort, parent: Some(parent), fields }, has_body))
                },
            }
        },
        None => match find_str(after, marker_str(Marker::Colon)) {
            Some(k) => {
                if k < an && ends_with_str(
                    after.substring_char(k + 1, an),
                    marker_str(Marker::BraceOpen),
                ) {
                    let name = String::from_str(trim_str(after.substring_char(0, k)));
                    let fields: Vec<Field> = Vec::new();
                    assert(fields_model(fields@) =~= seq![]);
                    Ok((Pending { name, sort, parent: None, fields }, has_body))
                } else {
                    Err(header_err(line))
                }
            },
            None => Err(header_err(line)),
        },
    }
}

/// Reads a field line `name: type`.
fn parse_field_line(line: &str) -> (r: Result<Field, SchemeError>)
    ensures
        match r {
            Ok(f) => parse_field(line@) == Ok::<FieldModel, SchemeErrorModel>(f@),
            Err(e) => parse_field(line@) == Err::<FieldModel, SchemeErrorModel>(e@),
        },
{
    let n = str_len(line);
    let missing = TypeError::MalformedTypeExpression {
        token: String::from_str(line),
        reason: crate::types::Reason::MissingDelimiter,
    };
    match find_str(line, marker_str(Marker::Colon)) {
        None => Err(SchemeError::InvalidFieldType(missing)),
        Some(k) => if k < n {
            match Type::from_str(line.substring_char(k + 1, n)) {
                Ok(t) => Ok(Field { name: String::from_str(trim_str(line.substring_char(0, k))), type_: t }),
                Err(e) => Err(SchemeError::InvalidFieldType(e)),
            }
        } else {
            Err(SchemeError::InvalidFieldType(missing))
        },
    }
}

fn push_object(objects: Vec<Object>, o: Object) -> (r: Vec<Object>)
    ensures
        objects_model(r@) == objects_model(objects@).push(o@),
{
    let mut objects = objects;
    let ghost before = objects@;
    objects.push(o);
    assert(objects_model(objects@) =~= objects_model(before).push(o@));
    objects
}

/// Reads one line of a document.
fn step_line(doc: Doc, raw: &str) -> (r: Result<Doc, SchemeError>)
    ensures
        result_model(r) == step(doc@, raw@),
{
    let line = trim_str(raw);
    let n = str_len(line);
    if n == 0 || starts_with_str(line, marker_str(Marker::Comment)) {
        return Ok(doc);
    }
    let Doc { objects, open } = doc;
    if line.get_char(0) == '(' {
        match parse_header_line(line, &objects) {
            Err(e) => Err(e),
            Ok((p, body)) => if open.is_some() {
                Err(SchemeError::UnterminatedObject)
            } else if body {
                Ok(Doc { objects, open: Some(p) })
            } else {
                let o = finish_object(p);
                Ok(Doc { objects: push_object(objects, o), open: None })
            },
        }
    } else {
        match open {
            None => Ok(Doc { objects, open: None }),
            Some(p) => if line.get_char(0) == '}' {
                let o = finish_object(p);
                Ok(Doc { objects: push_object(objects, o), open: None })
            } else {
                match parse_field_line(line) {
                    Err(e) => Err(e),
                    Ok(f) => {
                        let Pending { name, sort, parent, fields } = p;
                        let mut fields = fields;
                        let ghost before = fields@;
                        fields.push(f);
                        assert(fields_model(fields@) =~= fields_model(before).push(f@));
                        Ok(Doc { objects, open: Some(Pending { name, sort, parent, fields }) })
                    },
                }
            },
        }
    }
}

impl Schema {
    /// Reads the schema document `content`, whose source is `path`.
    pub fn parse(path: String, content: &str) -> (r: Result<Schema, SchemeError>)
        ensures
            result_model(r) == parse_document(path@, content@),
    {
        let lines = split_char(content, '\n');
        let ghost ls = split(content@, '\n');
        let mut doc = Doc { objects: Vec::new(), open: None };
        assert(objects_model(doc.objects@) =~= seq![]);
        let mut i: usize = 0;
        while i < lines.len()
            invariant
                i <= lines@.len(),
                strings_model(lines@) == ls,
                ls == split(content@, '\n'),
                run(ls, i as int) == Ok::<DocModel, SchemeErrorModel>(doc@),
            decreases lines@.len() - i,
        {
            assert(ls[i as int] == lines@[i as int]@);
            doc = match step_line(doc, lines[i].as_str()) {
                Ok(d) => d,
                Err(e) => {
                    proof {
                        lemma_run_stops(ls, i as int + 1, lines@.len() as int);
                    }
                    return Err(e);
                },
            };
            i = i + 1;
        }
        if doc.open.is_some() {
            Err(SchemeError::UnterminatedObject)
        } else {
            Ok(Schema { path, objects: doc.objects })
        }
    }
}

/// Once a line has failed, every longer prefix fails with the same error.
pub proof fn lemma_run_stops(lines: Seq<Seq<char>>, n: int, m: int)
    requires
        0 < n <= m <= lines.len(),
        run(lines, n) is Err,
    ensures
        run(lines, m) == run(lines, n),
    decreases m - n,
{
    if m > n {
        lemma_run_stops(lines, n, m - 1);
    }
}

impl Clone for Object {
    fn clone(&self) -> (r: Object)
        ensures
            r@ == self@,
    {
        self.copy()
    }
}

} // verus!
