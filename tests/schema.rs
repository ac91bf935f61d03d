use chainschema_gen::{
    Field, Object, Reason, Schema, SchemeError, Sort, SparsedObject, Type, TypeError,
};

fn field(name: &str, type_: Type) -> Field {
    Field { name: name.to_string(), type_ }
}

fn parse(content: &str) -> Result<Schema, SchemeError> {
    Schema::parse("schema.chain".to_string(), content)
}

#[test]
fn end_to_end_single_object() {
    let schema = parse("(>) User: {\n  name: str\n  age: int\n  tags: [str]\n}\n").unwrap();
    assert_eq!(schema.path, "schema.chain");
    assert_eq!(schema.objects.len(), 1);
    let user = &schema.objects[0];
    assert_eq!(user.name, "User");
    assert_eq!(user.sort, Sort::Descending);
    assert_eq!(user.parent, None);
    assert_eq!(
        user.fields,
        vec![
            field("name", Type::Str),
            field("age", Type::Int),
            field("tags", Type::List(Box::new(Type::Str))),
        ]
    );
    assert!(!user.has_sparsed_fields);
}

#[test]
fn end_to_end_inheritance() {
    let text = "(<) Base: {\n  id: int\n}\n(<) Derived(:Base): {\n  extra: float\n}\n";
    let schema = parse(text).unwrap();
    assert_eq!(schema.objects.len(), 2);
    let base = Object {
        name: "Base".to_string(),
        fields: vec![field("id", Type::Int)],
        parent: None,
        sort: Sort::Ascending,
        has_sparsed_fields: false,
    };
    assert_eq!(schema.objects[0], base);
    let derived = &schema.objects[1];
    assert_eq!(derived.name, "Derived");
    assert_eq!(derived.sort, Sort::Ascending);
    assert_eq!(derived.parent, Some(Box::new(base)));
    assert_eq!(derived.fields, vec![field("extra", Type::Float)]);
}

#[test]
fn bodiless_object_has_no_fields() {
    let schema = parse("() Base: {\n}\n() Empty(:Base)\n").unwrap();
    assert_eq!(schema.objects.len(), 2);
    assert_eq!(schema.objects[1].name, "Empty");
    assert!(schema.objects[1].fields.is_empty());
    assert_eq!(schema.objects[1].sort, Sort::Default);
}

#[test]
fn unknown_parent_is_an_error() {
    assert_eq!(
        parse("() Child(:Missing): {\n}\n"),
        Err(SchemeError::ParentNotFound { name: "Missing".to_string() })
    );
    assert_eq!(
        parse("() Child(:Later): {\n}\n() Later: {\n}\n"),
        Err(SchemeError::ParentNotFound { name: "Later".to_string() })
    );
}

#[test]
fn sort_from_header() {
    assert_eq!(Sort::from(">"), Sort::Descending);
    assert_eq!(Sort::from("<"), Sort::Ascending);
    assert_eq!(Sort::from(""), Sort::Default);
    assert_eq!(Sort::from(">>"), Sort::Default);
    let schema = parse("(x) A: {\n}\n(<) B: {\n}\n(>) C: {\n}\n() D: {\n}\n").unwrap();
    let sorts: Vec<Sort> = schema.objects.iter().map(|o| o.sort).collect();
    assert_eq!(sorts, vec![Sort::Default, Sort::Ascending, Sort::Descending, Sort::Default]);
}

#[test]
fn comments_and_blank_lines_are_skipped() {
    let schema = parse("// header\n\n() A: {\n  // note\n\n  x: bool\n}\n").unwrap();
    assert_eq!(schema.objects[0].fields, vec![field("x", Type::Bool)]);
}

#[test]
fn field_types_with_colons_and_projection() {
    let schema = parse("() A: {\n  m: [@str:int]\n  p: this.(m)\n}\n").unwrap();
    let a = &schema.objects[0];
    assert_eq!(
        a.fields[0],
        field("m", Type::Dict(Box::new(Type::Str), Box::new(Type::Int)))
    );
    assert_eq!(
        a.fields[1],
        field(
            "p",
            Type::This {
                sparsed_object: SparsedObject { fields: vec!["m".to_string()], parent: None },
            }
        )
    );
    assert!(a.has_sparsed_fields);
}

#[test]
fn header_errors() {
    assert_eq!(
        parse("() A\n"),
        Err(SchemeError::InvalidHeaderFormat { line: "() A".to_string() })
    );
    assert_eq!(
        parse("() A: x\n"),
        Err(SchemeError::InvalidHeaderFormat { line: "() A: x".to_string() })
    );
    assert_eq!(
        parse("(> A: {\n"),
        Err(SchemeError::InvalidHeaderFormat { line: "(> A: {".to_string() })
    );
}

#[test]
fn unterminated_object() {
    assert_eq!(parse("() A: {\n  x: int\n"), Err(SchemeError::UnterminatedObject));
    assert_eq!(parse("() A: {\n() B: {\n}\n"), Err(SchemeError::UnterminatedObject));
}

#[test]
fn bad_field_lines() {
    assert_eq!(
        parse("() A: {\n  x int\n}\n"),
        Err(SchemeError::InvalidFieldType(TypeError::MalformedTypeExpression {
            token: "x int".to_string(),
            reason: Reason::MissingDelimiter,
        }))
    );
    assert_eq!(
        parse("() A: {\n  x: [int\n}\n"),
        Err(SchemeError::InvalidFieldType(TypeError::MalformedTypeExpression {
            token: "[int".to_string(),
            reason: Reason::MissingDelimiter,
        }))
    );
}

#[test]
fn copies_are_equal() {
    let schema = parse("() A: {\n  x: {this.x.[int]}\n}\n() B(:A)\n").unwrap();
    assert_eq!(schema.objects[1].parent.as_deref(), Some(&schema.objects[0]));
    assert_eq!(schema.objects[0].copy(), schema.objects[0]);
    assert_eq!(schema.objects[0].fields[0].copy(), schema.objects[0].fields[0]);
}

#[test]
fn empty_document() {
    assert_eq!(parse("").unwrap().objects.len(), 0);
    assert_eq!(parse("// only a comment").unwrap().objects.len(), 0);
}

#[test]
fn header_text_after_second_paren_counts() {
    assert_eq!(
        parse("() A: {) x\n"),
        Err(SchemeError::InvalidHeaderFormat { line: "() A: {) x".to_string() })
    );
    assert_eq!(
        parse("() A: {)\n"),
        Err(SchemeError::InvalidHeaderFormat { line: "() A: {)".to_string() })
    );
    let schema = parse("() B: {\n}\n() C(:B) : {\n  y: int\n}\n").unwrap();
    assert_eq!(schema.objects[1].name, "C");
    assert_eq!(schema.objects[1].parent.as_ref().map(|p| p.name.clone()), Some("B".to_string()));
}

#[test]
fn clones_are_equal() {
    let schema = parse("(>) A: {\n  t: {this.t.[@str:int]}\n  p: this.(t)\n}\n").unwrap();
    assert_eq!(schema.clone(), schema);
    assert_eq!(schema.objects[0].clone(), schema.objects[0]);
    assert_eq!(schema.objects[0].fields[1].type_.clone(), schema.objects[0].fields[1].type_);
    let e = SchemeError::ParentNotFound { name: "X".to_string() };
    assert_eq!(e.clone(), e);
}

#[test]
fn header_inside_open_body_reports_its_own_error() {
    assert_eq!(
        parse("() A: {\n  x: int\n() B(:Missing)\n"),
        Err(SchemeError::ParentNotFound { name: "Missing".to_string() })
    );
    assert_eq!(
        parse("() A: {\n  x: int\n() B\n"),
        Err(SchemeError::InvalidHeaderFormat { line: "() B".to_string() })
    );
    assert_eq!(
        parse("() A: {\n  x: int\n  (>) B: {\n}\n"),
        Err(SchemeError::UnterminatedObject)
    );
}
