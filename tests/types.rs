use chainschema_gen::{Reason, SparsedObject, Type, TypeError};

fn bx(t: Type) -> Box<Type> {
    Box::new(t)
}

fn malformed(token: &str, reason: Reason) -> TypeError {
    TypeError::MalformedTypeExpression { token: token.to_string(), reason }
}

#[test]
fn test_type_from_str() {
    let int_type = Type::from_str("int").unwrap();
    let float_type = Type::from_str("float").unwrap();
    let str_type = Type::from_str("str").unwrap();
    let bool_type = Type::from_str("bool").unwrap();
    let epoch_type = Type::from_str("{@epoch}").unwrap();
    let path_type = Type::from_str("{@path}").unwrap();
    let null_type = Type::from_str("!").unwrap();
    let list_type = Type::from_str("[str]").unwrap();
    let map_type = Type::from_str("[@str:str]").unwrap();

    assert_eq!(int_type, Type::Int);
    assert_eq!(float_type, Type::Float);
    assert_eq!(str_type, Type::Str);
    assert_eq!(bool_type, Type::Bool);
    assert_eq!(epoch_type, Type::Epoch);
    assert_eq!(path_type, Type::Path);
    assert_eq!(null_type, Type::Null);
    assert_eq!(list_type, Type::List(bx(Type::Str)));
    assert_eq!(map_type, Type::Dict(bx(Type::Str), bx(Type::Str)));
}

#[test]
fn test_map_type_combinations_from_str() {
    let map_type = Type::from_str("[@str:str]").unwrap();
    assert_eq!(map_type, Type::Dict(bx(Type::Str), bx(Type::Str)));

    let map_type = Type::from_str("[@str:int]").unwrap();
    assert_eq!(map_type, Type::Dict(bx(Type::Str), bx(Type::Int)));

    let map_type = Type::from_str("[@str:float]").unwrap();
    assert_eq!(map_type, Type::Dict(bx(Type::Str), bx(Type::Float)));

    let map_type = Type::from_str("[@str:bool]").unwrap();
    assert_eq!(map_type, Type::Dict(bx(Type::Str), bx(Type::Bool)));

    let map_type = Type::from_str("[@str:{@epoch}]").unwrap();
    assert_eq!(map_type, Type::Dict(bx(Type::Str), bx(Type::Epoch)));

    let map_type = Type::from_str("[@str:{@path}]").unwrap();
    assert_eq!(map_type, Type::Dict(bx(Type::Str), bx(Type::Path)));

    let map_type = Type::from_str("[@str:!]").unwrap();
    assert_eq!(map_type, Type::Dict(bx(Type::Str), bx(Type::Null)));

    let map_type = Type::from_str("[@str:[str]]").unwrap();
    assert_eq!(map_type, Type::Dict(bx(Type::Str), bx(Type::List(bx(Type::Str)))));
}

#[test]
fn keywords_ignore_surrounding_whitespace() {
    assert_eq!(Type::from_str("  int \t").unwrap(), Type::Int);
    assert_eq!(Type::from_str("\n[ str ]").unwrap(), Type::List(bx(Type::Str)));
}

#[test]
fn other_tokens_are_not_primitives() {
    assert_eq!(
        Type::from_str("integer").unwrap(),
        Type::Object { object_name: "integer".to_string() }
    );
    assert_ne!(Type::from_str("!!").unwrap(), Type::Null);
    assert_ne!(Type::from_str("[int]").unwrap(), Type::Int);
}

#[test]
fn reducer_with_both_bounds() {
    assert_eq!(
        Type::from_str("str[2..5]").unwrap(),
        Type::Reducer { which: bx(Type::Str), start: 2, end: 5 }
    );
    assert_eq!(
        Type::from_str("{@epoch}[-3..10]").unwrap(),
        Type::Reducer { which: bx(Type::Epoch), start: -3, end: 10 }
    );
    assert_eq!(
        Type::from_str("int[7..2]").unwrap(),
        Type::Reducer { which: bx(Type::Int), start: 7, end: 2 }
    );
}

#[test]
fn reducer_without_start() {
    assert_eq!(
        Type::from_str("float[..12]").unwrap(),
        Type::Reducer { which: bx(Type::Float), start: 0, end: 12 }
    );
}

#[test]
fn reducer_bounds_alone() {
    assert_eq!(Type::get_reducer("str[2..5]").unwrap(), (2, 5));
    assert_eq!(Type::get_reducer("str[..2147483647]").unwrap(), (0, 2147483647));
    assert_eq!(Type::get_reducer("str[-2147483648..0]").unwrap(), (-2147483648, 0));
    assert_eq!(
        Type::get_reduced_type_from_str("int[1..4]").unwrap(),
        Type::Reducer { which: bx(Type::Int), start: 1, end: 4 }
    );
}

#[test]
fn reducer_bad_bounds() {
    assert_eq!(
        Type::from_str("str[a..5]"),
        Err(TypeError::MalformedReducerBounds { token: "str[a..5]".to_string() })
    );
    assert_eq!(
        Type::from_str("str[1..2147483648]"),
        Err(TypeError::MalformedReducerBounds { token: "str[1..2147483648]".to_string() })
    );
    assert_eq!(
        Type::from_str("str[1..5"),
        Err(malformed("str[1..5", Reason::MissingDelimiter))
    );
    assert_eq!(Type::from_str("str1..5]"), Err(malformed("str1..5]", Reason::MissingDelimiter)));
}

#[test]
fn map_of_primitives() {
    assert_eq!(
        Type::from_str("[@int:bool]").unwrap(),
        Type::Dict(bx(Type::from_str("int").unwrap()), bx(Type::from_str("bool").unwrap()))
    );
    assert_eq!(
        Type::from_str("[@str:[@int:float]]").unwrap(),
        Type::Dict(bx(Type::Str), bx(Type::Dict(bx(Type::Int), bx(Type::Float))))
    );
}

#[test]
fn list_of_elements() {
    assert_eq!(Type::from_str("[int]").unwrap(), Type::List(bx(Type::Int)));
    assert_eq!(Type::from_str("[[str]]").unwrap(), Type::List(bx(Type::List(bx(Type::Str)))));
    assert_eq!(
        Type::from_str("[User]").unwrap(),
        Type::List(bx(Type::Object { object_name: "User".to_string() }))
    );
}

#[test]
fn nullable_types() {
    assert_eq!(Type::from_str("!int").unwrap(), Type::NullType { which: bx(Type::Int) });
    assert_eq!(
        Type::from_str("!Foo").unwrap(),
        Type::NullType { which: bx(Type::Object { object_name: "Foo".to_string() }) }
    );
    assert_eq!(
        Type::from_str("!{@path}").unwrap(),
        Type::NullType { which: bx(Type::Path) }
    );
}

#[test]
fn self_field_reference() {
    assert_eq!(
        Type::from_str("{this.name.}").unwrap(),
        Type::ThisRef { object_field_name: "name".to_string(), append_type: None }
    );
    assert_eq!(
        Type::from_str("{this.name.str}").unwrap(),
        Type::ThisRef { object_field_name: "name".to_string(), append_type: Some(bx(Type::Str)) }
    );
    assert_eq!(Type::from_str("{this.}"), Err(malformed("{this.}", Reason::MissingDelimiter)));
    assert_eq!(Type::from_str("{this..}"), Err(malformed("{this..}", Reason::EmptySegment)));
}

#[test]
fn sparse_projection() {
    assert_eq!(
        Type::from_str("this.(a,b,a)").unwrap(),
        Type::This {
            sparsed_object: SparsedObject {
                fields: vec!["a".to_string(), "b".to_string(), "a".to_string()],
                parent: None,
            },
        }
    );
    assert_eq!(Type::from_str("this.a"), Err(malformed("this.a", Reason::MissingDelimiter)));
}

#[test]
fn object_field_reference() {
    assert_eq!(
        Type::from_str("{@ref:User}.name").unwrap(),
        Type::Ref { object_name: "User".to_string(), field_name: "name".to_string() }
    );
    assert_eq!(Type::from_str("{User}.name"), Err(malformed("{User}.name", Reason::MissingPrefix)));
    assert_eq!(Type::from_str("{@ref:}.name"), Err(malformed("{@ref:}.name", Reason::EmptySegment)));
}

#[test]
fn malformed_tokens() {
    assert_eq!(Type::from_str("   "), Err(malformed("", Reason::EmptyToken)));
    assert_eq!(Type::from_str("[str"), Err(malformed("[str", Reason::MissingDelimiter)));
    assert_eq!(Type::from_str("[]"), Err(malformed("", Reason::EmptyToken)));
    assert_eq!(Type::from_str("str:int"), Err(malformed("str:int", Reason::MissingPrefix)));
    assert_eq!(Type::from_str("[@str:int"), Err(malformed("[@str:int", Reason::MissingDelimiter)));
}

#[test]
fn predicates() {
    assert!(Type::is_primitive("bool"));
    assert!(!Type::is_primitive("!"));
    assert!(!Type::is_primitive("Foo"));
    assert!(Type::can_be_reduced_str("str[1..2]"));
    assert!(Type::can_be_reduced_str("[str]"));
    assert!(!Type::can_be_reduced_str("[str][1..2]"));
    assert!(!Type::can_be_reduced_str("bool"));
    assert!(Type::has_reducer("int[..3]"));
    assert!(!Type::has_reducer("int"));
    assert!(Type::is_map("[@str:int]"));
    assert!(!Type::is_map("[str]"));
}
