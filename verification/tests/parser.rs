use std::collections::HashMap;
use thriftrs2::parser::ast::{ThriftDocument, ThriftType, ThriftValue};
use thriftrs2::parser::{ParseError, Parser};

fn parse(input: &str) -> ThriftDocument {
    let mut parser = Parser::new(input).unwrap();
    parser.parse_document().unwrap()
}

#[test]
fn parses_empty_document() {
    let doc = parse("");
    assert!(doc.structs.is_empty());
    assert!(doc.services.is_empty());
}

#[test]
fn parses_struct_name_and_fields() {
    let doc = parse("struct User { 1: required i32 id; 2: optional string name; }");
    let user = doc.structs.get("User").unwrap();
    assert_eq!(user.fields.len(), 2);
    assert_eq!(user.fields[0].name, "id");
    assert!(matches!(user.fields[0].field_type, ThriftType::I32));
    assert!(user.fields[0].required);
    assert!(!user.fields[1].required);
}

#[test]
fn parses_struct_fields_with_comma_separators() {
    let doc = parse("struct User { 1: required i32 id, 2: optional string name, }");
    let user = doc.structs.get("User").unwrap();
    assert_eq!(user.fields.len(), 2);
    assert_eq!(user.fields[0].name, "id");
    assert_eq!(user.fields[1].name, "name");
}

#[test]
fn skips_default_values() {
    let doc = parse("struct User { 1: required string name = \"Ada\"; }");
    let field = &doc.structs.get("User").unwrap().fields[0];
    assert_eq!(field.name, "name");
    assert!(
        matches!(field.default_value, Some(ThriftValue::String(ref value)) if value == "Ada")
    );
}

#[test]
fn skips_container_default_values() {
    let doc = parse(
        "struct User { 1: optional list<i32> ids = [1, 2, 3]; 2: string name = \"Ada\"; }",
    );
    let fields = &doc.structs.get("User").unwrap().fields;
    assert_eq!(fields.len(), 2);
    assert_eq!(fields[0].name, "ids");
    assert_eq!(fields[1].name, "name");
}

#[test]
fn parses_list_set_and_map_types() {
    let doc = parse(
        "struct Data { 1: list<i32> nums; 2: set<string> tags; 3: map<string, i64> counts; }",
    );
    let fields = &doc.structs.get("Data").unwrap().fields;
    assert!(matches!(fields[0].field_type, ThriftType::List(_)));
    assert!(matches!(fields[1].field_type, ThriftType::SetT(_)));
    assert!(matches!(fields[2].field_type, ThriftType::MapT(_, _)));
}

#[test]
fn parses_nested_container_type() {
    let doc = parse("struct Data { 1: map<string, list<i32>> grouped; }");
    let field = &doc.structs.get("Data").unwrap().fields[0];
    assert!(matches!(field.field_type, ThriftType::MapT(_, _)));
}

#[test]
fn parses_custom_struct_type() {
    let doc = parse("struct Child { 1: string name; } struct Parent { 1: Child child; }");
    let field = &doc.structs.get("Parent").unwrap().fields[0];
    assert!(matches!(&field.field_type, ThriftType::Struct(name) if name == "Child"));
}

#[test]
fn parses_include_namespace_typedef_enum_and_const() {
    let doc = parse(
        r#"
        include "common.thrift"
        namespace py thrift.example
        typedef i64 Timestamp
        enum Status { OK = 1, FAILED = 2 }
        const map<string, string> DEFAULT_LABELS = {"source": "test"}
        struct Event {
            1: Timestamp created_at;
            2: Status status = Status.OK;
        }
        "#,
    );

    assert_eq!(doc.includes, vec!["common.thrift".to_string()]);
    assert_eq!(doc.namespaces.get("py").unwrap(), "thrift.example");
    assert_eq!(
        doc.enums.get("Status").unwrap().variants.get("OK"),
        Some(&1)
    );
    let fields = &doc.structs.get("Event").unwrap().fields;
    assert!(matches!(fields[0].field_type, ThriftType::I64));
    assert!(matches!(fields[1].field_type, ThriftType::I32));
    assert!(matches!(fields[1].default_value, Some(ThriftValue::I32(1))));
}

#[test]
fn parses_union_extends_annotations_and_defaults() {
    let doc = parse(
        r#"
        struct Base { 1: string id; }
        union Choice extends Base (scope="test") {
            2: string name = "fallback" (ui.hidden="true");
            3: list<i32> ids = [1, 2, 3];
            4: map<string, i32> counts = {"a": 1, "b": 2};
        }
        service Parent { void base_ping(); }
        service Child extends Parent (owner="bench") { void ping(); }
        "#,
    );
    let fields: HashMap<_, _> = doc
        .structs
        .get("Choice")
        .unwrap()
        .fields
        .iter()
        .map(|field| (field.name.as_str(), field))
        .collect();
    assert!(fields.contains_key("id"));
    assert!(
        matches!(fields["name"].default_value, Some(ThriftValue::String(ref value)) if value == "fallback")
    );
    assert!(
        matches!(fields["ids"].default_value, Some(ThriftValue::List(ref values)) if values.len() == 3)
    );
    assert!(
        matches!(fields["counts"].default_value, Some(ThriftValue::MapT(ref pairs)) if pairs.len() == 2)
    );
    let methods: Vec<_> = doc
        .services
        .get("Child")
        .unwrap()
        .methods
        .iter()
        .map(|method| method.name.as_str())
        .collect();
    assert_eq!(methods, vec!["base_ping", "ping"]);
}

#[test]
fn parses_exception_and_method_throws() {
    let doc = parse(
        "exception NotFound { 1: string message; } service Users { string get(1: i32 id) throws (1: NotFound err); }",
    );
    assert!(doc.structs.contains_key("NotFound"));
    let method = &doc.services.get("Users").unwrap().methods[0];
    assert_eq!(method.exceptions.len(), 1);
    assert!(
        matches!(&method.exceptions[0].field_type, ThriftType::Struct(name) if name == "NotFound")
    );
}

#[test]
fn preserves_qualified_type_name() {
    let doc =
        parse("struct Shared { 1: string name; } struct Holder { 1: common.Shared value; }");
    let field = &doc.structs.get("Holder").unwrap().fields[0];
    assert!(matches!(&field.field_type, ThriftType::Struct(name) if name == "common.Shared"));
}

#[test]
fn parses_service_methods() {
    let doc = parse("service UserService { bool save(1: i32 id); list<i32> all(); }");
    let service = doc.services.get("UserService").unwrap();
    assert_eq!(service.methods.len(), 2);
    assert_eq!(service.methods[0].name, "save");
    assert!(matches!(service.methods[0].return_type, ThriftType::Bool));
    assert_eq!(service.methods[0].arguments[0].name, "id");
}

#[test]
fn parses_oneway_method() {
    let doc = parse("service Events { oneway void notify(1: string message); }");
    let method = &doc.services.get("Events").unwrap().methods[0];
    assert!(method.oneway);
    assert!(matches!(&method.return_type, ThriftType::Struct(name) if name == "void"));
}

#[test]
fn skips_unknown_top_level_tokens_before_struct() {
    let doc = parse("namespace py ignored include \"x.thrift\" struct User { 1: i32 id; }");
    assert!(doc.structs.contains_key("User"));
}

#[test]
fn invalid_field_id_returns_error() {
    let mut parser = Parser::new("struct Bad { id: string name; }").unwrap();
    assert!(parser.parse_document().is_err());
}

#[test]
fn unclosed_struct_returns_error() {
    let mut parser = Parser::new("struct Bad { 1: string name;").unwrap();
    assert!(parser.parse_document().is_err());
}

#[test]
fn tokenization_remainder_returns_new_error() {
    assert!(Parser::new("struct Bad @").is_err());
}

// ─── Further cases ────────────────────────────────────────────────────────────

#[test]
fn remainder_error_quotes_the_unread_text() {
    match Parser::new("struct Bad @ rest  ") {
        Err(ParseError::SyntaxError(msg)) => assert_eq!(msg, "Unexpected input: \"@ rest\""),
        _ => panic!("expected a syntax error"),
    }
}

#[test]
fn remainder_error_shows_at_most_forty_bytes() {
    let input = format!("struct A @{}", "x".repeat(60));
    match Parser::new(&input) {
        Err(ParseError::SyntaxError(msg)) => {
            let shown = format!("@{}", "x".repeat(39));
            assert_eq!(msg, format!("Unexpected input: {:?}", shown));
        }
        _ => panic!("expected a syntax error"),
    }
}

#[test]
fn trailing_white_space_is_accepted() {
    let doc = parse("struct A { 1: i32 x; }  \n\t ");
    assert!(doc.structs.contains_key("A"));
}

#[test]
fn unknown_parent_struct_is_an_error() {
    let mut parser = Parser::new("struct Child extends Missing { 1: i32 x; }").unwrap();
    match parser.parse_document() {
        Err(ParseError::SyntaxError(msg)) => assert_eq!(msg, "Unknown parent struct: Missing"),
        _ => panic!("expected a syntax error"),
    }
}

#[test]
fn duplicate_inherited_field_is_an_error() {
    let mut parser =
        Parser::new("struct Base { 1: i32 x; } struct Child extends Base { 1: i32 y; }").unwrap();
    match parser.parse_document() {
        Err(ParseError::SyntaxError(msg)) => {
            assert_eq!(msg, "Duplicate inherited field 'y' in extends Base")
        }
        _ => panic!("expected a syntax error"),
    }
}

#[test]
fn duplicate_inherited_method_is_an_error() {
    let mut parser =
        Parser::new("service P { void a(); } service C extends P { i32 a(); }").unwrap();
    match parser.parse_document() {
        Err(ParseError::SyntaxError(msg)) => {
            assert_eq!(msg, "Duplicate inherited method 'a' in extends P")
        }
        _ => panic!("expected a syntax error"),
    }
}

#[test]
fn unknown_parent_service_is_an_error() {
    let mut parser = Parser::new("service C extends Nope { void a(); }").unwrap();
    match parser.parse_document() {
        Err(ParseError::SyntaxError(msg)) => assert_eq!(msg, "Unknown parent service: Nope"),
        _ => panic!("expected a syntax error"),
    }
}

#[test]
fn inherited_fields_come_first() {
    let doc = parse("struct Base { 1: i32 a; } struct Child extends Base { 2: string b; }");
    let child = doc.structs.get("Child").unwrap();
    let names: Vec<&str> = child.fields.iter().map(|f| f.name.as_str()).collect();
    assert_eq!(names, vec!["a", "b"]);
}

#[test]
fn enum_values_count_up_from_the_last_given() {
    let doc = parse("enum Color { RED, GREEN = 5, BLUE; YELLOW }");
    let color = doc.enums.get("Color").unwrap();
    assert_eq!(color.variants.get("RED"), Some(&0));
    assert_eq!(color.variants.get("GREEN"), Some(&5));
    assert_eq!(color.variants.get("BLUE"), Some(&6));
    assert_eq!(color.variants.get("YELLOW"), Some(&7));
}

#[test]
fn typedef_alias_resolves_through_qualified_name() {
    let doc = parse("typedef string Name struct A { 1: other.Name n; }");
    let field = &doc.structs.get("A").unwrap().fields[0];
    assert!(matches!(field.field_type, ThriftType::String));
}

#[test]
fn unknown_enum_reference_drops_the_default() {
    let doc = parse("struct A { 1: i32 x = Missing.VALUE; 2: i32 y; }");
    let fields = &doc.structs.get("A").unwrap().fields;
    assert_eq!(fields.len(), 2);
    assert!(fields[0].default_value.is_none());
}

#[test]
fn numeric_and_word_bool_defaults() {
    let doc = parse("struct A { 1: bool a = true; 2: bool b = 0; 3: bool c = false; }");
    let fields = &doc.structs.get("A").unwrap().fields;
    assert!(matches!(fields[0].default_value, Some(ThriftValue::Bool(true))));
    assert!(matches!(fields[1].default_value, Some(ThriftValue::Bool(false))));
    assert!(matches!(fields[2].default_value, Some(ThriftValue::Bool(false))));
}

#[test]
fn integer_default_of_a_double_field_is_its_nearest_double() {
    let doc = parse("struct A { 1: double d = -3; 2: double e = 9007199254740993; }");
    let fields = &doc.structs.get("A").unwrap().fields;
    assert!(matches!(fields[0].default_value, Some(ThriftValue::Double(b)) if b == (-3.0f64).to_bits()));
    assert!(
        matches!(fields[1].default_value, Some(ThriftValue::Double(b)) if b == (9007199254740993i64 as f64).to_bits())
    );
}

#[test]
fn integer_default_is_truncated_to_the_field_width() {
    let doc = parse("struct A { 1: byte b = 300; 2: i16 s = 70000; }");
    let fields = &doc.structs.get("A").unwrap().fields;
    assert!(matches!(fields[0].default_value, Some(ThriftValue::Byte(44))));
    assert!(matches!(fields[1].default_value, Some(ThriftValue::I16(4464))));
}

#[test]
fn binary_default_holds_the_bytes_of_the_string() {
    let doc = parse("struct A { 1: binary b = \"hi\"; }");
    let field = &doc.structs.get("A").unwrap().fields[0];
    assert!(matches!(field.default_value, Some(ThriftValue::Binary(ref v)) if v == &vec![104u8, 105]));
}

#[test]
fn struct_default_is_skipped_to_an_empty_value() {
    let doc = parse("struct A { 1: B b = {\"x\": 1}; 2: i32 y; }");
    let fields = &doc.structs.get("A").unwrap().fields;
    assert_eq!(fields.len(), 2);
    assert!(matches!(
        fields[0].default_value,
        Some(ThriftValue::Struct { name: Some(ref n), ref fields }) if n == "B" && fields.is_empty()
    ));
}

#[test]
fn missing_field_name_is_unexpected_token() {
    let mut parser = Parser::new("struct A { 1: i32 ; }").unwrap();
    assert!(matches!(parser.parse_document(), Err(ParseError::UnexpectedToken(_))));
}

#[test]
fn truncated_type_is_end_of_input() {
    let mut parser = Parser::new("struct A { 1: list").unwrap();
    assert!(matches!(parser.parse_document(), Err(ParseError::EndOfInput)));
}

#[test]
fn namespace_with_star_scope() {
    let doc = parse("namespace * my.pkg;");
    assert_eq!(doc.namespaces.get("*").unwrap(), "my.pkg");
}
