use thriftrs2::codec::{read_rust_value, ValueError};
use thriftrs2::given::{write_given_value, GivenValue};
use thriftrs2::parser::ast::{ThriftStruct, ThriftType, ThriftValue};
use thriftrs2::parser::names::NameMap;
use thriftrs2::parser::Parser;
use thriftrs2::protocol::{BinaryProtocolReader, BinaryProtocolWriter};

fn structs(idl: &str) -> NameMap<ThriftStruct> {
    let mut parser = Parser::new(idl).unwrap();
    parser.parse_document().unwrap().structs
}

fn write(t: &ThriftType, g: &GivenValue, sm: &NameMap<ThriftStruct>) -> Result<Vec<u8>, ValueError> {
    let mut w = BinaryProtocolWriter::new();
    write_given_value(&mut w, t, g, sm)?;
    Ok(w.into_bytes())
}

const IDL: &str = "struct D { 1: optional list<i32> xs = [], 2: required i32 n, 3: optional i32 m }";

fn d() -> ThriftType {
    ThriftType::Struct("D".to_string())
}

#[test]
fn a_default_is_written_as_the_value_itself_is() {
    let sm = structs(IDL);
    let g = GivenValue::Struct(vec![("n".to_string(), Some(GivenValue::Plain(ThriftValue::I32(3))))]);
    // xs takes its default, whose empty list announces string items; n follows.
    assert_eq!(write(&d(), &g, &sm).unwrap(), vec![15, 0, 1, 11, 0, 0, 0, 0, 8, 0, 2, 0, 0, 0, 3, 0]);
}

#[test]
fn a_given_list_announces_its_declared_items() {
    let sm = structs(IDL);
    let g = GivenValue::Struct(vec![
        ("xs".to_string(), Some(GivenValue::List(vec![]))),
        ("n".to_string(), Some(GivenValue::Plain(ThriftValue::I32(3)))),
    ]);
    assert_eq!(write(&d(), &g, &sm).unwrap(), vec![15, 0, 1, 8, 0, 0, 0, 0, 8, 0, 2, 0, 0, 0, 3, 0]);
}

#[test]
fn an_optional_field_given_none_is_left_out_even_with_a_default() {
    let sm = structs(IDL);
    let g = GivenValue::Struct(vec![
        ("m".to_string(), None),
        ("xs".to_string(), None),
        ("n".to_string(), Some(GivenValue::Plain(ThriftValue::I32(1)))),
    ]);
    assert_eq!(write(&d(), &g, &sm).unwrap(), vec![8, 0, 2, 0, 0, 0, 1, 0]);
}

#[test]
fn a_required_field_given_none_stops_the_write() {
    let sm = structs(IDL);
    let g = GivenValue::Struct(vec![("n".to_string(), None)]);
    assert!(matches!(write(&d(), &g, &sm), Err(ValueError::RequiredNone(n)) if n == "n"));
}

#[test]
fn given_values_of_the_wrong_kind_or_unknown_structs_are_refused() {
    let sm = structs(IDL);
    assert!(matches!(write(&d(), &GivenValue::List(vec![]), &sm), Err(ValueError::Mismatch)));
    assert!(matches!(
        write(&ThriftType::Struct("Nope".to_string()), &GivenValue::Struct(vec![]), &sm),
        Err(ValueError::UnknownStruct(n)) if n == "Nope"
    ));
    let map = ThriftType::MapT(Box::new(ThriftType::String), Box::new(d()));
    let g = GivenValue::MapT(vec![(
        GivenValue::Plain(ThriftValue::String("k".to_string())),
        GivenValue::Struct(vec![("n".to_string(), Some(GivenValue::Plain(ThriftValue::I32(2)))), ("m".to_string(), Some(GivenValue::Plain(ThriftValue::I32(5))))]),
    )]);
    assert_eq!(
        write(&map, &g, &sm).unwrap(),
        vec![11, 12, 0, 0, 0, 1, 0, 0, 0, 1, b'k', 15, 0, 1, 11, 0, 0, 0, 0, 8, 0, 2, 0, 0, 0, 2, 8, 0, 3, 0, 0, 0, 5, 0]
    );
}

#[test]
fn a_struct_given_every_field_reads_back() {
    let sm = structs("struct P { 1: i32 a, 2: string b }");
    let t = ThriftType::Struct("P".to_string());
    let g = GivenValue::Struct(vec![
        ("a".to_string(), Some(GivenValue::Plain(ThriftValue::I32(-4)))),
        ("b".to_string(), Some(GivenValue::Plain(ThriftValue::String("x".to_string())))),
    ]);
    let bytes = write(&t, &g, &sm).unwrap();
    let mut r = BinaryProtocolReader::new(bytes);
    let back = read_rust_value(&mut r, &t, &sm).unwrap();
    assert_eq!(
        format!("{:?}", back),
        format!(
            "{:?}",
            ThriftValue::Struct {
                name: Some("P".to_string()),
                fields: vec![("a".to_string(), ThriftValue::I32(-4)), ("b".to_string(), ThriftValue::String("x".to_string()))],
            }
        )
    );
}
