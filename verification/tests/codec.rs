use thriftrs2::codec::{
    deserialize_rust_struct, read_rust_value, skip_value, thrift_type_to_ttype, thrift_value_ttype,
    select_struct_fields, write_thrift_value, write_typed_value, RustStructValue, ValueError,
};
use thriftrs2::parser::ast::{ThriftField, ThriftStruct, ThriftType, ThriftValue};
use thriftrs2::parser::names::NameMap;
use thriftrs2::parser::Parser;
use thriftrs2::protocol::{
    BinaryProtocolReader, BinaryProtocolWriter, CompactProtocolReader, CompactProtocolWriter,
    ProtocolError, TInputProtocol, TOutputProtocol, TType,
};

fn structs(idl: &str) -> NameMap<ThriftStruct> {
    let mut parser = Parser::new(idl).unwrap();
    parser.parse_document().unwrap().structs
}

fn user_value() -> ThriftValue {
    ThriftValue::Struct {
        name: Some("User".to_string()),
        fields: vec![
            ("name".to_string(), ThriftValue::String("Ada".to_string())),
            ("id".to_string(), ThriftValue::I32(7)),
            (
                "tags".to_string(),
                ThriftValue::List(vec![
                    ThriftValue::String("a".to_string()),
                    ThriftValue::String("b".to_string()),
                ]),
            ),
            ("active".to_string(), ThriftValue::Bool(true)),
        ],
    }
}

const USER_IDL: &str =
    "struct User { 1: i32 id; 2: string name; 3: list<string> tags; 4: bool active; }";

fn names_and_values(v: &ThriftValue) -> Vec<(String, String)> {
    match v {
        ThriftValue::Struct { fields, .. } => fields
            .iter()
            .map(|(n, v)| (n.clone(), format!("{:?}", v)))
            .collect(),
        _ => panic!("not a struct"),
    }
}

#[test]
fn binary_struct_value_writes_fields_in_definition_order() {
    let sm = structs(USER_IDL);
    let mut w = BinaryProtocolWriter::new();
    write_thrift_value(&mut w, &user_value(), &sm).unwrap();
    let bytes = w.into_bytes();
    // field 1 (i32 id) comes first: type 8, id 1, value 7
    assert_eq!(&bytes[..7], &[8, 0, 1, 0, 0, 0, 7]);
    assert_eq!(*bytes.last().unwrap(), 0);
}

#[test]
fn binary_struct_value_round_trips() {
    let sm = structs(USER_IDL);
    let mut w = BinaryProtocolWriter::new();
    write_thrift_value(&mut w, &user_value(), &sm).unwrap();
    let mut r = BinaryProtocolReader::new(w.into_bytes());
    let back = read_rust_value(&mut r, &ThriftType::Struct("User".to_string()), &sm).unwrap();
    assert_eq!(
        names_and_values(&back),
        vec![
            ("id".to_string(), "I32(7)".to_string()),
            ("name".to_string(), "String(\"Ada\")".to_string()),
            (
                "tags".to_string(),
                "List([String(\"a\"), String(\"b\")])".to_string()
            ),
            ("active".to_string(), "Bool(true)".to_string()),
        ]
    );
}

#[test]
fn compact_struct_value_round_trips() {
    let sm = structs(USER_IDL);
    let mut w = CompactProtocolWriter::new();
    write_thrift_value(&mut w, &user_value(), &sm).unwrap();
    let mut r = CompactProtocolReader::new(w.into_bytes());
    let back = read_rust_value(&mut r, &ThriftType::Struct("User".to_string()), &sm).unwrap();
    assert_eq!(names_and_values(&back).len(), 4);
    assert_eq!(names_and_values(&back)[3], ("active".to_string(), "Bool(true)".to_string()));
}

#[test]
fn map_value_round_trips() {
    let sm = NameMap::new();
    let v = ThriftValue::MapT(vec![
        (ThriftValue::String("k".to_string()), ThriftValue::I64(-5)),
        (ThriftValue::String("z".to_string()), ThriftValue::I64(9_000_000_000)),
    ]);
    let mut w = BinaryProtocolWriter::new();
    write_thrift_value(&mut w, &v, &sm).unwrap();
    let mut r = BinaryProtocolReader::new(w.into_bytes());
    let t = ThriftType::MapT(Box::new(ThriftType::String), Box::new(ThriftType::I64));
    let back = read_rust_value(&mut r, &t, &sm).unwrap();
    assert_eq!(format!("{:?}", back), format!("{:?}", v));
}

#[test]
fn unknown_fields_are_skipped_when_reading() {
    let writer_idl = "struct User { 1: i32 id; 9: map<string, list<i32>> extra; 2: string name; }";
    let reader_idl = "struct User { 1: i32 id; 2: string name; }";
    let value = ThriftValue::Struct {
        name: Some("User".to_string()),
        fields: vec![
            ("id".to_string(), ThriftValue::I32(1)),
            (
                "extra".to_string(),
                ThriftValue::MapT(vec![(
                    ThriftValue::String("x".to_string()),
                    ThriftValue::List(vec![ThriftValue::I32(1), ThriftValue::I32(2)]),
                )]),
            ),
            ("name".to_string(), ThriftValue::String("n".to_string())),
        ],
    };
    let mut w = BinaryProtocolWriter::new();
    write_thrift_value(&mut w, &value, &structs(writer_idl)).unwrap();
    let sm = structs(reader_idl);
    let mut r = BinaryProtocolReader::new(w.into_bytes());
    let back = read_rust_value(&mut r, &ThriftType::Struct("User".to_string()), &sm).unwrap();
    assert_eq!(
        names_and_values(&back),
        vec![
            ("id".to_string(), "I32(1)".to_string()),
            ("name".to_string(), "String(\"n\")".to_string()),
        ]
    );
}

#[test]
fn unknown_struct_type_is_an_error() {
    let sm = NameMap::new();
    let mut r = BinaryProtocolReader::new(vec![0]);
    match read_rust_value(&mut r, &ThriftType::Struct("Nope".to_string()), &sm) {
        Err(ValueError::UnknownStruct(n)) => assert_eq!(n, "Nope"),
        other => panic!("unexpected {:?}", other),
    }
}

#[test]
fn truncated_value_is_a_protocol_error() {
    let sm = NameMap::new();
    let mut r = BinaryProtocolReader::new(vec![0, 0]);
    assert!(matches!(
        read_rust_value(&mut r, &ThriftType::I32, &sm),
        Err(ValueError::Protocol(ProtocolError::Io(_)))
    ));
}

#[test]
fn skip_value_passes_over_a_nested_struct() {
    let sm = structs(USER_IDL);
    let mut w = BinaryProtocolWriter::new();
    write_thrift_value(&mut w, &user_value(), &sm).unwrap();
    w.write_i32(99).unwrap();
    let mut r = BinaryProtocolReader::new(w.into_bytes());
    skip_value(&mut r, TType::Struct).unwrap();
    assert_eq!(TInputProtocol::read_i32(&mut r).unwrap(), 99);
}

#[test]
fn skip_value_of_a_compact_list() {
    let sm = NameMap::new();
    let v = ThriftValue::List(vec![ThriftValue::I16(1), ThriftValue::I16(2), ThriftValue::I16(3)]);
    let mut w = CompactProtocolWriter::new();
    write_thrift_value(&mut w, &v, &sm).unwrap();
    TOutputProtocol::write_byte(&mut w, 5).unwrap();
    let mut r = CompactProtocolReader::new(w.into_bytes());
    skip_value(&mut r, TType::List).unwrap();
    assert_eq!(TInputProtocol::read_byte(&mut r).unwrap(), 5);
}

#[test]
fn deserialize_rust_struct_keeps_the_declared_names() {
    let sm = structs(USER_IDL);
    let mut w = BinaryProtocolWriter::new();
    write_thrift_value(&mut w, &user_value(), &sm).unwrap();
    let mut r = BinaryProtocolReader::new(w.into_bytes());
    let user = sm.get("User").unwrap();
    let s = deserialize_rust_struct(&mut r, &user.fields, &sm).unwrap();
    assert_eq!(s.struct_name, "");
    assert_eq!(s.field_names, vec!["id", "name", "tags", "active"]);
    assert_eq!(s.values.len(), 4);
    assert!(matches!(s.values.get("id"), Some(ThriftValue::I32(7))));
}

#[test]
fn wire_types_of_types_and_values() {
    assert_eq!(thrift_type_to_ttype(&ThriftType::Binary), TType::String);
    assert_eq!(
        thrift_type_to_ttype(&ThriftType::MapT(Box::new(ThriftType::I32), Box::new(ThriftType::I32))),
        TType::MapT
    );
    assert_eq!(thrift_value_ttype(&ThriftValue::Binary(vec![1])), TType::String);
    assert_eq!(thrift_value_ttype(&ThriftValue::SetT(vec![])), TType::SetT);
}

#[test]
fn empty_list_announces_string_elements() {
    let sm = NameMap::new();
    let mut w = BinaryProtocolWriter::new();
    write_thrift_value(&mut w, &ThriftValue::List(vec![]), &sm).unwrap();
    assert_eq!(w.into_bytes(), vec![11, 0, 0, 0, 0]);
}

#[test]
fn struct_without_definition_writes_fields_as_given_with_id_zero() {
    let sm = NameMap::new();
    let v = ThriftValue::Struct {
        name: None,
        fields: vec![("x".to_string(), ThriftValue::Byte(3))],
    };
    let mut w = BinaryProtocolWriter::new();
    write_thrift_value(&mut w, &v, &sm).unwrap();
    assert_eq!(w.into_bytes(), vec![3, 0, 0, 3, 0]);
}

fn typed_binary(t: &ThriftType, v: &ThriftValue, sm: &NameMap<ThriftStruct>) -> Result<Vec<u8>, ValueError> {
    let mut w = BinaryProtocolWriter::new();
    w.write_struct_begin("").unwrap();
    write_typed_value(&mut w, t, v, sm)?;
    Ok(w.into_bytes())
}

#[test]
fn empty_containers_announce_their_declared_types() {
    let sm = NameMap::new();
    let list = typed_binary(&ThriftType::List(Box::new(ThriftType::I32)), &ThriftValue::List(vec![]), &sm).unwrap();
    assert_eq!(list, vec![8, 0, 0, 0, 0]);
    let set = typed_binary(&ThriftType::SetT(Box::new(ThriftType::I64)), &ThriftValue::SetT(vec![]), &sm).unwrap();
    assert_eq!(set, vec![10, 0, 0, 0, 0]);
    let map = typed_binary(
        &ThriftType::MapT(Box::new(ThriftType::I16), Box::new(ThriftType::Bool)),
        &ThriftValue::MapT(vec![]),
        &sm,
    )
    .unwrap();
    assert_eq!(map, vec![6, 2, 0, 0, 0, 0]);
}

#[test]
fn typed_struct_fields_use_their_declared_ids_and_types() {
    let sm = structs("struct P { 2: list<i32> xs; 1: binary raw; }");
    let v = ThriftValue::Struct {
        name: None,
        fields: vec![
            ("raw".to_string(), ThriftValue::Binary(vec![0xff])),
            ("xs".to_string(), ThriftValue::List(vec![])),
            ("other".to_string(), ThriftValue::I32(1)),
        ],
    };
    let bytes = typed_binary(&ThriftType::Struct("P".to_string()), &v, &sm).unwrap();
    assert_eq!(bytes, vec![15, 0, 2, 8, 0, 0, 0, 0, 11, 0, 1, 0, 0, 0, 1, 0xff, 0]);
}

#[test]
fn typed_write_refuses_mismatches_and_unknown_structs() {
    let sm = NameMap::new();
    assert!(matches!(
        typed_binary(&ThriftType::I32, &ThriftValue::String("x".to_string()), &sm),
        Err(ValueError::Mismatch)
    ));
    assert!(matches!(
        typed_binary(&ThriftType::Struct("Nope".to_string()), &ThriftValue::I32(1), &sm),
        Err(ValueError::UnknownStruct(n)) if n == "Nope"
    ));
    let bytes = typed_binary(&ThriftType::I64, &ThriftValue::I64(-2), &sm).unwrap();
    assert_eq!(bytes, vec![0xff, 0xff, 0xff, 0xff, 0xff, 0xff, 0xff, 0xfe]);
}

fn field(id: i16, name: &str, required: bool, default_value: Option<ThriftValue>) -> ThriftField {
    ThriftField { id, name: name.to_string(), field_type: ThriftType::I32, required, default_value }
}

#[test]
fn selected_fields_keep_values_take_defaults_and_drop_optional_nones() {
    let defs = vec![
        field(1, "a", false, None),
        field(2, "b", false, Some(ThriftValue::I32(5))),
        field(3, "c", false, None),
        field(4, "d", true, Some(ThriftValue::I32(9))),
        field(5, "e", false, Some(ThriftValue::I32(6))),
    ];
    let given = vec![
        ("d".to_string(), Some(ThriftValue::I32(4))),
        ("a".to_string(), Some(ThriftValue::I32(1))),
        ("c".to_string(), None),
        ("e".to_string(), None),
        ("zz".to_string(), Some(ThriftValue::I32(0))),
        ("a".to_string(), Some(ThriftValue::I32(2))),
    ];
    let chosen = select_struct_fields(&defs, &given).unwrap();
    let shown: Vec<(String, String)> = chosen.iter().map(|(n, v)| (n.clone(), format!("{:?}", v))).collect();
    assert_eq!(
        shown,
        vec![
            ("a".to_string(), "I32(1)".to_string()),
            ("b".to_string(), "I32(5)".to_string()),
            ("d".to_string(), "I32(4)".to_string()),
        ]
    );
}

#[test]
fn a_required_field_given_none_is_refused() {
    let defs = vec![field(1, "a", true, None), field(2, "b", true, None)];
    let given = vec![("b".to_string(), None), ("a".to_string(), None)];
    assert_eq!(select_struct_fields(&defs, &given).unwrap_err(), "a");
    let given = vec![("b".to_string(), None)];
    assert_eq!(select_struct_fields(&defs, &given).unwrap_err(), "b");
    assert_eq!(select_struct_fields(&defs, &vec![]).unwrap().len(), 0);
}

#[test]
fn typed_write_reads_back_with_the_same_type() {
    let sm = structs("struct Q { 1: map<i16, list<i64>> m; 2: set<string> s; }");
    let t = ThriftType::Struct("Q".to_string());
    let v = ThriftValue::Struct {
        name: Some("Q".to_string()),
        fields: vec![
            (
                "m".to_string(),
                ThriftValue::MapT(vec![
                    (ThriftValue::I16(3), ThriftValue::List(vec![])),
                    (ThriftValue::I16(-1), ThriftValue::List(vec![ThriftValue::I64(7)])),
                ]),
            ),
            ("s".to_string(), ThriftValue::SetT(vec![])),
        ],
    };
    let mut w = BinaryProtocolWriter::new();
    write_typed_value(&mut w, &t, &v, &sm).unwrap();
    let bytes = w.into_bytes();
    let mut r = BinaryProtocolReader::new(bytes);
    let back = read_rust_value(&mut r, &t, &sm).unwrap();
    assert_eq!(format!("{:?}", back), format!("{:?}", v));
}

#[test]
fn struct_values_are_built_field_by_field() {
    let mut v = RustStructValue::empty("User".to_string(), vec!["id".to_string(), "name".to_string()]);
    assert_eq!(v.struct_name, "User");
    assert_eq!(v.field_names, vec!["id".to_string(), "name".to_string()]);
    assert!(v.values.get("id").is_none());
    v.set_field("name", ThriftValue::String("a".to_string()));
    v.set_field("id", ThriftValue::I32(1));
    v.set_field("name", ThriftValue::String("b".to_string()));
    assert_eq!(format!("{:?}", v.values.get("name")), "Some(String(\"b\"))");
    assert_eq!(format!("{:?}", v.values.get("id")), "Some(I32(1))");
    assert_eq!(v.values.keys(), vec!["name".to_string(), "id".to_string()]);
}

#[test]
fn skipping_a_written_value_takes_exactly_its_bytes() {
    let sm = structs(USER_IDL);
    let mut w = BinaryProtocolWriter::new();
    write_thrift_value(&mut w, &user_value(), &sm).unwrap();
    w.write_byte(42).unwrap();
    let mut r = BinaryProtocolReader::new(w.into_bytes());
    skip_value(&mut r, TType::Struct).unwrap();
    assert_eq!(r.read_byte().unwrap(), 42);

    // A binary that is not UTF-8 cannot be skipped as a string.
    let mut w = BinaryProtocolWriter::new();
    write_thrift_value(&mut w, &ThriftValue::Binary(vec![0xff]), &sm).unwrap();
    let mut r = BinaryProtocolReader::new(w.into_bytes());
    assert!(skip_value(&mut r, TType::String).is_err());
}
