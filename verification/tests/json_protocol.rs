use thriftrs2::codec::{read_rust_value, write_thrift_value};
use thriftrs2::parser::ast::{ThriftStruct, ThriftType, ThriftValue};
use thriftrs2::parser::names::NameMap;
use thriftrs2::parser::Parser;
use thriftrs2::protocol::json::{json_name_to_ttype, json_text, parse_json_text, ttype_to_json_name};
use thriftrs2::protocol::text::{i64_text, parse_i16_text, parse_i64_text, u64_text};
use thriftrs2::protocol::{
    FieldBegin, JSONProtocolReader, JSONProtocolWriter, JsonNumber, JsonValue, ListBegin,
    MapBegin, MessageBegin, ProtocolError, SetBegin, TInputProtocol, TOutputProtocol, TType,
};

fn s(x: &str) -> JsonValue {
    JsonValue::String(x.to_string())
}

fn n(x: u64) -> JsonValue {
    JsonValue::Number(JsonNumber::PosInt(x))
}

fn only_document(w: &mut JSONProtocolWriter) -> JsonValue {
    let mut docs = w.take_documents();
    assert_eq!(docs.len(), 1);
    docs.pop().unwrap()
}

fn field(t: TType, id: i16) -> FieldBegin {
    FieldBegin { name: None, field_type: t, id }
}

#[test]
fn type_names_round_trip() {
    let all = [
        TType::Bool,
        TType::Byte,
        TType::I16,
        TType::I32,
        TType::I64,
        TType::Double,
        TType::String,
        TType::Struct,
        TType::MapT,
        TType::List,
        TType::SetT,
    ];
    for t in all {
        assert_eq!(json_name_to_ttype(&ttype_to_json_name(t)), Some(t));
    }
    assert_eq!(ttype_to_json_name(TType::Stop), "stop");
    assert_eq!(ttype_to_json_name(TType::Bool), "tf");
    assert_eq!(ttype_to_json_name(TType::List), "lst");
    assert_eq!(json_name_to_ttype("stop"), None);
    assert_eq!(json_name_to_ttype("bogus"), None);
}

#[test]
fn decimal_text_of_integers() {
    assert_eq!(i64_text(0), "0");
    assert_eq!(i64_text(-42), "-42");
    assert_eq!(i64_text(i64::MIN), "-9223372036854775808");
    assert_eq!(u64_text(u64::MAX), "18446744073709551615");
    assert_eq!(parse_i64_text("-9223372036854775808"), Some(i64::MIN));
    assert_eq!(parse_i64_text("+17"), Some(17));
    assert_eq!(parse_i64_text("9223372036854775808"), None);
    assert_eq!(parse_i64_text(""), None);
    assert_eq!(parse_i64_text("-"), None);
    assert_eq!(parse_i64_text("1x"), None);
    assert_eq!(parse_i16_text("32767"), Some(32767));
    assert_eq!(parse_i16_text("32768"), None);
    assert_eq!(parse_i16_text("007"), Some(7));
}

#[test]
fn struct_fields_are_keyed_by_id_and_typed() {
    let mut w = JSONProtocolWriter::new();
    w.write_struct_begin("S").unwrap();
    w.write_field_begin(&field(TType::I32, 2)).unwrap();
    w.write_i32(-5).unwrap();
    w.write_field_end().unwrap();
    w.write_field_begin(&field(TType::I64, 10)).unwrap();
    w.write_i64(9_000_000_000).unwrap();
    w.write_field_end().unwrap();
    w.write_field_begin(&field(TType::Bool, 1)).unwrap();
    w.write_bool(true).unwrap();
    w.write_field_end().unwrap();
    w.write_field_stop().unwrap();
    w.write_struct_end().unwrap();
    let doc = only_document(&mut w);
    match doc {
        JsonValue::Object(es) => {
            let keys: Vec<&str> = es.iter().map(|(k, _)| k.as_str()).collect();
            // keys are ordered as text: "1" < "10" < "2"
            assert_eq!(keys, vec!["1", "10", "2"]);
            assert_eq!(format!("{:?}", es[0].1), format!("{:?}", JsonValue::Array(vec![s("tf"), n(1)])));
            assert_eq!(
                format!("{:?}", es[1].1),
                format!("{:?}", JsonValue::Array(vec![s("i64"), s("9000000000")]))
            );
            assert_eq!(
                format!("{:?}", es[2].1),
                format!("{:?}", JsonValue::Array(vec![s("i32"), JsonValue::Number(JsonNumber::NegInt(-5))]))
            );
        }
        other => panic!("not an object: {:?}", other),
    }
}

#[test]
fn list_and_map_layout() {
    let mut w = JSONProtocolWriter::new();
    w.write_list_begin(&ListBegin { element_type: TType::String, size: 2 }).unwrap();
    w.write_string("a").unwrap();
    w.write_string("b").unwrap();
    w.write_list_end().unwrap();
    w.write_map_begin(&MapBegin { key_type: TType::I32, value_type: TType::String, size: 2 }).unwrap();
    w.write_i32(7).unwrap();
    w.write_binary(&[0x4d, 0x61, 0x6e]).unwrap();
    w.write_i32(7).unwrap();
    w.write_binary(b"Ma").unwrap();
    w.write_map_end().unwrap();
    let docs = w.take_documents();
    assert_eq!(docs.len(), 2);
    assert_eq!(
        format!("{:?}", docs[0]),
        format!("{:?}", JsonValue::Array(vec![s("str"), n(2), s("a"), s("b")]))
    );
    // the same key twice keeps the last value; the count is of distinct keys
    assert_eq!(
        format!("{:?}", docs[1]),
        format!(
            "{:?}",
            JsonValue::Array(vec![
                s("i32"),
                s("str"),
                n(1),
                JsonValue::Object(vec![("7".to_string(), s("TWE="))]),
            ])
        )
    );
}

#[test]
fn message_envelope() {
    let mut w = JSONProtocolWriter::new();
    w.write_message_begin(&MessageBegin { name: "ping".to_string(), message_type: 1, seq_id: 9 }).unwrap();
    w.write_struct_begin("args").unwrap();
    w.write_field_stop().unwrap();
    w.write_struct_end().unwrap();
    w.write_message_end().unwrap();
    let doc = only_document(&mut w);
    assert_eq!(
        format!("{:?}", doc),
        format!("{:?}", JsonValue::Array(vec![n(1), s("ping"), n(1), n(9), JsonValue::Object(vec![])]))
    );

    let mut r = JSONProtocolReader::new(doc);
    let m = r.read_message_begin().unwrap();
    assert_eq!(m.name, "ping");
    assert_eq!(m.message_type, 1);
    assert_eq!(m.seq_id, 9);
    let f = r.read_field_begin().unwrap();
    assert_eq!(f.field_type, TType::Stop);
    r.read_message_end().unwrap();
}

#[test]
fn message_end_without_frames_underflows() {
    let mut w = JSONProtocolWriter::new();
    assert!(matches!(w.write_message_end(), Err(ProtocolError::Io(_))));
    assert!(matches!(w.write_list_end(), Err(ProtocolError::Io(_))));
}

#[test]
fn double_keys_cannot_name_map_entries() {
    let mut w = JSONProtocolWriter::new();
    w.write_map_begin(&MapBegin { key_type: TType::Double, value_type: TType::I32, size: 1 }).unwrap();
    w.write_double_bits(1.5f64.to_bits()).unwrap();
    w.write_i32(1).unwrap();
    assert!(w.write_map_end().is_err());
}

#[test]
fn non_finite_doubles_are_written_as_zero() {
    let mut w = JSONProtocolWriter::new();
    w.write_list_begin(&ListBegin { element_type: TType::Double, size: 2 }).unwrap();
    w.write_double_bits(f64::NAN.to_bits()).unwrap();
    w.write_double_bits(2.5f64.to_bits()).unwrap();
    w.write_list_end().unwrap();
    let doc = only_document(&mut w);
    assert_eq!(
        format!("{:?}", doc),
        format!(
            "{:?}",
            JsonValue::Array(vec![s("dbl"), n(2), n(0), JsonValue::Number(JsonNumber::Float(2.5f64.to_bits()))])
        )
    );
    let mut r = JSONProtocolReader::new(doc);
    r.read_list_begin().unwrap();
    assert_eq!(r.read_double_bits().unwrap(), 0.0f64.to_bits());
    assert_eq!(r.read_double_bits().unwrap(), 2.5f64.to_bits());
}

#[test]
fn scalars_read_back() {
    let doc = JsonValue::Array(vec![
        s("i64"),
        n(5),
        s("-12"),
        n(3),
        JsonValue::Number(JsonNumber::NegInt(-300)),
        s("not a number"),
        JsonValue::Bool(true),
    ]);
    let mut r = JSONProtocolReader::new(doc);
    let l = r.read_list_begin().unwrap();
    assert_eq!(l.element_type, TType::I64);
    assert_eq!(l.size, 5);
    assert_eq!(r.read_i64().unwrap(), -12);
    assert_eq!(r.read_i64().unwrap(), 3);
    // a byte keeps the low eight bits
    assert_eq!(r.read_byte().unwrap(), (-300i64) as i8);
    assert_eq!(r.read_i64().unwrap(), 0);
    assert!(r.read_bool().unwrap());
    assert_eq!(r.read_i32(), Err(ProtocolError::InvalidFieldType));
    r.read_list_end().unwrap();
}

#[test]
fn binary_reads_its_base64_text() {
    let doc = JsonValue::Array(vec![s("str"), n(2), s("TWFu"), s("!!")]);
    let mut r = JSONProtocolReader::new(doc);
    r.read_list_begin().unwrap();
    assert_eq!(r.read_binary().unwrap(), b"Man".to_vec());
    assert!(matches!(r.read_binary(), Err(ProtocolError::Io(_))));
}

#[test]
fn struct_value_round_trips_through_json() {
    let idl = "struct Inner { 1: string s; } struct User { 1: i32 id; 2: string name; 3: list<i64> xs; 4: map<string, i32> m; 5: Inner inner; 6: bool ok; 7: binary raw; }";
    let mut parser = Parser::new(idl).unwrap();
    let sm: NameMap<ThriftStruct> = parser.parse_document().unwrap().structs;
    let v = ThriftValue::Struct {
        name: Some("User".to_string()),
        fields: vec![
            ("id".to_string(), ThriftValue::I32(7)),
            ("name".to_string(), ThriftValue::String("Ada".to_string())),
            ("xs".to_string(), ThriftValue::List(vec![ThriftValue::I64(-1), ThriftValue::I64(1 << 40)])),
            (
                "m".to_string(),
                ThriftValue::MapT(vec![(ThriftValue::String("k".to_string()), ThriftValue::I32(3))]),
            ),
            (
                "inner".to_string(),
                ThriftValue::Struct {
                    name: Some("Inner".to_string()),
                    fields: vec![("s".to_string(), ThriftValue::String("x".to_string()))],
                },
            ),
            ("ok".to_string(), ThriftValue::Bool(true)),
            ("raw".to_string(), ThriftValue::Binary(vec![0, 1, 2, 255])),
        ],
    };
    let mut w = JSONProtocolWriter::new();
    write_thrift_value(&mut w, &v, &sm).unwrap();
    let doc = only_document(&mut w);
    let mut r = JSONProtocolReader::new(doc);
    let back = read_rust_value(&mut r, &ThriftType::Struct("User".to_string()), &sm).unwrap();
    let text = format!("{:?}", back);
    assert!(text.contains("I32(7)"));
    assert!(text.contains("String(\"Ada\")"));
    assert!(text.contains("I64(1099511627776)"));
    assert!(text.contains("(String(\"k\"), I32(3))"));
    assert!(text.contains("String(\"x\")"));
    assert!(text.contains("Bool(true)"));
    assert!(text.contains("Binary([0, 1, 2, 255])"));
}

#[test]
fn set_begin_reads_a_list_header() {
    let doc = JsonValue::Array(vec![s("i16"), n(1), n(4)]);
    let mut r = JSONProtocolReader::new(doc);
    let sb = r.read_set_begin().unwrap();
    assert_eq!(sb, SetBegin { element_type: TType::I16, size: 1 });
    assert_eq!(r.read_i16().unwrap(), 4);
    r.read_set_end().unwrap();
}

#[test]
fn reading_past_the_document_fails() {
    let mut r = JSONProtocolReader::new(JsonValue::Object(vec![]));
    r.read_struct_begin().unwrap();
    assert_eq!(r.read_field_begin().unwrap().field_type, TType::Stop);
    r.read_struct_end().unwrap();
    assert!(matches!(r.read_struct_begin(), Err(ProtocolError::Io(_))));
}

#[test]
fn integer_and_bool_map_keys_come_back_with_their_type() {
    let sm: NameMap<ThriftStruct> = NameMap::new();
    let t = ThriftType::MapT(Box::new(ThriftType::I32), Box::new(ThriftType::String));
    let v = ThriftValue::MapT(vec![
        (ThriftValue::I32(42), ThriftValue::String("x".to_string())),
        (ThriftValue::I32(-7), ThriftValue::String("y".to_string())),
    ]);
    let mut w = JSONProtocolWriter::new();
    write_thrift_value(&mut w, &v, &sm).unwrap();
    let doc = only_document(&mut w);
    let mut r = JSONProtocolReader::new(doc);
    let back = read_rust_value(&mut r, &t, &sm).unwrap();
    let text = format!("{:?}", back);
    assert!(text.contains("(I32(42), String(\"x\"))"), "{}", text);
    assert!(text.contains("(I32(-7), String(\"y\"))"), "{}", text);

    let t = ThriftType::MapT(Box::new(ThriftType::Bool), Box::new(ThriftType::I16));
    let v = ThriftValue::MapT(vec![
        (ThriftValue::Bool(true), ThriftValue::I16(1)),
        (ThriftValue::Bool(false), ThriftValue::I16(2)),
    ]);
    let mut w = JSONProtocolWriter::new();
    write_thrift_value(&mut w, &v, &sm).unwrap();
    let doc = only_document(&mut w);
    let mut r = JSONProtocolReader::new(doc);
    let text = format!("{:?}", read_rust_value(&mut r, &t, &sm).unwrap());
    assert!(text.contains("(Bool(true), I16(1))"), "{}", text);
    assert!(text.contains("(Bool(false), I16(2))"), "{}", text);

    // a key written as "True" by another writer reads as true
    let doc = JsonValue::Array(vec![s("tf"), s("i16"), n(1), JsonValue::Object(vec![("True".to_string(), n(5))])]);
    let mut r = JSONProtocolReader::new(doc);
    let text = format!("{:?}", read_rust_value(&mut r, &t, &sm).unwrap());
    assert!(text.contains("(Bool(true), I16(5))"), "{}", text);
}

#[test]
fn documents_go_to_text_and_back() {
    let mut w = JSONProtocolWriter::new();
    w.write_struct_begin("S").unwrap();
    w.write_field_begin(&FieldBegin { name: None, field_type: TType::I32, id: 1 }).unwrap();
    w.write_i32(7).unwrap();
    w.write_field_end().unwrap();
    w.write_field_stop().unwrap();
    w.write_struct_end().unwrap();
    let texts = w.take_texts();
    assert_eq!(texts, vec![r#"{"1":["i32",7]}"#.to_string()]);
    assert!(w.take_texts().is_empty());

    let mut r = JSONProtocolReader::from_text(texts[0].as_bytes().to_vec()).unwrap();
    r.read_struct_begin().unwrap();
    let f = r.read_field_begin().unwrap();
    assert_eq!((f.field_type, f.id), (TType::I32, 1));
    assert_eq!(r.read_i32().unwrap(), 7);
}

#[test]
fn text_that_is_not_json_gives_no_reader() {
    assert!(JSONProtocolReader::from_text(b"{not json".to_vec()).is_none());
    assert!(JSONProtocolReader::from_text(vec![0xff, 0xfe]).is_none());
    assert!(parse_json_text("[1, 2").is_none());
}

#[test]
fn json_text_parses_and_prints_numbers_strings_and_objects() {
    let doc = parse_json_text(r#"{"b": [true, null, -3, 18446744073709551615, 0.5], "a": "x"}"#).unwrap();
    assert_eq!(json_text(&doc), r#"{"a":"x","b":[true,null,-3,18446744073709551615,0.5]}"#);
    match &doc {
        JsonValue::Object(entries) => {
            assert_eq!(entries[0].0, "a");
            match &entries[1].1 {
                JsonValue::Array(items) => {
                    assert!(matches!(items[2], JsonValue::Number(JsonNumber::NegInt(-3))));
                    assert!(matches!(items[3], JsonValue::Number(JsonNumber::PosInt(u64::MAX))));
                    assert!(matches!(items[4], JsonValue::Number(JsonNumber::Float(b)) if b == 0x3fe0000000000000));
                }
                other => panic!("{:?}", other),
            }
        }
        other => panic!("{:?}", other),
    }
}
