use thriftrs2::codec::write_thrift_value;
use thriftrs2::parser::ast::{ThriftField, ThriftType, ThriftValue};
use thriftrs2::parser::names::NameMap;
use thriftrs2::parser::Parser;
use thriftrs2::protocol::framing::{JsonScan, ScanAction};
use thriftrs2::protocol::{
    BinaryProtocolReader, BinaryProtocolWriter, CompactProtocolReader, CompactProtocolWriter,
    FieldBegin, JSONProtocolReader, JSONProtocolWriter, MessageBegin, TInputProtocol,
    TOutputProtocol, TType,
};
use thriftrs2::rpc::{
    declared_exception_index,
    decode_reply, decode_request, read_application_exception, write_call_frame,
    write_declared_exception_frame, write_exception_reply, write_reply_frame, ReplyOutcome,
    plan_request, answers_request, type_is_void, RequestPlan, INTERNAL_ERROR,
};

#[test]
fn exception_reply_in_binary() {
    let mut w = BinaryProtocolWriter::new();
    write_exception_reply(&mut w, "ping", 7, 1, "boom").unwrap();
    let bytes = w.into_bytes();
    let mut expected: Vec<u8> = vec![0x80, 0x01, 0x00, 0x03, 0, 0, 0, 4];
    expected.extend_from_slice(b"ping");
    expected.extend_from_slice(&[0, 0, 0, 7]);
    expected.extend_from_slice(&[11, 0, 1, 0, 0, 0, 4]);
    expected.extend_from_slice(b"boom");
    expected.extend_from_slice(&[8, 0, 2, 0, 0, 0, 1, 0]);
    assert_eq!(bytes, expected);

    let mut r = BinaryProtocolReader::new(bytes);
    let m = r.read_message_begin().unwrap();
    assert_eq!(m.name, "ping");
    assert_eq!(m.message_type, 3);
    assert_eq!(read_application_exception(&mut r).unwrap(), ("boom".to_string(), 1));
}

#[test]
fn application_exception_skips_other_fields() {
    let mut w = CompactProtocolWriter::new();
    w.write_struct_begin("e").unwrap();
    w.write_field_begin(&FieldBegin { name: None, field_type: TType::I64, id: 9 }).unwrap();
    w.write_i64(123).unwrap();
    w.write_field_end().unwrap();
    w.write_field_begin(&FieldBegin { name: None, field_type: TType::I32, id: 2 }).unwrap();
    w.write_i32(6).unwrap();
    w.write_field_end().unwrap();
    w.write_field_stop().unwrap();
    w.write_struct_end().unwrap();
    let mut r = CompactProtocolReader::new(w.into_bytes());
    r.read_struct_begin().unwrap();
    assert_eq!(read_application_exception(&mut r).unwrap(), (String::new(), 6));
}

#[test]
fn reply_with_a_value_and_a_void_reply() {
    let sm = NameMap::new();
    let mut w = BinaryProtocolWriter::new();
    write_reply_frame(&mut w, "add", 3, &ThriftType::I32, &ThriftValue::I32(5), &sm).unwrap();
    let bytes = w.into_bytes();
    let mut r = BinaryProtocolReader::new(bytes);
    let m = r.read_message_begin().unwrap();
    assert_eq!((m.name.as_str(), m.message_type, m.seq_id), ("add", 2, 3));
    let f = r.read_field_begin().unwrap();
    assert_eq!((f.field_type, f.id), (TType::I32, 0));
    assert_eq!(r.read_i32().unwrap(), 5);
    assert_eq!(r.read_field_begin().unwrap().field_type, TType::Stop);

    let mut w = BinaryProtocolWriter::new();
    write_reply_frame(&mut w, "noop", 4, &ThriftType::Struct("void".to_string()), &ThriftValue::Bool(false), &sm)
        .unwrap();
    let bytes = w.into_bytes();
    let mut r = BinaryProtocolReader::new(bytes);
    r.read_message_begin().unwrap();
    assert_eq!(r.read_field_begin().unwrap().field_type, TType::Stop);
}

#[test]
fn declared_exception_goes_under_its_field_id() {
    let idl = "exception Oops { 1: string why; } service S { void f() throws (1: Oops e); }";
    let mut p = Parser::new(idl).unwrap();
    let doc = p.parse_document().unwrap();
    let svc = doc.services.get("S").unwrap();
    let ex_field = &svc.methods[0].exceptions[0];
    let value = ThriftValue::Struct {
        name: Some("Oops".to_string()),
        fields: vec![("why".to_string(), ThriftValue::String("bad".to_string()))],
    };
    let mut w = JSONProtocolWriter::new();
    write_declared_exception_frame(&mut w, "f", 1, ex_field, &value, &doc.structs).unwrap();
    let mut docs = w.take_documents();
    assert_eq!(docs.len(), 1);
    let mut r = JSONProtocolReader::new(docs.pop().unwrap());
    let m = r.read_message_begin().unwrap();
    assert_eq!(m.message_type, 2);
    let f = r.read_field_begin().unwrap();
    assert_eq!((f.field_type, f.id), (TType::Struct, 1));
}

#[test]
fn decode_request_finds_the_method_and_its_arguments() {
    let idl = "service Calc { i32 add(1: i32 a, 2: i32 b); void reset(); }";
    let mut p = Parser::new(idl).unwrap();
    let doc = p.parse_document().unwrap();
    let svc = doc.services.get("Calc").unwrap();

    let mut w = BinaryProtocolWriter::new();
    w.write_message_begin(&MessageBegin { name: "add".to_string(), message_type: 1, seq_id: 11 }).unwrap();
    let args = ThriftValue::Struct {
        name: None,
        fields: vec![("a".to_string(), ThriftValue::I32(2)), ("b".to_string(), ThriftValue::I32(40))],
    };
    // the argument struct, field ids written by position in the definition
    w.write_field_begin(&FieldBegin { name: None, field_type: TType::I32, id: 1 }).unwrap();
    w.write_i32(2).unwrap();
    w.write_field_end().unwrap();
    w.write_field_begin(&FieldBegin { name: None, field_type: TType::I32, id: 2 }).unwrap();
    w.write_i32(40).unwrap();
    w.write_field_end().unwrap();
    w.write_field_stop().unwrap();
    w.write_message_end().unwrap();
    let _ = args;
    let mut r = BinaryProtocolReader::new(w.into_bytes());
    let (m, call) = decode_request(&mut r, svc, &doc.structs).unwrap();
    assert_eq!(m.name, "add");
    assert_eq!(m.seq_id, 11);
    let (k, v) = call.unwrap();
    assert_eq!(k, 0);
    assert_eq!(format!("{:?}", v.values.get("a")), "Some(I32(2))");
    assert_eq!(format!("{:?}", v.values.get("b")), "Some(I32(40))");
    assert_eq!(v.struct_name, "");
    assert_eq!(v.field_names, vec!["a".to_string(), "b".to_string()]);

    let mut w = BinaryProtocolWriter::new();
    w.write_message_begin(&MessageBegin { name: "nope".to_string(), message_type: 1, seq_id: 1 }).unwrap();
    w.write_message_end().unwrap();
    let mut r = BinaryProtocolReader::new(w.into_bytes());
    let (m, call) = decode_request(&mut r, svc, &doc.structs).unwrap();
    assert_eq!(m.name, "nope");
    assert!(call.is_none());
}

#[test]
fn struct_value_in_a_reply_is_the_codec_encoding() {
    let sm = NameMap::new();
    let v = ThriftValue::List(vec![ThriftValue::I16(1), ThriftValue::I16(2)]);
    let mut w1 = BinaryProtocolWriter::new();
    write_reply_frame(&mut w1, "m", 0, &ThriftType::List(Box::new(ThriftType::I16)), &v, &sm).unwrap();
    let mut w2 = BinaryProtocolWriter::new();
    write_thrift_value(&mut w2, &v, &sm).unwrap();
    let reply = w1.into_bytes();
    let value = w2.into_bytes();
    // header (4 + 4 + 1 + 4) and field header (3) come before the value
    assert_eq!(&reply[16..16 + value.len()], &value[..]);
}

fn scan_all(text: &[u8]) -> (Vec<u8>, Option<ScanAction>) {
    let mut scan = JsonScan::new();
    let mut out = Vec::new();
    for &b in text {
        let (next, action) = scan.step(b);
        scan = next;
        match action {
            ScanAction::Skip => {}
            ScanAction::Keep => out.push(b),
            ScanAction::Complete => {
                out.push(b);
                return (out, Some(ScanAction::Complete));
            }
            ScanAction::NotJson => return (out, Some(ScanAction::NotJson)),
        }
    }
    (out, None)
}

#[test]
fn json_scan_finds_the_end_of_a_message() {
    let (out, end) = scan_all(b"  \n[1,\"a]\\\"}\",{\"k\":[2]}] trailing");
    assert_eq!(end, Some(ScanAction::Complete));
    assert_eq!(out, b"[1,\"a]\\\"}\",{\"k\":[2]}]".to_vec());
    let (_, end) = scan_all(b"x[]");
    assert_eq!(end, Some(ScanAction::NotJson));
    let (_, end) = scan_all(b"{\"open\": [");
    assert_eq!(end, None);
}

#[test]
fn call_frame_then_server_decodes_it() {
    let idl = "service Calc { i32 add(1: i32 a, 2: i32 b, 3: string note); }";
    let mut p = Parser::new(idl).unwrap();
    let doc = p.parse_document().unwrap();
    let svc = doc.services.get("Calc").unwrap();
    let mut values = NameMap::new();
    values.insert("b".to_string(), ThriftValue::I32(40));
    values.insert("a".to_string(), ThriftValue::I32(2));
    let mut w = BinaryProtocolWriter::new();
    write_call_frame(&mut w, "add", 5, &svc.methods[0].arguments, &values, &doc.structs).unwrap();
    let bytes = w.into_bytes();
    // after the header: field 1 (a), then field 2 (b), the missing note left out, then the stop
    let body = &bytes[4 + 4 + 3 + 4..];
    assert_eq!(body, &[8, 0, 1, 0, 0, 0, 2, 8, 0, 2, 0, 0, 0, 40, 0]);
    let mut r = BinaryProtocolReader::new(bytes);
    let (m, call) = decode_request(&mut r, svc, &doc.structs).unwrap();
    assert_eq!((m.name.as_str(), m.message_type, m.seq_id), ("add", 1, 5));
    let (_, args) = call.unwrap();
    assert_eq!(format!("{:?}", args.values.get("b")), "Some(I32(40))");
    assert!(args.values.get("note").is_none());
}

#[test]
fn reply_outcomes() {
    let sm = NameMap::new();
    let mut w = BinaryProtocolWriter::new();
    write_reply_frame(&mut w, "add", 5, &ThriftType::I32, &ThriftValue::I32(42), &sm).unwrap();
    let mut r = BinaryProtocolReader::new(w.into_bytes());
    match decode_reply(&mut r, &ThriftType::I32, &Vec::new(), &sm).unwrap() {
        ReplyOutcome::Value(v) => assert_eq!(format!("{:?}", v), "I32(42)"),
        other => panic!("{:?}", other),
    }

    let mut w = BinaryProtocolWriter::new();
    write_reply_frame(&mut w, "noop", 6, &ThriftType::Struct("void".to_string()), &ThriftValue::Bool(true), &sm)
        .unwrap();
    let mut r = BinaryProtocolReader::new(w.into_bytes());
    assert!(matches!(decode_reply(&mut r, &ThriftType::Struct("void".to_string()), &Vec::new(), &sm).unwrap(), ReplyOutcome::Void));

    let mut w = BinaryProtocolWriter::new();
    write_exception_reply(&mut w, "add", 7, 6, "internal").unwrap();
    let mut r = BinaryProtocolReader::new(w.into_bytes());
    match decode_reply(&mut r, &ThriftType::I32, &Vec::new(), &sm).unwrap() {
        ReplyOutcome::ApplicationException(m, c) => {
            assert_eq!(m, "internal");
            assert_eq!(c, 6);
        }
        other => panic!("{:?}", other),
    }

    let mut w = BinaryProtocolWriter::new();
    w.write_message_begin(&MessageBegin { name: "add".to_string(), message_type: 2, seq_id: 8 }).unwrap();
    w.write_field_begin(&FieldBegin { name: None, field_type: TType::I32, id: 1 }).unwrap();
    w.write_i32(-1).unwrap();
    w.write_field_end().unwrap();
    w.write_field_stop().unwrap();
    let mut r = BinaryProtocolReader::new(w.into_bytes());
    match decode_reply(&mut r, &ThriftType::I32, &Vec::new(), &sm).unwrap() {
        ReplyOutcome::ServiceException(id, v) => {
            assert_eq!(id, 1);
            assert_eq!(format!("{:?}", v), "I32(-1)");
        }
        other => panic!("{:?}", other),
    }
}

#[test]
fn requests_for_unknown_methods_are_refused() {
    match plan_request("ping", false, true) {
        RequestPlan::Refuse(kind, msg) => {
            assert_eq!(kind, 1);
            assert_eq!(msg, "Unknown method: ping");
        }
        RequestPlan::Call => panic!("an unknown method is not called"),
    }
}

#[test]
fn requests_without_a_handler_are_refused() {
    match plan_request("ping", true, false) {
        RequestPlan::Refuse(kind, msg) => {
            assert_eq!(kind, 1);
            assert_eq!(msg, "No handler registered for: ping");
        }
        RequestPlan::Call => panic!("a method without a handler is not called"),
    }
}

#[test]
fn requests_with_a_handler_are_called() {
    assert!(matches!(plan_request("ping", true, true), RequestPlan::Call));
    assert_eq!(INTERNAL_ERROR, 6);
}

#[test]
fn only_oneway_calls_go_unanswered() {
    assert!(!answers_request(4, true, true));
    assert!(!answers_request(4, false, false));
    assert!(answers_request(4, true, false));
    assert!(answers_request(1, true, true));
    assert!(answers_request(1, false, true));
}

#[test]
fn void_is_the_type_of_no_value() {
    assert!(type_is_void(&ThriftType::Struct("void".to_string())));
    assert!(!type_is_void(&ThriftType::Struct("User".to_string())));
    assert!(!type_is_void(&ThriftType::I32));
}

#[test]
fn compact_call_then_server_decodes_it() {
    let idl = "service Calc { i32 add(1: i32 a, 2: bool b, 20: string note); }";
    let mut p = Parser::new(idl).unwrap();
    let doc = p.parse_document().unwrap();
    let svc = doc.services.get("Calc").unwrap();
    let mut values = NameMap::new();
    values.insert("note".to_string(), ThriftValue::String("hi".to_string()));
    values.insert("b".to_string(), ThriftValue::Bool(true));
    values.insert("a".to_string(), ThriftValue::I32(-3));
    let mut w = CompactProtocolWriter::new();
    write_call_frame(&mut w, "add", 9, &svc.methods[0].arguments, &values, &doc.structs).unwrap();
    let mut r = CompactProtocolReader::new(w.into_bytes());
    let (m, call) = decode_request(&mut r, svc, &doc.structs).unwrap();
    assert_eq!((m.name.as_str(), m.message_type, m.seq_id), ("add", 1, 9));
    let (i, args) = call.unwrap();
    assert_eq!(i, 0);
    assert_eq!(args.values.keys(), vec!["a".to_string(), "b".to_string(), "note".to_string()]);
    assert_eq!(format!("{:?}", args.values.get("a")), "Some(I32(-3))");
    assert_eq!(format!("{:?}", args.values.get("b")), "Some(Bool(true))");
    assert_eq!(format!("{:?}", args.values.get("note")), "Some(String(\"hi\"))");
}

#[test]
fn compact_and_json_replies_are_read_back() {
    let sm = NameMap::new();
    let mut w = CompactProtocolWriter::new();
    write_reply_frame(&mut w, "ok", 3, &ThriftType::Bool, &ThriftValue::Bool(false), &sm).unwrap();
    let mut r = CompactProtocolReader::new(w.into_bytes());
    match decode_reply(&mut r, &ThriftType::Bool, &Vec::new(), &sm).unwrap() {
        ReplyOutcome::Value(v) => assert_eq!(format!("{:?}", v), "Bool(false)"),
        other => panic!("{:?}", other),
    }

    let mut w = CompactProtocolWriter::new();
    write_exception_reply(&mut w, "ok", 4, 1, "nope").unwrap();
    let mut r = CompactProtocolReader::new(w.into_bytes());
    match decode_reply(&mut r, &ThriftType::Bool, &Vec::new(), &sm).unwrap() {
        ReplyOutcome::ApplicationException(m, c) => assert_eq!((m.as_str(), c), ("nope", 1)),
        other => panic!("{:?}", other),
    }

    let mut w = JSONProtocolWriter::new();
    write_reply_frame(&mut w, "get", 5, &ThriftType::I64, &ThriftValue::I64(-9), &sm).unwrap();
    let mut docs = w.take_documents();
    assert_eq!(docs.len(), 1);
    let mut r = JSONProtocolReader::new(docs.pop().unwrap());
    match decode_reply(&mut r, &ThriftType::I64, &Vec::new(), &sm).unwrap() {
        ReplyOutcome::Value(v) => assert_eq!(format!("{:?}", v), "I64(-9)"),
        other => panic!("{:?}", other),
    }

    let mut w = JSONProtocolWriter::new();
    write_exception_reply(&mut w, "get", 6, 6, "broke").unwrap();
    let mut docs = w.take_documents();
    let mut r = JSONProtocolReader::new(docs.pop().unwrap());
    match decode_reply(&mut r, &ThriftType::I64, &Vec::new(), &sm).unwrap() {
        ReplyOutcome::ApplicationException(m, c) => assert_eq!((m.as_str(), c), ("broke", 6)),
        other => panic!("{:?}", other),
    }
}

#[test]
fn declared_exception_is_read_with_its_own_struct() {
    let idl = "exception Oops { 1: string why; 2: i32 code; } service S { i32 f() throws (3: Oops e); }";
    let mut p = Parser::new(idl).unwrap();
    let doc = p.parse_document().unwrap();
    let method = &doc.services.get("S").unwrap().methods[0];
    let value = ThriftValue::Struct {
        name: Some("Oops".to_string()),
        fields: vec![
            ("why".to_string(), ThriftValue::String("bad".to_string())),
            ("code".to_string(), ThriftValue::I32(9)),
        ],
    };
    let mut w = BinaryProtocolWriter::new();
    write_declared_exception_frame(&mut w, "f", 4, &method.exceptions[0], &value, &doc.structs).unwrap();
    let bytes = w.into_bytes();
    let mut r = BinaryProtocolReader::new(bytes.clone());
    match decode_reply(&mut r, &method.return_type, &method.exceptions, &doc.structs).unwrap() {
        ReplyOutcome::ServiceException(id, v) => {
            assert_eq!(id, 3);
            assert_eq!(format!("{:?}", v), format!("{:?}", value));
        }
        other => panic!("{:?}", other),
    }
    // Without the declaration the payload is read with the return type.
    let mut r = BinaryProtocolReader::new(bytes);
    assert!(matches!(
        decode_reply(&mut r, &method.return_type, &Vec::new(), &doc.structs),
        Ok(ReplyOutcome::ServiceException(3, ThriftValue::I32(_)))
    ));
}

fn struct_field(id: i16, struct_name: &str) -> ThriftField {
    ThriftField {
        id,
        name: format!("e{}", id),
        field_type: ThriftType::Struct(struct_name.to_string()),
        required: false,
        default_value: None,
    }
}

#[test]
fn exception_class_names_find_their_declared_exception() {
    let exceptions = vec![
        ThriftField { id: 1, name: "n".to_string(), field_type: ThriftType::I32, required: false, default_value: None },
        struct_field(2, "errors.Oops"),
        struct_field(3, "Other"),
        struct_field(4, "Oops"),
    ];
    assert_eq!(declared_exception_index("Oops", &exceptions), Some(1));
    assert_eq!(declared_exception_index("errors.Oops", &exceptions), Some(1));
    assert_eq!(declared_exception_index("Other", &exceptions), Some(2));
    assert_eq!(declared_exception_index("rrors.Oops", &exceptions), None);
    assert_eq!(declared_exception_index("I32", &exceptions), None);
    assert_eq!(declared_exception_index("", &vec![struct_field(1, "trailing.")]), Some(0));
    assert_eq!(declared_exception_index("Oops", &Vec::new()), None);
}
