use thriftrs2::protocol::{
    CompactProtocolReader, CompactProtocolWriter, FieldBegin, IoErrorKind, ListBegin, MapBegin,
    MessageBegin, ProtocolError, TType, COMPACT_PROTOCOL_ID, COMPACT_VERSION,
};

#[test]
fn compact_round_trips_message_begin() {
    let mut writer = CompactProtocolWriter::new();
    writer
        .write_message_begin(&MessageBegin {
            name: "echo".to_string(),
            message_type: 1,
            seq_id: 9,
        })
        .unwrap();
    let mut reader = CompactProtocolReader::new(writer.into_bytes());
    let msg = reader.read_message_begin().unwrap();
    assert_eq!(msg.name, "echo");
    assert_eq!(msg.message_type, 1);
    assert_eq!(msg.seq_id, 9);
}

#[test]
fn rejects_bad_protocol_id() {
    let mut reader = CompactProtocolReader::new(vec![0, COMPACT_VERSION]);
    assert!(reader.read_message_begin().is_err());
}

#[test]
fn rejects_bad_protocol_version() {
    let mut reader = CompactProtocolReader::new(vec![COMPACT_PROTOCOL_ID, 0]);
    assert!(reader.read_message_begin().is_err());
}

#[test]
fn round_trips_i32_zigzag_values() {
    let values = [-123456, -1, 0, 1, 123456];
    let mut writer = CompactProtocolWriter::new();
    for value in values {
        writer.write_i32(value).unwrap();
    }
    let mut reader = CompactProtocolReader::new(writer.into_bytes());
    for value in values {
        assert_eq!(reader.read_i32().unwrap(), value);
    }
}

#[test]
fn round_trips_i64_zigzag_values() {
    let values = [-9_000_000_000, -1, 0, 1, 9_000_000_000];
    let mut writer = CompactProtocolWriter::new();
    for value in values {
        writer.write_i64(value).unwrap();
    }
    let mut reader = CompactProtocolReader::new(writer.into_bytes());
    for value in values {
        assert_eq!(reader.read_i64().unwrap(), value);
    }
}

#[test]
fn bool_field_is_encoded_in_header() {
    let mut writer = CompactProtocolWriter::new();
    writer.write_struct_begin("Flags").unwrap();
    writer
        .write_field_begin(&FieldBegin {
            name: None,
            field_type: TType::Bool,
            id: 1,
        })
        .unwrap();
    writer.write_bool(true).unwrap();
    writer.write_field_stop().unwrap();
    writer.write_struct_end().unwrap();

    let mut reader = CompactProtocolReader::new(writer.into_bytes());
    reader.read_struct_begin().unwrap();
    let field = reader.read_field_begin().unwrap();
    assert_eq!(field.id, 1);
    assert_eq!(field.field_type, TType::Bool);
    assert!(reader.read_bool().unwrap());
}

#[test]
fn standalone_bool_round_trips() {
    let mut writer = CompactProtocolWriter::new();
    writer.write_bool(false).unwrap();
    let mut reader = CompactProtocolReader::new(writer.into_bytes());
    assert!(!reader.read_bool().unwrap());
}

#[test]
fn short_list_header_round_trips() {
    let mut writer = CompactProtocolWriter::new();
    writer
        .write_list_begin(&ListBegin {
            element_type: TType::I32,
            size: 3,
        })
        .unwrap();
    let mut reader = CompactProtocolReader::new(writer.into_bytes());
    let list = reader.read_list_begin().unwrap();
    assert_eq!(list.element_type, TType::I32);
    assert_eq!(list.size, 3);
}

#[test]
fn long_list_header_round_trips() {
    let mut writer = CompactProtocolWriter::new();
    writer
        .write_list_begin(&ListBegin {
            element_type: TType::String,
            size: 20,
        })
        .unwrap();
    let mut reader = CompactProtocolReader::new(writer.into_bytes());
    let list = reader.read_list_begin().unwrap();
    assert_eq!(list.element_type, TType::String);
    assert_eq!(list.size, 20);
}

#[test]
fn map_header_round_trips() {
    let mut writer = CompactProtocolWriter::new();
    writer
        .write_map_begin(&MapBegin {
            key_type: TType::String,
            value_type: TType::I64,
            size: 2,
        })
        .unwrap();
    let mut reader = CompactProtocolReader::new(writer.into_bytes());
    let map = reader.read_map_begin().unwrap();
    assert_eq!(map.key_type, TType::String);
    assert_eq!(map.value_type, TType::I64);
    assert_eq!(map.size, 2);
}

#[test]
fn empty_map_header_round_trips() {
    let mut writer = CompactProtocolWriter::new();
    writer
        .write_map_begin(&MapBegin {
            key_type: TType::String,
            value_type: TType::I32,
            size: 0,
        })
        .unwrap();
    let mut reader = CompactProtocolReader::new(writer.into_bytes());
    let map = reader.read_map_begin().unwrap();
    assert_eq!(map.size, 0);
}

#[test]
fn nested_struct_resets_field_id_state() {
    let mut writer = CompactProtocolWriter::new();
    writer.write_struct_begin("Outer").unwrap();
    writer
        .write_field_begin(&FieldBegin {
            name: None,
            field_type: TType::Struct,
            id: 10,
        })
        .unwrap();
    writer.write_struct_begin("Inner").unwrap();
    writer
        .write_field_begin(&FieldBegin {
            name: None,
            field_type: TType::String,
            id: 1,
        })
        .unwrap();
    writer.write_string("city").unwrap();
    writer
        .write_field_begin(&FieldBegin {
            name: None,
            field_type: TType::String,
            id: 2,
        })
        .unwrap();
    writer.write_string("street").unwrap();
    writer.write_field_stop().unwrap();
    writer.write_struct_end().unwrap();
    writer.write_field_stop().unwrap();
    writer.write_struct_end().unwrap();

    let mut reader = CompactProtocolReader::new(writer.into_bytes());
    reader.read_struct_begin().unwrap();
    assert_eq!(reader.read_field_begin().unwrap().id, 10);
    reader.read_struct_begin().unwrap();
    let first = reader.read_field_begin().unwrap();
    assert_eq!(first.id, 1);
    assert_eq!(reader.read_string().unwrap(), "city");
    let second = reader.read_field_begin().unwrap();
    assert_eq!(second.id, 2);
    assert_eq!(reader.read_string().unwrap(), "street");
}

#[test]
fn zigzag_varint_layout() {
    let mut writer = CompactProtocolWriter::new();
    writer.write_i32(0).unwrap();
    writer.write_i32(-1).unwrap();
    writer.write_i32(1).unwrap();
    writer.write_i32(-64).unwrap();
    writer.write_i32(64).unwrap();
    writer.write_i32(i32::MIN).unwrap();
    assert_eq!(
        writer.into_bytes(),
        vec![0, 1, 2, 127, 0x80, 0x01, 0xff, 0xff, 0xff, 0xff, 0x0f]
    );
}

#[test]
fn extreme_values_round_trip() {
    let mut writer = CompactProtocolWriter::new();
    writer.write_i32(i32::MIN).unwrap();
    writer.write_i32(i32::MAX).unwrap();
    writer.write_i64(i64::MIN).unwrap();
    writer.write_i64(i64::MAX).unwrap();
    writer.write_i16(i16::MIN).unwrap();
    let mut reader = CompactProtocolReader::new(writer.into_bytes());
    assert_eq!(reader.read_i32().unwrap(), i32::MIN);
    assert_eq!(reader.read_i32().unwrap(), i32::MAX);
    assert_eq!(reader.read_i64().unwrap(), i64::MIN);
    assert_eq!(reader.read_i64().unwrap(), i64::MAX);
    assert_eq!(reader.read_i16().unwrap(), i16::MIN);
}

#[test]
fn overlong_varint_is_invalid_data() {
    let mut reader = CompactProtocolReader::new(vec![0x80, 0x80, 0x80, 0x80, 0x80, 0x01]);
    assert_eq!(reader.read_i32().unwrap_err(), ProtocolError::Io(IoErrorKind::InvalidData));
    let mut short = CompactProtocolReader::new(vec![0x80, 0x80]);
    assert_eq!(short.read_i32().unwrap_err(), ProtocolError::Io(IoErrorKind::UnexpectedEof));
}

#[test]
fn long_form_field_ids_round_trip() {
    let mut writer = CompactProtocolWriter::new();
    writer.write_struct_begin("S").unwrap();
    for (id, t) in [(1i16, TType::I32), (20, TType::I32), (21, TType::I32), (-3, TType::I64), (4, TType::I32)] {
        writer.write_field_begin(&FieldBegin { name: None, field_type: t, id }).unwrap();
        writer.write_i32(id as i32).unwrap();
    }
    writer.write_field_stop().unwrap();
    writer.write_struct_end().unwrap();
    let mut reader = CompactProtocolReader::new(writer.into_bytes());
    reader.read_struct_begin().unwrap();
    for id in [1i16, 20, 21, -3, 4] {
        let f = reader.read_field_begin().unwrap();
        assert_eq!(f.id, id);
        assert_eq!(reader.read_i32().unwrap(), id as i32);
    }
    assert_eq!(reader.read_field_begin().unwrap().field_type, TType::Stop);
}

#[test]
fn false_bool_field_and_ids_after_it() {
    let mut writer = CompactProtocolWriter::new();
    writer.write_struct_begin("S").unwrap();
    writer.write_field_begin(&FieldBegin { name: None, field_type: TType::Bool, id: 3 }).unwrap();
    writer.write_bool(false).unwrap();
    writer.write_field_begin(&FieldBegin { name: None, field_type: TType::Byte, id: 4 }).unwrap();
    writer.write_byte(-7).unwrap();
    writer.write_field_stop().unwrap();
    let bytes = writer.into_bytes();
    assert_eq!(bytes, vec![0x32, 0x13, 0xf9, 0x00]);
    let mut reader = CompactProtocolReader::new(bytes);
    reader.read_struct_begin().unwrap();
    let f = reader.read_field_begin().unwrap();
    assert_eq!((f.field_type, f.id), (TType::Bool, 3));
    assert!(!reader.read_bool().unwrap());
    let g = reader.read_field_begin().unwrap();
    assert_eq!((g.field_type, g.id), (TType::Byte, 4));
    assert_eq!(reader.read_byte().unwrap(), -7);
}

#[test]
fn compact_strings_and_doubles() {
    let mut writer = CompactProtocolWriter::new();
    writer.write_string("grüße").unwrap();
    writer.write_binary(&[9, 8, 7]).unwrap();
    writer.write_double_bits((-2.5f64).to_bits()).unwrap();
    let mut reader = CompactProtocolReader::new(writer.into_bytes());
    assert_eq!(reader.read_string().unwrap(), "grüße");
    assert_eq!(reader.read_binary().unwrap(), vec![9, 8, 7]);
    assert_eq!(f64::from_bits(reader.read_double_bits().unwrap()), -2.5);
}

#[test]
fn compact_invalid_field_type() {
    let mut reader = CompactProtocolReader::new(vec![0x1d]);
    assert_eq!(reader.read_field_begin().unwrap_err(), ProtocolError::InvalidFieldType);
}

#[test]
fn compact_failed_reads_take_what_they_read() {
    // An id increase with an unknown type raises the last field id first.
    let mut r = CompactProtocolReader::new(vec![0x1d, 0x15]);
    r.read_struct_begin().unwrap();
    assert_eq!(r.read_field_begin().unwrap_err(), ProtocolError::InvalidFieldType);
    let f = r.read_field_begin().unwrap();
    assert_eq!((f.field_type, f.id), (TType::I32, 2));

    // A varint of more than five bytes takes the five it read.
    let mut r = CompactProtocolReader::new(vec![0x80, 0x80, 0x80, 0x80, 0x80, 0x81, 3]);
    assert_eq!(r.read_i32().unwrap_err(), ProtocolError::Io(IoErrorKind::InvalidData));
    assert_eq!(r.read_byte().unwrap(), -127);

    // Running out of input takes what is left.
    let mut r = CompactProtocolReader::new(vec![0x80]);
    assert_eq!(r.read_i64().unwrap_err(), ProtocolError::Io(IoErrorKind::UnexpectedEof));
    assert_eq!(r.read_byte().unwrap_err(), ProtocolError::Io(IoErrorKind::UnexpectedEof));

    // A list header with an unknown element type takes its byte and size.
    let mut r = CompactProtocolReader::new(vec![0xfd, 0x02, 4]);
    assert_eq!(r.read_list_begin().unwrap_err(), ProtocolError::InvalidFieldType);
    assert_eq!(r.read_byte().unwrap(), 4);
}
