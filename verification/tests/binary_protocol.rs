use thriftrs2::protocol::{
    BinaryProtocolReader, BinaryProtocolWriter, FieldBegin, ListBegin, MapBegin, MessageBegin,
    ProtocolError, IoErrorKind, SetBegin, TType, MESSAGE_TYPE_CALL,
};

fn round_trip<T>(
    write: impl FnOnce(&mut BinaryProtocolWriter),
    read: impl FnOnce(&mut BinaryProtocolReader) -> T,
) -> T {
    let mut writer = BinaryProtocolWriter::new();
    write(&mut writer);
    read(&mut BinaryProtocolReader::new(writer.into_bytes()))
}

#[test]
fn binary_round_trips_message_begin() {
    let mut writer = BinaryProtocolWriter::new();
    writer
        .write_message_begin(&MessageBegin {
            name: "ping".to_string(),
            message_type: MESSAGE_TYPE_CALL,
            seq_id: 42,
        })
        .unwrap();
    let mut reader = BinaryProtocolReader::new(writer.into_bytes());
    let msg = reader.read_message_begin().unwrap();
    assert_eq!(msg.name, "ping");
    assert_eq!(msg.message_type, MESSAGE_TYPE_CALL);
    assert_eq!(msg.seq_id, 42);
}

#[test]
fn rejects_bad_message_version() {
    let mut reader = BinaryProtocolReader::new(vec![0, 0, 0, 1]);
    assert!(reader.read_message_begin().is_err());
}

#[test]
fn round_trips_bool() {
    assert!(round_trip(
        |writer| writer.write_bool(true).unwrap(),
        |reader| reader.read_bool().unwrap()
    ));
}

#[test]
fn round_trips_numeric_values() {
    let mut writer = BinaryProtocolWriter::new();
    writer.write_byte(-12).unwrap();
    writer.write_i16(-1234).unwrap();
    writer.write_i32(123456).unwrap();
    writer.write_i64(9_000_000_000).unwrap();
    writer.write_double_bits(1.25f64.to_bits()).unwrap();
    let mut reader = BinaryProtocolReader::new(writer.into_bytes());
    assert_eq!(reader.read_byte().unwrap(), -12);
    assert_eq!(reader.read_i16().unwrap(), -1234);
    assert_eq!(reader.read_i32().unwrap(), 123456);
    assert_eq!(reader.read_i64().unwrap(), 9_000_000_000);
    assert_eq!(f64::from_bits(reader.read_double_bits().unwrap()), 1.25);
}

#[test]
fn round_trips_string() {
    let value = round_trip(
        |writer| writer.write_string("hello").unwrap(),
        |reader| reader.read_string().unwrap(),
    );
    assert_eq!(value, "hello");
}

#[test]
fn round_trips_binary() {
    let value = round_trip(
        |writer| writer.write_binary(&[0, 1, 2, 255]).unwrap(),
        |reader| reader.read_binary().unwrap(),
    );
    assert_eq!(value, vec![0, 1, 2, 255]);
}

#[test]
fn round_trips_field_header_and_stop() {
    let mut writer = BinaryProtocolWriter::new();
    writer
        .write_field_begin(&FieldBegin {
            name: None,
            field_type: TType::I32,
            id: 7,
        })
        .unwrap();
    writer.write_field_stop().unwrap();
    let mut reader = BinaryProtocolReader::new(writer.into_bytes());
    let field = reader.read_field_begin().unwrap();
    assert_eq!(field.field_type, TType::I32);
    assert_eq!(field.id, 7);
    assert_eq!(reader.read_field_begin().unwrap().field_type, TType::Stop);
}

#[test]
fn round_trips_list_header() {
    let mut writer = BinaryProtocolWriter::new();
    writer
        .write_list_begin(&ListBegin {
            element_type: TType::I16,
            size: 3,
        })
        .unwrap();
    let mut reader = BinaryProtocolReader::new(writer.into_bytes());
    let list = reader.read_list_begin().unwrap();
    assert_eq!(list.element_type, TType::I16);
    assert_eq!(list.size, 3);
}

#[test]
fn round_trips_set_header() {
    let mut writer = BinaryProtocolWriter::new();
    writer
        .write_set_begin(&SetBegin {
            element_type: TType::String,
            size: 2,
        })
        .unwrap();
    let mut reader = BinaryProtocolReader::new(writer.into_bytes());
    let set = reader.read_set_begin().unwrap();
    assert_eq!(set.element_type, TType::String);
    assert_eq!(set.size, 2);
}

#[test]
fn round_trips_map_header() {
    let mut writer = BinaryProtocolWriter::new();
    writer
        .write_map_begin(&MapBegin {
            key_type: TType::String,
            value_type: TType::I64,
            size: 1,
        })
        .unwrap();
    let mut reader = BinaryProtocolReader::new(writer.into_bytes());
    let map = reader.read_map_begin().unwrap();
    assert_eq!(map.key_type, TType::String);
    assert_eq!(map.value_type, TType::I64);
    assert_eq!(map.size, 1);
}

#[test]
fn binary_wire_layout_is_big_endian() {
    let mut writer = BinaryProtocolWriter::new();
    writer.write_i32(0x01020304).unwrap();
    writer.write_i16(-2).unwrap();
    writer.write_string("hi").unwrap();
    assert_eq!(
        writer.into_bytes(),
        vec![1, 2, 3, 4, 0xff, 0xfe, 0, 0, 0, 2, b'h', b'i']
    );
}

#[test]
fn binary_message_header_layout() {
    let mut writer = BinaryProtocolWriter::new();
    writer
        .write_message_begin(&MessageBegin { name: "a".to_string(), message_type: 2, seq_id: 7 })
        .unwrap();
    assert_eq!(
        writer.into_bytes(),
        vec![0x80, 0x01, 0x00, 0x02, 0, 0, 0, 1, b'a', 0, 0, 0, 7]
    );
}

#[test]
fn binary_read_errors() {
    let mut short = BinaryProtocolReader::new(vec![0, 0]);
    assert_eq!(short.read_i32(), Err(ProtocolError::Io(IoErrorKind::UnexpectedEof)));
    // a read that runs out of input takes what was left
    assert_eq!(short.read_i16(), Err(ProtocolError::Io(IoErrorKind::UnexpectedEof)));
    let mut bad_type = BinaryProtocolReader::new(vec![5, 0, 1]);
    assert_eq!(bad_type.read_field_begin().unwrap_err(), ProtocolError::InvalidType(5));
    let mut bad_list = BinaryProtocolReader::new(vec![7, 0, 0, 0, 1]);
    assert_eq!(bad_list.read_list_begin().unwrap_err(), ProtocolError::InvalidFieldType);
    let mut bad_utf8 = BinaryProtocolReader::new(vec![0, 0, 0, 1, 0xff]);
    assert_eq!(bad_utf8.read_string().unwrap_err(), ProtocolError::Io(IoErrorKind::InvalidData));
    let mut negative_len = BinaryProtocolReader::new(vec![0xff, 0xff, 0xff, 0xff]);
    assert_eq!(negative_len.read_binary().unwrap_err(), ProtocolError::Io(IoErrorKind::UnexpectedEof));
    let mut truncated = BinaryProtocolReader::new(vec![0, 0, 0, 5, 1, 2]);
    assert_eq!(truncated.read_binary().unwrap_err(), ProtocolError::Io(IoErrorKind::UnexpectedEof));
}

#[test]
fn binary_bad_version_error_kind() {
    let mut reader = BinaryProtocolReader::new(vec![0x80, 0x02, 0, 1, 0, 0, 0, 0, 0, 0, 0, 0]);
    assert_eq!(
        reader.read_message_begin().unwrap_err(),
        ProtocolError::Io(IoErrorKind::InvalidData)
    );
}

#[test]
fn binary_unicode_string_round_trips() {
    let value = round_trip(
        |writer| writer.write_string("héllo ✓").unwrap(),
        |reader| reader.read_string().unwrap(),
    );
    assert_eq!(value, "héllo ✓");
}

#[test]
fn binary_failed_reads_take_what_they_read() {
    let mut r = BinaryProtocolReader::new(vec![0x77, 5]);
    assert_eq!(r.read_field_begin().unwrap_err(), ProtocolError::InvalidType(0x77));
    assert_eq!(r.read_byte().unwrap(), 5);

    let mut r = BinaryProtocolReader::new(vec![1, 2]);
    assert_eq!(r.read_i32().unwrap_err(), ProtocolError::Io(IoErrorKind::UnexpectedEof));
    assert_eq!(r.read_byte().unwrap_err(), ProtocolError::Io(IoErrorKind::UnexpectedEof));

    let mut r = BinaryProtocolReader::new(vec![0, 0, 0, 1, 0xff, 7]);
    assert_eq!(r.read_string().unwrap_err(), ProtocolError::Io(IoErrorKind::InvalidData));
    assert_eq!(r.read_byte().unwrap(), 7);

    let mut r = BinaryProtocolReader::new(vec![8, 0x77, 9]);
    assert_eq!(r.read_map_begin().unwrap_err(), ProtocolError::InvalidFieldType);
    assert_eq!(r.read_byte().unwrap(), 9);

    let mut r = BinaryProtocolReader::new(vec![0x80, 0x02, 0, 1, 0, 0, 0, 0, 6]);
    assert_eq!(r.read_message_begin().unwrap_err(), ProtocolError::Io(IoErrorKind::InvalidData));
    assert_eq!(r.read_i32().unwrap(), 0);
    assert_eq!(r.read_byte().unwrap(), 6);
}
