use thriftrs2::codec::write_thrift_value;
use thriftrs2::parser::ast::ThriftValue;
use thriftrs2::parser::names::NameMap;
use thriftrs2::protocol::framing::{buffered_struct_body_extent, buffered_value_extent, BufferedExtent};
use thriftrs2::protocol::BinaryProtocolWriter;

fn struct_bytes() -> Vec<u8> {
    let v = ThriftValue::Struct {
        name: None,
        fields: vec![
            ("a".to_string(), ThriftValue::I32(7)),
            ("b".to_string(), ThriftValue::String("hello".to_string())),
            (
                "c".to_string(),
                ThriftValue::MapT(vec![(ThriftValue::I16(1), ThriftValue::List(vec![ThriftValue::Bool(true)]))]),
            ),
        ],
    };
    let mut w = BinaryProtocolWriter::new();
    write_thrift_value(&mut w, &v, &NameMap::new()).unwrap();
    w.into_bytes()
}

#[test]
fn struct_body_extent_is_the_written_length() {
    let bytes = struct_bytes();
    assert_eq!(buffered_struct_body_extent(&bytes, 0), BufferedExtent::Complete(bytes.len()));
    let mut longer = bytes.clone();
    longer.extend_from_slice(&[9, 9, 9]);
    assert_eq!(buffered_struct_body_extent(&longer, 0), BufferedExtent::Complete(bytes.len()));
}

#[test]
fn every_proper_prefix_needs_more_bytes() {
    let bytes = struct_bytes();
    for k in 0..bytes.len() {
        let prefix = bytes[..k].to_vec();
        assert_eq!(buffered_struct_body_extent(&prefix, 0), BufferedExtent::Incomplete, "prefix {}", k);
    }
}

#[test]
fn unknown_type_tag_is_reported() {
    // field of type 7 (no such type), id 1
    let bytes = vec![7, 0, 1, 0, 0];
    assert_eq!(buffered_struct_body_extent(&bytes, 0), BufferedExtent::UnknownType(7));
}

#[test]
fn fixed_width_values_and_strings() {
    let data = vec![0, 0, 0, 3, b'a', b'b', b'c', 1];
    assert_eq!(buffered_value_extent(&data, 0, 11), BufferedExtent::Complete(7));
    assert_eq!(buffered_value_extent(&data, 0, 10), BufferedExtent::Complete(8));
    assert_eq!(buffered_value_extent(&data, 4, 10), BufferedExtent::Incomplete);
    assert_eq!(buffered_value_extent(&data, 7, 2), BufferedExtent::Complete(1));
    assert_eq!(buffered_value_extent(&data, 0, 1), BufferedExtent::UnknownType(1));
}

#[test]
fn negative_container_size_has_no_elements() {
    // list of i32 with size -1
    let data = vec![8, 0xff, 0xff, 0xff, 0xff];
    assert_eq!(buffered_value_extent(&data, 0, 15), BufferedExtent::Complete(5));
    // map header with size -2
    let data = vec![8, 8, 0xff, 0xff, 0xff, 0xfe];
    assert_eq!(buffered_value_extent(&data, 0, 13), BufferedExtent::Complete(6));
}

#[test]
fn empty_struct_is_its_stop_byte() {
    assert_eq!(buffered_struct_body_extent(&vec![0], 0), BufferedExtent::Complete(1));
    assert_eq!(buffered_struct_body_extent(&vec![], 0), BufferedExtent::Incomplete);
}
