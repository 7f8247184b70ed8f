use serde_json::Value;
use unsized_hashtable::array_serializer::ArraySerializer;
use unsized_hashtable::struct_serializer::StructSerializer;

#[test]
fn struct_value_quoting_and_joining() {
    let ser = StructSerializer { quoted: vec![true, false, true] };
    let parts = vec!["hello".to_string(), "42".to_string(), "x".to_string()];
    let out = ser.serialize_value(Some(&parts)).expect("struct value");
    assert_eq!(out, "('hello', 42, 'x')");
}

#[test]
fn struct_value_empty() {
    let ser = StructSerializer { quoted: vec![] };
    let parts: Vec<String> = vec![];
    let out = ser.serialize_value(Some(&parts)).expect("struct value");
    assert_eq!(out, "()");
}

#[test]
fn struct_value_single_field() {
    let ser = StructSerializer { quoted: vec![false] };
    let parts = vec!["1".to_string()];
    assert_eq!(ser.serialize_value(Some(&parts)).unwrap(), "(1)");
}

#[test]
fn struct_value_zips_to_the_shorter_list() {
    let ser = StructSerializer { quoted: vec![false] };
    let parts = vec!["1".to_string(), "2".to_string()];
    assert_eq!(ser.serialize_value(Some(&parts)).unwrap(), "(1)");
}

#[test]
fn struct_value_rejects_non_struct() {
    let ser = StructSerializer { quoted: vec![true] };
    let err = ser.serialize_value(None).expect_err("not a struct");
    assert_eq!(err, "Incorrect Struct value");
}

#[test]
fn struct_column() {
    let ser = StructSerializer { quoted: vec![false, true] };
    let rows = vec![
        vec!["1".to_string(), "a".to_string()],
        vec!["2".to_string(), "b".to_string()],
    ];
    let out = ser.serialize_column(&rows).expect("column");
    assert_eq!(out, vec!["(1, 'a')".to_string(), "(2, 'b')".to_string()]);
}

#[test]
fn array_try_create() {
    let ser = ArraySerializer::try_create(Some(vec![0, 1, 3])).expect("array column");
    assert_eq!(ser.offsets, vec![0, 1, 3]);
    match ArraySerializer::try_create(None) {
        Ok(_) => panic!("a missing offset table must be rejected"),
        Err(e) => assert_eq!(e, "unable to get array column"),
    }
}

#[test]
fn array_write_field() {
    let ser = ArraySerializer { offsets: vec![0, 2, 2, 5] };
    let fields: Vec<Vec<u8>> = vec![
        b"'a'".to_vec(),
        b"'b'".to_vec(),
        b"'c'".to_vec(),
        b"'d'".to_vec(),
        b"'e'".to_vec(),
    ];
    let mut buf = b"row: ".to_vec();
    ser.write_field(0, &mut buf, &fields);
    assert_eq!(buf, b"row: ['a', 'b']".to_vec());
    let mut buf2 = Vec::new();
    ser.write_field(1, &mut buf2, &fields);
    assert_eq!(buf2, b"[]".to_vec());
    let mut buf3 = Vec::new();
    ser.write_field(2, &mut buf3, &fields);
    assert_eq!(buf3, b"['c', 'd', 'e']".to_vec());
}

#[test]
fn array_json_values_grouping() {
    let ser = ArraySerializer { offsets: vec![0, 2, 2, 3] };
    let inner = vec![Value::from(1u64), Value::from(2u64), Value::from(3u64)];
    let out = ser.serialize_json_values(inner).expect("grouping");
    assert_eq!(out.len(), 3);
    assert_eq!(out[0], Value::Array(vec![Value::from(1u64), Value::from(2u64)]));
    assert_eq!(out[1], Value::Array(vec![]));
    assert_eq!(out[2], Value::Array(vec![Value::from(3u64)]));
}
