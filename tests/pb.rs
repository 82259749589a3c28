use flo::pb::{
    decode_message, decode_varint, encode_message, encode_varint, int32_to_varint,
    varint_to_int32, Field, WireValue,
};

#[test]
fn varint_exact_bytes() {
    let mut buf = Vec::new();
    encode_varint(&mut buf, 300);
    assert_eq!(buf, vec![0xAC, 0x02]);
    assert_eq!(decode_varint(&buf, 0, 10), Some((300, 2)));
    let mut max = Vec::new();
    encode_varint(&mut max, u64::MAX);
    assert_eq!(max.len(), 10);
    assert_eq!(decode_varint(&max, 0, 10), Some((u64::MAX, 10)));
}

#[test]
fn varint_refuses_truncated_or_overlong() {
    assert_eq!(decode_varint(&[0x80], 0, 10), None);
    assert_eq!(decode_varint(&[0xFF; 11], 0, 10), None);
    assert_eq!(decode_varint(&[0xFF, 0xFF, 0xFF, 0xFF, 0xFF, 0xFF, 0xFF, 0xFF, 0xFF, 0x7F], 0, 10), None);
}

#[test]
fn negative_int32_is_sign_extended() {
    assert_eq!(int32_to_varint(-1), u64::MAX);
    assert_eq!(varint_to_int32(u64::MAX), -1);
    assert_eq!(varint_to_int32(int32_to_varint(i32::MIN)), i32::MIN);
}

#[test]
fn message_exact_bytes_and_round_trip() {
    // game_id = 150 as field 1, token bytes as field 4
    let fields = vec![
        Field { number: 1, value: WireValue::Varint(150) },
        Field { number: 4, value: WireValue::Bytes(vec![1, 2, 3]) },
    ];
    let bytes = encode_message(&fields);
    assert_eq!(bytes, vec![0x08, 0x96, 0x01, 0x22, 0x03, 1, 2, 3]);
    assert_eq!(decode_message(&bytes), Some(fields));
}

#[test]
fn message_edge_cases_round_trip() {
    assert_eq!(encode_message(&vec![]), Vec::<u8>::new());
    assert_eq!(decode_message(&[]), Some(vec![]));
    let fields = vec![
        Field { number: 2, value: WireValue::Bytes(vec![]) },
        Field { number: 0x1fff_ffff, value: WireValue::Varint(u64::MAX) },
        Field { number: 3, value: WireValue::Bytes(vec![7; 70000]) },
        Field { number: 2, value: WireValue::Varint(0) },
    ];
    assert_eq!(decode_message(&encode_message(&fields)), Some(fields));
}

#[test]
fn message_refuses_bad_input() {
    // field number 0
    assert_eq!(decode_message(&[0x00, 0x01]), None);
    // wire type 1 is not read
    assert_eq!(decode_message(&[0x09, 0, 0, 0, 0, 0, 0, 0, 0]), None);
    // length past the end
    assert_eq!(decode_message(&[0x12, 0x05, 1]), None);
}
