use tencent_scf::convert::{
    bytes_from_payload, bytes_into_bytes, string_from_payload, string_into_bytes, unit_into_bytes,
};

#[test]
fn text_payload_must_be_utf8() {
    assert_eq!(string_from_payload("héllo".as_bytes().to_vec()), Some("héllo".to_string()));
    assert_eq!(string_from_payload(vec![]), Some(String::new()));
    assert_eq!(string_from_payload(vec![0xff, 0x00]), None);
}

#[test]
fn raw_payload_and_responses_pass_through() {
    assert_eq!(bytes_from_payload(vec![1, 2, 3]), vec![1, 2, 3]);
    assert_eq!(bytes_into_bytes(vec![9]), vec![9]);
    assert_eq!(string_into_bytes("ñ!".to_string()), vec![0xc3, 0xb1, b'!']);
    assert!(unit_into_bytes().is_empty());
}
