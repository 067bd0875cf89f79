use das_overlay::content_key::{
    DASContentKey, DASValidator, DecodeError, SecureDASContentKey, SecureDASValidator,
};

#[test]
fn das_key_encodes_as_selector_then_body() {
    let key = DASContentKey::Sample([7u8; 32]);
    let bytes = key.encode();
    assert_eq!(bytes.len(), 33);
    assert_eq!(bytes[0], 0);
    assert!(bytes[1..].iter().all(|b| *b == 7));
}

#[test]
fn das_key_round_trip() {
    let mut body = [0u8; 32];
    for (i, b) in body.iter_mut().enumerate() {
        *b = (i * 7 + 3) as u8;
    }
    let key = DASContentKey::Sample(body);
    assert_eq!(DASContentKey::decode(&key.encode()), Ok(key));
}

#[test]
fn secure_das_key_round_trip() {
    let key = SecureDASContentKey::Sample([0xabu8; 32]);
    assert_eq!(SecureDASContentKey::decode(&key.encode()), Ok(key));
}

#[test]
fn decode_rejects_empty_input() {
    assert_eq!(
        DASContentKey::decode(&[]),
        Err(DecodeError::InvalidByteLength { len: 0, expected: 1 })
    );
}

#[test]
fn decode_rejects_unknown_selector() {
    let mut bytes = vec![1u8];
    bytes.extend_from_slice(&[0u8; 32]);
    assert_eq!(DASContentKey::decode(&bytes), Err(DecodeError::UnionSelectorInvalid(1)));
}

#[test]
fn decode_rejects_truncated_body() {
    let mut bytes = vec![0u8];
    bytes.extend_from_slice(&[5u8; 31]);
    assert_eq!(
        SecureDASContentKey::decode(&bytes),
        Err(DecodeError::InvalidByteLength { len: 31, expected: 32 })
    );
}

#[test]
fn decode_rejects_long_body() {
    let mut bytes = vec![0u8];
    bytes.extend_from_slice(&[5u8; 33]);
    assert_eq!(
        DASContentKey::decode(&bytes),
        Err(DecodeError::InvalidByteLength { len: 33, expected: 32 })
    );
}

#[test]
fn content_id_is_the_sample_body() {
    let mut body = [0u8; 32];
    body[0] = 0xff;
    body[31] = 0x01;
    assert_eq!(DASContentKey::Sample(body).content_id(), body);
    assert_eq!(SecureDASContentKey::Sample(body).content_id(), body);
}

#[test]
fn display_string_is_lower_case_hex() {
    let mut body = [0u8; 32];
    body[0] = 0xab;
    body[1] = 0x01;
    body[31] = 0xf0;
    let text = DASContentKey::Sample(body).to_display_string();
    let mut expected = String::from("sample: ab01");
    for _ in 2..31 {
        expected.push_str("00");
    }
    expected.push_str("f0");
    assert_eq!(text, expected);
    assert_eq!(SecureDASContentKey::Sample(body).to_display_string(), expected);
}

#[test]
fn validators_accept_samples() {
    let das = DASContentKey::Sample([1u8; 32]);
    let secure = SecureDASContentKey::Sample([1u8; 32]);
    assert_eq!(DASValidator.validate_content(&das, b"payload"), Ok(()));
    assert_eq!(SecureDASValidator.validate_content(&secure, &[]), Ok(()));
}

#[test]
fn wire_form_is_an_ssz_union() {
    let key = DASContentKey::Sample([9u8; 32]);
    let bytes = key.encode();
    let (selector, body) = ssz::split_union_bytes(&bytes).unwrap();
    assert_eq!(u8::from(selector), 0);
    let decoded = <[u8; 32] as ssz::Decode>::from_ssz_bytes(body).unwrap();
    assert_eq!(decoded, [9u8; 32]);
    assert_eq!(<[u8; 32] as ssz::Encode>::as_ssz_bytes(&[9u8; 32]), bytes[1..].to_vec());
}
