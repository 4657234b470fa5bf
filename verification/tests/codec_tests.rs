use simetrics_api::codec::{decode_token, encode_token, token_roundtrip};
use simetrics_api::dec::Dec;
use simetrics_api::token::{build_token, TokenInput, Unlock};

fn sample_input() -> TokenInput {
    let mut input = TokenInput::empty();
    input.name = Some(String::from("Tóken ✓"));
    input.symbol = Some(String::from("TKN"));
    input.total_supply = Some(Dec::new(1_000_000, 0));
    input.current_supply = Some(Dec::new(25, 1));
    input.initial_supply_percentage = Some(Dec::new(50, 0));
    input.inflation_rate = Some(Dec::new(-25, 1));
    input.initial_price = Some(Dec::new(199, 2));
    input.airdrop_percentage = Some(Dec::new(5, 0));
    input.unlock_schedule = Some(vec![
        Unlock { date: 1735689600, amount: Dec::new(1000, 0) },
        Unlock { date: 1767225600, amount: Dec::new(-1, 5) },
    ]);
    input
}

#[test]
fn test_token_codec_roundtrip() {
    let token = build_token(sample_input(), 0x0123456789abcdef0123456789abcdef);
    let encoded = encode_token(&token);
    let decoded = decode_token(&encoded).unwrap_or_else(|| panic!("decode failed"));
    assert_eq!(decoded, token);
}

#[test]
fn test_token_codec_roundtrip_defaults() {
    let token = build_token(TokenInput::empty(), u128::MAX);
    match token_roundtrip(&token) {
        Some(decoded) => assert_eq!(decoded, token),
        None => panic!("round trip failed"),
    }
}

#[test]
fn test_token_codec_roundtrip_empty_name() {
    let mut input = TokenInput::empty();
    input.name = Some(String::new());
    input.symbol = Some(String::new());
    let token = build_token(input, 0);
    let encoded = encode_token(&token);
    let decoded = decode_token(&encoded).unwrap_or_else(|| panic!("decode failed"));
    assert_eq!(decoded, token);
}

#[test]
fn test_token_codec_text_shape() {
    let token = build_token(TokenInput::empty(), 5);
    let encoded = encode_token(&token);
    assert_eq!(*encoded.first().unwrap_or(&0), b'[');
    assert_eq!(*encoded.last().unwrap_or(&0), b']');
    assert!(encoded.iter().all(|b| b.is_ascii()));
    let text = String::from_utf8(encoded).unwrap_or_else(|_| panic!("not text"));
    assert!(text.contains("null"));
}

#[test]
fn test_token_codec_rejects_tampering() {
    let token = build_token(TokenInput::empty(), 5);
    let mut encoded = encode_token(&token);
    encoded[2] = b'9';
    match decode_token(&encoded) {
        Some(decoded) => assert_ne!(decoded, token),
        None => {},
    }
    let truncated = encode_token(&token)[..10].to_vec();
    assert!(decode_token(&truncated).is_none());
}
