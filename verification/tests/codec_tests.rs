use r_blockchain::HashtoString;
use r_blockchain::StringtoHash;
use r_blockchain::calculate_hash;
use r_blockchain::decode_hex;
use r_blockchain::encode_hex;

#[test]
fn round_trip_all_zero_digest() {
    let bytes: Vec<u8> = vec![0u8; 32];
    let text = encode_hex(&bytes);
    assert_eq!(text.len(), 64);
    let back = decode_hex(&text).unwrap();
    assert_eq!(back, bytes);
}

#[test]
fn round_trip_all_ff_digest() {
    let bytes: Vec<u8> = vec![0xffu8; 32];
    let text = encode_hex(&bytes);
    assert_eq!(text, "ff".repeat(32));
    let back = decode_hex(&text).unwrap();
    assert_eq!(back, bytes);
}

#[test]
fn round_trip_real_digest() {
    let digest = calculate_hash("tx".to_string());
    assert_eq!(digest.len(), 32);
    let text = encode_hex(&digest);
    let back = decode_hex(&text).unwrap();
    assert_eq!(back, digest);
}

#[test]
fn encode_known_value() {
    let bytes: Vec<u8> = vec![0x00, 0xab, 0xff];
    assert_eq!(encode_hex(&bytes), "00abff");
}

#[test]
fn decode_known_value() {
    let bytes = decode_hex("00abff").unwrap();
    assert_eq!(bytes, vec![0x00, 0xab, 0xff]);
}

#[test]
fn encode_of_decode_returns_original_text() {
    let text = "00abff1234deadbeef";
    let bytes = decode_hex(text).unwrap();
    assert_eq!(encode_hex(&bytes), text);
}

#[test]
fn decode_rejects_odd_length() {
    let err = decode_hex("abc").unwrap_err();
    assert_eq!(err.message(), "hex digest text must have an even number of digits");
}

#[test]
fn decode_rejects_non_hex_character() {
    let err = decode_hex("zz").unwrap_err();
    assert_eq!(err.message(), "hex digest text holds a non-hex character");
}

#[test]
fn decode_rejects_uppercase() {
    assert!(decode_hex("AB").is_err());
}

#[test]
fn decode_empty_is_empty() {
    let bytes = decode_hex("").unwrap();
    assert!(bytes.is_empty());
}

#[test]
fn sha256_known_vector() {
    let digest = calculate_hash("abc".to_string());
    let text = HashtoString::new(digest).get_string();
    assert_eq!(text, "ba7816bf8f01cfea414140de5dae2223b00361a396177a9cb410ff61f20015ad");
}

#[test]
fn hash_to_string_round_trips_through_string_to_hash() {
    let digest = calculate_hash("block data".to_string());
    let converter = HashtoString::new(digest.clone());
    let text = converter.get_string();
    let back = StringtoHash::new(text.clone()).unwrap();
    assert_eq!(back.get_hash(), digest);
    assert_eq!(back.string, text);
}

#[test]
fn string_to_hash_rejects_invalid_text() {
    assert!(StringtoHash::new("not hex!".to_string()).is_err());
}
