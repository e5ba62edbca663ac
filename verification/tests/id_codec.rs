//! Tests for the identifier codec: canonical form, round-trips, errors,
//! and agreement with the reference base64 implementation.

use base64::engine::general_purpose;
use base64::Engine;
use notestore::data::FileID;
use notestore::column::ColumnID;
use notestore::id::DecodeError;

#[test]
fn encode_zero_is_all_a() {
    assert_eq!(FileID(0).to_string(), "AAAAAAAAAAA");
}

#[test]
fn encode_matches_reference_base64() {
    let values: [u64; 6] = [
        0,
        1,
        0x0123_4567_89AB_CDEF,
        u64::MAX,
        0x8000_0000_0000_0000,
        42,
    ];
    for v in values {
        let expected = general_purpose::URL_SAFE_NO_PAD.encode(v.to_be_bytes());
        assert_eq!(FileID(v).to_string(), expected);
    }
}

#[test]
fn decode_round_trip() {
    let values: [u64; 5] = [0, 1, 0xDEAD_BEEF_0BAD_F00D, u64::MAX, 7];
    for v in values {
        let s = FileID(v).to_string();
        let back = FileID::from_str(&s).unwrap();
        assert_eq!(back.0, v);
        assert_eq!(back.to_string(), s);
    }
}

#[test]
fn decode_agrees_with_reference_base64() {
    let s = "HelloWorld0";
    let ours = FileID::from_str(s).unwrap().0;
    let bytes = general_purpose::URL_SAFE_NO_PAD.decode(s).unwrap();
    let theirs = u64::from_be_bytes(bytes.try_into().unwrap());
    assert_eq!(ours, theirs);
}

#[test]
fn decode_wrong_length() {
    assert_eq!(FileID::from_str(""), Err(DecodeError::InvalidLength));
    assert_eq!(FileID::from_str("AAAA"), Err(DecodeError::InvalidLength));
    assert_eq!(
        FileID::from_str("AAAAAAAAAAAA"),
        Err(DecodeError::InvalidLength)
    );
}

#[test]
fn decode_bad_symbol() {
    assert_eq!(
        FileID::from_str("AAAAA!AAAAA"),
        Err(DecodeError::InvalidSymbol)
    );
    assert_eq!(
        FileID::from_str("AAAAAAAAAA="),
        Err(DecodeError::InvalidSymbol)
    );
}

#[test]
fn decode_nonzero_padding_bits() {
    // The last character carries only 4 payload bits; 'B' sets a padding
    // bit, so this string is not canonical. The reference implementation
    // rejects it too.
    assert_eq!(
        FileID::from_str("AAAAAAAAAAB"),
        Err(DecodeError::InvalidLastSymbol)
    );
    assert!(general_purpose::URL_SAFE_NO_PAD.decode("AAAAAAAAAAB").is_err());
}

#[test]
fn column_id_round_trip() {
    let c = ColumnID(99);
    let s = c.to_string();
    assert_eq!(ColumnID::from_str(&s).unwrap(), c);
}

#[test]
fn random_values_agree_with_reference() {
    for _ in 0..200 {
        let v: u64 = rand::random();
        let s = FileID(v).to_string();
        assert_eq!(s, general_purpose::URL_SAFE_NO_PAD.encode(v.to_be_bytes()));
        assert_eq!(FileID::from_str(&s).unwrap().0, v);
    }
}
