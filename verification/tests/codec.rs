use shorty::encoder::{decode, encode};
use shorty::errors::ShortyError;

fn check(id: i64, token: &str) {
    assert_eq!(encode(id), token);
    assert_eq!(decode(token), Ok(id));
}

#[test]
fn encode_0() {
    check(0, "A");
}

#[test]
fn encode_1() {
    check(1, "B");
}

#[test]
fn encode_2() {
    check(2, "C");
}

#[test]
fn encode_63() {
    check(63, "_");
}

#[test]
fn encode_64() {
    check(64, "AB");
}

#[test]
fn encode_128() {
    check(128, "AC");
}

#[test]
fn encode_192() {
    check(192, "AD");
}

#[test]
fn encode_max() {
    check(i64::MAX, "__________H");
}

#[test]
fn alphabet_boundaries() {
    check(25, "Z");
    check(26, "a");
    check(51, "z");
    check(52, "0");
    check(61, "9");
    check(62, "-");
}

#[test]
fn round_trip_small_range() {
    for id in 0..5000i64 {
        assert_eq!(decode(&encode(id)), Ok(id));
    }
}

#[test]
fn round_trip_large_values() {
    for id in [
        4096,
        262143,
        262144,
        1 << 30,
        (1 << 40) + 7,
        i64::MAX - 1,
        i64::MAX,
    ] {
        assert_eq!(decode(&encode(id)), Ok(id));
    }
}

#[test]
fn encode_injective_small_range() {
    let mut tokens: Vec<String> = (0..2000i64).map(encode).collect();
    tokens.sort();
    tokens.dedup();
    assert_eq!(tokens.len(), 2000);
}

#[test]
fn decode_rejects_character_outside_alphabet() {
    assert_eq!(decode("has space!"), Err(ShortyError::InvalidToken));
    assert_eq!(decode("abc$"), Err(ShortyError::InvalidToken));
    assert_eq!(decode("+"), Err(ShortyError::InvalidToken));
    assert_eq!(decode("ab cd"), Err(ShortyError::InvalidToken));
    assert_eq!(decode("\u{00e9}"), Err(ShortyError::InvalidToken));
}

#[test]
fn decode_empty_is_zero() {
    assert_eq!(decode(""), Ok(0));
}

#[test]
fn decode_accepts_non_canonical_trailing_zero_digits() {
    // A trailing `A` is a zero digit in the most-significant position:
    // the value is unchanged, but re-encoding gives the canonical token.
    assert_eq!(decode("BA"), Ok(1));
    assert_eq!(decode("BAAAA"), Ok(1));
    assert_eq!(encode(1), "B");
    assert_ne!(encode(decode("BA").unwrap()), "BA");
}

#[test]
fn decode_rejects_value_above_identifier_range() {
    // One past the largest identifier: 2^63 == "AAAAAAAAAAI" in base 64.
    assert_eq!(decode("AAAAAAAAAAI"), Err(ShortyError::InvalidToken));
    assert_eq!(decode("__________I"), Err(ShortyError::InvalidToken));
    assert_eq!(decode("___________"), Err(ShortyError::InvalidToken));
    // The largest identifier itself still decodes.
    assert_eq!(decode("__________H"), Ok(i64::MAX));
}
