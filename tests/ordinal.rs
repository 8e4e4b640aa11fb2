use filego::ordinal::{chunk_name, parse_ordinal};

#[test]
fn chunk_names_are_decimal() {
    assert_eq!(chunk_name(0), "0");
    assert_eq!(chunk_name(7), "7");
    assert_eq!(chunk_name(10), "10");
    assert_eq!(chunk_name(1234567890), "1234567890");
    assert_eq!(chunk_name(usize::MAX), usize::MAX.to_string());
}

#[test]
fn ordinals_parse_as_unsigned_integers() {
    assert_eq!(parse_ordinal("0"), Some(0));
    assert_eq!(parse_ordinal("42"), Some(42));
    assert_eq!(parse_ordinal("007"), Some(7));
    assert_eq!(parse_ordinal("+7"), Some(7));
    assert_eq!(parse_ordinal(&usize::MAX.to_string()), Some(usize::MAX));
}

#[test]
fn non_ordinals_are_rejected() {
    assert_eq!(parse_ordinal(""), None);
    assert_eq!(parse_ordinal("+"), None);
    assert_eq!(parse_ordinal("-1"), None);
    assert_eq!(parse_ordinal("1a"), None);
    assert_eq!(parse_ordinal(" 1"), None);
    assert_eq!(parse_ordinal("++1"), None);
    assert_eq!(parse_ordinal("１"), None);
    let too_big = format!("{}0", usize::MAX);
    assert_eq!(parse_ordinal(&too_big), None);
}

#[test]
fn names_round_trip() {
    for n in [0usize, 1, 9, 10, 99, 100, 65535, usize::MAX / 3, usize::MAX] {
        assert_eq!(parse_ordinal(&chunk_name(n)), Some(n));
    }
}

#[test]
fn parsing_agrees_with_std() {
    for s in ["12", "+12", "0012", "", "+", "x", "1_0", "99999999999999999999999"] {
        assert_eq!(parse_ordinal(s), s.parse::<usize>().ok());
    }
}
