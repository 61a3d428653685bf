use ducc::Ducc;

#[test]
fn string_compare() {
    let mut ducc = Ducc::new();
    let s = ducc.create_string("test").unwrap();
    assert_eq!(s.as_bytes(&ducc), b"test".to_vec());
    assert_eq!(s.to_string(&ducc).unwrap(), "test".to_string());
    assert_eq!(s.as_bytes_with_nul(&ducc), b"test\0".to_vec());
}

#[test]
fn string_round_trips_supplementary_text() {
    let mut ducc = Ducc::new();
    let text = "a\u{10401}b";
    let s = ducc.create_string(text).unwrap();
    assert_eq!(s.to_string(&ducc).unwrap(), text.to_string());
    // The engine's internal encoding differs from the host's for
    // supplementary characters: the byte form is longer than the host's.
    assert_eq!(s.as_bytes(&ducc).len(), 8);
}

#[test]
fn interior_terminator_is_ordinary_content() {
    // The engine stores strings with their length, so a terminator byte
    // inside the text is content like any other and round-trips.
    let mut ducc = Ducc::new();
    let s = ducc.create_string("a\0b").unwrap();
    assert_eq!(s.as_bytes(&ducc), b"a\0b".to_vec());
    assert_eq!(s.to_string(&ducc).unwrap(), "a\0b".to_string());
}
