use regex_anre::utf8_codepoint_reader::{next_codepoint, previous_codepoint};

#[test]
fn test_next_codepoint() {
    let data = "a文b😋c".bytes().collect::<Vec<u8>>();
    let data_ref = &data[..];

    assert_eq!(next_codepoint(data_ref, 0), ('a' as u32, 1));
    assert_eq!(next_codepoint(data_ref, 1), ('文' as u32, 3));
    assert_eq!(next_codepoint(data_ref, 4), ('b' as u32, 1));
    assert_eq!(next_codepoint(data_ref, 5), ('😋' as u32, 4));
    assert_eq!(next_codepoint(data_ref, 9), ('c' as u32, 1));
}

#[test]
fn test_previous_codepoint() {
    let data = "a文b😋c".bytes().collect::<Vec<u8>>();
    let data_ref = &data[..];

    assert_eq!(previous_codepoint(data_ref, 1), ('a' as u32, 1));
    assert_eq!(previous_codepoint(data_ref, 4), ('文' as u32, 3));
    assert_eq!(previous_codepoint(data_ref, 5), ('b' as u32, 1));
    assert_eq!(previous_codepoint(data_ref, 9), ('😋' as u32, 4));
    assert_eq!(previous_codepoint(data_ref, 10), ('c' as u32, 1));
}

#[test]
fn test_next_codepoint_continuation_byte_is_read_raw() {
    let data = [0b1000_0001u8, b'a'];
    assert_eq!(next_codepoint(&data, 0), (0b1000_0001, 1));
}

#[test]
fn test_previous_undoes_next() {
    let data = "x✨y".bytes().collect::<Vec<u8>>();
    let (code, length) = next_codepoint(&data, 1);
    assert_eq!(previous_codepoint(&data, 1 + length), (code, length));
}
