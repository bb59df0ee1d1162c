use exchange::rfc3986::{
    is_gen_delim, is_pct_encoded_start, is_reserved, is_sub_delim, is_unreserved,
};
use exchange::uri_serde::UriSerde;

#[test]
fn unreserved_characters() {
    for c in "azAZ09-._~".chars() {
        assert!(is_unreserved(c), "{c}");
    }
    for c in "!:/?#[]@%é {".chars() {
        assert!(!is_unreserved(c), "{c}");
    }
}

#[test]
fn delimiters() {
    for c in "!$&'()*+,;=".chars() {
        assert!(is_sub_delim(c), "{c}");
        assert!(!is_gen_delim(c), "{c}");
        assert!(is_reserved(c), "{c}");
    }
    for c in ":/?#[]@".chars() {
        assert!(is_gen_delim(c), "{c}");
        assert!(!is_sub_delim(c), "{c}");
        assert!(is_reserved(c), "{c}");
    }
    assert!(!is_reserved('a'));
    assert!(!is_reserved('%'));
    assert!(!is_sub_delim('"'));
}

#[test]
fn percent_opens_a_triplet() {
    assert!(is_pct_encoded_start('%'));
    assert!(!is_pct_encoded_start('2'));
}

#[test]
fn classes_are_disjoint() {
    for code in 0..0x250u32 {
        let c = char::from_u32(code).unwrap();
        assert!(!(is_unreserved(c) && is_reserved(c)));
        assert!(!(is_gen_delim(c) && is_sub_delim(c)));
    }
}

#[test]
fn component_characters() {
    assert!(UriSerde::is_userinfo_char(':'));
    assert!(!UriSerde::is_userinfo_char('@'));
    assert!(UriSerde::is_path_char('@'));
    assert!(UriSerde::is_path_char('/'));
    assert!(!UriSerde::is_path_char('?'));
    assert!(UriSerde::is_query_or_fragment_char('?'));
    assert!(!UriSerde::is_query_or_fragment_char('#'));
    assert!(UriSerde::is_reg_name_char('%'));
    assert!(!UriSerde::is_reg_name_char(':'));
}
