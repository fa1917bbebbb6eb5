use gen3d_ai::openai::base64::base64_encode;
use gen3d_ai::parse::tokens::{normalize_descriptor_tag, normalize_snake_case_token};
use gen3d_ai::text::{
    contains_str, decimal_string, lex_less, lower_chars, sort_distinct_strings, trim_str,
};

#[test]
fn base64_matches_the_standard_alphabet() {
    assert_eq!(base64_encode(b""), "");
    assert_eq!(base64_encode(b"f"), "Zg==");
    assert_eq!(base64_encode(b"fo"), "Zm8=");
    assert_eq!(base64_encode(b"foo"), "Zm9v");
    assert_eq!(base64_encode(b"foobar"), "Zm9vYmFy");
    assert_eq!(base64_encode(&[0xfb, 0xff]), "+/8=");
}

#[test]
fn snake_case_tokens() {
    assert_eq!(normalize_snake_case_token("  Walk Cycle - Fast "), "walk_cycle_fast");
    assert_eq!(normalize_snake_case_token("a__b"), "a_b");
    assert_eq!(normalize_snake_case_token(""), "");
}

#[test]
fn descriptor_tags() {
    assert_eq!(normalize_descriptor_tag("Voxel Art"), "voxel_art");
    assert_eq!(normalize_descriptor_tag("cute!!"), "cute");
    assert_eq!(normalize_descriptor_tag("__Sci-Fi  Robot__"), "sci_fi_robot");
    assert_eq!(normalize_descriptor_tag("日本"), "");
}

#[test]
fn text_helpers() {
    assert_eq!(trim_str("\u{3000} x \t"), "x");
    assert_eq!(decimal_string(0), "0");
    assert_eq!(decimal_string(1234567890), "1234567890");
    let cs: Vec<char> = "AbC".chars().collect();
    assert_eq!(lower_chars(&cs), vec!['a', 'b', 'c']);
    let hay: Vec<char> = "stream must be true".chars().collect();
    assert!(contains_str(&hay, "must"));
    assert!(!contains_str(&hay, "false"));
}

#[test]
fn lexical_order_and_sorting() {
    assert!(lex_less(&"ab".to_string(), &"b".to_string()));
    assert!(lex_less(&"a".to_string(), &"ab".to_string()));
    assert!(!lex_less(&"b".to_string(), &"b".to_string()));
    assert!(lex_less(&"Z".to_string(), &"a".to_string()));
    let v: Vec<String> = ["pear", "apple", "pear", "fig", "apple"].iter().map(|s| s.to_string()).collect();
    assert_eq!(sort_distinct_strings(v), vec!["apple", "fig", "pear"]);
}

#[test]
fn descriptor_tags_normalize_once() {
    for raw in ["Voxel Art", "cute!!", "Rabbit", "", "__a--b  c__", "Ünïcode tag"] {
        let t = normalize_descriptor_tag(raw);
        assert_eq!(normalize_descriptor_tag(&t), t);
    }
    assert_eq!(normalize_descriptor_tag("Voxel Art"), "voxel_art");
    assert_eq!(normalize_descriptor_tag("cute!!"), "cute");
}
