use youtube_viewcount_logger_rust::number::parse_i64;
use youtube_viewcount_logger_rust::registry::is_group_name;
use youtube_viewcount_logger_rust::profile::{
    hex, picture_hash, profile_from_fields, read_profile, read_profile_fields, Profile,
    ProfileError, ProfileFields,
};
use youtube_viewcount_logger_rust::scan::{detect_json_end, embedded_json};
use youtube_viewcount_logger_rust::sql::quote;
use youtube_viewcount_logger_rust::text::{chars_of, find, string_of};

#[test]
fn json_end_is_the_first_unpaired_closing_brace() {
    assert_eq!(detect_json_end("\"a\":1}".to_string()), Some(5));
    assert_eq!(detect_json_end("\"a\":{\"b\":{}},\"c\":2} tail }".to_string()), Some(18));
    assert_eq!(detect_json_end("}".to_string()), Some(0));
}

#[test]
fn json_end_is_none_when_every_brace_is_paired() {
    assert_eq!(detect_json_end(String::new()), None);
    assert_eq!(detect_json_end("{}{{}}".to_string()), None);
    assert_eq!(detect_json_end("{{{".to_string()), None);
    assert_eq!(detect_json_end("no braces".to_string()), None);
}

#[test]
fn json_end_counts_characters_not_bytes() {
    assert_eq!(detect_json_end("\"名\":\"曲\"}".to_string()), Some(7));
}

#[test]
fn parse_i64_reads_signed_decimals() {
    assert_eq!(parse_i64("0"), Some(0));
    assert_eq!(parse_i64("123456"), Some(123456));
    assert_eq!(parse_i64("+42"), Some(42));
    assert_eq!(parse_i64("-42"), Some(-42));
    assert_eq!(parse_i64("007"), Some(7));
    assert_eq!(parse_i64("9223372036854775807"), Some(i64::MAX));
    assert_eq!(parse_i64("-9223372036854775808"), Some(i64::MIN));
}

#[test]
fn parse_i64_refuses_anything_else() {
    assert_eq!(parse_i64(""), None);
    assert_eq!(parse_i64("+"), None);
    assert_eq!(parse_i64("-"), None);
    assert_eq!(parse_i64("12a"), None);
    assert_eq!(parse_i64(" 12"), None);
    assert_eq!(parse_i64("1 2"), None);
    assert_eq!(parse_i64("--1"), None);
    assert_eq!(parse_i64("1.5"), None);
    assert_eq!(parse_i64("9223372036854775808"), None);
    assert_eq!(parse_i64("-9223372036854775809"), None);
    assert_eq!(parse_i64("99999999999999999999999"), None);
}

#[test]
fn parse_i64_agrees_with_the_standard_parser() {
    for text in ["5", "-5", "+5", "", "x", "18446744073709551616", "0000", "-0"] {
        assert_eq!(parse_i64(text), text.parse::<i64>().ok());
    }
}

#[test]
fn quote_doubles_the_mark_inside() {
    assert_eq!(quote("abc", '"'), "\"abc\"");
    assert_eq!(quote("", '"'), "\"\"");
    assert_eq!(quote("a\"b", '"'), "\"a\"\"b\"");
    assert_eq!(quote("\"", '"'), "\"\"\"\"");
    assert_eq!(quote("it's", '\''), "'it''s'");
    assert_eq!(quote("it's", '"'), "\"it's\"");
}

#[test]
fn chars_of_keeps_every_character() {
    assert_eq!(chars_of("aé名"), vec!['a', 'é', '名']);
    assert_eq!(chars_of(""), Vec::<char>::new());
}

#[test]
fn system_tables_are_no_groups() {
    assert!(!is_group_name("__title__"));
    assert!(!is_group_name("__source__"));
    assert!(!is_group_name("__"));
    assert!(!is_group_name("___"));
    assert!(is_group_name("_"));
    assert!(is_group_name(""));
    assert!(is_group_name("__title"));
    assert!(is_group_name("title__"));
    assert!(is_group_name("Some Group"));
}

#[test]
fn find_gives_the_first_occurrence() {
    let text = chars_of("abcabcabd");
    assert_eq!(find(&text, &chars_of("abd")), Some(6));
    assert_eq!(find(&text, &chars_of("abc")), Some(0));
    assert_eq!(find(&text, &chars_of("bc")), Some(1));
    assert_eq!(find(&text, &chars_of("")), Some(0));
    assert_eq!(find(&text, &chars_of("abx")), None);
    assert_eq!(find(&text, &chars_of("abcabcabdx")), None);
    assert_eq!(find(&chars_of(""), &chars_of("")), Some(0));
}

#[test]
fn string_of_copies_a_range() {
    let text = chars_of("héllo");
    assert_eq!(string_of(&text, 1, 4), "éll");
    assert_eq!(string_of(&text, 2, 2), "");
    assert_eq!(string_of(&text, 0, 5), "héllo");
}

#[test]
fn embedded_json_is_cut_out_of_the_page() {
    let page = r#"<script>x({"gated":false,"contextJSON":"{\"context\":{\"a\":{}}}"});</script>"#;
    assert_eq!(embedded_json(page), Some(r#"{\"context\":{\"a\":{}}}"#.to_string()));
}

#[test]
fn page_without_embedded_json_gives_none() {
    assert_eq!(embedded_json(""), None);
    assert_eq!(embedded_json("no marker here }"), None);
    assert_eq!(embedded_json("contextJSON"), None);
    assert_eq!(embedded_json("contextJSON\":"), None);
    assert_eq!(embedded_json(r#"contextJSON":"{\"a\":1"#), None);
    assert_eq!(embedded_json(r#"contextJSON":"}"#), None);
    assert_eq!(embedded_json(r#"contextJSON":""}"#), Some(String::new()));
}

const PAGE: &str = r#"<html>s.handle({"contextJSON":"{\"context\":{\"followers_count\":1234,\"full_name\":\"Some \\\"One\\\" \\u3042\",\"profile_pic_url\":\"https:\\\/\\\/example.com\\\/p.jpg\",\"posts_count\":56}}"});</html>"#;

#[test]
fn profile_is_read_from_the_page() {
    assert_eq!(
        read_profile(PAGE),
        Ok(Profile {
            followers_count: 1234,
            full_name: "Some \"One\" あ".to_string(),
            profile_pic_url: "https://example.com/p.jpg".to_string(),
            posts_count: 56,
        })
    );
}

#[test]
fn page_that_gives_no_profile_names_the_reason() {
    assert_eq!(read_profile("<html></html>"), Err(ProfileError::NoEmbeddedJson));
    assert_eq!(read_profile(r#"contextJSON":"{\u12}"}"#), Err(ProfileError::BadEscape));
    assert_eq!(read_profile(r#"contextJSON":"{oops}"}"#), Err(ProfileError::NotJson));
    assert_eq!(
        read_profile(r#"contextJSON":"{\"context\":{}}"}"#),
        Err(ProfileError::NoFollowersCount)
    );
    assert_eq!(
        read_profile(r#"contextJSON":"{\"context\":{\"followers_count\":-1}}"}"#),
        Err(ProfileError::NoFollowersCount)
    );
    assert_eq!(
        read_profile(r#"contextJSON":"{\"context\":{\"followers_count\":1}}"}"#),
        Err(ProfileError::NoFullName)
    );
    assert_eq!(
        read_profile(r#"contextJSON":"{\"context\":{\"followers_count\":1,\"full_name\":\"n\"}}"}"#),
        Err(ProfileError::NoProfilePicUrl)
    );
    assert_eq!(
        read_profile(
            r#"contextJSON":"{\"context\":{\"followers_count\":1,\"full_name\":\"n\",\"profile_pic_url\":\"u\"}}"}"#
        ),
        Err(ProfileError::NoPostsCount)
    );
}

#[test]
fn profile_fields_show_what_was_found() {
    let fields = read_profile_fields(r#"{"context":{"full_name":"n","posts_count":3}}"#).unwrap();
    assert_eq!(
        fields,
        ProfileFields {
            followers_count: None,
            full_name: Some("n".to_string()),
            profile_pic_url: None,
            posts_count: Some(3),
        }
    );
    assert_eq!(profile_from_fields(fields), Err(ProfileError::NoFollowersCount));
    assert_eq!(read_profile_fields("nope"), None);
}

#[test]
fn hex_writes_two_digits_per_byte() {
    assert_eq!(hex(&vec![]), "");
    assert_eq!(hex(&vec![0x00, 0x0f, 0xa0, 0xff, 0x5c]), "000fa0ff5c");
}

#[test]
fn picture_hash_is_the_sha256_digest_in_hex() {
    assert_eq!(
        picture_hash(&vec![]),
        "e3b0c44298fc1c149afbf4c8996fb92427ae41e4649b934ca495991b7852b855"
    );
    assert_eq!(
        picture_hash(&b"abc".to_vec()),
        "ba7816bf8f01cfea414140de5dae2223b00361a396177a9cb410ff61f20015ad"
    );
}
