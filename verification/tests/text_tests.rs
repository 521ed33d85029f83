use rustchan::author::generate_author_id;
use rustchan::text::{
    chars_of, contains, decimal_string, encode_text, format_content, format_content_lines, is_blank,
    normalize_newlines, same_text, split_on_newlines, str_slice, string_of, text_less,
};

#[test]
fn encode_text_escapes_the_five_markup_chars() {
    assert_eq!(
        encode_text("<a href='x'>&\"</a>"),
        "&lt;a href=&#39;x&#39;&gt;&amp;&quot;&lt;/a&gt;"
    );
}

#[test]
fn encode_text_keeps_other_text() {
    assert_eq!(encode_text("héllo wörld 123"), "héllo wörld 123");
    assert_eq!(encode_text(""), "");
}

#[test]
fn escaped_text_has_no_markup_chars() {
    let out = encode_text("<<>>\"'\"'&");
    assert!(!out.contains('<'));
    assert!(!out.contains('>'));
    assert!(!out.contains('"'));
    assert!(!out.contains('\''));
}

#[test]
fn crlf_becomes_lf() {
    let v = normalize_newlines(&chars_of("a\r\nb\r\r\nc\n"));
    assert_eq!(string_of(&v), "a\nb\r\nc\n");
}

#[test]
fn split_on_newlines_keeps_empty_pieces() {
    let lines = split_on_newlines(&chars_of("a\n\nb\n"));
    let texts: Vec<String> = lines.iter().map(|l| string_of(l)).collect();
    assert_eq!(texts, vec!["a".to_string(), "".to_string(), "b".to_string(), "".to_string()]);
    assert_eq!(split_on_newlines(&chars_of("")).len(), 1);
}

#[test]
fn content_lines_are_joined_with_br() {
    assert_eq!(format_content_lines("hi\r\nthere\nyou"), "hi<br>there<br>you");
}

#[test]
fn quoted_lines_do_not_become_greentext() {
    assert_eq!(format_content_lines(">be me\n>post"), "&gt;be me<br>&gt;post");
}

#[test]
fn quote_references_become_links() {
    assert_eq!(
        format_content(">>12 ok").unwrap(),
        "<a href=\"#p12\" class=\"quote-link\">&gt;&gt;12</a> ok"
    );
}

#[test]
fn two_quote_references_both_become_links() {
    assert_eq!(
        format_content(">>1\n>>22").unwrap(),
        "<a href=\"#p1\" class=\"quote-link\">&gt;&gt;1</a><br><a href=\"#p22\" class=\"quote-link\">&gt;&gt;22</a>"
    );
}

#[test]
fn text_without_references_is_only_escaped() {
    assert_eq!(format_content("a < b").unwrap(), "a &lt; b");
    assert_eq!(format_content(">>x").unwrap(), "&gt;&gt;x");
}

#[test]
fn blank_text_is_white_space_only() {
    assert!(is_blank(""));
    assert!(is_blank(" \t\r\n"));
    assert!(is_blank("\u{3000}\u{00a0}"));
    assert!(!is_blank("  a  "));
}

#[test]
fn contains_finds_substrings() {
    assert!(contains("x=1; admin_session=abc", "admin_session="));
    assert!(!contains("admin_sessio", "admin_session="));
    assert!(contains("abc", ""));
    assert!(contains("", ""));
}

#[test]
fn decimal_string_writes_integers() {
    assert_eq!(decimal_string(0), "0");
    assert_eq!(decimal_string(42), "42");
    assert_eq!(decimal_string(-7), "-7");
    assert_eq!(decimal_string(i64::MAX), i64::MAX.to_string());
    assert_eq!(decimal_string(i64::MIN), i64::MIN.to_string());
}

#[test]
fn text_order_is_code_point_order() {
    assert!(text_less(&chars_of("a"), &chars_of("b")));
    assert!(text_less(&chars_of("po"), &chars_of("pol")));
    assert!(!text_less(&chars_of("pol"), &chars_of("po")));
    assert!(!text_less(&chars_of("g"), &chars_of("g")));
    assert!(text_less(&chars_of("Z"), &chars_of("a")));
}

#[test]
fn same_text_compares_chars() {
    assert!(same_text("admin123", "admin123"));
    assert!(!same_text("admin123", "admin1234"));
}

#[test]
fn author_id_is_hashed_from_ip_and_board() {
    assert_eq!(generate_author_id("127.0.0.1", "b"), "44abd7c30e13c97d");
    assert_eq!(generate_author_id("127.0.0.1", "g"), "922fcc5a908c15b7");
    assert_eq!(generate_author_id("127.0.0.1", ""), "702c5ca2236b7ed8");
}

#[test]
fn author_id_is_sixteen_hex_digits() {
    let id = generate_author_id("10.0.0.1", "pol");
    assert_eq!(id.len(), 16);
    assert!(id.chars().all(|c| c.is_ascii_hexdigit() && !c.is_ascii_uppercase()));
    assert_eq!(id, generate_author_id("10.0.0.1", "pol"));
}

#[test]
fn str_slice_cuts_at_a_byte_length() {
    assert_eq!(str_slice("hello world", Some(5)), Some("hello".to_string()));
    assert_eq!(str_slice("hello", Some(50)), Some("hello".to_string()));
    assert_eq!(str_slice("hello", Some(-1)), Some("hello".to_string()));
    assert_eq!(str_slice("hello", None), Some("hello".to_string()));
    assert_eq!(str_slice("hello", Some(0)), Some(String::new()));
    assert_eq!(str_slice("héllo", Some(3)), Some("hé".to_string()));
    assert_eq!(str_slice("héllo", Some(2)), None);
}

#[test]
fn escaping_keeps_different_texts_apart() {
    assert_ne!(encode_text("&lt;"), encode_text("<"));
    assert_eq!(encode_text("&lt;"), "&amp;lt;");
    assert_eq!(encode_text("<"), "&lt;");
    assert_ne!(encode_text("&#39;"), encode_text("'"));
}

#[test]
fn each_line_break_becomes_one_br_and_user_tags_stay_text() {
    let html = format_content_lines("<b>x</b>\r\n\n<i>");
    assert_eq!(html, "&lt;b&gt;x&lt;/b&gt;<br><br>&lt;i&gt;");
    assert_eq!(html.matches("<br>").count(), 2);
    assert_eq!(html.matches('<').count(), 2);
}
