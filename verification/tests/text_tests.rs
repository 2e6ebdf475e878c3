use base64::Engine;
use eleutheria_telos::media::decode_printed_picture;
use eleutheria_telos::paths::join;
use eleutheria_telos::text::{
    contains_str, first_line, html_escape, like_escape, parse_usize, prefix_chars, replace_str,
    truncate_bytes,
};

#[test]
fn escaping() {
    assert_eq!(html_escape("a&b<c>\"d'"), "a&amp;b&lt;c&gt;&quot;d'");
    assert_eq!(like_escape("50%_\\"), "50\\%\\_\\\\");
}

#[test]
fn byte_truncation_keeps_characters_whole() {
    assert_eq!(truncate_bytes("héllo", 2), "h");
    assert_eq!(truncate_bytes("héllo", 3), "hé");
    assert_eq!(truncate_bytes("hi", 10), "hi");
}

#[test]
fn searching_and_replacing() {
    assert!(contains_str("hello world", "o w"));
    assert!(contains_str("x", ""));
    assert!(!contains_str("hello", "world"));
    assert_eq!(replace_str("aaa", "aa", "b"), "ba");
    assert_eq!(replace_str("a\\nb", "\\n", "\n"), "a\nb");
    assert_eq!(first_line("one\r\ntwo"), Some("one".to_string()));
    assert_eq!(first_line(""), None);
    assert_eq!(prefix_chars("héllo", 2), "hé");
}

#[test]
fn numbers_parse_like_std() {
    assert_eq!(parse_usize("42"), Some(42));
    assert_eq!(parse_usize("+7"), Some(7));
    assert_eq!(parse_usize("-1"), None);
    assert_eq!(parse_usize(""), None);
    assert_eq!(parse_usize("+"), None);
    assert_eq!(parse_usize(" 1"), None);
    assert_eq!(parse_usize("99999999999999999999999"), None);
}

#[test]
fn printed_pictures_decode_from_base64() {
    assert_eq!(decode_printed_picture("aGk="), Ok(b"hi".to_vec()));
    assert_eq!(decode_printed_picture("YWJj"), Ok(b"abc".to_vec()));
    assert_eq!(decode_printed_picture(""), Ok(Vec::new()));
    assert!(decode_printed_picture("YWJ").is_err());
    assert!(decode_printed_picture("aGl=").is_err());
}

#[test]
fn joining_paths() {
    assert_eq!(join("/a", "b"), "/a/b");
    assert_eq!(join("/a/", "b"), "/a/b");
    assert_eq!(join("", "b"), "b");
    assert_eq!(join("/a", "/abs"), "/abs");
}

#[test]
fn base64_decoding_gives_back_every_encoding() {
    let samples: Vec<Vec<u8>> = vec![vec![], vec![0], vec![255, 0], vec![1, 2, 3], (0u8..=255).collect(), vec![0xfb, 0xff, 0xbf, 0x3e]];
    for b in samples {
        let text = base64::engine::general_purpose::STANDARD.encode(&b);
        assert_eq!(decode_printed_picture(&text), Ok(b));
    }
}
