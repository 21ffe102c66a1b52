use cabal_runtime::digest::{sha256_text, to_hex};
use cabal_runtime::json::{of_members, of_texts, parse, put, Json};
use cabal_runtime::order::order;
use cabal_runtime::path::{
    are_alike, is_absolute, is_descending, is_within, join, platform_of, relative_to, Platform,
};
use cabal_runtime::sorted::insert;
use cabal_runtime::text::{
    bound, contains, count_bytes, file_name, find, find_last, lines, parse_number, replace, split,
    split_once, to_lower, trim, words,
};
use cabal_runtime::xml::{read_document, XmlEvent};

fn chars(text: &str) -> Vec<char> {
    text.chars().collect()
}

fn strings(pieces: &[&[char]]) -> Vec<String> {
    pieces.iter().map(|piece| piece.iter().collect()).collect()
}

#[test]
fn digests_are_written_in_hexadecimal() {
    assert_eq!(to_hex(&[0x00, 0xab, 0xff]), "00abff");
    assert_eq!(
        sha256_text("".as_bytes()),
        "e3b0c44298fc1c149afbf4c8996fb92427ae41e4649b934ca495991b7852b855"
    );
}

#[test]
fn values_are_read_and_written_alike() {
    let raw = "{\"b\":[1,-2,3.5,null,true],\"a\":\"x\\n\\u00e9\\\"\"}";
    let value = parse(raw.as_bytes()).unwrap();
    assert_eq!(value.get_str("a"), Some("x\n\u{e9}\""));
    let items = value.get_array("b").unwrap();
    assert_eq!(items[0].as_u64(), Some(1));
    assert_eq!(items[1].as_i64(), Some(-2));
    assert_eq!(items[1].as_u64(), None);
    assert_eq!(items[2].as_i64(), None);
    assert_eq!(items[4].as_bool(), Some(true));
    assert_eq!(
        value.to_text(),
        "{\"a\":\"x\\n\u{e9}\\\"\",\"b\":[1,-2,3.5,null,true]}"
    );
    let theirs = serde_json::from_str::<serde_json::Value>(raw).unwrap();
    assert_eq!(value.to_text(), serde_json::to_string(&theirs).unwrap());
    assert!(parse("{".as_bytes()).is_err());
    let mut members = Vec::new();
    put(&mut members, "list", of_texts(&vec!["a".to_owned()]));
    put(&mut members, "none", Json::Null);
    assert_eq!(of_members(members).to_text(), "{\"list\":[\"a\"],\"none\":null}");
}

#[test]
fn texts_are_taken_apart() {
    assert_eq!(strings(&lines(&chars("a\r\nb\n\nc"))), ["a", "b", "", "c"]);
    assert_eq!(strings(&words(&chars("  a\tb  c "))), ["a", "b", "c"]);
    assert_eq!(strings(&split(&chars("a//b"), '/')), ["a", "", "b"]);
    assert_eq!(trim(&chars(" \u{a0}x ")), ['x']);
    assert_eq!(find(&chars("banana"), &chars("an")), Some(1));
    assert_eq!(find_last(&chars("banana"), &chars("an")), Some(3));
    assert!(contains(&chars("banana"), "nan"));
    let pair = chars("k=v=w");
    let (key, value) = split_once(&pair, "=").unwrap();
    assert_eq!((key, value), (&pair[..1], &pair[2..]));
    assert_eq!(parse_number(&chars("18446744073709551615")), Some(u64::MAX));
    assert_eq!(parse_number(&chars("18446744073709551616")), None);
    assert_eq!(parse_number(&chars("+7")), Some(7));
    assert_eq!(parse_number(&chars("")), None);
    assert_eq!(to_lower(&chars("AbÉ")), chars("abÉ"));
    assert_eq!(replace(&chars("it's"), '\'', "''"), chars("it''s"));
    assert_eq!(file_name(&chars("a/b.rs")), ['b', '.', 'r', 's']);
}

#[test]
fn bounds_cut_between_characters() {
    assert_eq!(count_bytes("юникод"), 12);
    assert_eq!(bound("юникод", 5), "юн");
    assert_eq!(bound("short", 5), "short");
}

#[test]
fn paths_are_compared_part_by_part() {
    assert_eq!(join("/a", "b"), "/a/b");
    assert_eq!(join("/a/", "b"), "/a/b");
    assert_eq!(join("/a", "/b"), "/b");
    assert!(is_within("/a/b", "/a"));
    assert!(!is_within("/ab", "/a"));
    assert_eq!(relative_to("/a/b/c", "/a").as_deref(), Some("b/c"));
    assert_eq!(relative_to("/x", "/a"), None);
}

#[test]
fn lists_are_kept_in_order() {
    assert_eq!(order(&vec![3, 1, 2, 1]), [1, 3, 2, 0]);
    let mut list = Vec::new();
    for item in ["b", "a", "c", "a"] {
        insert(&mut list, item.to_owned());
    }
    assert_eq!(list.first().map(String::as_str), Some("a"));
    assert_eq!(list.last().map(String::as_str), Some("c"));
}

#[test]
fn documents_are_read_as_events() {
    let events = read_document("<a k=\"1 &amp; 2\"><b/> x &lt; y </a>".as_bytes());
    let XmlEvent::Start(start) = &events[0] else {
        panic!("expected an opening tag");
    };
    assert_eq!(start.attribute("k").as_deref(), Some("1 & 2"));
    assert!(matches!(&events[1], XmlEvent::Empty(_)));
    let XmlEvent::Text(text) = &events[2] else {
        panic!("expected a text");
    };
    assert_eq!(text.unescaped.as_deref(), Some("x < y"));
    assert!(matches!(&events[3], XmlEvent::End(_)));
    assert!(matches!(&events[4], XmlEvent::Eof));
    let broken = read_document("<a></b>".as_bytes());
    assert!(matches!(broken.last(), Some(XmlEvent::Failed(_))));
}

#[test]
fn roots_show_their_platform() {
    assert_eq!(platform_of("/w"), Platform::Posix);
    assert_eq!(platform_of("w"), Platform::Posix);
    assert_eq!(platform_of("C:\\w"), Platform::Windows);
    assert_eq!(platform_of("\\\\?\\C:\\w"), Platform::Windows);
    assert_eq!(platform_of("\\\\host\\share"), Platform::Windows);
    assert!(is_absolute("/a", Platform::Posix));
    assert!(!is_absolute("\\a", Platform::Windows));
    assert!(!is_absolute("C:a", Platform::Windows));
    assert!(is_absolute("C:/a", Platform::Windows));
    assert!(is_descending("a/./b", Platform::Posix));
    assert!(!is_descending("a\\..", Platform::Windows));
    assert!(is_descending("a\\..", Platform::Posix));
}

#[test]
fn windows_paths_are_joined_and_compared() {
    assert_eq!(join("C:\\w", "a"), "C:\\w\\a");
    assert_eq!(join("C:\\", "a"), "C:\\a");
    assert_eq!(join("C:\\w", "D:\\x"), "D:\\x");
    assert_eq!(join("C:\\w", "\\x"), "C:\\x");
    assert_eq!(join("\\\\host\\share\\w", "\\x"), "\\\\host\\share\\x");
    assert_eq!(
        join("\\\\?\\C:\\w\\sub", "../main/./x"),
        "\\\\?\\C:\\w\\main\\x"
    );
    assert_eq!(join("\\\\?\\C:\\w", "../../x"), "\\\\?\\C:\\x");
    assert_eq!(join("\\\\?\\C:\\w", "/x"), "\\\\?\\C:\\x");
    assert_eq!(
        join("\\\\?\\UNC\\host\\share\\w", "..\\..\\x"),
        "\\\\?\\UNC\\host\\share\\x"
    );
    assert!(is_within("C:\\w\\a", "C:\\w"));
    assert!(!is_within("C:\\wide", "C:\\w"));
    assert_eq!(relative_to("C:\\w\\a\\b", "C:\\w").as_deref(), Some("a\\b"));
}

#[test]
fn paths_are_compared_by_their_parts() {
    assert_eq!(relative_to("/w/src/a.rs", "/w/.").as_deref(), Some("src/a.rs"));
    assert_eq!(relative_to("/w/src/a.rs", "/w//").as_deref(), Some("src/a.rs"));
    assert_eq!(relative_to("/g//x", "/g").as_deref(), Some("x"));
    assert_eq!(relative_to("/g/./x//y/./", "/g").as_deref(), Some("x//y"));
    assert_eq!(relative_to("/w/", "/w").as_deref(), Some(""));
    assert_eq!(relative_to("./a", "a"), None);
    assert_eq!(relative_to("./a/b", "./a").as_deref(), Some("b"));
    assert_eq!(relative_to("/a/b/", "").as_deref(), Some("/a/b"));
    assert_eq!(relative_to("a", "/a"), None);
    assert!(is_within("/w/./a", "/w"));
    assert!(!is_within("/w/..", "/w/.a"));
    assert!(are_alike("/w/./a/", "/w//a"));
    assert!(!are_alike("/w/a", "/w"));
    assert!(are_alike("c:\\w", "C:\\w"));
}

#[test]
fn strings_are_escaped_as_they_are_elsewhere() {
    let text = "a\"b\\c/\u{0}\u{1}\u{8}\t\n\u{b}\u{c}\r\u{1f} \u{7f}\u{e9}\u{2028}";
    let written = Json::Text(text.to_owned()).to_text();
    assert_eq!(
        written,
        "\"a\\\"b\\\\c/\\u0000\\u0001\\b\\t\\n\\u000b\\f\\r\\u001f \u{7f}\u{e9}\u{2028}\""
    );
    assert_eq!(written, serde_json::to_string(text).unwrap());
}
