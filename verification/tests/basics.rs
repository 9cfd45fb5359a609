use cloakroom::file_path::FilePath;
use cloakroom::number::{parse_number_32, write_decimal};
use cloakroom::order::{sort_names, text_precedes};
use cloakroom::profiles::{Profile, Profiles};
use cloakroom::text::{
    before, contains_text, is_white_space, join, same_text, split_bytes, split_once, strip_prefix,
    strip_suffix, trim, trim_end,
};

#[test]
fn numbers_are_written_and_read_as_std_does() {
    for n in [0u64, 9, 10, 99, 100, 12345, u64::MAX] {
        assert_eq!(write_decimal(n), n.to_string());
    }
    for text in ["0", "007", "+5", "", "+", "-1", "4294967295", "4294967296", "1x", "\u{660}", "++1"] {
        assert_eq!(parse_number_32(text), text.parse::<u32>().ok(), "{text:?}");
    }
}

#[test]
fn white_space_is_what_std_says() {
    for code in 0..0x3100u32 {
        if let Some(c) = char::from_u32(code) {
            assert_eq!(is_white_space(c), c.is_whitespace(), "{code:x}");
        }
    }
}

#[test]
fn text_operations_agree_with_std() {
    for text in ["", " ", "a", " a b\t", "\u{3000}x\n", "a.b.c", ".", "ab", "\u{e9}.\u{e8}"] {
        assert_eq!(trim(text), text.trim());
        assert_eq!(trim_end(text), text.trim_end());
        assert_eq!(split_once(text, '.'), text.split_once('.'));
        assert_eq!(before(text, '.'), text.split('.').next().unwrap());
        for other in ["", "a", ".", "b", "\u{e9}", "a.b.c.d"] {
            assert_eq!(strip_prefix(text, other), text.strip_prefix(other));
            assert_eq!(strip_suffix(text, other), text.strip_suffix(other));
            assert_eq!(contains_text(text, other), text.contains(other));
            assert_eq!(same_text(text, other), text == other);
            assert_eq!(text_precedes(text, other), text < other);
        }
    }
    for bytes in [&b""[..], b"\0", b"a\0\0b", b"\0a"] {
        let expected: Vec<&[u8]> = bytes.split(|byte| *byte == 0).collect();
        assert_eq!(split_bytes(bytes, 0), expected);
    }
    let list = vec!["a".to_owned(), "b".to_owned(), "a".to_owned()];
    assert_eq!(join(&list, ", "), "a, b, a");
    assert_eq!(join(&Vec::new(), ", "), "");
    assert_eq!(sort_names(list), vec!["a", "a", "b"]);
}

#[test]
fn sorted_maps_keep_one_value_per_key_in_order() {
    let profile = |name: &str| Profile {
        name: name.to_owned(),
        email: "e@x".to_owned(),
    };
    let mut map = Profiles::new();
    assert!(map.is_empty());
    map.insert("b".to_owned(), profile("one"));
    map.insert("a".to_owned(), profile("two"));
    map.insert("b".to_owned(), profile("three"));
    assert_eq!(map.len(), 2);
    assert_eq!(map.key_at(0), "a");
    assert_eq!(map.value_at(1).name, "three");
    assert!(map.contains_key("a") && !map.contains_key("c"));
    assert_eq!(map.get("a").unwrap().name, "two");
    assert!(map.get("").is_none());
}

#[test]
fn paths_that_are_not_text_are_shown_repaired() {
    let path = FilePath {
        bytes: b"/a\xff".to_vec(),
    };
    assert_eq!(path.display(), "/a\u{fffd}");
    assert_eq!(path.to_text(), None);
    assert_eq!(FilePath::from_text("/\u{e9}").to_text().unwrap(), "/\u{e9}");
    assert!(path.copy().is_same(&path));
}
