use auto_sync::bytes::{bytes_of, find, lossy_text_of, split_bytes, text_of};
use auto_sync::ipv4::{is_private_ipv4, parse_ipv4};
use auto_sync::paths::{components_of, join_path, normalize_lossy, path_starts_with};
use auto_sync::sorted::sort_set;
use auto_sync::text::{
    contains, decimal, is_before, is_whitespace, join, lines, parse_number, replace_char,
    rsplit_once, split, split_once, starts_with, strip_prefix, to_ascii_lowercase, trim,
    trim_end_matches, words,
};

#[test]
fn whitespace_is_that_of_the_standard_library() {
    for code in 0..=0x10ffffu32 {
        if let Some(c) = char::from_u32(code) {
            assert_eq!(is_whitespace(c), c.is_whitespace(), "{code:x}");
        }
    }
}

#[test]
fn texts_are_cut_like_the_standard_library_does() {
    for s in ["", " ", "a", " a b ", "a,b,,c", "\u{3000}x\u{3000}", "x\r\ny\n\nz\r", ",", "é,ü"] {
        assert_eq!(trim(s), s.trim());
        assert_eq!(split(s, ','), s.split(',').collect::<Vec<_>>());
        assert_eq!(lines(s), s.lines().collect::<Vec<_>>());
        assert_eq!(words(s), s.split_whitespace().collect::<Vec<_>>());
        assert_eq!(to_ascii_lowercase(s), s.to_ascii_lowercase());
        assert_eq!(trim_end_matches(s, ','), s.trim_end_matches(','));
        assert_eq!(replace_char(s, ',', ";"), s.replace(',', ";"));
        assert_eq!(
            split_once(s, ','),
            s.split_once(',').map(|(a, b)| (a.to_string(), b.to_string()))
        );
        assert_eq!(
            rsplit_once(s, ','),
            s.rsplit_once(',').map(|(a, b)| (a.to_string(), b.to_string()))
        );
        assert_eq!(join(&split(s, ','), ","), s);
        for t in ["", "a", " a", "é", "x\r"] {
            assert_eq!(starts_with(s, t), s.starts_with(t));
            assert_eq!(contains(s, t), s.contains(t));
            assert_eq!(strip_prefix(s, t), s.strip_prefix(t).map(str::to_string));
            assert_eq!(is_before(s, t), s < t);
        }
    }
}

#[test]
fn numbers_are_written_and_read() {
    for n in [0u64, 7, 10, 18765, u64::MAX] {
        assert_eq!(decimal(n), n.to_string());
        assert_eq!(parse_number(&n.to_string(), 10, u64::MAX), Some(n));
    }
    assert_eq!(parse_number("+5", 10, 10), Some(5));
    assert_eq!(parse_number("11", 10, 10), None);
    assert_eq!(parse_number("fF", 16, 255), Some(255));
    assert_eq!(parse_number("", 10, 10), None);
    assert_eq!(parse_number("18446744073709551616", 10, u64::MAX), None);
}

#[test]
fn bytes_and_texts_are_converted() {
    assert_eq!(bytes_of("aé"), "aé".as_bytes());
    assert_eq!(text_of("aé".as_bytes().to_vec()), Some("aé".to_string()));
    assert_eq!(text_of(vec![0xff]), None);
    assert_eq!(lossy_text_of(&vec![b'a', 0xff]), "a\u{fffd}");
    assert_eq!(lossy_text_of(&"aé".as_bytes().to_vec()), "aé");
    assert_eq!(find(&b"hay needle".to_vec(), &b"needle".to_vec()), Some(4));
    assert_eq!(find(&b"hay".to_vec(), &b"needle".to_vec()), None);
    assert_eq!(split_bytes(&b"a/b//c".to_vec(), b'/').len(), 4);
}

#[test]
fn paths_are_taken_apart() {
    assert_eq!(components_of("/a//b/./c/"), vec!["/", "a", "b", "c"]);
    assert_eq!(join_path("/a", "b"), "/a/b");
    assert_eq!(join_path("/a/", "/b"), "/b");
    assert_eq!(join_path("", "b"), "b");
    assert!(path_starts_with("/a/b", "/a"));
    assert!(!path_starts_with("/ab", "/a"));
    assert_eq!(normalize_lossy("/a//./b/"), "/a/b");
    assert_eq!(normalize_lossy("/a/../b"), "/a/../b");
}

#[test]
fn addresses_are_recognised() {
    assert_eq!(parse_ipv4("192.168.2.1"), Some((192, 168, 2, 1)));
    assert_eq!(parse_ipv4("192.168.2"), None);
    assert_eq!(parse_ipv4("192.168.2.256"), None);
    assert_eq!(parse_ipv4("01.2.3.4"), None);
    assert!(is_private_ipv4((10, 1, 2, 3)));
    assert!(is_private_ipv4((172, 31, 0, 1)));
    assert!(!is_private_ipv4((172, 32, 0, 1)));
}

#[test]
fn sets_are_sorted_without_repeats() {
    let list: Vec<String> = ["b", "a", "b", ""].iter().map(|s| s.to_string()).collect();
    assert_eq!(sort_set(&list), vec!["", "a", "b"]);
}
