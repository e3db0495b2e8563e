//! Texts, pathnames and orders, held against the standard library.
use vfs_storage_hub::octets::{read_le, splice};
use vfs_storage_hub::order::{sorted_distinct, stable_order};
use vfs_storage_hub::pathname::{file_name_of, parent_of, parent_path, split_name};
use vfs_storage_hub::text::{
    contains_text, decimal_int_text, decimal_text, ends_with, find_text, is_control, is_space,
    replace_char, rsplit_once, split, starts_with, strip_prefix, text_less, to_ascii_lowercase,
    trim, trim_end_matches, trim_start_matches,
};

const SAMPLES: [&str; 22] = [
    "", "/", "//", "a", "/a", "a/", "/a/b", "a/b/", "/a//b", "/a/./b", "/a/.", ".", "..", "./a",
    "../a", "/..", "/a/..", "/a/b/..", "a//", "///a", "/ä/ö.tar.gz", "x.y/.z",
];

#[test]
fn pathnames_are_the_standard_ones() {
    for p in SAMPLES {
        let path = std::path::Path::new(p);
        assert_eq!(
            parent_of(p),
            path.parent().map(|x| x.to_str().unwrap().to_string()),
            "parent of {:?}",
            p
        );
        assert_eq!(
            file_name_of(p),
            path.file_name().map(|x| x.to_str().unwrap().to_string()),
            "name of {:?}",
            p
        );
    }
}

#[test]
fn stems_and_extensions_are_the_standard_ones() {
    for name in ["a", "a.b", "a.b.c", ".a", "a.", ".a.b", "..a", "ä.ö"] {
        let path = std::path::Path::new(name);
        let (stem, ext) = split_name(name);
        assert_eq!(Some(stem.as_str()), path.file_stem().and_then(|x| x.to_str()), "{}", name);
        assert_eq!(ext.as_deref(), path.extension().and_then(|x| x.to_str()), "{}", name);
    }
}

#[test]
fn the_directory_above_is_never_empty() {
    assert_eq!(parent_path("/a/b"), "/a");
    assert_eq!(parent_path("/a"), "/");
    assert_eq!(parent_path("/"), "/");
}

#[test]
fn text_functions_are_the_standard_ones() {
    let texts = ["", "a", " a b ", "\tx\n", "ÄÖ/äö", "aaa", "/a/b/", "日本/語", "abcabc"];
    for s in texts {
        assert_eq!(trim(s), s.trim());
        assert_eq!(to_ascii_lowercase(s), s.to_ascii_lowercase());
        assert_eq!(trim_start_matches(s, '/'), s.trim_start_matches('/'));
        assert_eq!(trim_end_matches(s, 'a'), s.trim_end_matches('a'));
        assert_eq!(replace_char(s, 'a', 'z'), s.replace('a', "z"));
        assert_eq!(split(s, '/'), s.split('/').map(str::to_string).collect::<Vec<_>>());
        assert_eq!(rsplit_once(s, '/'), s.rsplit_once('/'));
        for t in texts {
            assert_eq!(starts_with(s, t), s.starts_with(t));
            assert_eq!(ends_with(s, t), s.ends_with(t));
            assert_eq!(strip_prefix(s, t), s.strip_prefix(t));
            assert_eq!(contains_text(s, t), s.contains(t));
            assert_eq!(text_less(s, t), s < t, "{:?} {:?}", s, t);
            assert_eq!(
                find_text(s, t),
                s.find(t).map(|at| s[..at].chars().count()),
                "{:?} {:?}",
                s,
                t
            );
        }
    }
}

#[test]
fn characters_are_classified_as_the_standard_library_does() {
    for n in 0..0x3100u32 {
        if let Some(c) = char::from_u32(n) {
            assert_eq!(is_space(c), c.is_whitespace(), "{:x}", n);
            assert_eq!(is_control(c), c.is_control(), "{:x}", n);
        }
    }
}

#[test]
fn numbers_are_written_in_decimal() {
    for n in [0u64, 1, 9, 10, 42, 1000, u64::MAX] {
        assert_eq!(decimal_text(n), n.to_string());
    }
    for n in [0i64, -1, 10, i64::MIN, i64::MAX] {
        assert_eq!(decimal_int_text(n), n.to_string());
    }
}

#[test]
fn orders_are_stable_and_sorted() {
    assert_eq!(stable_order(&vec![3, 1, 3, 0, 1]), vec![3, 1, 4, 0, 2]);
    let texts = ["b", "a", "b", "", "ä", "a"].iter().map(|s| s.to_string()).collect();
    assert_eq!(sorted_distinct(texts), vec!["", "a", "b", "ä"]);
}

#[test]
fn bytes_are_spliced_with_zeros_between() {
    assert_eq!(splice(b"abc".to_vec(), 1, b"XY"), b"aXY");
    assert_eq!(splice(b"abc".to_vec(), 5, b"Z"), b"abc\0\0Z");
    assert_eq!(splice(Vec::new(), 0, b"hi"), b"hi");
    assert_eq!(read_le(&[1, 2, 3, 4], 1, 2), 0x0302);
}
