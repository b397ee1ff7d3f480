use std::collections::BTreeMap;
use std::path::Path;

use dockfoxbuild::paths::{join, parent, with_file_name};
use dockfoxbuild::text::{decimal_text, is_space_char, trimmed_text};
use dockfoxbuild::textmap::TextMap;

#[test]
fn white_space_agrees_with_the_standard_library() {
    for c in '\0'..=char::MAX {
        assert_eq!(is_space_char(c), c.is_whitespace());
    }
    for s in ["", " ", " a b\t", "\u{a0}x\u{3000}", "x"] {
        assert_eq!(trimmed_text(s), s.trim());
    }
}

#[test]
fn decimal_agrees_with_the_standard_library() {
    for n in [0u128, 9, 10, 12345, u64::MAX as u128, u128::MAX] {
        assert_eq!(decimal_text(n), n.to_string());
    }
}

#[test]
fn paths_agree_with_the_standard_library() {
    let paths = ["", "/", "a", "/a", "a/b", "/a/b/", "a//b", "./a", "a/.", "a/..", "..", ".", "//a"];
    for p in paths {
        assert_eq!(
            parent(p),
            Path::new(p).parent().map(|q| q.to_str().unwrap().to_string()),
            "parent of {:?}",
            p
        );
        assert_eq!(with_file_name(p, "x"), Path::new(p).with_file_name("x").to_str().unwrap());
        for q in paths {
            assert_eq!(join(p, q), Path::new(p).join(q).to_str().unwrap());
        }
    }
}

#[test]
fn text_maps_are_maps_in_order() {
    let mut m = TextMap::new();
    let mut want = BTreeMap::new();
    for (k, v) in [("b", "1"), ("a", "2"), ("é", "3"), ("b", "4"), ("", "5"), ("ab", "6"), ("B", "7")] {
        m.insert(k.to_string(), v.to_string());
        want.insert(k.to_string(), v.to_string());
    }
    assert_eq!(m.entries(), want.clone().into_iter().collect::<Vec<_>>());
    for k in ["a", "b", "é", "", "zz"] {
        assert_eq!(m.get(k), want.get(k));
    }
    assert!(TextMap::default().entries().is_empty());
}
