use std::path::Path;

use filesystem_watcher::exclude::{is_excluded_dir, is_excluded_name, spells, EXCLUDED_DIRS};
use filesystem_watcher::path::{
    canonicalize_lossy, copy_bytes, has_separator, is_plain_name, ResolvedPath, WatchPath,
};

fn path(text: &str) -> WatchPath {
    WatchPath::new(text.as_bytes().to_vec())
}

#[test]
fn every_listed_directory_is_excluded() {
    for dir in ["node_modules", ".pnpm", "target", "dist", "build", ".next", ".nuxt"] {
        assert!(is_excluded_dir(dir), "{dir}");
        assert!(is_excluded_name(dir.as_bytes()), "{dir}");
    }
    assert_eq!(EXCLUDED_DIRS.len(), 7);
}

#[test]
fn only_the_whole_name_is_excluded() {
    for dir in ["src", "", "Target", "targets", "node_module", "next", ".git", "build.rs"] {
        assert!(!is_excluded_dir(dir), "{dir}");
    }
}

#[test]
fn a_name_that_is_not_utf8_is_not_excluded() {
    assert!(!is_excluded_name(b"dist\xff"));
    assert!(!spells(b"\xff", "dist"));
    assert!(spells("d\u{e9}p\u{f4}t".as_bytes(), "d\u{e9}p\u{f4}t"));
}

/// Every spelling over these bytes up to a length.
fn spellings(longest: usize) -> Vec<Vec<u8>> {
    let mut all: Vec<Vec<u8>> = vec![Vec::new()];
    let mut last: Vec<Vec<u8>> = vec![Vec::new()];
    for _ in 0..longest {
        let mut next = Vec::new();
        for spelling in &last {
            for byte in b"/.ab" {
                let mut longer = spelling.clone();
                longer.push(*byte);
                next.push(longer);
            }
        }
        all.extend(next.iter().cloned());
        last = next;
    }
    all
}

fn std_path(spelling: &[u8]) -> &Path {
    Path::new(std::str::from_utf8(spelling).unwrap())
}

fn bytes(path: &Path) -> &[u8] {
    path.as_os_str().as_encoded_bytes()
}

#[test]
fn components_are_those_of_the_standard_library() {
    for spelling in spellings(6) {
        let ours = WatchPath::new(spelling.clone());
        assert_eq!(ours.bytes(), &spelling);
        let theirs: Vec<&[u8]> = std_path(&spelling)
            .components()
            .map(|component| component.as_os_str().as_encoded_bytes())
            .collect();
        let found: Vec<&[u8]> = (0..ours.component_count()).map(|i| ours.component(i)).collect();
        assert_eq!(found, theirs, "{:?}", std_path(&spelling));
    }
}

#[test]
fn extensions_are_those_of_the_standard_library() {
    for spelling in spellings(6) {
        assert_eq!(
            WatchPath::new(spelling.clone()).has_extension(),
            std_path(&spelling).extension().is_some(),
            "{:?}",
            std_path(&spelling)
        );
    }
}

#[test]
fn prefixes_are_stripped_as_by_the_standard_library() {
    let bases = spellings(3);
    for spelling in spellings(5) {
        let ours = WatchPath::new(spelling.clone());
        for base in &bases {
            let stripped = ours.strip_prefix(&WatchPath::new(base.clone()));
            let expected = std_path(&spelling).strip_prefix(std_path(base)).ok();
            assert_eq!(
                stripped.map(|rest| rest.into_bytes()),
                expected.map(|rest| bytes(rest).to_vec()),
                "{:?} below {:?}",
                std_path(&spelling),
                std_path(base)
            );
        }
    }
}

#[test]
fn entries_are_joined_as_by_the_standard_library() {
    for spelling in spellings(5) {
        let ours = WatchPath::new(spelling.clone());
        for name in ["a", ".gitignore", "..b"] {
            let expected = std_path(&spelling).join(name);
            assert_eq!(ours.join(name.as_bytes()).bytes(), bytes(&expected));
            let expected = expected.join("x");
            let names = vec![name.as_bytes().to_vec(), b"x".to_vec()];
            assert_eq!(ours.join_all(&names).bytes(), bytes(&expected));
        }
    }
    assert_eq!(path("/a").join_all(&vec![]), path("/a"));
}

#[test]
fn a_path_keeps_its_spelling() {
    for text in ["/", "/a/b", "a//b/", "./a/.", "", "a/../b"] {
        assert_eq!(path(text).bytes(), text.as_bytes());
        assert_eq!(path(text).clone().into_bytes(), text.as_bytes());
    }
    assert_ne!(path("a//b"), path("a/b"));
}

#[test]
fn an_entry_has_a_plain_name() {
    for name in ["a", "..", ".git", "a b"] {
        assert!(is_plain_name(name.as_bytes()), "{name}");
    }
    for name in ["", ".", "/", "a/b"] {
        assert!(!is_plain_name(name.as_bytes()), "{name}");
    }
    assert!(has_separator(b"a/b"));
    assert!(!has_separator(b"ab"));
    assert_eq!(copy_bytes(b"a\xff"), b"a\xff");
}

#[test]
fn a_prefix_is_stripped_component_by_component() {
    assert_eq!(path("/repo/src/a.rs").strip_prefix(&path("/repo")), Some(path("src/a.rs")));
    assert_eq!(path("/repo//src//a.rs/").strip_prefix(&path("/repo/.")), Some(path("src//a.rs")));
    assert_eq!(path("/repo").strip_prefix(&path("/repo")), Some(path("")));
    assert_eq!(path("/repository").strip_prefix(&path("/repo")), None);
    assert_eq!(path("/").strip_prefix(&path("/repo")), None);
    assert_eq!(path("/a").strip_prefix(&path("")), Some(path("/a")));
}

#[test]
fn an_extension_follows_a_dot_inside_the_file_name() {
    assert!(path("/a/main.rs").has_extension());
    assert!(path("a.").has_extension());
    assert!(path(".config.json").has_extension());
    assert!(path("..a").has_extension());
    assert!(!path("/a/Makefile").has_extension());
    assert!(!path(".gitignore").has_extension());
    assert!(!path("a.d/b").has_extension());
    assert!(!path("a/..").has_extension());
    assert!(!path("").has_extension());
    assert!(!path("/").has_extension());
}

#[test]
fn the_canonical_form_wins_over_the_path_as_given() {
    let resolved = ResolvedPath { path: path("/link"), canonical: Some(path("/real")) };
    assert_eq!(canonicalize_lossy(&resolved), &path("/real"));
    let unresolved = ResolvedPath { path: path("/gone"), canonical: None };
    assert_eq!(canonicalize_lossy(&unresolved), &path("/gone"));
}

#[test]
fn canonicalizing_again_changes_nothing() {
    let resolve = |given: &WatchPath| match given.bytes().as_slice() {
        b"/link" | b"/real" => Some(path("/real")),
        _ => None,
    };
    for (given, expected) in [("/link", "/real"), ("/real", "/real"), ("/gone//x", "/gone//x")] {
        let first = ResolvedPath { path: path(given), canonical: resolve(&path(given)) };
        let once = canonicalize_lossy(&first).clone();
        assert_eq!(once, path(expected));
        let second = ResolvedPath { path: once.clone(), canonical: resolve(&once) };
        assert_eq!(canonicalize_lossy(&second), &once);
    }
}
