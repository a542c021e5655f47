//! Paths and names, held against the standard library on this platform.

use dotprot::expand;
use dotprot::paths;
use dotprot::paths::Component;
use dotprot::paths::Place;
use dotprot::paths::Style;
use dotprot::text;
use std::path::Path;

fn validate_restore_path(rel_file: &str) -> Result<(), dotprot::failure::Error> {
    paths::validate_restore_path(Style::Unix, rel_file)
}

fn unix_place(cwd: &str) -> Place {
    Place {
        cwd: cwd.to_string(),
        components: vec![Component::RootDir],
        style: Style::Unix,
        home: None,
    }
}

fn windows_place(cwd: &str, prefix: &str) -> Place {
    Place {
        cwd: cwd.to_string(),
        components: vec![Component::Prefix(prefix.to_string()), Component::RootDir],
        style: Style::Windows,
        home: None,
    }
}

const SHAPES: [&str; 26] = [
    "", ".", "..", "/", "//", "a", "a/", "a//b", "a/./b", "./a", "a/.", "a/..", "../a", "/a",
    "a/../b", "...", ".a", "a.", "./", "/.", "/..", ".env", "dir/.env ", "a\\b", "C:a", "é/ü",
];

#[test]
fn validate_restore_path_allows_only_plain_relative_paths() {
    assert!(validate_restore_path(".env").is_ok());
    assert!(validate_restore_path("nested/dir/.env").is_ok());
    assert!(validate_restore_path("../up.env").is_err());
    assert!(validate_restore_path("/abs/path.env").is_err());
    assert!(validate_restore_path("a/../b.env").is_err());
    assert!(validate_restore_path("").is_err());
}

#[test]
fn validate_restore_path_rejects_rooted_driveless_windows_paths() {
    let validate_restore_path = |p: &str| paths::validate_restore_path(Style::Windows, p);
    assert!(validate_restore_path(r"\Users\victim\startup.bat").is_err());
    assert!(validate_restore_path(r"C:\Users\victim\x").is_err());
    assert!(validate_restore_path(r"C:relative.env").is_err());
}

#[test]
fn windows_paths_take_both_separators() {
    assert!(paths::validate_restore_path(Style::Windows, r"config\secrets.json").is_ok());
    assert!(paths::validate_restore_path(Style::Windows, r"a\..\b").is_err());
    assert!(paths::validate_restore_path(Style::Windows, r".\b").is_err());
    assert!(paths::validate_restore_path(Style::Unix, r"a\..\b").is_ok());
}

#[test]
fn a_refusal_names_the_path() {
    assert_eq!(
        validate_restore_path("../x").unwrap_err().message(),
        "Refusing to restore \"../x\": .prot entries must be plain relative paths inside this \
         directory (no absolute or rooted paths, no `..`)."
    );
}

#[test]
fn plain_paths_are_those_of_the_standard_library() {
    for shape in SHAPES {
        let path = Path::new(shape);
        let plain = path.components().next().is_some()
            && path
                .components()
                .all(|c| matches!(c, std::path::Component::Normal(_)));
        assert_eq!(validate_restore_path(shape).is_ok(), plain, "{shape:?}");
        assert_eq!(
            paths::goes_up(Style::Unix, shape),
            path.components()
                .any(|c| matches!(c, std::path::Component::ParentDir)),
            "{shape:?}"
        );
        assert_eq!(
            paths::has_root(Style::Unix, shape),
            path.has_root(),
            "{shape:?}"
        );
    }
}

#[test]
fn file_names_are_those_of_the_standard_library() {
    for shape in SHAPES {
        let expected = Path::new(shape)
            .file_name()
            .map(|n| n.to_string_lossy().to_string())
            .unwrap_or_else(|| shape.to_string());
        assert_eq!(paths::file_name(Style::Unix, shape), expected, "{shape:?}");
    }
    assert_eq!(paths::file_name(Style::Windows, r"C:dir\x.env"), "x.env");
    assert_eq!(paths::file_name(Style::Windows, "C:"), "C:");
}

#[test]
fn joins_are_those_of_the_standard_library() {
    for base in ["/", "/home/me", "/home/me/", ""] {
        for shape in SHAPES {
            let expected = Path::new(base).join(shape);
            assert_eq!(
                paths::document_title(&unix_place(base), shape),
                expected.to_string_lossy(),
                "{base:?} {shape:?}"
            );
        }
    }
    assert_eq!(paths::prot_path(&unix_place("/p")), "/p/.prot");
}

#[test]
fn windows_joins() {
    let place = windows_place(r"C:\proj", "C:");
    assert_eq!(paths::join(&place, ".env"), r"C:\proj\.env");
    assert_eq!(paths::join(&place, r"\shared\x"), r"C:\shared\x");
    assert_eq!(paths::join(&place, r"D:\x"), r"D:\x");
    assert_eq!(paths::join(&place, r"\\server\share\x"), r"\\server\share\x");
    assert_eq!(paths::put_below(Style::Windows, r"C:\", "x"), r"C:\x");
    assert_eq!(paths::put_below(Style::Windows, "C:", "x"), "C:x");
    assert!(paths::has_root(Style::Windows, r"C:\x"));
    assert!(!paths::has_root(Style::Windows, "C:x"));
}

/// A directory below the root of a verbatim drive.
fn verbatim_place(names: &[&str]) -> Place {
    let mut components = vec![
        Component::Prefix(r"\\?\C:".to_string()),
        Component::RootDir,
    ];
    for name in names {
        components.push(Component::Normal(name.to_string()));
    }
    Place {
        cwd: format!(r"\\?\C:\{}", names.join(r"\")),
        components,
        style: Style::Windows,
        home: None,
    }
}

#[test]
fn joins_to_a_verbatim_directory_are_written_plainly() {
    let place = verbatim_place(&["p"]);
    for (path, joined) in [
        ("a", r"\\?\C:\p\a"),
        ("./a", r"\\?\C:\p\a"),
        ("a/./b//c", r"\\?\C:\p\a\b\c"),
        ("/shared/x.env", r"\\?\C:\shared\x.env"),
        (r"\shared\x.env", r"\\?\C:\shared\x.env"),
        ("../a", r"\\?\C:\a"),
        ("../../../a", r"\\?\C:\a"),
        ("a/../b", r"\\?\C:\p\b"),
        (".", r"\\?\C:\p"),
        (r"D:\x", r"D:\x"),
        (r"D:x", r"D:x"),
        (r"\\server\share\x", r"\\server\share\x"),
        ("", r"\\?\C:\p\"),
    ] {
        assert_eq!(paths::join(&place, path), joined, "{path:?}");
    }
    assert_eq!(
        expand::search_pattern(&place, "./.env*"),
        r"\\[?]\C:\p\./.env*"
    );
    assert_eq!(
        expand::search_pattern(&place, "/shared/./x.env"),
        r"\\?\C:\shared\x.env"
    );
}

#[test]
fn titles_tell_files_of_different_directories_apart() {
    let places = [
        windows_place(r"C:\a", "C:"),
        windows_place(r"D:\a", "D:"),
        windows_place(r"\\s\a", r"\\s\a"),
        windows_place(r"\\s\b\", r"\\s\b"),
        verbatim_place(&["a"]),
        verbatim_place(&["b", "a"]),
    ];
    let mut titles: Vec<String> = Vec::new();
    for place in &places {
        for file in [".env", r"b\.env"] {
            titles.push(paths::document_title(place, file));
        }
    }
    for place in [unix_place("/a"), unix_place("/b"), unix_place("/")] {
        for file in [".env", "c/.env"] {
            titles.push(paths::document_title(&place, file));
        }
    }
    for (i, title) in titles.iter().enumerate() {
        assert!(!titles[i + 1..].contains(title), "{title}");
    }
    assert_eq!(titles[4], r"\\s\a\.env");
    assert_eq!(titles[6], r"\\s\b\.env");
}

#[test]
fn two_separators_alone_are_no_share() {
    let place = windows_place(r"C:\proj", "C:");
    assert_eq!(paths::join(&place, r"\\x"), r"C:\\x");
    assert_eq!(paths::join(&place, r"\\x\"), r"C:\\x\");
    assert_eq!(paths::join(&place, r"\\x\y"), r"\\x\y");
    assert_eq!(paths::join(&place, "//x/y"), "//x/y");
}

#[test]
fn the_directories_on_the_way_to_a_file() {
    assert!(paths::parents(Style::Unix, ".env").is_empty());
    assert!(paths::parents(Style::Unix, "").is_empty());
    assert_eq!(paths::parents(Style::Unix, "a/b/.env"), vec!["a", "a/b"]);
    assert_eq!(paths::parents(Style::Unix, "a//./b/.env"), vec!["a", "a/b"]);
    assert_eq!(
        paths::parents(Style::Windows, r"a\b/.env"),
        vec!["a", r"a\b"]
    );
    assert!(paths::parents(Style::Unix, r"a\b").is_empty());
}

#[test]
fn search_patterns_take_the_directory_literally() {
    assert_eq!(
        expand::search_pattern(&unix_place("/we[i]rd dir"), ".env*"),
        "/we[[]i[]]rd dir/.env*"
    );
    assert_eq!(
        expand::search_pattern(&unix_place("/a?b*c"), "x/**"),
        "/a[?]b[*]c/x/**"
    );
    assert_eq!(
        expand::search_pattern(&unix_place("/p"), "/shared/x.env"),
        "/shared/x.env"
    );
    assert_eq!(
        expand::search_pattern(&windows_place(r"C:\p", "C:"), r"\x"),
        r"C:\x"
    );
    assert_eq!(
        expand::search_pattern(&windows_place(r"C:\p", "C:"), "x"),
        r"C:\p\x"
    );
}

#[test]
fn an_escaped_directory_matches_itself_alone() {
    for dir in ["/we[i]rd dir", "/a?b*c", "/plain", "/[", "/]]"] {
        let pattern = expand::search_pattern(&unix_place(dir), ".env*");
        let compiled = glob::Pattern::new(&pattern).unwrap();
        assert!(compiled.matches(&format!("{dir}/.env.local")));
        assert!(!compiled.matches("/weird dir/.env"));
    }
}

// --- characters ---------------------------------------------------------------

#[test]
fn characters_are_those_of_the_standard_library() {
    for c in '\0'..=char::MAX {
        assert_eq!(text::white_space(c), c.is_whitespace(), "{c:?}");
        assert_eq!(text::control_char(c), c.is_control(), "{c:?}");
    }
}

#[test]
fn trimming_and_searching_are_those_of_the_standard_library() {
    for s in ["", " ", "a", " a ", "\u{a0}x\u{2003}", "a b", "\n\t", "é \u{85}"] {
        assert_eq!(text::trim(s), s.trim());
    }
    for s in ["", "a", "aab", "abab", "baab"] {
        for p in ["", "a", "ab", "aab", "c"] {
            assert_eq!(text::contains(s, p), s.contains(p));
            assert_eq!(
                text::strip_prefix(s, p).as_deref(),
                s.strip_prefix(p),
                "{s:?} {p:?}"
            );
        }
    }
    for n in [0usize, 7, 10, 99, 12345, usize::MAX] {
        assert_eq!(text::number(n), n.to_string());
    }
}

#[test]
fn files_are_ordered_as_strings_are() {
    let mut list: Vec<String> = Vec::new();
    for item in ["b", "a", "ab", "é", "a", "Z", "~", "a/b", ".env", "\u{10ffff}", "b"] {
        text::insert(&mut list, item.to_string());
    }
    let expected: Vec<String> = ["b", "a", "ab", "é", "Z", "~", "a/b", ".env", "\u{10ffff}"]
        .iter()
        .map(|s| s.to_string())
        .collect::<std::collections::BTreeSet<String>>()
        .into_iter()
        .collect();
    assert_eq!(list, expected);
    assert!(text::precedes("a", "b") && !text::precedes("b", "a") && !text::precedes("a", "a"));
}

#[test]
fn names_that_can_be_recorded() {
    assert!(expand::recordable(".env"));
    assert!(expand::recordable("a b"));
    assert!(!expand::recordable(".env "));
    assert!(!expand::recordable("\u{2003}.env"));
    assert!(!expand::recordable(".env\nx"));
    assert!(!expand::recordable("a\u{7f}"));
}
