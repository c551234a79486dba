use sinkmap::path::{sanitize, starts_with};

const RESERVED: [char; 8] = ['?', '%', '*', '|', ':', '"', '<', '>'];

#[test]
fn scheme_and_leading_dot_slash_are_removed() {
    assert_eq!(sanitize("webpack:///./src/app.js", false), "src/app.js");
}

#[test]
fn leading_traversal_is_removed() {
    assert_eq!(sanitize("../../etc/passwd", false), "etc/passwd");
    assert_eq!(sanitize("../../etc/passwd", true), "etc/passwd");
}

#[test]
fn any_run_of_dots_and_slashes_in_front_is_removed() {
    for lead in ["", ".", "/", "./", "../", "//", "...", "/../", "././../..//./", "....////"] {
        for mode in [false, true] {
            let fragment = sanitize(&format!("{lead}etc/passwd"), mode);
            assert_eq!(fragment, "etc/passwd");
        }
    }
}

#[test]
fn a_fragment_never_starts_with_a_dot_or_a_slash() {
    for raw in ["", ".", "..", "/", "webpack:///", "webpack:///../..", "a", "./.a", "/.hidden/x", "webpack:////abs"] {
        for mode in [false, true] {
            let fragment = sanitize(raw, mode);
            assert!(!fragment.starts_with('.') && !fragment.starts_with('/'), "{raw:?} gave {fragment:?}");
        }
    }
}

#[test]
fn an_identifier_of_markers_alone_leaves_nothing() {
    assert_eq!(sanitize("", false), "");
    assert_eq!(sanitize("../..", false), "");
    assert_eq!(sanitize("webpack:///./", false), "");
}

#[test]
fn traversal_behind_the_first_name_is_kept() {
    assert_eq!(sanitize("a/../../b", false), "a/../../b");
    assert_eq!(sanitize("./a/./..", false), "a/./..");
}

#[test]
fn other_schemes_are_kept() {
    assert_eq!(sanitize("file:///etc/passwd", false), "file:///etc/passwd");
    assert_eq!(sanitize("webpack://./x", false), "webpack://./x");
    assert_eq!(sanitize("Webpack:///x", false), "Webpack:///x");
}

#[test]
fn the_scheme_is_taken_off_once_and_only_in_front() {
    assert_eq!(sanitize("webpack:///webpack:///x", false), "webpack:///x");
    assert_eq!(sanitize("./webpack:///x", false), "webpack:///x");
}

#[test]
fn restrictive_mode_removes_every_reserved_character() {
    let fragment = sanitize("a?b%c*d|e:f\"g<h>i", true);
    assert_eq!(fragment, "abcdefghi");
    let fragment = sanitize("??%%**||::\"\"<<>>", true);
    assert_eq!(fragment, "");
    for raw in ["C:\\dir\\file?.js", "webpack:///./a|b.js", "<>:\"|?*%", "x%20y", "a:b:c"] {
        let fragment = sanitize(raw, true);
        assert!(!fragment.contains(RESERVED), "{raw:?} gave {fragment:?}");
    }
}

#[test]
fn permissive_mode_keeps_reserved_characters() {
    assert_eq!(sanitize("a?b%c*d|e:f\"g<h>i", false), "a?b%c*d|e:f\"g<h>i");
}

#[test]
fn restrictive_mode_strips_the_colon_before_the_scheme_is_looked_for() {
    assert_eq!(sanitize("webpack:///./src/app.js", true), "webpack///./src/app.js");
}

#[test]
fn characters_outside_ascii_are_kept_whole() {
    assert_eq!(sanitize("./src/\u{e9}t\u{e9}/\u{65e5}\u{672c}.js", false), "src/\u{e9}t\u{e9}/\u{65e5}\u{672c}.js");
    assert_eq!(sanitize("../\u{e9}:\u{65e5}?", true), "\u{e9}\u{65e5}");
}

#[test]
fn a_prefix_is_told_from_what_is_none() {
    assert!(starts_with("webpack:///x", "webpack:///"));
    assert!(starts_with("abc", ""));
    assert!(starts_with("abc", "abc"));
    assert!(!starts_with("ab", "abc"));
    assert!(!starts_with("abd", "abc"));
    assert!(!starts_with("", "a"));
}

/// The steps of sanitizing, written out with the string functions of std.
fn by_hand(raw: &str, restrictive: bool) -> String {
    let kept: String =
        if restrictive { raw.chars().filter(|c| !RESERVED.contains(c)).collect() } else { raw.to_string() };
    let bare = kept.strip_prefix("webpack:///").unwrap_or(&kept);
    bare.trim_start_matches(['.', '/']).to_string()
}

#[test]
fn sanitizing_goes_by_its_steps() {
    let parts = ["", ".", "/", "..", "webpack:///", "webpack", ":", "?", "%", "*", "|", "\"", "<", ">", "a", "src", "\u{e9}", "\\", " "];
    for first in parts {
        for second in parts {
            for third in parts {
                let raw = format!("{first}{second}{third}");
                for mode in [false, true] {
                    assert_eq!(sanitize(&raw, mode), by_hand(&raw, mode), "{raw:?} in mode {mode}");
                }
            }
        }
    }
}
