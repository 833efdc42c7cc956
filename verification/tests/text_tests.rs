use rust_daily::text::contains_pat;
use rust_daily::Transcriptor;
use rust_daily::text::replace_all;
use rust_daily::text::trim_str;

#[test]
fn replace_matches_std() {
    let cases: &[(&str, &str, &str)] = &[
        ("", "//!", ""),
        ("//!", "//!", ""),
        ("a//!b//!c", "//!", ""),
        ("//!//!", "//!", ""),
        ("aaaa", "aa", "b"),
        ("abc", "x", "y"),
        ("```no_run", "```no_run", "```rust"),
        ("x```no_run```no_run", "```no_run", "```rust"),
        ("héllo wörld", "ö", "o"),
        ("🦀🦀", "🦀", "c"),
        ("-----", "-", "--"),
    ];
    for (s, pat, rep) in cases {
        assert_eq!(replace_all(s, pat, rep), s.replace(pat, rep), "{s:?}");
    }
}

#[test]
fn trim_matches_std() {
    let cases: &[&str] = &[
        "",
        "   ",
        "a",
        "  a  ",
        "\t x \r\n",
        "\u{3000}wide\u{00A0}",
        "inner  space stays",
        "🦀 ",
    ];
    for s in cases {
        assert_eq!(trim_str(s), s.trim(), "{s:?}");
    }
}

#[test]
fn contains_matches_std() {
    let cases: &[(&str, &str)] = &[
        ("", ""),
        ("abc", ""),
        ("", "a"),
        ("abc", "abc"),
        ("abc", "abcd"),
        ("xx ----- yy", "-----"),
        ("---- -", "-----"),
        ("héllo", "él"),
    ];
    for (s, pat) in cases {
        assert_eq!(contains_pat(s, pat), s.contains(pat), "{s:?} {pat:?}");
    }
}

#[test]
fn marker_stripped_with_unicode_text() {
    assert_eq!(Transcriptor::line_fmt("//! héllo 🦀"), "héllo 🦀\n");
}
