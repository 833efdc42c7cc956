use rust_daily::Document;
use rust_daily::Tablet;
use rust_daily::Transcriptor;

fn doc(path: &str, lines: &[&str]) -> Document {
    Document {
        path: path.to_string(),
        lines: lines.iter().map(|l| l.to_string()).collect(),
    }
}

#[test]
fn line_marker_stripped() {
    assert_eq!(Transcriptor::line_fmt("//! Hello"), "Hello\n");
}

#[test]
fn line_marker_stripped_anywhere() {
    assert_eq!(Transcriptor::line_fmt("a //! b"), "a  b\n");
}

#[test]
fn fence_no_run_normalized() {
    assert_eq!(Transcriptor::line_fmt("```no_run"), "```rust\n");
}

#[test]
fn fence_should_panic_normalized() {
    assert_eq!(Transcriptor::line_fmt("```should_panic"), "```rust\n");
}

#[test]
fn line_trimmed() {
    assert_eq!(Transcriptor::line_fmt("\t  spaced out  "), "spaced out\n");
}

#[test]
fn read_single_line() {
    let d = doc("one.md", &["//! Hello"]);
    let t = Tablet::new("one.md".to_string(), 0, 0);
    assert_eq!(Transcriptor::read(&t, &d.lines), "Hello");
}

#[test]
fn read_joins_lines_and_trims_whole() {
    let d = doc("j.md", &["", "  first ", "second", ""]);
    let t = Tablet::new("j.md".to_string(), 0, 3);
    assert_eq!(Transcriptor::read(&t, &d.lines), "first\nsecond");
}

#[test]
fn read_respects_range() {
    let d = doc("r.md", &["zero", "one", "two", "three"]);
    let t = Tablet::new("r.md".to_string(), 1, 2);
    assert_eq!(Transcriptor::read(&t, &d.lines), "one\ntwo");
}

#[test]
fn read_normalizes_fences_in_context() {
    let d = doc("f.md", &["//! Intro", "```should_panic", "let x = 1;", "```"]);
    let t = Tablet::new("f.md".to_string(), 0, 3);
    assert_eq!(
        Transcriptor::read(&t, &d.lines),
        "Intro\n```rust\nlet x = 1;\n```"
    );
}

#[test]
fn rendering_is_idempotent() {
    let d = doc("i.md", &["//! A", "  b  ", "```no_run", "c"]);
    let t = Tablet::new("i.md".to_string(), 0, 3);
    let first = Transcriptor::read(&t, &d.lines);
    let second = Transcriptor::read(&t, &d.lines);
    assert_eq!(first, second);
}

#[test]
fn marker_removal_can_join_dashes() {
    // `--//!---` is not a separator line, yet stripping the marker joins
    // its dashes into the separator token: the rendered form of a line is
    // kept out of separator elimination when the renderer rewrites it.
    assert_eq!(Transcriptor::line_fmt("--//!---"), "-----\n");
}

#[test]
fn read_of_empty_line_document() {
    let d = doc("e.md", &[""]);
    let t = Tablet::new("e.md".to_string(), 0, 0);
    assert_eq!(Transcriptor::read(&t, &d.lines), "");
}
