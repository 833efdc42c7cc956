use rust_daily::Document;
use rust_daily::Registry;
use rust_daily::Shard;
use rust_daily::Tablet;
use rust_daily::Transcriptor;

fn doc(path: &str, lines: &[&str]) -> Document {
    Document {
        path: path.to_string(),
        lines: lines.iter().map(|l| l.to_string()).collect(),
    }
}

fn all_shards(t: &Tablet, lines: &Vec<String>) -> Vec<Shard> {
    let mut sh = t.shards(lines);
    let mut out = Vec::new();
    while let Some(s) = sh.next() {
        out.push(s);
    }
    out
}

#[test]
fn three_line_document() {
    let d = doc("foo.rs", &["// intro", "-----", "body line"]);
    let docs = vec![d];
    let cat = Registry::catalog(&docs);
    assert_eq!(cat.len(), 1);
    assert_eq!(cat[0], Tablet::new("foo.rs".to_string(), 0, 2));
    let shards = all_shards(&cat[0], &docs[0].lines);
    assert_eq!(shards.len(), 2);
    assert_eq!(shards[0], Tablet::new("foo.rs".to_string(), 0, 0));
    assert_eq!(shards[1], Tablet::new("foo.rs".to_string(), 2, 2));
    assert_eq!(Transcriptor::read(&shards[0], &docs[0].lines), "// intro");
    assert_eq!(Transcriptor::read(&shards[1], &docs[0].lines), "body line");
}

#[test]
fn no_separator_single_shard() {
    let d = doc("plain.md", &["alpha", "beta", "gamma"]);
    let t = Tablet::new("plain.md".to_string(), 0, 2);
    let shards = all_shards(&t, &d.lines);
    assert_eq!(shards.len(), 1);
    assert_eq!(shards[0], t);
}

#[test]
fn degenerate_boundaries_skipped() {
    let d = doc("edges.md", &["-----", "a", "-----", "-----", "b", "-----"]);
    let t = Tablet::new("edges.md".to_string(), 0, 5);
    let shards = all_shards(&t, &d.lines);
    assert_eq!(shards.len(), 2);
    assert_eq!(shards[0], Tablet::new("edges.md".to_string(), 1, 1));
    assert_eq!(shards[1], Tablet::new("edges.md".to_string(), 4, 4));
}

#[test]
fn all_separators_yield_no_shard() {
    let d = doc("seps.md", &["-----", "-- ----- --"]);
    let t = Tablet::new("seps.md".to_string(), 0, 1);
    let shards = all_shards(&t, &d.lines);
    assert_eq!(shards.len(), 0);
}

#[test]
fn separator_recognized_inside_line() {
    let d = doc("inline.md", &["keep", "xx ----- yy", "rest"]);
    let t = Tablet::new("inline.md".to_string(), 0, 2);
    let shards = all_shards(&t, &d.lines);
    assert_eq!(shards.len(), 2);
    assert_eq!(shards[0], Tablet::new("inline.md".to_string(), 0, 0));
    assert_eq!(shards[1], Tablet::new("inline.md".to_string(), 2, 2));
}

#[test]
fn segmentation_on_sub_range() {
    let d = doc("win.md", &["out", "a", "-----", "b", "out"]);
    let t = Tablet::new("win.md".to_string(), 1, 3);
    let shards = all_shards(&t, &d.lines);
    assert_eq!(shards.len(), 2);
    assert_eq!(shards[0], Tablet::new("win.md".to_string(), 1, 1));
    assert_eq!(shards[1], Tablet::new("win.md".to_string(), 3, 3));
}

#[test]
fn coverage_reconstructs_window() {
    let lines = &[
        "first", "-----", "second", "third", "-----", "-----", "x", "", "tail",
    ];
    let d = doc("cov.md", lines);
    let t = Tablet::new("cov.md".to_string(), 0, (lines.len() - 1) as usize);
    let shards = all_shards(&t, &d.lines);
    // ordered, non-overlapping, separated by at least one line
    for w in shards.windows(2) {
        assert!(w[0].end() + 1 < w[1].start());
    }
    // every line is either in exactly one shard or is a separator line
    for i in 0..lines.len() {
        let holders = shards
            .iter()
            .filter(|s| s.start() <= i && i <= s.end())
            .count();
        if lines[i].contains("-----") {
            assert_eq!(holders, 0);
        } else {
            assert_eq!(holders, 1);
        }
    }
}

#[test]
fn separator_eliminated_from_rendered_shards() {
    let d = doc(
        "elim.md",
        &["alpha", "-----", "beta", " ----- ", "gamma", "-----"],
    );
    let t = Tablet::new("elim.md".to_string(), 0, 5);
    let shards = all_shards(&t, &d.lines);
    assert_eq!(shards.len(), 3);
    for s in &shards {
        let rendered = Transcriptor::read(s, &d.lines);
        assert!(!rendered.lines().any(|l| l == "-----"));
    }
}

#[test]
fn shards_iteration_restarts_by_recomputation() {
    let d = doc("again.md", &["a", "-----", "b"]);
    let t = Tablet::new("again.md".to_string(), 0, 2);
    let first = all_shards(&t, &d.lines);
    let second = all_shards(&t, &d.lines);
    assert_eq!(first, second);
}
