use rust_daily::Tablet;

#[test]
fn name_extraction() {
    let t = Tablet::new("/a/b/example.md".to_string(), 0, 0);
    assert_eq!(t.name(), Some("example".to_string()));
}

#[test]
fn name_without_extension() {
    let t = Tablet::new("notes/readme".to_string(), 0, 3);
    assert_eq!(t.name(), Some("readme".to_string()));
}

#[test]
fn name_with_two_extensions() {
    let t = Tablet::new("a.tar.gz".to_string(), 0, 0);
    assert_eq!(t.name(), Some("a.tar".to_string()));
}

#[test]
fn name_of_hidden_file() {
    let t = Tablet::new("/home/.hidden".to_string(), 0, 0);
    assert_eq!(t.name(), Some(".hidden".to_string()));
}

#[test]
fn name_missing_for_trailing_slash() {
    let t = Tablet::new("a/b/".to_string(), 0, 0);
    assert_eq!(t.name(), None);
}

#[test]
fn projections() {
    let t = Tablet::new("src/registry/strings.rs".to_string(), 2, 7);
    assert_eq!(t.path_str(), "src/registry/strings.rs");
    assert_eq!(t.path().as_str(), "src/registry/strings.rs");
    assert_eq!(t.start(), 2);
    assert_eq!(t.end(), 7);
    assert_eq!(t.length(), 6);
    assert_eq!(t.name(), Some("strings".to_string()));
}

#[test]
fn equality_is_path_and_range() {
    let a = Tablet::new("x.rs".to_string(), 0, 4);
    let b = Tablet::new("x.rs".to_string(), 0, 4);
    let c = Tablet::new("x.rs".to_string(), 1, 4);
    let d = Tablet::new("y.rs".to_string(), 0, 4);
    assert_eq!(a, b);
    assert_ne!(a, c);
    assert_ne!(a, d);
    assert_eq!(a.clone(), a);
}
