use dusty::size_cache::SizeCache;

fn p(parts: &[&str]) -> Vec<String> {
    parts.iter().map(|s| s.to_string()).collect()
}

#[test]
fn directory_is_measured_once() {
    let mut c = SizeCache::new();
    assert!(c.begin_scan(p(&[".", "src"]), true));
    assert!(!c.begin_scan(p(&[".", "src"]), true));
    assert_eq!(c.size_of(&p(&[".", "src"])), None);
    c.finish_scan(p(&[".", "src"]), 4096);
    assert_eq!(c.size_of(&p(&[".", "src"])), Some(4096));
    assert!(!c.begin_scan(p(&[".", "src"]), true));
    assert_eq!(c.size_of(&p(&[".", "src"])), Some(4096));
}

#[test]
fn files_are_not_measured() {
    let mut c = SizeCache::new();
    assert!(!c.begin_scan(p(&[".", "a.txt"]), false));
    assert_eq!(c.size_of(&p(&[".", "a.txt"])), None);
    assert!(c.begin_scan(p(&[".", "a.txt"]), true));
}

#[test]
fn paths_are_told_apart() {
    let mut c = SizeCache::new();
    assert!(c.begin_scan(p(&[".", "a"]), true));
    assert!(c.begin_scan(p(&[".", "a", "b"]), true));
    assert!(c.begin_scan(p(&[".", "b"]), true));
    c.finish_scan(p(&[".", "b"]), 7);
    c.finish_scan(p(&[".", "a"]), 3);
    assert_eq!(c.size_of(&p(&[".", "a"])), Some(3));
    assert_eq!(c.size_of(&p(&[".", "b"])), Some(7));
    assert_eq!(c.size_of(&p(&[".", "a", "b"])), None);
    assert_eq!(c.size_of(&p(&["."])), None);
}

#[test]
fn finishing_an_unknown_path_records_it() {
    let mut c = SizeCache::new();
    c.finish_scan(p(&["x"]), 1);
    assert_eq!(c.size_of(&p(&["x"])), Some(1));
    assert!(!c.begin_scan(p(&["x"]), true));
}
