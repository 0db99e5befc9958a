use dusty::browser::{needs_size_scan, parent_entry, Action, Browser, Key};
use dusty::files::{listing_from_metadata, EntryMetadata, FileInfo};

fn meta(name: &str, is_file: bool) -> EntryMetadata {
    EntryMetadata {
        name: name.to_string(),
        is_file,
        len: 10,
        uid: 1,
        gid: 2,
        ino: 3,
        mode: 4,
        nlink: 5,
        human_size: "10 B".to_string(),
    }
}

fn listing(names: &[&str]) -> Vec<FileInfo> {
    listing_from_metadata(names.iter().map(|n| meta(n, true)).collect())
}

fn path_of(a: &Action) -> Vec<String> {
    match a {
        Action::Open(p) | Action::Remove(p) => p.clone(),
        _ => panic!("no path"),
    }
}

fn names(b: &Browser) -> Vec<String> {
    (0..b.entry_count()).map(|i| b.entry(i).path.clone()).collect()
}

#[test]
fn new_browser_starts_at_parent_entry() {
    let b = Browser::new(listing(&["b", "a"]));
    assert_eq!(names(&b), vec!["..", "a", "b"]);
    assert_eq!(b.selected(), 0);
    assert_eq!(b.scroll(), 0);
    assert_eq!(b.current_path(), vec!["."]);
    assert_eq!(b.pending_removal(), None);
    assert!(!b.removal_confirmed());
}

#[test]
fn parent_entry_is_blank() {
    let p = parent_entry();
    assert_eq!(p.path, "..");
    assert_eq!(p.byte_size, 0);
    assert_eq!(p.human_size, "");
    assert!(p.dir_info.is_none());
}

#[test]
fn moving_down_and_up() {
    let mut b = Browser::new(listing(&["a", "b"]));
    b.set_visible_rows(10);
    assert!(matches!(b.handle_key(Key::Down), Action::Stay));
    assert_eq!(b.selected(), 1);
    b.handle_key(Key::Down);
    assert_eq!(b.selected(), 2);
    b.handle_key(Key::Down);
    assert_eq!(b.selected(), 2);
    b.handle_key(Key::Up);
    b.handle_key(Key::Up);
    b.handle_key(Key::Up);
    assert_eq!(b.selected(), 0);
}

#[test]
fn scrolling_follows_the_selection() {
    let mut b = Browser::new(listing(&["a", "b", "c", "d"]));
    b.set_visible_rows(2);
    b.handle_key(Key::Down);
    assert_eq!((b.selected(), b.scroll()), (1, 0));
    b.handle_key(Key::Down);
    assert_eq!((b.selected(), b.scroll()), (2, 1));
    b.handle_key(Key::Down);
    assert_eq!((b.selected(), b.scroll()), (3, 2));
    b.handle_key(Key::Up);
    assert_eq!((b.selected(), b.scroll()), (2, 2));
    b.handle_key(Key::Up);
    assert_eq!((b.selected(), b.scroll()), (1, 1));
    b.handle_key(Key::Up);
    assert_eq!((b.selected(), b.scroll()), (0, 0));
}

#[test]
fn quit_and_other_keys() {
    let mut b = Browser::new(listing(&["a"]));
    assert!(matches!(b.handle_key(Key::Char('q')), Action::Quit));
    assert!(matches!(b.handle_key(Key::Char('x')), Action::Stay));
    assert!(matches!(b.handle_key(Key::Other), Action::Stay));
    assert_eq!(b.selected(), 0);
}

#[test]
fn enter_asks_to_open_selected_entry() {
    let mut b = Browser::new(listing(&["docs", "src"]));
    b.set_visible_rows(5);
    b.handle_key(Key::Down);
    b.handle_key(Key::Down);
    let a = b.handle_key(Key::Enter);
    assert!(matches!(a, Action::Open(_)));
    assert_eq!(path_of(&a), vec![".", "src"]);
    assert_eq!(b.selected_path(), vec![".", "src"]);
    b.enter_directory(listing(&["main.rs", "lib.rs"]));
    assert_eq!(names(&b), vec!["..", "lib.rs", "main.rs"]);
    assert_eq!(b.current_path(), vec![".", "src"]);
    assert_eq!((b.selected(), b.scroll()), (0, 0));
    let up = b.handle_key(Key::Enter);
    assert_eq!(path_of(&up), vec![".", "src", ".."]);
}

#[test]
fn removal_needs_d_then_y_then_enter() {
    let mut b = Browser::new(listing(&["a", "b", "c"]));
    b.set_visible_rows(5);
    b.handle_key(Key::Down);
    b.handle_key(Key::Down);
    assert!(matches!(b.handle_key(Key::Char('d')), Action::Stay));
    assert_eq!(b.pending_removal(), Some(2));
    assert!(matches!(b.handle_key(Key::Enter), Action::Stay));
    assert!(matches!(b.handle_key(Key::Down), Action::Stay));
    assert_eq!(b.selected(), 2);
    b.handle_key(Key::Char('y'));
    assert!(b.removal_confirmed());
    let a = b.handle_key(Key::Enter);
    assert!(matches!(a, Action::Remove(_)));
    assert_eq!(path_of(&a), vec![".", "b"]);
    b.finish_removal(true);
    assert_eq!(names(&b), vec!["..", "a", "c"]);
    assert_eq!(b.selected(), 1);
    assert_eq!(b.pending_removal(), None);
    assert!(!b.removal_confirmed());
}

#[test]
fn failed_removal_keeps_entry() {
    let mut b = Browser::new(listing(&["a"]));
    b.handle_key(Key::Down);
    b.handle_key(Key::Char('d'));
    b.handle_key(Key::Char('y'));
    assert!(matches!(b.handle_key(Key::Enter), Action::Remove(_)));
    b.finish_removal(false);
    assert_eq!(names(&b), vec!["..", "a"]);
    assert_eq!(b.selected(), 1);
    assert_eq!(b.pending_removal(), None);
}

#[test]
fn n_cancels_removal() {
    let mut b = Browser::new(listing(&["a"]));
    b.handle_key(Key::Down);
    b.handle_key(Key::Char('d'));
    b.handle_key(Key::Char('y'));
    assert!(matches!(b.handle_key(Key::Char('n')), Action::Stay));
    assert_eq!(b.pending_removal(), None);
    assert!(matches!(b.handle_key(Key::Enter), Action::Open(_)));
}

#[test]
fn parent_entry_cannot_be_removed() {
    let mut b = Browser::new(listing(&["a"]));
    b.handle_key(Key::Char('d'));
    assert_eq!(b.pending_removal(), None);
    assert!(matches!(b.handle_key(Key::Char('y')), Action::Stay));
    assert!(!b.removal_confirmed());
}

#[test]
fn quit_is_ignored_while_removal_pending() {
    let mut b = Browser::new(listing(&["a"]));
    b.handle_key(Key::Down);
    b.handle_key(Key::Char('d'));
    assert!(matches!(b.handle_key(Key::Char('q')), Action::Stay));
    assert_eq!(b.pending_removal(), Some(1));
}

#[test]
fn size_scan_only_for_unknown_directories() {
    assert!(needs_size_scan(true, false, false));
    assert!(!needs_size_scan(false, false, false));
    assert!(!needs_size_scan(true, true, false));
    assert!(!needs_size_scan(true, false, true));
}
