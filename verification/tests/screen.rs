use dusty::browser::{Browser, Key};
use dusty::files::{listing_from_metadata, EntryMetadata, FileInfo};
use dusty::lang::{
    AboutText, AppText, BottomBar, DataText, DeleteText, HelpText, InputText, LabelsText, LeftArea,
    LogsText, MessagesText, RightArea, StatusText, TopBar,
};
use dusty::layout::{arrange, screen_layout, Area};
use dusty::screen::{can_draw, screen, Details, SelectionFacts};

fn text() -> AppText {
    AppText {
        labels: LabelsText {
            left_area: LeftArea { title: "Files".to_string() },
            right_area: RightArea { title: "Info".to_string() },
            top_bar: TopBar,
            bottom_bar: BottomBar {
                fast_help: "q: quit".to_string(),
                delete_text: DeleteText {
                    press_yn_to_delete: "Delete? (y/n)".to_string(),
                    press_enter_to_confirm: "Press Enter to delete".to_string(),
                },
            },
        },
        status: StatusText {
            previous_folder: "Previous folder".to_string(),
            unknown_info: "?".to_string(),
            coming_soon: "soon".to_string(),
        },
        data: DataText {
            size_human_format: "Size: ".to_string(),
            size_byte: "Bytes: ".to_string(),
            owner_uid: "UID: ".to_string(),
            owner_gid: "GID: ".to_string(),
            inodes: "Inode: ".to_string(),
            permissions: "Mode: ".to_string(),
            nlinks: "Links: ".to_string(),
        },
        logs: LogsText,
        input: InputText,
        messages: MessagesText,
        help: HelpText,
        about: AboutText,
    }
}

fn meta(name: &str, is_file: bool, len: u64) -> EntryMetadata {
    EntryMetadata {
        name: name.to_string(),
        is_file,
        len,
        uid: 1000,
        gid: 100,
        ino: 77,
        mode: 33188,
        nlink: 1,
        human_size: format!("{} B", len),
    }
}

fn listing(entries: Vec<EntryMetadata>) -> Vec<FileInfo> {
    listing_from_metadata(entries)
}

fn no_facts() -> SelectionFacts {
    SelectionFacts { cached_size: None, is_dir: false }
}

#[test]
fn layout_of_an_80_by_24_screen() {
    let l = screen_layout(80, 24).unwrap();
    assert_eq!(l.full, Area { x: 0, y: 0, width: 80, height: 24 });
    assert_eq!(l.top_bar, Area { x: 0, y: 0, width: 80, height: 1 });
    assert_eq!(l.bottom_bar, Area { x: 0, y: 23, width: 80, height: 1 });
    assert_eq!(l.list_panel, Area { x: 0, y: 1, width: 40, height: 22 });
    assert_eq!(l.info_panel, Area { x: 40, y: 1, width: 40, height: 22 });
    assert_eq!(l.info_area, Area { x: 41, y: 2, width: 39, height: 8 });
    assert_eq!(l.visible_rows, 20);
}

#[test]
fn layout_of_a_tiny_screen() {
    let l = screen_layout(1, 1).unwrap();
    assert_eq!(l.bottom_bar, Area { x: 0, y: 0, width: 1, height: 1 });
    assert_eq!(l.visible_rows, 0);
}

#[test]
fn arrange_rejects_panels_at_the_coordinate_limit() {
    let list = Area { x: 0, y: 0, width: 1, height: 1 };
    assert!(arrange(10, 10, list, Area { x: u16::MAX, y: 0, width: 1, height: 1 }).is_none());
    let l = arrange(10, 0, list, Area { x: 3, y: 4, width: 0, height: 1 }).unwrap();
    assert_eq!(l.info_area, Area { x: 4, y: 5, width: 0, height: 8 });
    assert_eq!(l.bottom_bar.y, 0);
    assert_eq!(l.visible_rows, 0);
}

#[test]
fn screen_of_a_fresh_browser() {
    let mut b = Browser::new(listing(vec![meta("notes.txt", true, 12), meta("a_rather_long_name.txt", true, 5)]));
    let l = screen_layout(30, 10).unwrap();
    b.set_visible_rows(l.visible_rows);
    let s = screen(&b, &l, &text(), &no_facts()).unwrap();
    assert_eq!(s.title, "Dusty");
    assert_eq!(s.title_fill, " ".repeat(30));
    assert_eq!(s.notice, "[soon]");
    assert_eq!(s.list_title, "Files");
    assert_eq!(s.info_title, "Info");
    assert_eq!(s.message, "q: quit");
    assert_eq!(s.rows.len(), 3);
    let width = (l.info_area.width - 1) as usize;
    assert_eq!(s.rows[0].label, "..");
    assert!(s.rows[0].highlighted);
    assert!(!s.rows[1].highlighted);
    assert_eq!(s.rows[1].label, dusty::text::truncate_text("a_rather_long_name.txt", width));
    assert_eq!(s.rows[2].label, "notes.txt");
    assert_eq!(s.rows[1].area, Area { x: l.list_panel.x + 1, y: l.list_panel.y + 2, width: l.list_panel.width - 1, height: 1 });
    match &s.details {
        Details::Parent(t) => assert_eq!(t, "Previous folder"),
        _ => panic!("expected the parent-folder text"),
    }
}

#[test]
fn rows_are_shortened_to_the_details_width() {
    let b = {
        let mut b = Browser::new(listing(vec![meta("abcdefghijklmnop", true, 1)]));
        b.set_visible_rows(5);
        b
    };
    let l = arrange(
        40,
        20,
        Area { x: 0, y: 1, width: 20, height: 18 },
        Area { x: 20, y: 1, width: 9, height: 18 },
    )
    .unwrap();
    let s = screen(&b, &l, &text(), &no_facts()).unwrap();
    assert_eq!(s.rows.len(), 2);
    assert_eq!(s.rows[1].label, "abcde...");
    assert_eq!(s.rows[1].area, Area { x: 1, y: 3, width: 19, height: 1 });
}

#[test]
fn details_of_a_file() {
    let mut b = Browser::new(listing(vec![meta("f", true, 1234)]));
    let l = screen_layout(80, 24).unwrap();
    b.set_visible_rows(l.visible_rows);
    b.handle_key(Key::Down);
    let s = screen(&b, &l, &text(), &no_facts()).unwrap();
    assert!(s.rows[1].highlighted);
    match &s.details {
        Details::Lines(v) => assert_eq!(
            v,
            &vec![
                "Size: 1234 B".to_string(),
                "Bytes: 1234".to_string(),
                "UID: 1000".to_string(),
                "GID: 100".to_string(),
                "Inode: 77".to_string(),
                "Mode: 33188".to_string(),
                "Links: 1".to_string(),
                "".to_string(),
            ]
        ),
        _ => panic!("expected detail lines"),
    }
}

#[test]
fn details_of_a_directory() {
    let mut b = Browser::new(listing(vec![meta("d", false, 4096)]));
    let l = screen_layout(80, 24).unwrap();
    b.set_visible_rows(l.visible_rows);
    b.handle_key(Key::Down);
    let pending = screen(&b, &l, &text(), &SelectionFacts { cached_size: None, is_dir: true }).unwrap();
    match &pending.details {
        Details::Lines(v) => {
            assert_eq!(v.len(), 7);
            assert_eq!(v[0], "Size: ...");
            assert_eq!(v[3], "GID: 0");
        }
        _ => panic!("expected detail lines"),
    }
    let known = screen(
        &b,
        &l,
        &text(),
        &SelectionFacts { cached_size: Some("9 KB".to_string()), is_dir: true },
    )
    .unwrap();
    match &known.details {
        Details::Lines(v) => assert_eq!(v[0], "Size: 9 KB"),
        _ => panic!("expected detail lines"),
    }
}

#[test]
fn details_hidden_without_rows() {
    let b = Browser::new(listing(vec![meta("f", true, 1)]));
    let l = screen_layout(80, 24).unwrap();
    let s = screen(&b, &l, &text(), &no_facts()).unwrap();
    assert!(s.rows.is_empty());
    assert!(matches!(s.details, Details::Hidden));
}

#[test]
fn removal_prompts_in_the_message_bar() {
    let mut b = Browser::new(listing(vec![meta("old.log", true, 1)]));
    let l = screen_layout(80, 24).unwrap();
    b.set_visible_rows(l.visible_rows);
    b.handle_key(Key::Down);
    b.handle_key(Key::Char('d'));
    let s = screen(&b, &l, &text(), &no_facts()).unwrap();
    assert_eq!(s.message, "Delete? (y/n) old.log:");
    b.handle_key(Key::Char('y'));
    let s = screen(&b, &l, &text(), &no_facts()).unwrap();
    assert_eq!(s.message, "Press Enter to delete old.log:");
}

#[test]
fn screen_refuses_a_cut_inside_a_character() {
    let mut b = Browser::new(listing(vec![meta("aéééééé", true, 1)]));
    b.set_visible_rows(5);
    let l = arrange(
        40,
        20,
        Area { x: 0, y: 1, width: 20, height: 18 },
        Area { x: 20, y: 1, width: 6, height: 18 },
    )
    .unwrap();
    // the name column is 4 bytes wide: the cut at byte 2 splits the 'é'
    assert!(!can_draw(&b, &l));
    assert!(screen(&b, &l, &text(), &no_facts()).is_none());
}

#[test]
fn screen_refuses_a_zero_width_column() {
    let mut b = Browser::new(listing(vec![meta("a", true, 1)]));
    b.set_visible_rows(5);
    let l = arrange(
        40,
        20,
        Area { x: 0, y: 1, width: 20, height: 18 },
        Area { x: 20, y: 1, width: 1, height: 18 },
    )
    .unwrap();
    assert!(screen(&b, &l, &text(), &no_facts()).is_none());
}

#[test]
fn panels_of_a_one_row_screen_lie_on_the_screen() {
    let l = screen_layout(7, 1).unwrap();
    assert_eq!(l.list_panel.y, l.info_panel.y);
    assert_eq!(l.list_panel.height, l.info_panel.height);
    assert!(l.list_panel.y + l.list_panel.height <= 1);
    assert!(l.list_panel.x + l.list_panel.width <= 7);
    assert!(l.info_panel.x + l.info_panel.width <= 7);
}

#[test]
fn panels_are_halves_of_the_rows_between_the_bars() {
    for w in [1u16, 2, 3, 7, 9, 80, 101, 1001] {
        for h in [2u16, 3, 24, 1000] {
            let l = screen_layout(w, h).unwrap();
            let half = ((w as u32 + 1) / 2) as u16;
            assert_eq!(l.list_panel, Area { x: 0, y: 1, width: half, height: h - 2 });
            assert_eq!(l.info_panel, Area { x: half, y: 1, width: w - half, height: h - 2 });
            assert_eq!(l.visible_rows, (h - 2).saturating_sub(2));
        }
    }
}
