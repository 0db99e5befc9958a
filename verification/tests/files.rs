use dusty::files::{
    file_info_from_metadata, listing_from_metadata, sort_by_name, total_file_bytes, EntryMetadata,
    FileInfo, SizeEntry,
};

fn meta(name: &str, is_file: bool, len: u64) -> EntryMetadata {
    EntryMetadata {
        name: name.to_string(),
        is_file,
        len,
        uid: 1000,
        gid: 100,
        ino: 42,
        mode: 0o100644,
        nlink: 1,
        human_size: format!("{} B", len),
    }
}

fn names(v: &[FileInfo]) -> Vec<String> {
    v.iter().map(|f| f.path.clone()).collect()
}

#[test]
fn file_record_keeps_metadata() {
    let f = file_info_from_metadata(meta("a.txt", true, 12));
    assert_eq!(f.path, "a.txt");
    assert_eq!(f.byte_size, 12);
    assert_eq!(f.human_size, "12 B");
    assert_eq!(f.owner_uid, 1000);
    assert_eq!(f.owner_gid, 100);
    assert_eq!(f.inode, 42);
    assert_eq!(f.permissions, 0o100644);
    assert_eq!(f.nlinks, 1);
    assert!(f.dir_info.is_none());
}

#[test]
fn directory_record_drops_group_and_size_text() {
    let f = file_info_from_metadata(meta("src", false, 4096));
    assert_eq!(f.path, "src");
    assert_eq!(f.byte_size, 4096);
    assert_eq!(f.human_size, "");
    assert_eq!(f.owner_gid, 0);
    assert_eq!(f.owner_uid, 1000);
}

#[test]
fn listing_is_ordered_case_insensitively() {
    let l = listing_from_metadata(vec![
        meta("zeta", true, 1),
        meta("Beta", false, 2),
        meta("alpha", true, 3),
        meta("_x", true, 4),
        meta("Alpha2", true, 5),
    ]);
    assert_eq!(names(&l), vec!["_x", "alpha", "Alpha2", "Beta", "zeta"]);
    assert_eq!(l[3].human_size, "");
    assert_eq!(l[1].human_size, "3 B");
}

#[test]
fn listing_keeps_order_of_names_equal_but_for_case() {
    let l = listing_from_metadata(vec![
        meta("README", true, 1),
        meta("b", true, 2),
        meta("readme", true, 3),
        meta("ReadMe", true, 4),
    ]);
    assert_eq!(names(&l), vec!["b", "README", "readme", "ReadMe"]);
    let sizes: Vec<u64> = l.iter().map(|f| f.byte_size).collect();
    assert_eq!(sizes, vec![2, 1, 3, 4]);
}

#[test]
fn listing_orders_beyond_ascii_by_code_point() {
    let l = listing_from_metadata(vec![meta("écrit", true, 1), meta("Zulu", true, 2), meta("eau", true, 3)]);
    assert_eq!(names(&l), vec!["eau", "Zulu", "écrit"]);
}

#[test]
fn empty_listing() {
    assert!(listing_from_metadata(Vec::new()).is_empty());
    assert!(sort_by_name(Vec::new()).is_empty());
}

#[test]
fn sort_by_name_orders_records() {
    let v = vec![
        file_info_from_metadata(meta("b", true, 1)),
        file_info_from_metadata(meta("A", true, 2)),
        file_info_from_metadata(meta("a", true, 3)),
    ];
    assert_eq!(names(&sort_by_name(v)), vec!["A", "a", "b"]);
}

#[test]
fn total_counts_only_readable_regular_files() {
    let entries = vec![
        SizeEntry { is_file: true, len: Some(100) },
        SizeEntry { is_file: false, len: Some(4096) },
        SizeEntry { is_file: true, len: None },
        SizeEntry { is_file: true, len: Some(23) },
    ];
    assert_eq!(total_file_bytes(&entries), Some(123));
    assert_eq!(total_file_bytes(&Vec::new()), Some(0));
}

#[test]
fn total_reports_overflow() {
    let entries = vec![
        SizeEntry { is_file: true, len: Some(u64::MAX) },
        SizeEntry { is_file: true, len: Some(1) },
    ];
    assert_eq!(total_file_bytes(&entries), None);
    let fits = vec![
        SizeEntry { is_file: true, len: Some(u64::MAX - 1) },
        SizeEntry { is_file: true, len: Some(1) },
    ];
    assert_eq!(total_file_bytes(&fits), Some(u64::MAX));
}

#[test]
fn listing_keys_do_not_depend_on_gathering_order() {
    let a = listing_from_metadata(vec![meta("b", true, 1), meta("A", true, 2), meta("a", true, 3), meta("C", false, 4)]);
    let b = listing_from_metadata(vec![meta("C", false, 4), meta("a", true, 3), meta("b", true, 1), meta("A", true, 2)]);
    let keys = |v: &[FileInfo]| v.iter().map(|f| f.path.to_ascii_lowercase()).collect::<Vec<_>>();
    assert_eq!(keys(&a), keys(&b));
    assert_eq!(names(&a), vec!["A", "a", "b", "C"]);
    assert_eq!(names(&b), vec!["a", "A", "b", "C"]);
}

#[test]
fn totals_add_up_over_subtrees_and_new_files() {
    let dir = SizeEntry { is_file: false, len: Some(4096) };
    let child1 = vec![dir, SizeEntry { is_file: true, len: Some(10) }];
    let child2 = vec![SizeEntry { is_file: true, len: Some(5) }];
    let mut whole = vec![dir];
    whole.extend(child1.iter().copied());
    whole.extend(child2.iter().copied());
    assert_eq!(
        total_file_bytes(&whole),
        Some(total_file_bytes(&child1).unwrap() + total_file_bytes(&child2).unwrap())
    );
    let mut grown = whole.clone();
    grown.insert(2, SizeEntry { is_file: true, len: Some(100) });
    assert_eq!(total_file_bytes(&grown), Some(total_file_bytes(&whole).unwrap() + 100));
}
