use verbose::indexed_fs::{ChangeDates, DirSnapshot, EntrySnapshot, FsElement, FsProbe, IndexedDirectory, IndexedFile};
use verbose::library_parser::LibraryParser;

fn file_probe(date: u128) -> FsProbe {
    FsProbe { exists: true, is_file: true, is_dir: false, change_date: Some(date) }
}

fn dir_probe(date: u128) -> FsProbe {
    FsProbe { exists: true, is_file: false, is_dir: true, change_date: Some(date) }
}

fn dates(pairs: &[(&str, Option<u128>)]) -> ChangeDates {
    ChangeDates { dates: pairs.iter().map(|(p, d)| (p.to_string(), *d)).collect() }
}

fn tree() -> DirSnapshot {
    DirSnapshot {
        path: "/lib".to_string(),
        probe: dir_probe(100),
        entries: Some(vec![
            EntrySnapshot::Other("/lib/a.dsf".to_string(), file_probe(1)),
            EntrySnapshot::Dir(DirSnapshot {
                path: "/lib/sub".to_string(),
                probe: dir_probe(200),
                entries: Some(vec![
                    EntrySnapshot::Dir(DirSnapshot {
                        path: "/lib/sub/deep".to_string(),
                        probe: dir_probe(300),
                        entries: Some(vec![]),
                    }),
                    EntrySnapshot::Other("/lib/sub/b.dff".to_string(), file_probe(2)),
                ]),
            }),
            EntrySnapshot::Dir(DirSnapshot {
                path: "/lib/locked".to_string(),
                probe: dir_probe(400),
                entries: None,
            }),
            EntrySnapshot::Other(
                "/lib/broken".to_string(),
                FsProbe { exists: false, is_file: false, is_dir: false, change_date: None },
            ),
        ]),
    }
}

#[test]
fn indexed_file_needs_a_regular_file_with_a_date() {
    let f = IndexedFile::new("/x".to_string(), &file_probe(5)).unwrap();
    assert_eq!(f.get_path(), "/x");
    assert_eq!(f.get_saved_change_date(), 5);
    assert!(IndexedFile::new("/x".to_string(), &FsProbe { change_date: None, ..file_probe(5) }).is_none());
    assert!(IndexedFile::new("/x".to_string(), &dir_probe(5)).is_none());
    assert!(IndexedFile::new("/x".to_string(), &FsProbe { exists: false, ..file_probe(5) }).is_none());
}

#[test]
fn directory_tree_is_indexed_depth_first() {
    let mut indexed = Vec::new();
    let root = IndexedDirectory::new(&tree(), &mut indexed).unwrap();
    assert_eq!(root.get_path(), "/lib");
    assert_eq!(root.get_saved_change_date(), 100);
    assert_eq!(root.children().len(), 1);
    assert_eq!(root.children()[0].get_path(), "/lib/a.dsf");
    assert_eq!(root.children_directories(), &vec!["/lib/sub".to_string(), "/lib/locked".to_string()]);
    let paths: Vec<&str> = indexed.iter().map(|d| d.get_path()).collect();
    assert_eq!(paths, vec!["/lib/sub/deep", "/lib/sub"]);
    assert_eq!(indexed[1].children().len(), 1);
    assert_eq!(indexed[1].children_directories(), &vec!["/lib/sub/deep".to_string()]);
}

#[test]
fn unreadable_directories_are_not_indexed() {
    let mut indexed = Vec::new();
    let d = DirSnapshot { path: "/x".to_string(), probe: dir_probe(1), entries: None };
    assert!(IndexedDirectory::new(&d, &mut indexed).is_none());
    let d = DirSnapshot { path: "/x".to_string(), probe: file_probe(1), entries: Some(vec![]) };
    assert!(IndexedDirectory::new(&d, &mut indexed).is_none());
    let d = DirSnapshot {
        path: "/x".to_string(),
        probe: FsProbe { change_date: None, ..dir_probe(1) },
        entries: Some(vec![]),
    };
    assert!(IndexedDirectory::new(&d, &mut indexed).is_none());
    assert!(indexed.is_empty());
}

#[test]
fn file_recheck() {
    let f = IndexedFile::new("/x/a".to_string(), &file_probe(5)).unwrap();
    assert!(!f.recheck_needed(&dates(&[("/x/a", Some(5))])));
    assert!(!f.recheck_needed(&dates(&[("/x//a/", Some(5))])));
    assert!(f.recheck_needed(&dates(&[("/x/a", Some(6))])));
    assert!(f.recheck_needed(&dates(&[("/x/a", None)])));
    assert!(f.recheck_needed(&dates(&[])));
    assert_eq!(f.get_current_change_date(&dates(&[("/y", Some(1)), ("/x/a", Some(9)), ("/x/a", Some(3))])), Some(9));
}

#[test]
fn law_unchanged_directory_needs_no_recheck() {
    let mut indexed = Vec::new();
    let root = IndexedDirectory::new(&tree(), &mut indexed).unwrap();
    assert!(!root.recheck_needed(&dates(&[("/lib", Some(100)), ("/lib/a.dsf", Some(1))])));
    assert!(root.recheck_needed(&dates(&[("/lib", Some(101)), ("/lib/a.dsf", Some(1))])));
    assert!(root.recheck_needed(&dates(&[("/lib", Some(100)), ("/lib/a.dsf", Some(2))])));
}

#[test]
fn law_directory_without_files_needs_recheck() {
    let mut indexed = Vec::new();
    IndexedDirectory::new(&tree(), &mut indexed).unwrap();
    let deep = &indexed[0];
    assert!(deep.children().is_empty());
    assert!(deep.recheck_needed(&dates(&[("/lib/sub/deep", Some(300))])));
}

#[test]
fn law_fresh_file_needs_no_recheck() {
    for d in [0u128, 7, u128::MAX] {
        let f = IndexedFile::new("/p".to_string(), &file_probe(d)).unwrap();
        assert!(!f.recheck_needed(&dates(&[("/p", Some(d))])));
    }
}

#[test]
fn index_lookup_by_path() {
    let mut indexed = Vec::new();
    IndexedDirectory::new(&tree(), &mut indexed).unwrap();
    let found = LibraryParser::check_if_path_in_index("/lib/sub/".to_string(), &indexed).unwrap();
    assert_eq!(found.get_path(), "/lib/sub");
    assert!(LibraryParser::check_if_path_in_index("/lib/none".to_string(), &indexed).is_none());
}

#[test]
fn iterate_directory_changes_nothing() {
    let mut indexed = Vec::new();
    IndexedDirectory::new(&tree(), &mut indexed).unwrap();
    let mut albums: Vec<String> = vec!["kept".to_string()];
    LibraryParser::iterate_directory("/lib".to_string(), &mut indexed, &mut albums);
    assert_eq!(indexed.len(), 2);
    assert_eq!(albums, vec!["kept".to_string()]);
}

#[test]
fn law_indexed_directories_lie_below_root() {
    let mut indexed = Vec::new();
    IndexedDirectory::new(&tree(), &mut indexed).unwrap();
    for d in &indexed {
        let p = std::path::Path::new(d.get_path());
        assert!(p.starts_with("/lib"));
        assert_ne!(p, std::path::Path::new("/lib"));
    }
}
