use nexus::clock::VectorClock;
use nexus::files::FileEntry;
use nexus::fuse::{
    attr_from_host, child_path, entry_to_attr, load_size, rename_result, AttrStep, Errno, LoadStep,
    NexusFuse, O_RDONLY,
};
use nexus::host::{RenameResult, WriteResult};
use nexus::inode::{InodeTable, ROOT_INO};
use nexus::store::ClockStore;

#[test]
fn root_is_pinned_and_never_evicted() {
    let mut t = InodeTable::with_capacity(2);
    for i in 0..100 {
        t.ino_for_path(&format!("/file{i}"));
    }
    assert_eq!(t.path_for_ino(ROOT_INO).as_deref(), Some("/"));
    assert_eq!(t.ino_for_path("/"), ROOT_INO);
}

#[test]
fn bounded_and_evicts_least_recently_used() {
    let mut t = InodeTable::with_capacity(3);
    let a = t.ino_for_path("/a");
    let b = t.ino_for_path("/b");
    let c = t.ino_for_path("/c");
    assert_eq!(t.path_for_ino(a).as_deref(), Some("/a"));
    assert_eq!(t.path_for_ino(b).as_deref(), Some("/b"));
    let _d = t.ino_for_path("/d");
    assert!(t.path_for_ino(c).is_none(), "LRU entry should be evicted");
    assert_ne!(t.ino_for_path("/c"), c, "evicted path must get a new ino");
}

#[test]
fn roundtrips_retained_entries() {
    let mut t = InodeTable::with_capacity(10);
    let ino = t.ino_for_path("/dir/file.txt");
    assert_eq!(t.path_for_ino(ino).as_deref(), Some("/dir/file.txt"));
    assert_eq!(t.ino_for_path("/dir/file.txt"), ino);
}

#[test]
fn rename_path_preserves_inode() {
    let mut t = InodeTable::with_capacity(10);
    let ino = t.ino_for_path("/old.txt");
    let new_ino = t.rename_path("/old.txt", "/new.txt");
    assert_eq!(new_ino, Some(ino), "same inode returned");
    assert!(t.peek_ino("/old.txt").is_none(), "old path removed");
    assert_eq!(t.peek_ino("/new.txt"), Some(ino));
    assert_eq!(t.path_for_ino(ino).as_deref(), Some("/new.txt"));
}

#[test]
fn rename_path_unknown_returns_none() {
    let mut t = InodeTable::with_capacity(10);
    assert!(t.rename_path("/nonexistent", "/other").is_none());
}

#[test]
fn rename_path_cross_directory_preserves_inode() {
    let mut t = InodeTable::with_capacity(10);
    let ino = t.ino_for_path("/dir/old.txt");
    let new_ino = t.rename_path("/dir/old.txt", "/other/new.txt");
    assert_eq!(new_ino, Some(ino), "same inode across directories");
    assert!(t.peek_ino("/dir/old.txt").is_none());
    assert_eq!(t.peek_ino("/other/new.txt"), Some(ino));
}

#[test]
fn rename_path_overwrite_cleans_up_old_destination() {
    let mut t = InodeTable::with_capacity(10);
    let src_ino = t.ino_for_path("/src.txt");
    let dest_ino = t.ino_for_path("/dest.txt");
    let result = t.rename_path("/src.txt", "/dest.txt");
    assert_eq!(result, Some(src_ino));
    assert!(t.peek_ino("/src.txt").is_none(), "old src removed");
    assert_eq!(t.peek_ino("/dest.txt"), Some(src_ino));
    assert_ne!(t.path_for_ino(dest_ino).as_deref(), Some("/dest.txt"));
}

#[test]
fn numbers_are_given_in_order_and_directories_remembered() {
    let mut t = InodeTable::new();
    assert_eq!(t.ino_for_path("/a"), 2);
    assert_eq!(t.ino_for_path("/b"), 3);
    assert!(t.path_for_ino(9).is_none());
    t.track_dir("/a");
    assert!(t.is_dir("/a"));
    assert!(!t.is_dir("/b"));
}

fn entry(name: &str, is_dir: bool, size: u64, modified: i64) -> FileEntry {
    FileEntry { name: name.to_string(), is_dir, size_bytes: size, modified_unix: modified }
}

fn client() -> NexusFuse {
    NexusFuse::new("dell".to_string(), ClockStore::open(vec![]))
}

fn clock(pairs: &[(&str, u64)]) -> VectorClock {
    let mut c = VectorClock::new();
    for (d, n) in pairs {
        c.set(d, *n);
    }
    c
}

#[test]
fn paths_are_joined_below_the_root() {
    assert_eq!(child_path("/", "a"), "/a");
    assert_eq!(child_path("/d", "a"), "/d/a");
}

#[test]
fn attributes_say_what_the_host_says() {
    let f = entry_to_attr(5, &entry("f", false, 1000, 77));
    assert_eq!((f.ino, f.size, f.blocks, f.perm, f.nlink), (5, 1000, 2, 0o644, 1));
    assert_eq!(f.mtime, Some(77));
    assert!(!f.is_dir);
    let d = entry_to_attr(6, &entry("d", true, 0, -3));
    assert_eq!((d.perm, d.blocks, d.mtime), (0o755, 0, Some(0)));
    assert_eq!(attr_from_host(5, Some(None)), Err(Errno::NotFound));
    assert_eq!(attr_from_host(5, None), Err(Errno::Io));
    assert_eq!(attr_from_host(5, Some(Some(entry("f", false, 1000, 77)))), Ok(f));
    assert_eq!(load_size(&None), 0);
    assert_eq!(load_size(&Some(entry("f", false, 12, 0))), 12);
}

#[test]
fn looking_up_asks_the_host() {
    let mut c = client();
    match c.lookup(ROOT_INO, "f.txt") {
        AttrStep::Ask(p) => assert_eq!(p, "/f.txt"),
        other => panic!("{other:?}"),
    }
    let attr = c.lookup_reply("/f.txt", Some(Some(entry("f.txt", false, 4, 9)))).unwrap();
    assert_eq!(attr.ino, 2);
    assert!(matches!(c.lookup(99, "x"), AttrStep::Fail(Errno::NotFound)));
    assert_eq!(c.lookup_reply("/none", Some(None)), Err(Errno::NotFound));
    assert_eq!(c.lookup_reply("/none", None), Err(Errno::Io));
    match c.getattr(ROOT_INO) {
        AttrStep::Known(a) => assert!(a.is_dir && a.nlink == 2 && a.perm == 0o755),
        other => panic!("{other:?}"),
    }
    match c.getattr(2) {
        AttrStep::Ask(p) => assert_eq!(p, "/f.txt"),
        other => panic!("{other:?}"),
    }
}

#[test]
fn a_made_file_is_known_before_the_host_knows_it() {
    let mut c = client();
    let attr = c.create(ROOT_INO, "new.txt").unwrap();
    assert_eq!((attr.ino, attr.size), (2, 0));
    assert!(matches!(c.prepare(2), LoadStep::Ready));
    assert_eq!(c.write(2, 2, b"hi"), 2);
    match c.lookup(ROOT_INO, "new.txt") {
        AttrStep::Known(a) => assert_eq!(a.size, 4),
        other => panic!("{other:?}"),
    }
    let (data, sent) = c.flush_buffer(2, "/new.txt").unwrap();
    assert_eq!(data, b"\0\0hi");
    assert_eq!(sent.get("dell"), 1);
    assert!(!c.flush_reply(2, "/new.txt", &sent, WriteResult::Applied, &sent, 5));
    assert!(c.flush_buffer(2, "/new.txt").is_none(), "written back once");
    c.release(2);
    assert!(c.buffer_attr(2).is_none());
}

#[test]
fn writing_takes_over_what_the_host_has() {
    let mut c = client();
    c.lookup_reply("/f", Some(Some(entry("f", false, 4, 9)))).unwrap();
    match c.prepare(2) {
        LoadStep::Load(p) => assert_eq!(p, "/f"),
        other => panic!("{other:?}"),
    }
    c.ensure_loaded(2, b"abcd".to_vec());
    c.write(2, 1, b"XY");
    c.ensure_loaded(2, b"other".to_vec());
    let (data, _) = c.flush_buffer(2, "/f").unwrap();
    assert_eq!(data, b"aXYd");
}

#[test]
fn cutting_keeps_the_beginning() {
    let mut c = client();
    c.lookup_reply("/f", Some(Some(entry("f", false, 4, 9)))).unwrap();
    assert!(matches!(c.setattr(2, None), LoadStep::Ready));
    assert!(matches!(c.setattr(2, Some(2)), LoadStep::Load(_)));
    c.ensure_loaded(2, b"abcd".to_vec());
    c.truncate(2, 2);
    assert_eq!(c.flush_buffer(2, "/f").unwrap().0, b"ab");
    c.truncate(2, 3);
    assert_eq!(c.flush_buffer(2, "/f").unwrap().0, b"ab\0");
    assert!(matches!(c.setattr(2, Some(0)), LoadStep::Ready));
    assert_eq!(c.flush_buffer(2, "/f").unwrap().0, b"");
    assert!(matches!(c.setattr(77, Some(0)), LoadStep::Fail(Errno::NotFound)));
}

#[test]
fn an_edit_after_reading_dominates() {
    let mut c = client();
    c.lookup_reply("/f", Some(Some(entry("f", false, 1, 9)))).unwrap();
    assert_eq!(c.open(2, O_RDONLY).as_deref(), Some("/f"));
    assert!(c.open(2, 1).is_none(), "opened only to be written");
    c.open_reply("/f", &clock(&[("phone", 4)]), 1);
    c.ensure_loaded(2, b"x".to_vec());
    c.write(2, 0, b"y");
    let (_, sent) = c.flush_buffer(2, "/f").unwrap();
    assert_eq!((sent.get("phone"), sent.get("dell")), (4, 1));
    assert!(c.flush_reply(2, "/f", &sent, WriteResult::Conflict, &clock(&[("phone", 5)]), 2));
    assert_eq!(c.client_clocks.get("/f").get("phone"), 5);
}

#[test]
fn a_directory_is_listed_from_an_offset() {
    let mut c = client();
    let entries = vec![entry("a", false, 1, 0), entry("d", true, 0, 0)];
    let items = c.readdir(ROOT_INO, "/", &entries, 0);
    let names: Vec<&str> = items.iter().map(|i| i.name.as_str()).collect();
    assert_eq!(names, vec![".", "..", "a", "d"]);
    assert_eq!(items[3].next_offset, 4);
    assert!(items[3].is_dir);
    let rest = c.readdir(ROOT_INO, "/", &entries, 3);
    assert_eq!(rest.len(), 1);
    assert_eq!(rest[0].name, "d");
    assert_eq!(rest[0].ino, items[3].ino);
    assert_eq!(c.path_of_ino(items[2].ino).unwrap(), "/a");
    assert_eq!(c.path_of_ino(55), Err(Errno::NotFound));
}

#[test]
fn deleting_tells_the_host_and_drops_the_buffer() {
    let mut c = client();
    c.create(ROOT_INO, "f").unwrap();
    let (path, sent) = c.unlink(ROOT_INO, "f").unwrap();
    assert_eq!(path, "/f");
    assert_eq!(sent.get("dell"), 1);
    c.unlink_reply("/f", &sent, &clock(&[("dell", 1), ("phone", 2)]), 3);
    assert!(c.buffer_attr(2).is_none());
    assert_eq!(c.client_clocks.get("/f").get("phone"), 2);
    assert_eq!(c.unlink(44, "f").unwrap_err(), Errno::NotFound);
}

#[test]
fn renaming_moves_the_number_and_the_clock() {
    let mut c = client();
    c.create(ROOT_INO, "f").unwrap();
    let (old, new, sent) = c.rename(ROOT_INO, "f", ROOT_INO, "g", 0).unwrap();
    assert_eq!((old.as_str(), new.as_str()), ("/f", "/g"));
    c.rename_reply("/f", "/g", &sent, Some(RenameResult::Renamed), &clock(&[("h", 1)]), "", 4).unwrap();
    assert_eq!(c.inodes.peek_ino("/g"), Some(2));
    assert_eq!(c.client_clocks.get("/g").get("h"), 1);
    assert!(c.client_clocks.get("/f").is_empty());
    assert_eq!(c.rename(ROOT_INO, "g", ROOT_INO, "h", 1).unwrap_err(), Errno::Invalid);
    assert_eq!(c.rename(9, "g", ROOT_INO, "h", 0).unwrap_err(), Errno::NotFound);
    c.lookup_reply("/d", Some(Some(entry("d", true, 0, 0)))).unwrap();
    assert_eq!(c.rename(ROOT_INO, "d", ROOT_INO, "e", 0).unwrap_err(), Errno::IsDirectory);
}

#[test]
fn the_copy_of_a_conflicting_rename_gets_a_number() {
    let mut c = client();
    c.create(ROOT_INO, "f").unwrap();
    let (_, _, sent) = c.rename(ROOT_INO, "f", ROOT_INO, "g", 0).unwrap();
    let seen = clock(&[("h", 1)]);
    let copy = "f.conflict-dell-5";
    c.rename_reply("/f", "/g", &sent, Some(RenameResult::Conflict), &seen, copy, 4).unwrap();
    assert_eq!(c.inodes.peek_ino("/g"), Some(2));
    assert_eq!(c.inodes.peek_ino("/f.conflict-dell-5"), Some(3));
    assert_eq!(c.inodes.peek_ino("/f"), None);
    assert_eq!(c.client_clocks.get("/g").get("h"), 1);
    c.rename_reply("/g", "/k", &sent, Some(RenameResult::Conflict), &seen, "", 4).unwrap();
    assert_eq!(c.inodes.peek_ino("/k"), Some(2));
    assert_eq!(c.inodes.peek_ino("/"), Some(ROOT_INO));
}

#[test]
fn a_rename_that_failed_is_an_error() {
    let mut c = client();
    let none = VectorClock::new();
    let stale = c.rename_reply("/f", "/g", &none, Some(RenameResult::Stale), &clock(&[("h", 1)]), "", 4);
    assert_eq!(stale, Err(Errno::Stale));
    assert_eq!(c.client_clocks.get("/f").get("h"), 1);
    let missing = c.rename_reply("/f", "/g", &none, Some(RenameResult::NotFound), &none, "", 4);
    assert_eq!(missing, Err(Errno::NotFound));
    assert_eq!(c.rename_reply("/f", "/g", &none, None, &none, "", 4), Err(Errno::Io));
    assert_eq!(rename_result(0), Some(RenameResult::Renamed));
    assert_eq!(rename_result(17), None);
}
