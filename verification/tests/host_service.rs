//! The serving side, run against files that are kept in memory.
use std::collections::{BTreeMap, BTreeSet};

use nexus::clock::VectorClock;
use nexus::files::{
    after_read, file_entry, read_want, resolve, resolve_for_write, same_bytes, starts_with, stat,
    stat_full, FileMeta, StatReply, TempFile, CHUNK_SIZE,
};
use nexus::host::{
    clock_key, open_write_stream, sanitize_device_id, write_chunks, DeleteFileRequest, DeletePlan, DeleteResult,
    FileServiceImpl, RenameFileRequest, RenamePlan, RenameResult, Step, Touched, WriteFileChunk,
    WriteFileRequest, WritePlan, WriteResult,
};
use nexus::status::{Code, Status};
use nexus::store::{ClockStore, TombstoneStore};

const NOW: u64 = 1_700_000_000;

/// A served directory in memory, with the paths in it and beside it.
struct Served {
    service: FileServiceImpl,
    files: BTreeMap<String, Vec<u8>>,
    dirs: BTreeSet<String>,
    outside: BTreeSet<String>,
}

fn components(path: &str) -> Vec<Vec<u8>> {
    path.split('/').filter(|p| !p.is_empty()).map(|p| p.as_bytes().to_vec()).collect()
}

fn clock(pairs: &[(&str, u64)]) -> VectorClock {
    let mut c = VectorClock::new();
    for (d, n) in pairs {
        c.set(d, *n);
    }
    c
}

impl Served {
    fn new() -> Served {
        Served {
            service: FileServiceImpl {
                clocks: ClockStore::open(vec![]),
                tombstones: TombstoneStore::open(vec![]),
            },
            files: BTreeMap::new(),
            dirs: BTreeSet::new(),
            outside: BTreeSet::new(),
        }
    }

    fn root(&self) -> Vec<Vec<u8>> {
        components("srv/share")
    }

    /// The path with `..` resolved, if something is there.
    fn canonical(&self, requested: &str) -> Option<Vec<Vec<u8>>> {
        let mut at: Vec<String> = vec!["srv".to_string(), "share".to_string()];
        for part in requested.split('/') {
            if part.is_empty() || part == "." {
                continue;
            }
            if part == ".." {
                at.pop();
            } else {
                at.push(part.to_string());
            }
        }
        let full = at.join("/");
        let there = match full.strip_prefix("srv/share/") {
            Some(rel) => self.files.contains_key(rel) || self.dirs.contains(rel),
            None => full == "srv/share" || self.outside.contains(&full),
        };
        if there {
            Some(components(&full))
        } else {
            None
        }
    }

    fn find(&self, requested: &str) -> Result<(), Status> {
        resolve(&self.root(), self.canonical(requested).as_ref())
    }

    fn place(&self, requested: &str) -> Result<(), Status> {
        let trimmed = requested.trim_start_matches('/');
        let (parent, name) = match trimmed.rsplit_once('/') {
            Some((p, n)) => (p, n),
            None => ("", trimmed),
        };
        resolve_for_write(
            &self.root(),
            true,
            self.canonical(parent).as_ref(),
            !name.is_empty() && name != "..",
        )
    }

    fn perform(&mut self, steps: &[Step], data: &[u8]) {
        for step in steps {
            match step {
                Step::Store { key } => {
                    self.files.insert(key.clone(), data.to_vec());
                }
                Step::CreateDir { key } => {
                    self.dirs.insert(key.clone());
                }
                Step::CreateEmpty { key } => {
                    self.files.insert(key.clone(), vec![]);
                }
                Step::RemoveFile { key } => {
                    self.files.remove(key);
                }
                Step::MoveFile { from, to } => {
                    let content = self.files.remove(from).unwrap();
                    self.files.insert(to.clone(), content);
                }
                Step::CopyFile { from, to } => {
                    let content = self.files[from].clone();
                    self.files.insert(to.clone(), content);
                }
                _ => {}
            }
            let touched = self.service.apply(step, NOW);
            let on_files = matches!(
                step,
                Step::Store { .. }
                    | Step::CreateDir { .. }
                    | Step::CreateEmpty { .. }
                    | Step::RemoveFile { .. }
                    | Step::MoveFile { .. }
                    | Step::CopyFile { .. }
            );
            assert!(!on_files || matches!(touched, Touched::Nothing));
        }
    }

    fn write(&mut self, path: &str, data: &[u8], pairs: &[(&str, u64)], writer: &str) -> WritePlan {
        let request = WriteFileRequest {
            path: path.to_string(),
            data: data.to_vec(),
            clock: Some(clock(pairs)),
            writer_device_id: writer.to_string(),
        };
        let plan = self.service.write_file(&request, &self.place(path), NOW).unwrap();
        self.perform(&plan.steps, data);
        plan
    }

    fn try_delete(&mut self, path: &str, pairs: &[(&str, u64)]) -> Result<DeletePlan, Status> {
        let request = DeleteFileRequest { path: path.to_string(), clock: Some(clock(pairs)) };
        let plan = self.service.delete_file(&request, &self.find(path))?;
        self.perform(&plan.steps, b"");
        Ok(plan)
    }

    fn delete(&mut self, path: &str, pairs: &[(&str, u64)]) -> DeletePlan {
        self.try_delete(path, pairs).unwrap()
    }

    fn rename(&mut self, old: &str, new: &str, pairs: &[(&str, u64)]) -> RenamePlan {
        let request = RenameFileRequest {
            old_path: old.to_string(),
            new_path: new.to_string(),
            clock: Some(clock(pairs)),
            writer_device_id: "dell".to_string(),
        };
        let (found, dest) = (self.find(old), self.place(new));
        let plan = self.service.rename_file(&request, &found, &dest, NOW).unwrap();
        self.perform(&plan.steps, b"");
        plan
    }

    fn conflict_files(&self) -> Vec<String> {
        self.files.keys().filter(|n| n.contains(".conflict-")).cloned().collect()
    }

    fn content(&self, name: &str) -> &[u8] {
        &self.files[name]
    }

    fn is_there(&self, name: &str) -> bool {
        self.files.contains_key(name)
    }

    fn stat(&self, path: &str) -> StatReply {
        let located = match self.find(path) {
            Ok(()) => Some((
                path.rsplit('/').next().map(|n| n.to_string()),
                FileMeta {
                    is_dir: false,
                    size_bytes: self.files[path].len() as u64,
                    modified_unix: Some(7),
                },
            )),
            Err(_) => None,
        };
        stat(&self.service.clocks, path, located)
    }
}

#[test]
fn test1_client_writes_new_file() {
    let mut s = Served::new();
    let plan = s.write("new.txt", b"hello", &[("dell", 1)], "dell");
    assert_eq!(plan.reply.result, WriteResult::Applied);
    assert_eq!(s.content("new.txt"), b"hello");
    assert_eq!(plan.reply.clock.get("dell"), 1);
    assert_eq!(s.service.clocks.get("new.txt").get("dell"), 1);
}

#[test]
fn test2_sequential_edits_no_conflict() {
    let mut s = Served::new();
    let r1 = s.write("f.txt", b"v1", &[("dell", 1)], "dell");
    assert_eq!(r1.reply.result, WriteResult::Applied);
    let r2 = s.write("f.txt", b"v2", &[("dell", 1), ("host", 1)], "host");
    assert_eq!(
        r2.reply.result,
        WriteResult::Applied,
        "dominance must resolve cleanly, not as a conflict"
    );
    assert_eq!(s.content("f.txt"), b"v2");
    assert!(s.conflict_files().is_empty(), "no conflict file expected");
}

#[test]
fn test3_concurrent_edit_is_conflict() {
    let mut s = Served::new();
    s.write("f.txt", b"base", &[("dell", 1)], "dell");
    let rh = s.write("f.txt", b"host-edit", &[("dell", 1), ("host", 1)], "host");
    assert_eq!(rh.reply.result, WriteResult::Applied);
    let rc = s.write("f.txt", b"client-edit", &[("dell", 2)], "dell");
    assert_eq!(
        rc.reply.result,
        WriteResult::Conflict,
        "concurrent edit must be detected as a conflict"
    );
    assert!(!rc.reply.conflict_path.is_empty());
    assert_eq!(s.content("f.txt"), b"host-edit");
    assert_eq!(s.content(&rc.reply.conflict_path), b"client-edit");
    assert!(
        rc.reply.conflict_path.contains(".conflict-dell-"),
        "unexpected conflict name: {}",
        rc.reply.conflict_path
    );
    assert_eq!(rc.reply.conflict_path, "f.txt.conflict-dell-1700000000");
}

#[test]
fn stat_returns_the_files_clock() {
    let mut s = Served::new();
    s.write("f.txt", b"hi", &[("dell", 3)], "dell");
    let resp = s.stat("f.txt");
    assert!(resp.found);
    assert_eq!(resp.clock.as_ref().unwrap().get("dell"), 3);
    let (entry, seen) = stat_full(resp).unwrap();
    assert_eq!(entry.name, "f.txt");
    assert_eq!(entry.size_bytes, 2);
    assert_eq!(entry.modified_unix, 7);
    assert_eq!(seen.get("dell"), 3);

    s.files.insert("plain.txt".to_string(), b"x".to_vec());
    let r2 = s.stat("plain.txt");
    assert!(r2.found);
    assert!(r2.clock.unwrap().is_empty());

    let missing = s.stat("nothing.txt");
    assert!(!missing.found);
    assert!(stat_full(missing).is_none());
}

#[test]
fn a_reply_without_a_clock_has_seen_nothing() {
    let meta = FileMeta { is_dir: true, size_bytes: 0, modified_unix: None };
    let entry = file_entry("d".to_string(), meta);
    assert_eq!(entry.modified_unix, 0);
    let full = stat_full(StatReply { entry: Some(entry), found: true, clock: None }).unwrap();
    assert!(full.0.is_dir);
    assert!(full.1.is_empty());
    assert!(stat_full(StatReply { entry: None, found: true, clock: None }).is_none());
}

#[test]
fn delete_clean_records_tombstone() {
    let mut s = Served::new();
    s.write("f.txt", b"v1", &[("dell", 1)], "dell");
    let r = s.delete("f.txt", &[("dell", 2)]);
    assert_eq!(r.reply.result, DeleteResult::Deleted);
    assert!(!s.is_there("f.txt"), "file should be gone");
    assert_eq!(s.service.tombstones.get("f.txt").get("dell"), 2, "tombstone recorded");
    assert!(s.service.clocks.get("f.txt").is_empty(), "live clock cleared");
}

#[test]
fn delete_stale_is_ignored() {
    let mut s = Served::new();
    s.write("f.txt", b"v1", &[("dell", 1)], "dell");
    s.write("f.txt", b"v2", &[("dell", 2)], "dell");
    let r = s.delete("f.txt", &[("dell", 1)]);
    assert_eq!(r.reply.result, DeleteResult::Stale);
    assert!(s.is_there("f.txt"), "stale delete must not remove the file");
}

#[test]
fn delete_concurrent_with_edit_keeps_file() {
    let mut s = Served::new();
    s.write("f.txt", b"v1", &[("dell", 1)], "dell");
    s.write("f.txt", b"v2", &[("dell", 2)], "dell");
    let r = s.delete("f.txt", &[("dell", 1), ("phone", 1)]);
    assert_eq!(r.reply.result, DeleteResult::Conflict);
    assert!(s.is_there("f.txt"), "concurrent edit must be preserved");
    assert_eq!(s.content("f.txt"), b"v2");
    assert!(s.service.tombstones.get("f.txt").is_empty(), "no tombstone on conflict");
}

#[test]
fn write_concurrent_with_tombstone_resurrects() {
    let mut s = Served::new();
    s.write("f.txt", b"v1", &[("dell", 1)], "dell");
    s.delete("f.txt", &[("dell", 2)]);
    assert!(!s.is_there("f.txt"));
    let r = s.write("f.txt", b"phone-edit", &[("dell", 1), ("phone", 1)], "phone");
    assert_eq!(r.reply.result, WriteResult::Conflict);
    assert!(s.is_there("f.txt"), "edit should resurrect the file");
    assert_eq!(s.content("f.txt"), b"phone-edit");
    assert!(s.service.tombstones.get("f.txt").is_empty(), "tombstone cleared");
}

#[test]
fn write_dominating_tombstone_resurrects_cleanly() {
    let mut s = Served::new();
    s.write("f.txt", b"v1", &[("dell", 1)], "dell");
    s.delete("f.txt", &[("dell", 2)]);
    let r = s.write("f.txt", b"recreated", &[("dell", 3)], "dell");
    assert_eq!(r.reply.result, WriteResult::Applied);
    assert!(s.is_there("f.txt"));
    assert!(s.service.tombstones.get("f.txt").is_empty());
}

#[test]
fn write_stale_to_tombstone_stays_deleted() {
    let mut s = Served::new();
    s.write("f.txt", b"v1", &[("dell", 1)], "dell");
    s.delete("f.txt", &[("dell", 2)]);
    let r = s.write("f.txt", b"stale", &[("dell", 1)], "dell");
    assert_eq!(r.reply.result, WriteResult::Stale);
    assert!(!s.is_there("f.txt"), "stale write must not resurrect");
}

#[test]
fn delete_rejects_path_escape() {
    let mut s = Served::new();
    s.outside.insert("srv/secret.txt".to_string());
    let err = s.try_delete("../secret.txt", &[("dell", 1)]).unwrap_err();
    assert_eq!(
        err.code,
        Code::PermissionDenied,
        "path escape must be denied, not reported NOT_FOUND"
    );
    assert_eq!(err.message, "path escapes served root");
    assert!(s.outside.contains("srv/secret.txt"), "the outside file must be untouched");
}

#[test]
fn rename_same_directory_preserves_clock_and_content() {
    let mut s = Served::new();
    s.write("old.txt", b"hello", &[("dell", 1)], "dell");
    let r = s.rename("old.txt", "new.txt", &[("dell", 2)]);
    assert_eq!(r.reply.result, RenameResult::Renamed);
    assert!(s.is_there("new.txt"));
    assert!(!s.is_there("old.txt"));
    assert_eq!(s.content("new.txt"), b"hello");
    assert_eq!(s.service.clocks.get("new.txt").get("dell"), 2);
    assert!(s.service.clocks.get("old.txt").is_empty());
    assert!(r.reply.conflict_path.is_empty());
}

#[test]
fn rename_cross_directory_moves_clock_and_content() {
    let mut s = Served::new();
    s.dirs.insert("subdir".to_string());
    s.write("old.txt", b"cross-dir", &[("dell", 1)], "dell");
    let r = s.rename("old.txt", "subdir/moved.txt", &[("dell", 2)]);
    assert_eq!(r.reply.result, RenameResult::Renamed);
    assert!(!s.is_there("old.txt"));
    assert!(s.is_there("subdir/moved.txt"));
    assert_eq!(s.content("subdir/moved.txt"), b"cross-dir");
    assert_eq!(s.service.clocks.get("subdir/moved.txt").get("dell"), 2);
    assert!(s.service.clocks.get("old.txt").is_empty());
}

#[test]
fn rename_nonexistent_returns_not_found() {
    let mut s = Served::new();
    let r = s.rename("nonexistent.txt", "new.txt", &[("dell", 1)]);
    assert_eq!(r.reply.result, RenameResult::NotFound);
    assert!(!s.is_there("new.txt"));
}

#[test]
fn rename_stale_is_ignored() {
    let mut s = Served::new();
    s.write("f.txt", b"v1", &[("dell", 1)], "dell");
    s.write("f.txt", b"v2", &[("dell", 2)], "dell");
    let r = s.rename("f.txt", "renamed.txt", &[("dell", 1)]);
    assert_eq!(r.reply.result, RenameResult::Stale);
    assert!(s.is_there("f.txt"), "file stays at old path");
    assert!(!s.is_there("renamed.txt"), "rename did not happen");
    assert_eq!(s.content("f.txt"), b"v2");
}

#[test]
fn rename_of_deleted_file_is_stale() {
    let mut s = Served::new();
    s.write("f.txt", b"v1", &[("dell", 1)], "dell");
    s.delete("f.txt", &[("dell", 2)]);
    let r = s.rename("f.txt", "renamed.txt", &[("dell", 1)]);
    assert_eq!(r.reply.result, RenameResult::Stale);
    assert!(!s.is_there("renamed.txt"));
}

#[test]
fn a_stale_write_changes_nothing() {
    let mut s = Served::new();
    s.write("f.txt", b"v2", &[("dell", 2)], "dell");
    let r = s.write("f.txt", b"v1", &[("dell", 1)], "dell");
    assert_eq!(r.reply.result, WriteResult::Stale);
    assert!(r.steps.is_empty());
    assert_eq!(r.reply.clock.get("dell"), 2);
    assert_eq!(s.content("f.txt"), b"v2");
}

#[test]
fn an_equal_clock_is_applied() {
    let mut s = Served::new();
    s.write("f.txt", b"v1", &[("dell", 1)], "dell");
    let r = s.write("f.txt", b"again", &[("dell", 1)], "dell");
    assert_eq!(r.reply.result, WriteResult::Applied);
    assert_eq!(s.content("f.txt"), b"again");
}

#[test]
fn content_is_stored_before_its_clock() {
    let mut s = Served::new();
    let plan = s.write("f.txt", b"v1", &[("dell", 1)], "dell");
    assert!(matches!(plan.steps[0], Step::Store { .. }));
    assert!(matches!(plan.steps[1], Step::PutClock { .. }));
}

#[test]
fn deleting_again_is_deleted_again() {
    let mut s = Served::new();
    s.write("f.txt", b"v1", &[("dell", 1)], "dell");
    s.delete("f.txt", &[("dell", 2)]);
    let r = s.delete("f.txt", &[("phone", 1)]);
    assert_eq!(r.reply.result, DeleteResult::Deleted);
    assert_eq!(s.service.tombstones.get("f.txt").get("dell"), 2);
    assert_eq!(s.service.tombstones.get("f.txt").get("phone"), 1);
}

#[test]
fn deleting_nothing_is_not_found() {
    let mut s = Served::new();
    let r = s.delete("f.txt", &[("dell", 1)]);
    assert_eq!(r.reply.result, DeleteResult::NotFound);
    assert!(r.steps.is_empty());
}

#[test]
fn renaming_a_file_deleted_meanwhile_is_a_conflict() {
    let mut s = Served::new();
    s.write("f.txt", b"v1", &[("dell", 1)], "dell");
    s.delete("f.txt", &[("dell", 2)]);
    let r = s.rename("f.txt", "g.txt", &[("dell", 1), ("phone", 1)]);
    assert_eq!(r.reply.result, RenameResult::Conflict);
    assert_eq!(s.content("g.txt"), b"");
    assert!(s.service.tombstones.get("f.txt").is_empty());
}

#[test]
fn renaming_a_file_edited_meanwhile_keeps_both() {
    let mut s = Served::new();
    s.write("f.txt", b"v1", &[("phone", 1)], "phone");
    s.write("f.txt", b"v2", &[("phone", 2)], "phone");
    s.write("other.txt", b"other", &[("phone", 1)], "phone");
    let r = s.rename("f.txt", "g.txt", &[("phone", 1), ("dell", 1)]);
    let copy = "f.txt.conflict-dell-1700000000";
    assert_eq!(r.reply.result, RenameResult::Conflict);
    assert_eq!(r.reply.conflict_path, copy);
    assert_eq!((r.reply.clock.get("phone"), r.reply.clock.get("dell")), (2, 1));
    assert!(!s.is_there("f.txt"));
    assert!(s.service.clocks.get("f.txt").is_empty());
    assert_eq!(s.content("g.txt"), b"v2");
    assert_eq!(s.content(copy), b"v2");
    let moved = s.service.clocks.get("g.txt");
    assert_eq!((moved.get("phone"), moved.get("dell")), (2, 1));
    let kept = s.service.clocks.get(copy);
    assert_eq!((kept.get("phone"), kept.get("dell")), (1, 1));
    assert_eq!(s.content("other.txt"), b"other");
    assert!(matches!(r.steps[0], Step::CopyFile { .. }));
    assert_eq!(r.steps.len(), 6);
}

#[test]
fn a_copy_of_a_rename_is_named_after_a_plain_writer() {
    let mut s = Served::new();
    s.write("d.txt", b"v", &[("phone", 1)], "phone");
    for (writer, name) in [("", "unknown"), ("../up", "___up")] {
        let request = RenameFileRequest {
            old_path: "/d.txt".to_string(),
            new_path: "e.txt".to_string(),
            clock: Some(clock(&[("dell", 1)])),
            writer_device_id: writer.to_string(),
        };
        let plan = s.service.rename_file(&request, &Ok(()), &Ok(()), 5).unwrap();
        assert_eq!(plan.reply.conflict_path, format!("d.txt.conflict-{name}-5"));
    }
}

#[test]
fn the_root_is_refused() {
    let s = Served::new();
    let write = WriteFileRequest {
        path: "/".to_string(),
        data: vec![],
        clock: None,
        writer_device_id: String::new(),
    };
    let e = s.service.write_file(&write, &Ok(()), NOW).unwrap_err();
    assert_eq!(e.code, Code::InvalidArgument);
    assert_eq!(e.message, "cannot write the root path");
    let delete = DeleteFileRequest { path: "//".to_string(), clock: None };
    let e = s.service.delete_file(&delete, &Ok(())).unwrap_err();
    assert_eq!(e.message, "cannot delete the root path");
    let rename = RenameFileRequest {
        old_path: "a".to_string(),
        new_path: "/".to_string(),
        clock: None,
        writer_device_id: String::new(),
    };
    let e = s.service.rename_file(&rename, &Ok(()), &Ok(()), NOW).unwrap_err();
    assert_eq!(e.message, "cannot rename root path");
}

#[test]
fn a_write_without_a_parent_is_refused() {
    let mut s = Served::new();
    s.outside.insert("srv".to_string());
    let request = WriteFileRequest {
        path: "nowhere/f.txt".to_string(),
        data: vec![],
        clock: None,
        writer_device_id: String::new(),
    };
    let e = s.service.write_file(&request, &s.place("nowhere/f.txt"), NOW).unwrap_err();
    assert_eq!(e.code, Code::NotFound);
    assert_eq!(e.message, "parent directory not found");
    let e = s.place("../f.txt").unwrap_err();
    assert_eq!(e.code, Code::PermissionDenied);
    let e = resolve_for_write(&s.root(), false, None, true).unwrap_err();
    assert_eq!(e.message, "path has no parent");
    let e = resolve_for_write(&s.root(), true, Some(&s.root()), false).unwrap_err();
    assert_eq!(e.message, "path has no file name");
}

#[test]
fn a_stream_is_decided_like_a_whole_write() {
    let mut s = Served::new();
    s.write("f.txt", b"base", &[("dell", 1), ("host", 1)], "host");
    let first = WriteFileChunk {
        path: "/f.txt".to_string(),
        data: b"ab".to_vec(),
        clock: Some(clock(&[("dell", 2)])),
        writer_device_id: "a/b".to_string(),
    };
    let target = open_write_stream(Some(&first)).unwrap();
    assert_eq!(target.key, "f.txt");
    assert_eq!(target.writer, "a_b");
    let plan = s.service.write_file_stream(&target, &Ok(()), NOW).unwrap();
    assert_eq!(plan.reply.result, WriteResult::Conflict);
    assert_eq!(plan.reply.conflict_path, "f.txt.conflict-a_b-1700000000");
    let refused = Status::new(Code::NotFound, "parent directory not found");
    assert_eq!(
        s.service.write_file_stream(&target, &Err(refused), NOW).unwrap_err().code,
        Code::NotFound
    );
    assert_eq!(open_write_stream(None).unwrap_err().code, Code::InvalidArgument);
}

#[test]
fn names_are_made_safe() {
    assert_eq!(clock_key("//a/b"), "a/b");
    assert_eq!(clock_key("/"), "");
    assert_eq!(sanitize_device_id("../x y-Z_1"), "___x_y-Z_1");
    assert_eq!(sanitize_device_id("ü"), "ü");
}

#[test]
fn paths_below_the_root_start_with_it() {
    assert!(starts_with(&components("srv/share/a"), &components("srv/share")));
    assert!(!starts_with(&components("srv/shared"), &components("srv/share")));
    assert!(same_bytes(b"ab", b"ab"));
    assert!(!same_bytes(b"ab", b"a"));
}

#[test]
fn a_range_is_read_in_pieces() {
    assert_eq!(read_want(10), 10);
    assert_eq!(read_want(100_000), CHUNK_SIZE);
    assert_eq!(after_read(100_000, CHUNK_SIZE), Some(34_464));
    assert_eq!(after_read(100_000, 0), None);
}

#[test]
fn a_temporary_file_is_left_over_until_it_is_moved() {
    let mut t = TempFile::new("f.tmp".to_string());
    assert_eq!(t.path(), "f.tmp");
    assert!(t.leftover());
    t.mark_committed();
    assert!(!t.leftover());
}

#[test]
fn a_write_into_a_deleted_directory_makes_it_again() {
    let mut s = Served::new();
    s.write("work", b"x", &[("dell", 1)], "dell");
    s.delete("work", &[("dell", 2)]);
    let plan = s.write("work/report.txt", b"text", &[("phone", 1)], "phone");
    assert!(matches!(&plan.steps[0], Step::CreateDir { key } if key == "work"));
    assert_eq!(plan.reply.result, WriteResult::Applied);
    assert!(s.dirs.contains("work"));
    assert_eq!(s.content("work/report.txt"), b"text");
    assert_eq!(s.service.tombstones.get("work").get("dell"), 2, "the record stays");

    let stale = WriteFileRequest {
        path: "work/report.txt".to_string(),
        data: vec![],
        clock: None,
        writer_device_id: String::new(),
    };
    let missing = Status::new(Code::NotFound, "parent directory not found");
    let plan = s.service.write_file(&stale, &Err(missing), NOW).unwrap();
    assert_eq!(plan.reply.result, WriteResult::Stale);
    assert!(plan.steps.is_empty());
}

#[test]
fn a_large_file_is_sent_in_pieces() {
    let data: Vec<u8> = (0..150_000u32).map(|i| (i % 251) as u8).collect();
    let chunks = write_chunks("/f.bin", &data, &clock(&[("dell", 1)]), "dell");
    let sizes: Vec<usize> = chunks.iter().map(|c| c.data.len()).collect();
    assert_eq!(sizes, vec![65_536, 65_536, 18_928]);
    let joined: Vec<u8> = chunks.iter().flat_map(|c| c.data.clone()).collect();
    assert_eq!(joined, data);
    assert!(chunks[1].path.is_empty() && chunks[1].clock.is_none());
    let target = open_write_stream(Some(&chunks[0])).unwrap();
    assert_eq!((target.key.as_str(), target.incoming.get("dell")), ("f.bin", 1));
    let empty = write_chunks("/e", &vec![], &clock(&[]), "dell");
    assert_eq!(empty.len(), 1);
    assert_eq!(empty[0].path, "/e");
    assert_eq!(write_chunks("/x", &vec![7; 65_536], &clock(&[]), "d").len(), 1);
}

#[test]
fn a_conflict_copy_stays_beside_its_file() {
    let mut s = Served::new();
    s.write("f.txt", b"base", &[("dell", 1), ("host", 1)], "host");
    let r = s.write("f.txt", b"other", &[("dell", 2)], "a/b");
    assert_eq!(r.reply.result, WriteResult::Conflict);
    assert_eq!(r.reply.conflict_path, "f.txt.conflict-a_b-1700000000");
    assert_eq!(s.content("f.txt.conflict-a_b-1700000000"), b"other");
    let r = s.write("f.txt", b"nobody", &[("dell", 3)], "");
    assert_eq!(r.reply.conflict_path, "f.txt.conflict-unknown-1700000000");
}

#[test]
fn a_streamed_write_does_what_a_whole_write_does() {
    let mut s = Served::new();
    s.write("f.txt", b"base", &[("dell", 1), ("host", 1)], "host");
    let data = vec![3u8; 70_000];
    let incoming = clock(&[("dell", 2)]);
    let chunks = write_chunks("/f.txt", &data, &incoming, "x.y");
    let target = open_write_stream(Some(&chunks[0])).unwrap();
    let streamed = s.service.write_file_stream(&target, &Ok(()), NOW).unwrap();
    let request = WriteFileRequest {
        path: "/f.txt".to_string(),
        data,
        clock: Some(incoming),
        writer_device_id: "x.y".to_string(),
    };
    let whole = s.service.write_file(&request, &Ok(()), NOW).unwrap();
    assert_eq!(format!("{:?}", streamed), format!("{:?}", whole));
}

#[test]
fn all_pieces_of_a_read_make_the_range() {
    let content: Vec<u8> = (0..200_000u32).map(|i| (i % 253) as u8).collect();
    let (offset, length) = (60_000usize, 150_000u64);
    let mut out = Vec::new();
    let mut left = length;
    loop {
        let at = offset + out.len();
        let n = read_want(left).min(content.len() - at);
        out.extend_from_slice(&content[at..at + n]);
        match after_read(left, n) {
            Some(rest) => left = rest,
            None => break,
        }
    }
    assert_eq!(out, &content[offset..]);
}

#[test]
fn a_loop_over_short_reads_brings_the_range() {
    let content: Vec<u8> = (0..1000u32).map(|i| (i % 251) as u8).collect();
    for (offset, length, end) in [(10usize, 500u64, 510usize), (900, 500, 1000), (1000, 5, 1000)] {
        let mut out = Vec::new();
        let mut left = length;
        loop {
            let at = offset + out.len();
            let n = read_want(left).min(7).min(content.len() - at);
            out.extend_from_slice(&content[at..at + n]);
            match after_read(left, n) {
                Some(rest) => left = rest,
                None => break,
            }
        }
        assert_eq!(out, &content[offset..end]);
    }
}
