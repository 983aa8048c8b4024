use std::collections::HashMap;

use remotefs::api::FileEntry;
use remotefs::cache::METADATA_CACHE_TTL;
use remotefs::client::{ApiClient, RetryStep};
use remotefs::clock::Clock;
use remotefs::http::Exchange;
use remotefs::inode_table::{FileHandleTable, FileType, InodeTable, PathLockManager};

fn entry(name: &str, is_dir: bool, mode: u32, size: u64) -> FileEntry {
    FileEntry {
        name: name.to_string(),
        is_dir,
        size,
        mtime: 12.0f64.to_bits(),
        ctime: 11.0f64.to_bits(),
        mode,
    }
}

#[test]
fn inode_reports_expired_metadata() {
    let table = InodeTable::new(1000, 1000);
    let mut inode = table.get_cloned(1).expect("root inode should exist");
    assert!(!inode.is_metadata_expired(&table.clock));

    inode.cached_at = table.clock.now() - METADATA_CACHE_TTL as i64 - 1_000_000;
    assert!(inode.is_metadata_expired(&table.clock));
}

#[test]
fn inode_table_initializes_root() {
    let table = InodeTable::new(1001, 1002);

    let root = table.get(1).expect("root inode should exist");
    assert_eq!(root.path, "/");
    assert_eq!(root.attr.kind, FileType::Directory);
    assert_eq!(root.attr.uid, 1001);
    assert_eq!(root.attr.gid, 1002);
}

#[test]
fn get_or_create_assigns_defaults_and_updates_existing_inode() {
    let mut table = InodeTable::new(1000, 1000);
    let file = entry("a.txt", false, 0, 513);

    let ino = table.get_or_create("/a.txt", &file);
    let created = table.get_cloned(ino).expect("created inode should exist");
    assert_eq!(created.attr.kind, FileType::RegularFile);
    assert_eq!(created.attr.perm, 0o644);
    assert_eq!(created.attr.blocks, 2);

    let mut updated_file = file.clone();
    updated_file.size = 2048;
    let ino_again = table.get_or_create("/a.txt", &updated_file);
    assert_eq!(ino_again, ino);
    let updated = table.get_cloned(ino).expect("updated inode should exist");
    assert_eq!(updated.attr.size, 2048);
}

#[test]
fn get_or_create_sets_directory_permissions_with_owner_bits() {
    let mut table = InodeTable::new(1000, 1000);
    let dir = entry("dir", true, 0o055, 0);

    let ino = table.get_or_create("/dir", &dir);
    let inode = table.get_cloned(ino).expect("directory inode should exist");
    assert_eq!(inode.attr.kind, FileType::Directory);
    assert_eq!(inode.attr.perm, 0o755);
    assert_eq!(inode.attr.nlink, 2);
}

#[test]
fn child_path_builds_expected_paths() {
    let mut table = InodeTable::new(1000, 1000);
    let dir = entry("dir", true, 0o755, 0);
    let dir_ino = table.get_or_create("/dir", &dir);

    let root_child = table.child_path(1, "a.txt").expect("root child path should be generated");
    assert_eq!(root_child, "/a.txt");

    let nested_child = table
        .child_path(dir_ino, "b.txt")
        .expect("nested child path should be generated");
    assert_eq!(nested_child, "/dir/b.txt");
    assert!(table.child_path(99, "b.txt").is_none());
}

#[test]
fn remove_rename_and_invalidate_metadata_update_table_consistently() {
    let mut table = InodeTable::new(1000, 1000);
    let file = entry("file.txt", false, 0o644, 10);
    let ino = table.get_or_create("/old.txt", &file);

    table.rename("/old.txt", "/new.txt");
    assert!(table.path_to_ino.contains_key("/new.txt"));
    assert!(!table.path_to_ino.contains_key("/old.txt"));
    assert_eq!(table.get(ino).expect("inode should exist").path, "/new.txt");

    table.invalidate_metadata("/new.txt");
    assert!(table.get(ino).expect("inode should exist").is_metadata_expired(&table.clock));

    table.remove_by_path("/new.txt");
    assert!(!table.path_to_ino.contains_key("/new.txt"));
    assert!(table.get(ino).is_none());
}

#[test]
fn file_handle_table_allocates_and_closes_handles() {
    let mut table = FileHandleTable::new();
    let h1 = table.open("/a.txt".to_string());
    let h2 = table.open("/b.txt".to_string());

    assert_eq!(h1, 1);
    assert_eq!(h2, 2);
    assert_eq!(table.handles.get(&h1).expect("h1 should exist"), "/a.txt");

    table.close(h1);
    assert!(!table.handles.contains_key(&h1));
    assert!(table.handles.contains_key(&h2));
}

#[test]
fn path_lock_manager_reuses_lock_for_same_path() {
    let mut manager = PathLockManager::new();
    let a1 = manager.get_lock("/same");
    let a2 = manager.get_lock("/same");
    let b = manager.get_lock("/other");

    assert_eq!(a1, a2);
    assert_ne!(a1, b);
}

#[test]
fn test_fuser_async_write_and_flush_performance() {
    let client = ApiClient::new("http://server".to_string());
    let ino = 99u64;
    let path = "/bigfile.bin";
    let chunk = vec![0u8; 1024];
    let mut pending_writes: HashMap<u64, Vec<u64>> = HashMap::new();
    let mut hits = 0;
    for i in 0..10u64 {
        match client.write_file_chunk_async(path, i * 1024, &chunk, 0, None) {
            RetryStep::Send(r) => {
                assert_eq!(r.url, "http://server/files/bigfile.bin");
                hits += 1;
            },
            _ => panic!("a request was expected"),
        }
        pending_writes.entry(ino).or_default().push(i * 1024);
    }
    let mut success = true;
    for offset in pending_writes.remove(&ino).unwrap_or_default() {
        let answer = Some(Exchange::Answered { status: 200, body: Ok(()) });
        match client.write_file_chunk_async(path, offset, &chunk, 0, answer) {
            RetryStep::Done(r) => success = success && r.is_ok(),
            _ => panic!("the write is over"),
        }
    }
    assert!(success, "All writes should succeed");
    assert_eq!(hits, 10);
}

#[test]
fn test_fuser_async_write_failure_propagation() {
    let client = ApiClient::new("http://server".to_string());
    let data = vec![1, 2, 3];
    let mut hits = 0;
    let mut answer = None;
    let success = loop {
        match client.write_file_chunk_async("/fail.bin", 0, &data, 0, answer) {
            RetryStep::Send(r) => {
                assert_eq!(r.url, "http://server/files/fail.bin");
                hits += 1;
                answer = Some(Exchange::Answered { status: 400, body: Ok(()) });
            },
            RetryStep::Done(r) => break r.is_ok(),
            RetryStep::Wait { .. } => panic!("a refusal is not tried again"),
        }
    };
    assert!(!success, "Write should fail and propagate I/O rejection to flush");
    assert_eq!(hits, 1);
}

#[test]
fn metadata_is_good_up_to_its_lifetime_and_no_longer() {
    let mut table = InodeTable::new(1, 1);
    let ino = table.get_or_create_at("/f", &entry("f", false, 0o600, 1), 1000);
    let inode = table.get(ino).expect("inode should exist");
    assert!(!inode.is_metadata_expired_at(1000 + METADATA_CACHE_TTL as i64));
    assert!(inode.is_metadata_expired_at(1001 + METADATA_CACHE_TTL as i64));
    let clock = Clock::start();
    assert!(clock.now() >= 0);
}
