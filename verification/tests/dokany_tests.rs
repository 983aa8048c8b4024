use std::collections::HashMap;

use remotefs::api::{ApiError, FileEntry};
use remotefs::cache::METADATA_CACHE_TTL;
use remotefs::client::{ApiClient, RetryStep};
use remotefs::dokany::{
    fill, find_entries, get_disk_free_space, get_file_information, get_volume_information,
    list_path, mount_path, posix_to_ntstatus, read_range, ChangeStep, CreateStep, DokanyFs,
    FileWriteState, FindStep, LookupStep, FILE_ATTRIBUTE_DIRECTORY, FILE_ATTRIBUTE_NORMAL, FILE_CREATE,
    FILE_DIRECTORY_FILE, FILE_NON_DIRECTORY_FILE, FILE_OPEN_IF, MAX_BUFFER_SIZE, MAX_CONCURRENT,
    STATUS_ACCESS_DENIED, STATUS_DEVICE_NOT_CONNECTED,
    STATUS_IO_DEVICE_ERROR, STATUS_NOT_A_DIRECTORY, STATUS_OBJECT_NAME_NOT_FOUND, STATUS_SUCCESS,
};
use remotefs::errno::Errno;
use remotefs::http::{Exchange, Method};
use remotefs::paths::{normalize_remote_path, split_parent_and_name};

fn make_fs() -> DokanyFs {
    DokanyFs::new(None, None)
}

fn test_entry(name: &str, is_dir: bool) -> FileEntry {
    FileEntry {
        name: name.to_string(),
        is_dir,
        size: 12,
        mtime: 10.0f64.to_bits(),
        ctime: 9.0f64.to_bits(),
        mode: if is_dir { 0o755 } else { 0o644 },
    }
}

/// Looks a path up, listing a directory from the server where that is wanted.
fn look(
    fs: &mut DokanyFs,
    fresh: bool,
    path: &str,
    listed: &str,
    entry: &str,
    hits: &mut u32,
) -> Result<(u64, FileEntry), Errno> {
    let wall = 0;
    let first = if fresh {
        fs.lookup_entry_fresh(path, None, wall)
    } else {
        fs.lookup_entry(path, None, wall)
    };
    let directory = match first {
        LookupStep::Done(r) => return r,
        LookupStep::List(directory) => directory,
    };
    assert_eq!(directory, listed);
    *hits += 1;
    let fetched: Option<Result<Vec<FileEntry>, ApiError>> = Some(Ok(vec![test_entry(entry, false)]));
    let second = if fresh {
        fs.lookup_entry_fresh(path, fetched, wall)
    } else {
        fs.lookup_entry(path, fetched, wall)
    };
    match second {
        LookupStep::Done(r) => r,
        LookupStep::List(_) => panic!("the listing is known"),
    }
}

#[test]
fn posix_to_ntstatus_maps_common_errors() {
    assert_eq!(posix_to_ntstatus(None), STATUS_SUCCESS);
    assert_eq!(posix_to_ntstatus(Some(Errno::NoEnt)), STATUS_OBJECT_NAME_NOT_FOUND);
    assert_eq!(posix_to_ntstatus(Some(Errno::NotConn)), STATUS_DEVICE_NOT_CONNECTED);
    assert_eq!(posix_to_ntstatus(Some(Errno::Io)), STATUS_IO_DEVICE_ERROR);
    assert_eq!(posix_to_ntstatus(Some(Errno::Inval)), STATUS_ACCESS_DENIED);
}

#[test]
fn normalize_remote_path_handles_backslashes_and_leading_slashes() {
    assert_eq!(normalize_remote_path(r"\\foo\\bar"), "foo//bar");
    assert_eq!(normalize_remote_path(r"/foo/bar"), "foo/bar");
    assert_eq!(normalize_remote_path(r"foo\bar"), "foo/bar");
}

#[test]
fn split_parent_and_name_handles_root_and_nested_paths() {
    assert_eq!(split_parent_and_name(""), ("/".to_string(), "".to_string()));
    assert_eq!(split_parent_and_name("one"), ("/".to_string(), "one".to_string()));
    assert_eq!(split_parent_and_name("one/two"), ("/one".to_string(), "two".to_string()));
    assert_eq!(split_parent_and_name("/one/two/"), ("/one".to_string(), "two".to_string()));
}

#[test]
fn next_ino_increments_monotonically() {
    let mut fs = make_fs();
    assert_eq!(fs.next_ino(), 2);
    assert_eq!(fs.next_ino(), 3);
    assert_eq!(fs.next_ino(), 4);
}

#[test]
fn lookup_entry_returns_virtual_root_for_empty_path() {
    let mut fs = make_fs();
    match fs.lookup_entry("", None, 0) {
        LookupStep::Done(Ok((ino, entry))) => {
            assert_eq!(ino, 1);
            assert!(entry.is_dir);
            assert_eq!(entry.name, "/");
        },
        _ => panic!("root lookup should succeed"),
    }
}

#[test]
fn lookup_entry_fetches_and_then_reuses_directory_cache() {
    let mut fs = make_fs();
    let mut hits = 0;
    let (_, first) = look(&mut fs, false, "/dir/file.txt", "/dir", "file.txt", &mut hits)
        .expect("first lookup should hit api");
    let (_, second) = look(&mut fs, false, "/dir/file.txt", "/dir", "file.txt", &mut hits)
        .expect("second lookup should hit cache");
    assert_eq!(first.name, "file.txt");
    assert_eq!(second.name, "file.txt");
    assert_eq!(hits, 1);
}

#[test]
fn lookup_entry_fresh_bypasses_cache() {
    let mut fs = make_fs();
    let mut hits = 0;
    look(&mut fs, false, "/dir/x.txt", "/dir", "x.txt", &mut hits).expect("lookup should succeed");
    look(&mut fs, true, "/dir/x.txt", "/dir", "x.txt", &mut hits)
        .expect("fresh lookup should also succeed");
    assert_eq!(hits, 2);
}

#[test]
fn lookup_entry_returns_enoent_when_name_missing() {
    let mut fs = make_fs();
    let mut hits = 0;
    let err = look(&mut fs, false, "/dir/missing.txt", "/dir", "other.txt", &mut hits).unwrap_err();
    assert_eq!(err, Errno::NoEnt);
}

#[test]
fn invalidate_path_clears_related_file_and_directory_cache() {
    let mut fs = make_fs();
    fs.cache.store_file_chunk("dir/file.txt", 0, vec![1, 2, 3]);
    fs.cache.store_directory_listing("/dir", vec![test_entry("file.txt", false)]);

    fs.invalidate_path("dir/file.txt");

    assert!(fs.cache.read_from_cache("dir/file.txt", 0, 3).is_none());
    assert!(fs.cache.get_cached_directory("/dir").is_none());
}

#[test]
fn maybe_cleanup_cache_updates_timestamp_when_due() {
    let mut fs = make_fs();
    fs.last_cleanup = fs.cache.clock.now() - METADATA_CACHE_TTL as i64 - 1_000_000;

    fs.maybe_cleanup_cache();

    let elapsed = fs.cache.clock.now() - fs.last_cleanup;
    assert!(elapsed < 1_000_000_000);
}

#[test]
fn test_dokany_async_write_and_flush_performance() {
    let mut fs = make_fs();
    let client = ApiClient::new("http://server".to_string());
    let path = "dokany_speed.bin".to_string();
    let chunk = vec![0u8; 1024];
    let mut handles = vec![];
    let mut under_way = HashMap::new();
    let mut hits = 0;

    for i in 0..10u64 {
        match client.write_file_chunk_async(&path, i * 1024, &chunk, 0, None) {
            RetryStep::Send(r) => {
                assert_eq!(r.method, Method::Patch);
                assert_eq!(r.url, "http://server/files/dokany_speed.bin");
                hits += 1;
            },
            _ => panic!("a request was expected"),
        }
        under_way.insert(i, i * 1024);
        handles.push(i);
    }
    fs.pending_writes.insert(path.clone(), FileWriteState { buffer: None, handles });

    let plan = fs.drain(&path);
    assert!(plan.start.is_empty());
    let mut success = vec![];
    for task in plan.wait {
        let offset = under_way.remove(&task).expect("each write is waited for once");
        let answer = Some(Exchange::Answered { status: 200, body: Ok(()) });
        match client.write_file_chunk_async(&path, offset, &chunk, 0, answer) {
            RetryStep::Done(r) => success.push(r.is_ok()),
            _ => panic!("the write is over"),
        }
    }
    assert!(under_way.is_empty(), "the flush waits for every write");
    assert!(DokanyFs::flush_answer(&success).is_ok(), "All writes should succeed");
    assert_eq!(hits, 10);
    assert!(fs.drain(&path).wait.is_empty());
}

#[test]
fn a_series_of_writes_is_sent_whole() {
    let mut fs = make_fs();
    let mut started = vec![];
    let mut waited = vec![];
    for i in 0..10i64 {
        let plan = fs.write_file("f", i * 1024, &vec![i as u8; 1024]);
        waited.extend(plan.wait);
        started.extend(plan.start);
    }
    let plan = fs.write_file("f", 20_000, &vec![99]);
    waited.extend(plan.wait);
    started.extend(plan.start);
    let plan = fs.drain("f");
    started.extend(plan.start);
    waited.extend(plan.wait);
    let numbers: Vec<u64> = started.iter().map(|(task, _)| *task).collect();
    assert_eq!(waited, numbers);
    let mut content = vec![0u8; 20_001];
    for (_, piece) in &started {
        let at = piece.offset as usize;
        content[at..at + piece.data.len()].copy_from_slice(&piece.data);
    }
    for i in 0..10usize {
        assert!(content[i * 1024..(i + 1) * 1024].iter().all(|b| *b == i as u8));
    }
    assert_eq!(content[20_000], 99);
    assert_eq!(started.iter().map(|(_, p)| p.data.len()).sum::<usize>(), 10 * 1024 + 1);
}

#[test]
fn a_flush_leaves_the_writes_of_other_files_alone() {
    let mut fs = make_fs();
    let mut started = vec![];
    let mut waited = vec![];
    for i in 0..6i64 {
        let plan = fs.write_file("f", i * 10, &vec![i as u8; 2]);
        started.extend(plan.start);
        waited.extend(plan.wait);
        let plan = fs.write_file("g", i * 10, &vec![100 + i as u8]);
        assert_eq!(plan.start.len(), if i == 0 { 0 } else { 1 });
    }
    let plan = fs.drain("f");
    started.extend(plan.start);
    waited.extend(plan.wait);
    let numbers: Vec<u64> = started.iter().map(|(task, _)| *task).collect();
    assert_eq!(waited, numbers);
    let pieces: Vec<(u64, Vec<u8>)> =
        started.into_iter().map(|(_, piece)| (piece.offset, piece.data)).collect();
    let written: Vec<(u64, Vec<u8>)> = (0..6u64).map(|i| (i * 10, vec![i as u8; 2])).collect();
    assert_eq!(pieces, written);
    assert!(!fs.pending_writes.contains_key("f"));
    let other = fs.pending_writes.get("g").expect("the other file is pending");
    assert_eq!(other.buffer.as_ref().map(|b| (b.offset, b.data.clone())), Some((50, vec![105])));
    assert_eq!(fs.drain("g").start.len(), 1);
}

#[test]
fn test_dokany_async_write_failure_propagation() {
    let mut fs = make_fs();
    let client = ApiClient::new("http://server".to_string());
    let path = "fail.bin";
    assert!(fs.write_file(path, 0, &vec![1, 2, 3]).start.is_empty());
    let plan = fs.drain(path);
    assert_eq!(plan.start.len(), 1);
    let (_, piece) = &plan.start[0];
    let answer = Some(Exchange::Answered { status: 400, body: Ok(()) });
    let success = match client.write_file_chunk_async(path, piece.offset, &piece.data, 0, answer) {
        RetryStep::Done(r) => r.is_ok(),
        _ => panic!("a refusal is not tried again"),
    };
    assert!(!success, "Write should fail and propagate I/O rejection to flush");
    assert_eq!(DokanyFs::flush_answer(&vec![success]), Err(STATUS_IO_DEVICE_ERROR));
}

#[test]
fn writes_that_do_not_adjoin_start_the_one_before() {
    let mut fs = make_fs();
    assert!(fs.write_file("f", 0, &vec![1, 2]).start.is_empty());
    let plan = fs.write_file("f", 10, &vec![3]);
    assert_eq!(plan.start.len(), 1);
    assert_eq!(plan.start[0].1.offset, 0);
    assert_eq!(plan.start[0].1.data, vec![1, 2]);
}

#[test]
fn a_full_buffer_is_written() {
    let mut fs = make_fs();
    let plan = fs.write_file("f", 0, &vec![7; MAX_BUFFER_SIZE]);
    assert_eq!(plan.start.len(), 1);
    assert_eq!(plan.start[0].1.data.len(), MAX_BUFFER_SIZE);
}

#[test]
fn no_more_than_so_many_writes_are_under_way() {
    let mut fs = make_fs();
    let mut under_way: Vec<u64> = vec![];
    for i in 0..40i64 {
        let plan = fs.write_file("f", i * 10, &vec![1]);
        under_way.extend(plan.start.iter().map(|(task, _)| *task));
        under_way.retain(|task| !plan.wait.contains(task));
        assert!(under_way.len() <= MAX_CONCURRENT);
    }
}

#[test]
fn a_failed_write_answers_a_device_error() {
    let mut fs = make_fs();
    fs.write_file("f", 0, &vec![1, 2]);
    assert_eq!(fs.write_answer("f", 2, &vec![true, true]), Ok(2));
    assert_eq!(fs.write_answer("f", 2, &vec![true, false]), Err(STATUS_IO_DEVICE_ERROR));
}

#[test]
fn creating_opens_or_makes_what_is_wanted() {
    let mut fs = make_fs();
    match fs.create_file("\\a.txt", FILE_CREATE, FILE_NON_DIRECTORY_FILE, Err(Errno::NoEnt), None) {
        CreateStep::MakeFile(p) => assert_eq!(p, "a.txt"),
        _ => panic!("a file should be made"),
    }
    match fs.create_file("\\d", FILE_CREATE, FILE_DIRECTORY_FILE, Err(Errno::NoEnt), None) {
        CreateStep::MakeDirectory(p) => assert_eq!(p, "d"),
        _ => panic!("a directory should be made"),
    }
    match fs.create_file("\\a.txt", FILE_OPEN_IF, FILE_NON_DIRECTORY_FILE, Ok(true), None) {
        CreateStep::Done(Err(status)) => assert_eq!(status, STATUS_ACCESS_DENIED),
        _ => panic!("a directory is no file"),
    }
    match fs.create_file("\\a.txt", FILE_OPEN_IF, FILE_DIRECTORY_FILE, Ok(false), None) {
        CreateStep::Done(Err(status)) => assert_eq!(status, STATUS_NOT_A_DIRECTORY),
        _ => panic!("a file is no directory"),
    }
    match fs.create_file("\\a.txt", FILE_OPEN_IF, FILE_NON_DIRECTORY_FILE, Ok(false), None) {
        CreateStep::Done(Ok(made)) => assert!(!made.is_dir && !made.new_file_created),
        _ => panic!("the file should be opened"),
    }
    match fs.create_file(
        "\\a.txt",
        FILE_CREATE,
        FILE_NON_DIRECTORY_FILE,
        Err(Errno::NoEnt),
        Some(Err(Errno::Io)),
    ) {
        CreateStep::Done(Err(status)) => assert_eq!(status, STATUS_IO_DEVICE_ERROR),
        _ => panic!("the failure should be told"),
    }
}

#[test]
fn deleting_and_moving_name_the_paths_on_the_server() {
    let mut fs = make_fs();
    match fs.delete_file("\\d\\f.txt", Ok(false), None) {
        ChangeStep::Delete(p) => assert_eq!(p, "d/f.txt"),
        _ => panic!("the file should be deleted"),
    }
    match fs.delete_file("\\d", Ok(true), None) {
        ChangeStep::Done(Err(status)) => assert_eq!(status, STATUS_ACCESS_DENIED),
        _ => panic!("a directory is no file"),
    }
    match fs.delete_directory("\\f.txt", Ok(false), None) {
        ChangeStep::Done(Err(status)) => assert_eq!(status, STATUS_NOT_A_DIRECTORY),
        _ => panic!("a file is no directory"),
    }
    match fs.move_file("\\a", "\\b\\c", None) {
        ChangeStep::Rename(from, to) => assert_eq!((from.as_str(), to.as_str()), ("a", "b/c")),
        _ => panic!("the entry should be renamed"),
    }
    assert!(matches!(fs.move_file("\\a", "\\b\\c", Some(Ok(()))), ChangeStep::Done(Ok(()))));
}

#[test]
fn finding_lists_names_as_wide_text() {
    let mut fs = make_fs();
    match fs.find_files("\\dir", None, None) {
        FindStep::List(p) => assert_eq!(p, list_path("\\dir")),
        _ => panic!("the directory has to be listed"),
    }
    let found = find_entries(&vec![test_entry("h\u{e9}\u{1f600}", false), test_entry("d", true)]);
    assert_eq!(found.failed, None);
    assert_eq!(found.entries.len(), 2);
    assert_eq!(found.entries[0].file_name, vec![0x68, 0xe9, 0xd83d, 0xde00]);
    assert_eq!(found.entries[0].attributes, FILE_ATTRIBUTE_NORMAL);
    assert_eq!(found.entries[0].file_size, 12);
    assert_eq!(found.entries[1].attributes, FILE_ATTRIBUTE_DIRECTORY);
    let broken = find_entries(&vec![test_entry("a", false), test_entry("b\0c", false)]);
    assert_eq!(broken.entries.len(), 1);
    assert!(broken.failed.is_some());
}

#[test]
fn file_information_tells_of_the_entry() {
    let info = get_file_information(&Ok((5, test_entry("f", false)))).expect("the entry is there");
    assert_eq!(info.file_index, 5);
    assert_eq!(info.file_size, 12);
    assert_eq!(info.attributes, FILE_ATTRIBUTE_NORMAL);
    assert_eq!(info.last_write_time, 10.0f64.to_bits());
    assert_eq!(info.creation_time, 9.0f64.to_bits());
    assert_eq!(
        get_file_information(&Err(Errno::NoEnt)).unwrap_err(),
        STATUS_OBJECT_NAME_NOT_FOUND
    );
}

#[test]
fn reading_fills_the_buffer() {
    assert_eq!(read_range(10, 4), (10, 4));
    assert_eq!(fill(&vec![1, 2, 3], 2), vec![1, 2]);
    assert_eq!(fill(&vec![1, 2, 3], 9), vec![1, 2, 3]);
}

#[test]
fn the_volume_is_described() {
    let volume = get_volume_information();
    assert!(!volume.name.is_empty());
    let (available, total, free) = get_disk_free_space();
    assert!(available <= total && free <= total);
    assert!(!mount_path("Z:").is_empty());
}
