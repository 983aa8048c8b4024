use remotefs::rooted::{
    etag_of, handle_delete, handle_get_file, handle_list, handle_mkdir, handle_put_file,
    handle_rename, handle_stat, handle_truncate, FileQuery, NamedStat, RenameReq, RootAnswer,
    RootNext, RootState, Stat, Task, TruncateReq,
};

fn state() -> RootState {
    RootState { remote_fs_root: "/srv/mnt/remote-fs".to_string(), windows: false }
}

fn file(len: u64) -> Stat {
    Stat { is_dir: false, len, modified: Some(255) }
}

fn dir() -> Stat {
    Stat { is_dir: true, len: 4096, modified: Some(16) }
}

fn query(offset: Option<u64>, size: Option<u64>) -> FileQuery {
    FileQuery { offset, size }
}

fn wants(next: RootNext, at: &str, wanted: Task) -> bool {
    matches!(next, RootNext::Do { path, task } if path == at && task == wanted)
}

fn says(next: RootNext, status: u16, words: &str) -> bool {
    matches!(next, RootNext::Reply(RootAnswer::Text(s, t)) if s == status && t == words)
}

fn answers(next: RootNext, status: u16) -> bool {
    matches!(next, RootNext::Reply(RootAnswer::Status(s)) if s == status)
}

fn fails(next: RootNext) -> bool {
    matches!(next, RootNext::Reply(RootAnswer::Failed(500)))
}

#[test]
fn a_path_that_climbs_is_refused_by_every_handler() {
    let s = state();
    let words = "Invalid path (.. not allowed)";
    let up = Some("/a/../../etc");
    assert!(says(handle_list(&s, up, None, None, None), 400, words));
    assert!(says(handle_stat(&s, up, None, None), 400, words));
    assert!(says(handle_get_file(&s, up, query(None, None), None, None, None, None), 400, words));
    assert!(says(
        handle_put_file(&s, up, query(None, None), None, None, None, None, None, None),
        400,
        words
    ));
    assert!(says(handle_delete(&s, up, None, None), 400, words));
    assert!(says(handle_mkdir(&s, up, None, None), 400, words));
    assert!(says(handle_truncate(&s, up, TruncateReq { size: 1 }, None, None, None), 400, words));
    let request = RenameReq { from: "a".to_string(), to: "../b".to_string() };
    assert!(says(handle_rename(&s, &request, None, None, None), 400, words));
}

#[test]
fn tags_are_made_of_length_and_time() {
    assert_eq!(etag_of(&file(12)), "W/\"12-ff\"");
    assert_eq!(etag_of(&Stat { is_dir: false, len: 12, modified: None }), "W/\"12-0\"");
    assert_ne!(etag_of(&file(12)), etag_of(&file(13)));
}

#[test]
fn a_listing_tells_of_the_entries() {
    let s = state();
    assert!(wants(
        handle_list(&s, Some("/a//./b"), None, None, None),
        "/srv/mnt/remote-fs/a/b",
        Task::Stat
    ));
    assert!(says(handle_list(&s, Some("a"), None, Some(None), None), 404, "Not found"));
    assert!(says(handle_list(&s, Some("a"), None, Some(Some(file(1))), None), 400, "Not a directory"));
    assert!(answers(
        handle_list(&s, Some("a"), Some("W/\"4096-10\""), Some(Some(dir())), None),
        304
    ));
    assert!(wants(
        handle_list(&s, Some("a"), Some("W/\"1-1\""), Some(Some(dir())), None),
        "/srv/mnt/remote-fs/a",
        Task::ReadDir
    ));
    assert!(fails(handle_list(&s, Some("a"), None, Some(Some(dir())), Some(None))));
    let entries = vec![
        NamedStat { name: "f".to_string(), stat: file(3) },
        NamedStat { name: "d".to_string(), stat: dir() },
    ];
    match handle_list(&s, Some("a"), None, Some(Some(dir())), Some(Some(entries))) {
        RootNext::Reply(RootAnswer::Stats { entries, etag }) => {
            assert_eq!(etag, "W/\"4096-10\"");
            assert_eq!(entries.len(), 2);
            assert_eq!((entries[0].path.as_str(), entries[0].file_type.as_str()), ("a/f", "file"));
            assert_eq!(entries[0].permissions, "rw-r--r--");
            assert_eq!(entries[0].timestamp, 255);
            assert_eq!((entries[1].path.as_str(), entries[1].file_type.as_str()), ("a/d", "dir"));
            assert_eq!(entries[1].permissions, "rwxr-xr-x");
        },
        _ => panic!("the listing should be answered"),
    }
}

#[test]
fn a_stat_tells_of_one_entry() {
    let s = state();
    match handle_stat(&s, Some("/x/y.txt"), None, Some(Some(file(9)))) {
        RootNext::Reply(RootAnswer::Stat { stat, etag }) => {
            assert_eq!(stat.name, "y.txt");
            assert_eq!(stat.path, "x/y.txt");
            assert_eq!(stat.size, 9);
            assert_eq!(etag, "W/\"9-ff\"");
        },
        _ => panic!("the metadata should be answered"),
    }
    assert!(answers(handle_stat(&s, Some("y"), Some("W/\"9-ff\""), Some(Some(file(9)))), 304));
    assert!(says(handle_stat(&s, Some("y"), None, Some(None)), 404, "Not found"));
}

#[test]
fn a_read_gives_the_part_that_lies_within_the_file() {
    let s = state();
    let read = |offset, size, opened, sought| {
        handle_get_file(&s, Some("f"), query(offset, size), None, Some(Some(file(10))), opened, sought)
    };
    let at = "/srv/mnt/remote-fs/f";
    assert!(wants(read(Some(4), Some(3), None, None), at, Task::Open));
    assert!(fails(read(Some(4), Some(3), Some(false), None)));
    assert!(wants(read(Some(4), Some(3), Some(true), None), at, Task::Seek(4)));
    assert!(fails(read(Some(4), Some(3), Some(true), Some(false))));
    let length = |offset, size| match read(offset, size, Some(true), Some(true)) {
        RootNext::Reply(RootAnswer::Stream { len, .. }) => len,
        _ => panic!("the file should be answered"),
    };
    assert_eq!(length(Some(4), Some(3)), 3);
    assert_eq!(length(Some(4), Some(30)), 6);
    assert_eq!(length(None, None), 10);
    assert_eq!(length(Some(4), None), 6);
    assert_eq!(length(Some(10), Some(3)), 0);
    assert!(wants(read(Some(10), Some(3), Some(true), None), at, Task::Seek(0)));
    assert!(says(
        handle_get_file(&s, Some("f"), query(None, None), None, Some(Some(dir())), None, None),
        400,
        "Is a directory"
    ));
    assert!(answers(
        handle_get_file(
            &s,
            Some("f"),
            query(None, None),
            Some("W/\"10-ff\""),
            Some(Some(file(10))),
            None,
            None
        ),
        304
    ));
}

#[test]
fn a_write_makes_what_is_missing() {
    let s = state();
    let at = "/srv/mnt/remote-fs/d/f";
    let put = |before, parents, opened, sought, received, after| {
        handle_put_file(
            &s,
            Some("d/f"),
            query(Some(7), None),
            before,
            parents,
            opened,
            sought,
            received,
            after,
        )
    };
    let yes = Some(true);
    assert!(wants(put(None, None, None, None, None, None), at, Task::Stat));
    assert!(says(put(Some(Some(dir())), None, None, None, None, None), 400, "Is a directory"));
    assert!(wants(put(Some(None), None, None, None, None, None), at, Task::MakeParents));
    assert!(fails(put(Some(None), Some(false), None, None, None, None)));
    assert!(wants(put(Some(None), yes, None, None, None, None), at, Task::OpenWrite));
    assert!(wants(put(Some(None), yes, yes, None, None, None), at, Task::Seek(7)));
    assert!(wants(put(Some(None), yes, yes, yes, None, None), at, Task::Receive));
    assert!(fails(put(Some(None), yes, yes, yes, Some(false), None)));
    assert!(wants(put(Some(None), yes, yes, yes, yes, None), at, Task::Stat));
    assert!(matches!(
        put(Some(None), yes, yes, yes, yes, Some(Some(file(12)))),
        RootNext::Reply(RootAnswer::Written { size: 12 })
    ));
    assert!(fails(put(Some(None), yes, yes, yes, yes, Some(None))));
}

#[test]
fn the_root_is_not_removed() {
    let s = state();
    assert!(says(handle_delete(&s, None, None, None), 409, "Cannot remove root"));
    assert!(says(handle_delete(&s, Some("//"), None, None), 409, "Cannot remove root"));
    let at = "/srv/mnt/remote-fs/a";
    assert!(wants(handle_delete(&s, Some("a"), Some(Some(dir())), None), at, Task::RemoveTree));
    assert!(wants(handle_delete(&s, Some("a"), Some(Some(file(1))), None), at, Task::RemoveFile));
    assert!(says(handle_delete(&s, Some("a"), Some(None), None), 404, "Not found"));
    assert!(answers(handle_delete(&s, Some("a"), Some(Some(dir())), Some(true)), 200));
    assert!(fails(handle_delete(&s, Some("a"), Some(Some(dir())), Some(false))));
}

#[test]
fn a_directory_is_made_once() {
    let s = state();
    let at = "/srv/mnt/remote-fs/a";
    assert!(says(handle_mkdir(&s, Some("a"), Some(Some(dir())), None), 409, "Path already exists"));
    assert!(wants(handle_mkdir(&s, Some("a"), Some(None), None), at, Task::MakeDirs));
    assert!(answers(handle_mkdir(&s, Some("a"), Some(None), Some(true)), 201));
    assert!(fails(handle_mkdir(&s, Some("a"), Some(None), Some(false))));
}

#[test]
fn renaming_and_truncating_work_on_what_exists() {
    let s = state();
    let request = RenameReq { from: "/a".to_string(), to: "/b/c".to_string() };
    assert!(says(handle_rename(&s, &request, Some(None), None, None), 404, "Source not found"));
    assert!(wants(
        handle_rename(&s, &request, Some(Some(file(1))), None, None),
        "/srv/mnt/remote-fs/b/c",
        Task::MakeParents
    ));
    assert!(matches!(
        handle_rename(&s, &request, Some(Some(file(1))), Some(true), None),
        RootNext::Rename { from, to }
            if from == "/srv/mnt/remote-fs/a" && to == "/srv/mnt/remote-fs/b/c"
    ));
    assert!(answers(handle_rename(&s, &request, Some(Some(file(1))), Some(true), Some(true)), 200));

    let cut = |stat, opened, resized| {
        handle_truncate(&s, Some("f"), TruncateReq { size: 5 }, stat, opened, resized)
    };
    let at = "/srv/mnt/remote-fs/f";
    assert!(says(cut(Some(None), None, None), 404, "Not found"));
    assert!(says(cut(Some(Some(dir())), None, None), 400, "Is a directory"));
    assert!(wants(cut(Some(Some(file(9))), None, None), at, Task::OpenExisting));
    assert!(wants(cut(Some(Some(file(9))), Some(true), None), at, Task::SetLen(5)));
    assert!(answers(cut(Some(Some(file(9))), Some(true), Some(true)), 200));
    assert!(fails(cut(Some(Some(file(9))), Some(true), Some(false))));
}

/// Carries out a write of `data` on a file that holds `content`.
fn put(content: &mut Vec<u8>, q: FileQuery, data: &[u8]) -> u64 {
    let (mut before, mut parents, mut opened, mut sought) = (None, None, None, None);
    let (mut received, mut after) = (None, None);
    let mut at = 0usize;
    loop {
        match handle_put_file(
            &state(), Some("f"), q, before, parents, opened, sought, received, after,
        ) {
            RootNext::Do { task: Task::Stat, .. } => {
                let stat = Some(Some(file(content.len() as u64)));
                if received.is_none() {
                    before = stat;
                } else {
                    after = stat;
                }
            },
            RootNext::Do { task: Task::MakeParents, .. } => parents = Some(true),
            RootNext::Do { task: Task::OpenWrite, .. } => opened = Some(true),
            RootNext::Do { task: Task::Seek(o), .. } => {
                at = o as usize;
                sought = Some(true);
            },
            RootNext::Do { task: Task::Receive, .. } => {
                if content.len() < at + data.len() {
                    content.resize(at + data.len(), 0);
                }
                content[at..at + data.len()].copy_from_slice(data);
                received = Some(true);
            },
            RootNext::Reply(RootAnswer::Written { size }) => return size,
            _ => panic!("the write went well"),
        }
    }
}

/// Carries out a read of a file that holds `content`.
fn get(content: &[u8], q: FileQuery) -> Vec<u8> {
    let (mut stat, mut opened, mut sought) = (None, None, None);
    let mut at = 0usize;
    loop {
        match handle_get_file(&state(), Some("f"), q, None, stat, opened, sought) {
            RootNext::Do { task: Task::Stat, .. } => stat = Some(Some(file(content.len() as u64))),
            RootNext::Do { task: Task::Open, .. } => opened = Some(true),
            RootNext::Do { task: Task::Seek(o), .. } => {
                at = o as usize;
                sought = Some(true);
            },
            RootNext::Reply(RootAnswer::Stream { len, .. }) => {
                return content[at..at + len as usize].to_vec();
            },
            _ => panic!("the read went well"),
        }
    }
}

#[test]
fn what_was_put_is_what_a_get_gives() {
    let mut content = b"abcdefgh".to_vec();
    assert_eq!(put(&mut content, query(Some(3), None), b"XYZ"), 8);
    assert_eq!(get(&content, query(Some(3), Some(3))), b"XYZ");
    assert_eq!(get(&content, query(Some(0), Some(3))), b"abc");
    assert_eq!(get(&content, query(Some(6), None)), b"gh");
    assert_eq!(put(&mut content, query(None, None), b"12"), 8);
    assert_eq!(get(&content, query(None, None)), b"12cXYZgh");
    assert_eq!(put(&mut content, query(Some(10), None), b"!"), 11);
    assert_eq!(get(&content, query(Some(7), None)), b"h\0\0!");
    assert_eq!(get(&content, query(Some(11), Some(4))), b"");
}

#[test]
fn a_length_is_set_as_asked_for() {
    let stat = Some(Some(file(5)));
    let request = TruncateReq { size: 2 };
    assert!(wants(
        handle_truncate(&state(), Some("f"), request, stat, Some(true), None),
        "/srv/mnt/remote-fs/f",
        Task::SetLen(2)
    ));
}

#[test]
fn answers_have_their_statuses() {
    assert_eq!(RootAnswer::Written { size: 3 }.status(), 201);
    assert_eq!(RootAnswer::Status(304).status(), 304);
    assert_eq!(RootAnswer::Text(409, String::new()).status(), 409);
    assert_eq!(RootAnswer::Failed(500).status(), 500);
    assert_eq!(RootAnswer::Stream { len: 0, etag: String::new() }.status(), 200);
}

#[test]
fn a_drive_in_a_path_is_refused_on_windows_only() {
    let windows = RootState { remote_fs_root: "C:\\srv".to_string(), windows: true };
    let refused = handle_get_file(&windows, Some("a/D:/x"), query(None, None), None, None, None, None);
    assert!(says(refused, 400, "Invalid path escape"));
    let shared = handle_get_file(
        &windows,
        Some("\\\\server\\share\\x"),
        query(None, None),
        None,
        None,
        None,
        None,
    );
    assert!(wants(shared, "C:\\srv\\x", Task::Stat));
    let served = handle_get_file(&state(), Some("a/D:/x"), query(None, None), None, None, None, None);
    assert!(wants(served, "/srv/mnt/remote-fs/a/D:/x", Task::Stat));
}

#[test]
fn a_backslash_climbs_on_windows_only() {
    let windows = RootState { remote_fs_root: "/srv".to_string(), windows: true };
    let refused = handle_get_file(&windows, Some("..\\x"), query(None, None), None, None, None, None);
    assert!(says(refused, 400, "Invalid path (.. not allowed)"));
    let served = handle_get_file(&state(), Some("..\\x"), query(None, None), None, None, None, None);
    assert!(wants(served, "/srv/mnt/remote-fs/..\\x", Task::Stat));
}
