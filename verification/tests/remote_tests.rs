use remotefs::errno::Errno;
use remotefs::fuse::{directory_lines, FuseAdapter, FuseStep, NodeStep, RemoteFS};
use remotefs::http::{Body, Method, NetworkFault, Request};
use remotefs::inode_table::FileType;
use remotefs::inodes::Inodes;
use remotefs::remote::{
    chunk_key, endpoint_for_path, map_net_error, ChunkStep, FileInfo, Outcome, ReadStep, Remote,
    RemoteFilesystem, StatStep, READ_CHUNK_SIZE,
};
use remotefs::remote_api::{find_named, ApiFault, Call, DirEntry, RemoteApi};

fn connect() -> RemoteFilesystem {
    RemoteFilesystem::new("http://127.0.0.1:3000").expect("the address is well-formed")
}

fn info(path: &str, file_type: &str, size: u64) -> FileInfo {
    FileInfo {
        name: path.rsplit('/').next().unwrap_or("").to_string(),
        path: path.to_string(),
        file_type: file_type.to_string(),
        size,
        timestamp: 1_700_000_000,
        permissions: "640".to_string(),
    }
}

fn sent<T>(step: Remote<T>) -> Request {
    match step {
        Remote::Send(request) => request,
        Remote::Done(_) => panic!("a request was expected"),
    }
}

fn ok<T>(body: T) -> Option<Outcome<T>> {
    Some(Outcome::Answered { status: 200, body: Ok(body) })
}

#[test]
fn an_address_is_parsed_and_joined() {
    let fs = connect();
    assert_eq!(fs.server_url, "http://127.0.0.1:3000/");
    assert!(RemoteFilesystem::new("not an address").is_none());
    let request = sent(fs.create_dir("/docs/new", None));
    assert_eq!(request.method, Method::Post);
    assert_eq!(request.url, "http://127.0.0.1:3000/mkdir/docs/new");
    let request = sent(fs.delete_path("a b", None));
    assert_eq!(request.url, "http://127.0.0.1:3000/files/a%20b");
}

#[test]
fn the_root_is_a_directory() {
    let root = FileInfo::root();
    assert_eq!(root.name, "");
    assert_eq!(root.path, "");
    assert_eq!(root.file_type, "dir");
    assert_eq!(root.permissions, "755");
}

#[test]
fn endpoints_and_keys_are_made_of_the_path() {
    assert_eq!(endpoint_for_path("stat", ""), "stat");
    assert_eq!(endpoint_for_path("stat", "a/b"), "stat/a/b");
    assert_eq!(chunk_key("a/b", 8_388_608), "a/b:8388608");
}

#[test]
fn faults_of_the_network_have_their_conditions() {
    assert_eq!(map_net_error(&NetworkFault::Timeout), Errno::TimedOut);
    assert_eq!(map_net_error(&NetworkFault::Connect), Errno::ConnRefused);
    assert_eq!(map_net_error(&NetworkFault::Other("x".to_string())), Errno::Io);
}

#[test]
fn a_stat_is_recalled_or_asked_for() {
    let mut fs = connect();
    assert!(matches!(fs.get_stat("/a", None, None), StatStep::Recall(2, k) if k == "a"));
    match fs.get_stat("/a", Some((2, None)), None) {
        StatStep::Send(r) => assert_eq!(r.url, "http://127.0.0.1:3000/stat/a"),
        _ => panic!("a request was expected"),
    }
    match fs.get_stat("/a", Some((2, None)), ok(info("a", "file", 3))) {
        StatStep::Learnt(ino, f, key) => {
            assert_eq!((ino, f.size, key.as_str()), (2, 3, "a"));
        },
        _ => panic!("the answer should be learnt"),
    }
    assert!(matches!(fs.get_stat("a", Some((2, Some(info("a", "file", 3)))), None), StatStep::Known(2, _)));
    let gone = Some(Outcome::Answered { status: 404, body: Ok(info("b", "file", 0)) });
    assert!(matches!(fs.get_stat("b", Some((3, None)), gone), StatStep::Fail(Errno::NoEnt)));
    let lost = Some(Outcome::Failed(NetworkFault::Timeout));
    assert!(matches!(fs.get_stat("b", Some((3, None)), lost), StatStep::Fail(Errno::TimedOut)));
}

#[test]
fn without_the_server_nothing_works() {
    let mut fs = connect();
    let step = fs.health_checked(true, None);
    assert!(step.lost && !step.online && !step.clear_caches);
    assert_eq!(step.wait, 2);
    assert!(matches!(fs.get_stat("a", None, None), StatStep::Fail(Errno::NotConn)));
    assert!(matches!(fs.list_dir("a", None), Remote::Done(Err(Errno::NotConn))));
    assert!(matches!(fs.read_file("a", 0, 1), Err(Errno::NotConn)));
    assert!(matches!(fs.write_file("a", 0, vec![1], None), Remote::Done(Err(Errno::NotConn))));
    assert!(matches!(fs.create_dir("a", None), Remote::Done(Err(Errno::NotConn))));
    assert!(matches!(fs.delete_path("a", None), Remote::Done(Err(Errno::NotConn))));
    assert!(matches!(fs.rename("a", "b", None, None), Remote::Done(Err(Errno::NotConn))));

    assert!(matches!(fs.get_stat("a", Some((2, None)), ok(info("a", "file", 3))), StatStep::Learnt(2, _, _)));
    assert!(matches!(fs.list_dir("a", ok(vec![])), Remote::Done(Ok(l)) if l.is_empty()));
    assert!(matches!(fs.write_file("a", 0, vec![], ok(())), Remote::Done(Ok(u)) if u.forget == "a"));
    assert!(matches!(fs.create_dir("a", ok(())), Remote::Done(Ok(()))));
    assert!(matches!(fs.delete_path("a", ok(())), Remote::Done(Ok(_))));
    let a = fs.get_allocated_inode("a");
    assert!(matches!(fs.rename("a", "b", None, ok(())), Remote::Done(Ok(u)) if u.forget == "a"));
    assert_eq!(fs.get_allocated_inode("b"), a);

    let back = fs.health_checked(false, Some(200));
    assert!(back.online && back.clear_caches && !back.lost);
    assert_eq!(back.wait, 5);
    assert!(!fs.health_checked(true, Some(503)).online);
}

#[test]
fn a_listing_numbers_the_entries() {
    let mut fs = connect();
    assert_eq!(sent(fs.list_dir("/", None)).url, "http://127.0.0.1:3000/list");
    let files = vec![info("a", "dir", 0), info("b", "file", 1), info("//a", "dir", 0)];
    match fs.list_dir("/", ok(files)) {
        Remote::Done(Ok(l)) => {
            let numbers: Vec<u64> = l.iter().map(|entry| entry.ino).collect();
            assert_eq!(numbers, vec![2, 3, 2]);
            let keys: Vec<&str> = l.iter().map(|entry| entry.key.as_str()).collect();
            assert_eq!(keys, vec!["a", "b", "//a"]);
            assert_eq!(l[1].info.size, 1);
        },
        _ => panic!("the listing should be given"),
    }
    assert_eq!(fs.get_path_by_ino(3).as_deref(), Some("b"));
    assert_eq!(fs.get_path_by_ino(9), None);
    assert_eq!(fs.get_allocated_inode("/b"), 3);
}

#[test]
fn a_part_of_a_file_is_asked_for() {
    let fs = connect();
    let request = sent(fs.fetch_range("a/b", 5, 10, None));
    assert_eq!(request.url, "http://127.0.0.1:3000/files/a/b?offset=5&size=10");
    assert!(matches!(fs.fetch_range("a", 0, 3, ok(vec![1, 2])), Remote::Done(Ok(b)) if b == [1, 2]));
    let refused = Some(Outcome::Answered { status: 500, body: Ok(vec![]) });
    assert!(matches!(fs.fetch_range("a", 0, 3, refused), Remote::Done(Err(Errno::Io))));
}

#[test]
fn a_chunk_is_fetched_once_at_a_time() {
    let mut fs = connect();
    assert!(matches!(fs.fetch_chunk("k", true), ChunkStep::Use));
    assert!(matches!(fs.fetch_chunk("k", false), ChunkStep::Fetch));
    assert!(matches!(fs.fetch_chunk("k", false), ChunkStep::Wait(10)));
    assert!(!fs.prefetch_next_chunk("k", false));
    assert!(fs.chunk_fetched("k", true));
    assert!(fs.prefetch_next_chunk("k", false));
    assert!(!fs.chunk_fetched("k", false));
    fs.shutdown_background_tasks();
    assert!(!fs.prefetch_next_chunk("k", false));
}

#[test]
fn a_read_is_put_together_from_chunks() {
    let fs = connect();
    let content: Vec<u8> = (0..READ_CHUNK_SIZE + 100).map(|i| (i % 251) as u8).collect();
    let from = READ_CHUNK_SIZE - 4;
    let mut read = fs.read_file("/big", from, 50).expect("the server is there");
    let mut chunks = vec![];
    while let ReadStep::Want { chunk, ahead } = read.wanted() {
        assert_eq!(ahead, Some(chunk + READ_CHUNK_SIZE));
        chunks.push(chunk);
        let end = (chunk + READ_CHUNK_SIZE).min(content.len() as u64);
        read.feed(&content[chunk as usize..end as usize].to_vec());
    }
    assert_eq!(chunks, vec![0, READ_CHUNK_SIZE]);
    assert_eq!(read.out, &content[from as usize..from as usize + 50]);

    let mut last = fs.read_file("/big", u64::MAX, 50).expect("the server is there");
    assert!(matches!(last.wanted(), ReadStep::Want { ahead: None, .. }));
    last.feed(&vec![]);
    assert!(matches!(last.wanted(), ReadStep::Over));
    assert!(last.out.is_empty());

    let mut short = fs.read_file("/big", 2, 50).expect("the server is there");
    short.feed(&vec![1, 2, 3]);
    assert!(matches!(short.wanted(), ReadStep::Over));
    assert_eq!(short.out, vec![3]);
}

#[test]
fn a_write_names_its_offset() {
    let fs = connect();
    let request = sent(fs.write_file("/a", 7, vec![1, 2], None));
    assert_eq!(request.method, Method::Put);
    assert_eq!(request.url, "http://127.0.0.1:3000/files/a?offset=7");
    assert!(matches!(&request.body, Body::Bytes(b) if b == &[1, 2]));
}

#[test]
fn a_renamed_file_keeps_its_number() {
    let mut fs = connect();
    let ino = fs.get_allocated_inode("old");
    let request = sent(fs.rename("/old", "/d/new", None, None));
    assert_eq!(request.url, "http://127.0.0.1:3000/rename/old");
    assert!(matches!(&request.body, Body::NewPath(p) if p == "d/new"));
    match fs.rename("/old", "/d/new", Some((ino, info("old", "file", 3))), ok(())) {
        Remote::Done(Ok(upkeep)) => {
            assert_eq!(upkeep.forget, "old");
            let (key, number, moved) = upkeep.remember.expect("the metadata move along");
            assert_eq!((key.as_str(), number), ("d/new", ino));
            assert_eq!((moved.name.as_str(), moved.path.as_str(), moved.size), ("old", "d/new", 3));
        },
        _ => panic!("the file should be renamed"),
    }
    assert_eq!(fs.get_path_by_ino(ino).as_deref(), Some("d/new"));
    assert_eq!(fs.get_allocated_inode("d/new"), ino);
    let refused = Some(Outcome::Answered { status: 500, body: Ok(()) });
    assert!(matches!(fs.rename("d/new", "x", None, refused), Remote::Done(Err(Errno::Io))));
    assert_eq!(fs.get_path_by_ino(ino).as_deref(), Some("d/new"));
    let later = fs.get_allocated_inode("old");
    assert_eq!((ino, later), (2, 3));
    assert_eq!(fs.get_path_by_ino(later).as_deref(), Some("old"));
    assert_eq!(fs.get_allocated_inode("/d/new"), ino);
}

#[test]
fn numbers_name_paths_without_their_leading_slashes() {
    let mut fs = connect();
    let paths = ["/", "a", "//a", "", "a/", "/b/c", "b/c", "b//c"];
    let given: Vec<u64> = paths.iter().map(|p| fs.get_allocated_inode(p)).collect();
    assert_eq!(given, vec![1, 2, 2, 1, 3, 4, 4, 5]);
    let again: Vec<u64> = paths.iter().map(|p| fs.get_allocated_inode(p)).collect();
    assert_eq!(again, given);
    for (p, ino) in paths.iter().zip(&given) {
        assert_eq!(fs.get_path_by_ino(*ino).as_deref(), Some(p.trim_start_matches('/')));
    }
    assert!(matches!(fs.rename("a", "z", None, ok(())), Remote::Done(Ok(_))));
    assert_eq!(fs.get_allocated_inode("/"), 1);
}

#[test]
fn what_takes_the_roots_path_takes_it_from_the_root() {
    let mut fs = connect();
    assert_eq!(fs.get_allocated_inode("a"), 2);
    assert!(matches!(fs.rename("a", "/", None, ok(())), Remote::Done(Ok(_))));
    assert_eq!(fs.get_allocated_inode("/"), 2);
    assert_eq!(fs.get_path_by_ino(1).as_deref(), Some(""));
}

#[test]
fn what_was_changed_is_forgotten() {
    let fs = connect();
    match fs.write_file("/a", 7, vec![1, 2], ok(())) {
        Remote::Done(Ok(upkeep)) => {
            assert_eq!(upkeep.forget, "a");
            assert!(upkeep.remember.is_none());
        },
        _ => panic!("the file should be written"),
    }
    let gone = Some(Outcome::Answered { status: 204, body: Ok(()) });
    assert!(matches!(fs.delete_path("/a", gone), Remote::Done(Ok(u)) if u.forget == "a"));
    let refused = Some(Outcome::Answered { status: 404, body: Ok(()) });
    assert!(matches!(fs.delete_path("/a", refused), Remote::Done(Err(Errno::Io))));
    assert!(RemoteFilesystem::prefetched(&Outcome::Answered { status: 200, body: Ok(vec![1]) }));
    assert!(!RemoteFilesystem::prefetched(&Outcome::Answered { status: 500, body: Ok(vec![1]) }));
}

#[test]
fn attributes_are_made_of_what_is_told() {
    let adapter = FuseAdapter { uid: 1000, gid: 1001 };
    let attr = adapter.make_attr(5, &info("f", "file", 1025));
    assert_eq!(attr.blocks, 3);
    assert_eq!(attr.perm, 0o640);
    assert_eq!(attr.kind, FileType::RegularFile);
    assert_eq!((attr.nlink, attr.uid, attr.gid), (1, 1000, 1001));
    let mut odd = info("d", "dir", 0);
    odd.permissions = "rwx".to_string();
    let attr = adapter.make_attr(6, &odd);
    assert_eq!((attr.perm, attr.nlink), (0o755, 2));
    assert_eq!(attr.kind, FileType::Directory);
}

#[test]
fn a_directory_resumes_where_it_stopped() {
    let entries = vec![(7, info("a", "dir", 0)), (8, info("b", "file", 1))];
    let all = directory_lines(2, 1, &entries, 0);
    let names: Vec<&str> = all.iter().map(|l| l.name.as_str()).collect();
    assert_eq!(names, vec![".", "..", "a", "b"]);
    let rest = directory_lines(2, 1, &entries, all[1].next_offset);
    assert_eq!(rest.len(), 2);
    assert_eq!((rest[0].ino, rest[0].name.as_str()), (7, "a"));
    assert!(directory_lines(2, 1, &entries, 4).is_empty());
}

#[test]
fn the_mounted_file_system_asks_and_answers() {
    let mut fs = connect();
    let adapter = FuseAdapter { uid: 1, gid: 2 };
    let d = fs.get_allocated_inode("d");
    let known = |path: &str| Some(Ok((9, info(path, "file", 3))));

    assert!(matches!(adapter.getattr(&fs, d, None), FuseStep::Stat(p) if p == "d"));
    assert!(matches!(adapter.getattr(&fs, 77, None), FuseStep::Answer(Err(Errno::NoEnt))));
    assert!(matches!(adapter.getattr(&fs, d, Some(Err(Errno::Io))), FuseStep::Answer(Err(Errno::Io))));
    assert!(matches!(adapter.getattr(&fs, d, known("d")), FuseStep::Answer(Ok(a)) if a.ino == 9));

    assert!(matches!(adapter.lookup(&fs, d, "x", None), FuseStep::Stat(p) if p == "d/x"));
    assert!(matches!(
        adapter.lookup(&fs, d, "x", Some(Err(Errno::Io))),
        FuseStep::Answer(Err(Errno::NoEnt))
    ));

    assert!(matches!(adapter.create(&fs, 1, "f", None, None), FuseStep::Write(p) if p == "f"));
    assert!(matches!(adapter.create(&fs, 1, "f", Some(("g", Ok(()))), None), FuseStep::Stat(p) if p == "g"));
    assert!(matches!(
        adapter.create(&fs, 1, "f", Some(("f", Err(Errno::NotConn))), None),
        FuseStep::Answer(Err(Errno::NotConn))
    ));
    assert!(matches!(adapter.mkdir(&fs, d, "e", None, None), FuseStep::MakeDir(p) if p == "d/e"));
    assert!(matches!(
        adapter.mkdir(&fs, d, "e", Some(("d/e", Ok(()))), known("d/e")),
        FuseStep::Answer(Ok(_))
    ));
    assert!(matches!(
        adapter.rename(&fs, d, "a", 1, "b", None),
        FuseStep::Rename(from, to) if from == "d/a" && to == "/b"
    ));
    assert!(matches!(
        adapter.rename(&fs, d, "a", 77, "b", None),
        FuseStep::Answer(Err(Errno::NoEnt))
    ));
    assert!(matches!(adapter.remove_any(&fs, d, "a", None), FuseStep::Delete(p) if p == "d/a"));
    assert!(matches!(adapter.remove_any(&fs, d, "a", Some(Ok(()))), FuseStep::Answer(Ok(()))));
    assert!(matches!(adapter.read(&fs, d, None), FuseStep::Read(p) if p == "d"));
    assert!(matches!(adapter.write(&fs, d, 4, Some(Ok(()))), FuseStep::Answer(Ok(4))));
}

#[test]
fn what_was_offered_in_a_directory_was_seen_there() {
    let mut fs = connect();
    let adapter = FuseAdapter { uid: 1, gid: 2 };
    let d = fs.get_allocated_inode("d");
    let e = fs.get_allocated_inode("d/e");
    assert!(matches!(adapter.readdir(&fs, d, 0, None), FuseStep::List(p) if p == "d"));
    let lines = match adapter.readdir(&fs, d, 0, Some(Ok(vec![(e, info("d/e", "dir", 0))]))) {
        FuseStep::Answer(Ok(lines)) => lines,
        _ => panic!("the lines should be answered"),
    };
    for line in &lines {
        adapter.offered(&mut fs, d, line);
    }
    match adapter.readdir(&fs, e, 1, Some(Ok(vec![]))) {
        FuseStep::Answer(Ok(lines)) => assert_eq!((lines[0].ino, lines[0].name.as_str()), (d, "..")),
        _ => panic!("the lines should be answered"),
    }
}

#[test]
fn paths_of_nodes_are_built() {
    let mut fs = connect();
    let d = fs.get_allocated_inode("d");
    assert_eq!(fs.path_below(d, "x").as_deref(), Ok("d/x"));
    assert_eq!(fs.create_path(1, "x").as_deref(), Ok("x"));
    assert_eq!(fs.node_path(d).as_deref(), Ok("d"));
    assert_eq!(fs.node_path(99), Err(Errno::NoEnt));
    assert_eq!(fs.child_path(99, "x"), Err(Errno::NoEnt));
    let (from, to) = fs.rename_paths(d, "x", d, "y").expect("both are known");
    assert_eq!((from.as_str(), to.as_str()), ("d/x", "d/y"));
}

#[test]
fn numbers_are_kept_and_differ() {
    let mut table = Inodes::new();
    let a = table.get_allocated_inode("a");
    let b = table.get_allocated_inode("b");
    assert_eq!((a, b), (2, 3));
    assert_eq!(table.get_allocated_inode("a"), a);
    assert_eq!(table.get_path_by_ino(1).as_deref(), Some(""));
    table.set_parent(b, a);
    assert_eq!(table.parent_of(b), a);
    assert_eq!(table.parent_of(a), 1);
    table.rename("a", "c");
    assert_eq!(table.get_path_by_ino(a).as_deref(), Some("c"));
    assert_eq!(table.get_allocated_inode("b"), b);
}

fn entry(name: &str, is_dir: bool, size: u64) -> DirEntry {
    DirEntry { name: name.to_string(), is_dir, size }
}

#[test]
fn a_path_is_escaped_in_an_address() {
    let api = RemoteApi::new("http://server".to_string());
    assert_eq!(api.build_url("/files", Some("a b\\c\u{e9}~")), "http://server/files/a%20b%2Fc%C3%A9~");
    assert_eq!(api.build_url("/list", None), "http://server/list/");
    match api.write_file(Some("x"), vec![1], None) {
        Call::Send(r) => assert_eq!((r.method, r.url.as_str()), (Method::Put, "http://server/files/x")),
        Call::Done(_) => panic!("a request was expected"),
    }
}

#[test]
fn answers_that_tell_of_failure_are_failures() {
    let api = RemoteApi::new("http://server".to_string());
    let answer = |status| Some(Outcome::Answered { status, body: Ok(()) });
    assert!(matches!(api.create_directory(None, answer(201)), Call::Done(Ok(()))));
    assert!(matches!(api.create_directory(None, answer(302)), Call::Done(Ok(()))));
    assert!(matches!(api.delete_path(None, answer(404)), Call::Done(Err(ApiFault::Status(404)))));
    assert!(matches!(
        api.read_file(None, Some(Outcome::Failed(NetworkFault::Timeout))),
        Call::Done(Err(ApiFault::Network(NetworkFault::Timeout)))
    ));
    assert!(matches!(api.list_directory(None, ok(vec![])), Call::Done(Ok(l)) if l.is_empty()));
}

#[test]
fn nodes_are_numbered_as_they_are_met() {
    let mut fs = RemoteFS::new();
    assert!(matches!(fs.lookup(1, "d", None), NodeStep::List(p) if p == "/"));
    let entries = vec![entry("f", false, 4), entry("d", true, 0)];
    assert_eq!(find_named(&entries, "d"), Some(1));
    match fs.lookup(1, "d", Some(Some(entries.clone()))) {
        NodeStep::Found { ino, is_dir, perm, .. } => assert_eq!((ino, is_dir, perm), (2, true, 0o755)),
        _ => panic!("the entry should be found"),
    }
    assert!(matches!(fs.lookup(1, "x", Some(Some(entries.clone()))), NodeStep::Missing));
    assert_eq!(fs.path_at(2), "/d");
    let listing = fs.readdir(2, 0).expect("the directory has lines");
    assert_eq!(listing.path, "/d");
    let numbers: Vec<u64> = listing.lines.iter().map(|l| l.ino).collect();
    assert_eq!(numbers, vec![2, 1]);
    let line = fs.entry(&listing.path, 0, &entry("g", false, 1));
    assert_eq!((line.ino, line.next_offset, line.name.as_str()), (3, 2, "g"));
    assert_eq!(fs.path_at(3), "/d/g");
    assert!(fs.readdir(2, 1).is_none());
    assert_eq!(fs.add_path("/d"), 2);
    assert_eq!(fs.add_path("//d/./"), 2);
    assert_eq!(fs.entry("/d", 1, &entry(".", true, 0)).ino, 2);
    assert_eq!(fs.entry("/d", 2, &entry("/x", false, 0)).ino, 4);
    assert_eq!(fs.path_at(4), "/x");
    assert_eq!(fs.readdir(3, 0).expect("the node has lines").lines[1].ino, 2);
    assert!(matches!(fs.read(3, None), FuseStep::Read(p) if p == "/d/g"));
    assert!(matches!(fs.read(3, Some(Some(vec![5]))), FuseStep::Answer(Ok(b)) if b == [5]));
    assert!(matches!(fs.read(3, Some(None)), FuseStep::Answer(Err(Errno::NoEnt))));
}

#[test]
fn health_is_asked_of_the_server() {
    let fs = RemoteFilesystem::new("http://127.0.0.1:3000/base/x").expect("an address");
    let request = fs.health_request().expect("the address can be joined");
    assert_eq!(request.url, "http://127.0.0.1:3000/base/health");
    assert_eq!(request.content_range, None);
}
