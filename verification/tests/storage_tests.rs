use std::collections::BTreeMap;

use remotefs::storage::{
    create_dir, delete_file, get_stat, health, list_dir, port, read_file, rename_file,
    storage_root, write_file, Answer, Entry, FileInfo, Metadata, ReadParams, RenameRequest,
    StorageNext, Upload, Want,
};

const NOW: i64 = 1_700_000_000;

/// A file system in memory: `None` stands for a directory.
struct TestServer {
    root: String,
    nodes: BTreeMap<String, Option<Vec<u8>>>,
}

fn parent(path: &str) -> &str {
    path.rsplit_once('/').map(|(p, _)| p).unwrap_or("")
}

impl TestServer {
    fn new() -> Self {
        let mut nodes = BTreeMap::new();
        nodes.insert("store".to_string(), None);
        TestServer { root: "store".to_string(), nodes }
    }

    fn metadata(&self, path: &str) -> Option<Metadata> {
        let path = path.trim_end_matches('/');
        self.nodes.get(path).map(|node| Metadata {
            is_dir: node.is_none(),
            size: node.as_ref().map(|b| b.len() as u64).unwrap_or(4096),
            modified: Some(NOW - 5),
        })
    }

    fn make_dirs(&mut self, path: &str) -> bool {
        let mut so_far = String::new();
        for piece in path.split('/') {
            if !so_far.is_empty() {
                so_far.push('/');
            }
            so_far.push_str(piece);
            if matches!(self.nodes.get(&so_far), Some(Some(_))) {
                return false;
            }
            self.nodes.insert(so_far.clone(), None);
        }
        true
    }

    fn status(answer: &Answer) -> u16 {
        match answer {
            Answer::Status(s) | Answer::Failed(s) => *s,
            _ => 200,
        }
    }

    fn get(&self, path: Option<&str>, params: ReadParams) -> (u16, Vec<u8>) {
        let mut opened = None;
        let mut sought = None;
        let mut read: Option<Option<Vec<u8>>> = None;
        let mut at = 0usize;
        let mut content: Vec<u8> = vec![];
        loop {
            match read_file(&self.root, false, path, params, opened, sought, read.clone()) {
                StorageNext::Do { path, want: Want::Open } => {
                    content = self.nodes.get(&path).cloned().flatten().unwrap_or_default();
                    opened = Some(self.nodes.contains_key(&path));
                },
                StorageNext::Do { want: Want::Seek(n), .. } => {
                    at = (n as usize).min(content.len());
                    sought = Some(true);
                },
                StorageNext::Do { want: Want::Read(n), .. } => {
                    let end = at.saturating_add(n as usize).min(content.len());
                    read = Some(Some(content[at..end].to_vec()));
                },
                StorageNext::Reply(Answer::Bytes(bytes)) => return (200, bytes),
                StorageNext::Reply(Answer::Stream) => return (200, content[at..].to_vec()),
                StorageNext::Reply(a) => return (Self::status(&a), vec![]),
                _ => panic!("reading wants nothing else"),
            }
        }
    }

    fn put(&mut self, path: Option<&str>, params: ReadParams, body: &[u8]) -> u16 {
        let mut opened = None;
        let mut sought = None;
        let mut received = None;
        let mut at = 0usize;
        loop {
            match write_file(&self.root, false, path, params, opened, sought, received) {
                StorageNext::Do { path, want: Want::OpenWrite { truncate } } => {
                    let possible = matches!(self.nodes.get(parent(&path)), Some(None))
                        && !matches!(self.nodes.get(&path), Some(None));
                    if possible {
                        let node = self.nodes.entry(path).or_insert(Some(vec![]));
                        if truncate {
                            *node = Some(vec![]);
                        }
                    }
                    opened = Some(possible);
                },
                StorageNext::Do { want: Want::Seek(n), .. } => {
                    at = n as usize;
                    sought = Some(true);
                },
                StorageNext::Do { path, want: Want::Receive } => {
                    let content = self.nodes.get_mut(&path).and_then(|n| n.as_mut()).expect("open");
                    if content.len() < at + body.len() {
                        content.resize(at + body.len(), 0);
                    }
                    content[at..at + body.len()].copy_from_slice(body);
                    received = Some(Upload::Written);
                },
                StorageNext::Reply(a) => return Self::status(&a),
                _ => panic!("writing wants nothing else"),
            }
        }
    }

    fn delete(&mut self, path: Option<&str>) -> u16 {
        let mut stat = None;
        let mut removed = None;
        loop {
            match delete_file(&self.root, false, path, stat, removed) {
                StorageNext::Do { path, want: Want::Stat } => {
                    stat = Some(self.metadata(&path).map(|m| m.is_dir));
                },
                StorageNext::Do { path, want: Want::RemoveFile } => {
                    removed = Some(self.nodes.remove(&path).is_some());
                },
                StorageNext::Do { path, want: Want::RemoveTree } => {
                    let below = format!("{path}/");
                    self.nodes.retain(|p, _| *p != path && !p.starts_with(&below));
                    removed = Some(true);
                },
                StorageNext::Reply(a) => return Self::status(&a),
                _ => panic!("deleting wants nothing else"),
            }
        }
    }

    fn mkdir(&mut self, path: Option<&str>) -> u16 {
        let mut made = None;
        loop {
            match create_dir(&self.root, false, path, made) {
                StorageNext::Do { path, want: Want::MakeDirs } => made = Some(self.make_dirs(&path)),
                StorageNext::Reply(a) => return Self::status(&a),
                _ => panic!("making a directory wants nothing else"),
            }
        }
    }

    fn rename(&mut self, old: &str, new_path: &str) -> u16 {
        let request = RenameRequest { new_path: new_path.to_string() };
        let mut prepared = None;
        let mut renamed = None;
        loop {
            match rename_file(&self.root, false, old, &request, prepared, renamed) {
                StorageNext::Do { path, want: Want::MakeParents } => {
                    let above = parent(&path).to_string();
                    prepared = Some(self.make_dirs(&above));
                },
                StorageNext::Rename { from, to } => {
                    renamed = Some(match self.nodes.remove(&from) {
                        Some(node) => {
                            self.nodes.insert(to, node);
                            true
                        },
                        None => false,
                    });
                },
                StorageNext::Reply(a) => return Self::status(&a),
                _ => panic!("renaming wants nothing else"),
            }
        }
    }

    fn list(&self, path: Option<&str>) -> Vec<FileInfo> {
        let dir = match list_dir(&self.root, false, path, None, NOW) {
            StorageNext::Do { path, want: Want::ReadDir } => path.trim_end_matches('/').to_string(),
            _ => panic!("the directory has to be read"),
        };
        let entries = match self.nodes.get(&dir) {
            Some(None) => Some(
                self.nodes
                    .keys()
                    .filter(|p| parent(p) == dir && !p.is_empty())
                    .map(|p| Entry {
                        name: p[dir.len() + 1..].to_string(),
                        metadata: self.metadata(p),
                    })
                    .collect(),
            ),
            _ => None,
        };
        match list_dir(&self.root, false, path, Some(entries), NOW) {
            StorageNext::Reply(Answer::Infos(infos)) => infos,
            _ => panic!("the listing should be answered"),
        }
    }

    fn stat(&self, path: Option<&str>) -> Result<FileInfo, u16> {
        let full = match get_stat(&self.root, false, path, None, NOW) {
            StorageNext::Do { path, want: Want::Stat } => path,
            _ => panic!("the metadata have to be read"),
        };
        match get_stat(&self.root, false, path, Some(self.metadata(&full)), NOW) {
            StorageNext::Reply(Answer::Info(info)) => Ok(info),
            StorageNext::Reply(a) => Err(Self::status(&a)),
            _ => panic!("nothing is left to do"),
        }
    }
}

fn params(offset: Option<u64>, size: Option<u64>) -> ReadParams {
    ReadParams { offset, size }
}

fn whole() -> ReadParams {
    params(None, None)
}

#[test]
fn files_put_get_and_range_read_work() {
    let mut server = TestServer::new();
    assert_eq!(server.put(Some("notes.txt"), whole(), b"hello world"), 200);
    assert_eq!(server.get(Some("notes.txt"), whole()).1, b"hello world");
    assert_eq!(server.get(Some("notes.txt"), params(Some(6), Some(5))).1, b"world");
}

#[test]
fn files_offset_write_and_edge_reads_work() {
    let mut server = TestServer::new();
    assert_eq!(server.put(Some("edge.txt"), whole(), b"abcdef"), 200);
    assert_eq!(server.put(Some("edge.txt"), params(Some(2), None), b"ZZ"), 200);
    assert_eq!(server.get(Some("edge.txt"), whole()).1, b"abZZef");
    assert_eq!(server.get(Some("edge.txt"), params(None, Some(0))).1, b"");
    assert_eq!(server.get(Some("edge.txt"), params(Some(1000), None)).1, b"");
}

#[test]
fn files_delete_file_and_directory_work() {
    let mut server = TestServer::new();
    assert_eq!(server.put(Some("temp.txt"), whole(), b"abc"), 200);
    assert_eq!(server.delete(Some("temp.txt")), 204);
    assert_eq!(server.get(Some("temp.txt"), whole()).0, 404);

    assert_eq!(server.mkdir(Some("tree/sub")), 201);
    assert_eq!(server.put(Some("tree/sub/leaf.txt"), whole(), b"leaf"), 200);
    assert_eq!(server.delete(Some("tree")), 204);
    assert_eq!(server.get(Some("tree/sub/leaf.txt"), whole()).0, 404);
}

#[test]
fn files_error_cases_return_expected_statuses() {
    let mut server = TestServer::new();
    assert_eq!(server.get(Some("missing.txt"), whole()).0, 404);
    assert_eq!(server.delete(Some("missing.txt")), 404);
    assert_eq!(server.delete(None), 400);
    assert_eq!(server.put(Some("missing/parent/file.txt"), whole(), b"x"), 500);
}

#[test]
fn health_get_returns_200() {
    assert!(matches!(health(), Answer::Status(200)));
}

#[test]
fn list_root_and_nested_directory_work() {
    let mut server = TestServer::new();
    assert_eq!(server.mkdir(Some("a/b")), 201);
    assert_eq!(server.put(Some("a/b/item.txt"), whole(), b"data"), 200);

    let root_list = server.list(None);
    assert!(root_list.iter().any(|e| e.name == "a" && e.file_type == "dir"));
    let nested_list = server.list(Some("a/b"));
    assert!(nested_list.iter().any(|e| e.name == "item.txt" && e.file_type == "file"));
    assert!(nested_list.iter().any(|e| e.path == "a/b/item.txt" && e.size == 4));
    assert!(root_list.iter().all(|e| e.permissions == "755"));
}

#[test]
fn list_missing_directory_returns_empty_list() {
    let server = TestServer::new();
    assert!(server.list(Some("missing-dir")).is_empty());
}

#[test]
fn mkdir_create_and_idempotency_work() {
    let mut server = TestServer::new();
    assert_eq!(server.mkdir(Some("same/dir")), 201);
    assert_eq!(server.mkdir(Some("same/dir")), 201);
}

#[test]
fn mkdir_error_cases_return_expected_statuses() {
    let mut server = TestServer::new();
    assert_eq!(server.mkdir(None), 400);
    assert_eq!(server.mkdir(Some("")), 400);
    server.put(Some("file"), whole(), b"x");
    assert_eq!(server.mkdir(Some("file/below")), 500);
}

#[test]
fn rename_success_cases_work() {
    let mut server = TestServer::new();
    assert_eq!(server.put(Some("rename-me.txt"), whole(), b"rename-content"), 200);
    assert_eq!(server.rename("rename-me.txt", "/renamed/final.txt"), 200);
    assert_eq!(server.get(Some("renamed/final.txt"), whole()).1, b"rename-content");
}

#[test]
fn rename_error_cases_return_expected_statuses() {
    let mut server = TestServer::new();
    assert_eq!(server.rename("never-existed.txt", "whatever.txt"), 500);
}

#[test]
fn stat_root_and_file_work() {
    let mut server = TestServer::new();
    assert_eq!(server.put(Some("stat-file.txt"), whole(), b"12345"), 200);

    let root_info = server.stat(None).expect("root stat should succeed");
    assert_eq!(root_info.path, "");
    assert_eq!(root_info.file_type, "dir");

    let file_info = server.stat(Some("stat-file.txt")).expect("file stat should succeed");
    assert_eq!(file_info.file_type, "file");
    assert_eq!(file_info.size, 5);
    assert_eq!(file_info.name, "stat-file.txt");
    assert_eq!(file_info.timestamp, (NOW - 5) as u64);
}

#[test]
fn stat_error_cases_return_expected_statuses() {
    let server = TestServer::new();
    assert_eq!(server.stat(Some("does-not-exist")).unwrap_err(), 404);
}

#[test]
fn times_before_the_epoch_are_shown_as_the_epoch() {
    let at = |modified| Some(Some(Metadata { is_dir: false, size: 1, modified }));
    let shown = |next| match next {
        StorageNext::Reply(Answer::Info(info)) => info.timestamp,
        _ => panic!("the metadata should be answered"),
    };
    assert_eq!(shown(get_stat("store", false, Some("f"), at(Some(-5)), NOW)), 0);
    assert_eq!(shown(get_stat("store", false, Some("f"), at(None), NOW)), NOW as u64);
}

#[test]
fn failures_of_the_file_system_are_told() {
    let fails = |next, status| matches!(next, StorageNext::Reply(Answer::Failed(s)) if s == status);
    let answers = |next, status| matches!(next, StorageNext::Reply(Answer::Status(s)) if s == status);
    let at = params(Some(1), Some(1));
    assert!(answers(read_file("s", false, Some("f"), at, Some(true), Some(false), None), 400));
    assert!(answers(read_file("s", false, Some("f"), at, Some(true), Some(true), Some(None)), 500));
    assert!(answers(write_file("s", false, Some("f"), at, Some(true), Some(false), None), 400));
    assert!(fails(write_file("s", false, Some("f"), at, Some(true), Some(true), Some(Upload::Broken)), 400));
    assert!(fails(write_file("s", false, Some("f"), at, Some(true), Some(true), Some(Upload::Unwritten)), 500));
    assert!(fails(delete_file("s", false, Some("f"), Some(Some(true)), Some(false)), 500));
}

#[test]
fn settings_of_the_server_have_defaults() {
    assert_eq!(storage_root(None), "mnt/remote-fs");
    assert_eq!(storage_root(Some("/srv")), "/srv");
    assert_eq!(port(None), Some(3000));
    assert_eq!(port(Some("8080")), Some(8080));
    assert_eq!(port(Some("65536")), None);
    assert_eq!(port(Some("web")), None);
}

#[test]
fn an_upload_leaves_the_rest_of_the_file() {
    let mut server = TestServer::new();
    assert_eq!(server.put(Some("f"), whole(), b"0123456789"), 200);
    assert_eq!(server.put(Some("f"), params(Some(4), None), b"abc"), 200);
    assert_eq!(server.get(Some("f"), params(Some(4), Some(3))).1, b"abc");
    assert_eq!(server.get(Some("f"), params(Some(0), Some(4))).1, b"0123");
    assert_eq!(server.get(Some("f"), params(Some(7), None)).1, b"789");
    assert_eq!(server.put(Some("f"), whole(), b"xy"), 200);
    assert_eq!(server.get(Some("f"), whole()).1, b"xy");
}

#[test]
fn on_windows_a_drive_of_its_own_stands_for_itself() {
    let place = |windows: bool, path: &str| match get_stat("srv", windows, Some(path), None, NOW) {
        StorageNext::Do { path, .. } => path,
        _ => panic!("the file should be looked at"),
    };
    assert_eq!(place(true, "C:/x"), "C:/x");
    assert_eq!(place(true, "/C:/x"), "C:/x");
    assert_eq!(place(true, "\\x"), "\\x");
    assert_eq!(place(true, "a/b"), "srv\\a/b");
    assert_eq!(place(false, "C:/x"), "srv/C:/x");
    assert_eq!(place(false, "a/b"), "srv/a/b");
}
