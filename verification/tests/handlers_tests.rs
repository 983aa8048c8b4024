use std::collections::BTreeMap;

use remotefs::handlers::{
    create_directory, delete_file, file_info, health, index, list_directory, patch_file,
    permissions_mode, read_file, rename_entry, set_attrs, set_permissions_mode, write_file, AppState,
    FoundEntry, Meta, PatchSession, PatchStep, Received, RenameRequest, SetAttrsRequest,
    UploadCount,
};
use remotefs::paths::{safe_candidate, Candidate};
use remotefs::reply::{Content, Deed, FsErrorKind, Next, Place, Probe, Response};

const ROOT: &str = "/srv/data";
/// A moment in November 1994, in seconds since the epoch.
const CHANGED: u64 = 784_111_777;

/// A file system in memory, with the permission bits: `None` stands for a
/// directory.
struct TestServer {
    state: AppState,
    nodes: BTreeMap<String, (Option<Vec<u8>>, u32)>,
}

fn parent(path: &str) -> &str {
    path.rsplit_once('/').map(|(p, _)| p).unwrap_or("")
}

fn body_of(response: &Response) -> Vec<u8> {
    match &response.content {
        Content::Octets(bytes) => bytes.clone(),
        _ => vec![],
    }
}

impl TestServer {
    fn new() -> Self {
        let mut nodes = BTreeMap::new();
        nodes.insert(ROOT.to_string(), (None, 0o755));
        TestServer { state: AppState { root_dir: ROOT.to_string(), windows: false }, nodes }
    }

    fn place(&self, path: &str) -> Place {
        let parent_abs = match safe_candidate(ROOT, path, false) {
            Candidate::Below(full) => Some(parent(&full).to_string()),
            _ => None,
        };
        Place {
            base_abs: Some(ROOT.to_string()),
            parent_abs: parent_abs.filter(|p| self.nodes.contains_key(p)),
        }
    }

    fn probe(&self, path: &str) -> Option<Probe> {
        let node = self.nodes.get(path.trim_end_matches('/'));
        Some(Probe { exists: node.is_some(), is_dir: matches!(node, Some((None, _))) })
    }

    fn make_dirs(&mut self, path: &str) -> Result<(), FsErrorKind> {
        if path.len() > ROOT.len() {
            let above = parent(path).to_string();
            self.make_dirs(&above)?;
        }
        match self.nodes.get(path) {
            Some((Some(_), _)) => Err(FsErrorKind::AlreadyExists),
            Some((None, _)) => Ok(()),
            None => {
                self.nodes.insert(path.to_string(), (None, 0o755));
                Ok(())
            },
        }
    }

    fn content(&self, path: &str) -> Vec<u8> {
        self.nodes.get(path).and_then(|(c, _)| c.clone()).unwrap_or_default()
    }

    fn put(&mut self, path: &str, body: &[u8]) -> Response {
        let place = self.place(path);
        let mut parents = None;
        let mut created = None;
        let mut received = None;
        loop {
            match write_file(&self.state, path, &place, parents, created, received) {
                Next::Do { path, deed: Deed::MakeParents } => {
                    let above = parent(&path).to_string();
                    parents = Some(self.make_dirs(&above));
                },
                Next::Do { path, deed: Deed::Create } => {
                    self.nodes.insert(path, (Some(vec![]), 0o644));
                    created = Some(Ok(()));
                },
                Next::Do { path, deed: Deed::Receive } => {
                    self.nodes.insert(path, (Some(body.to_vec()), 0o644));
                    received = Some(Received::Whole(body.len()));
                },
                Next::Reply(r) => return r,
                _ => panic!("writing wants nothing else"),
            }
        }
    }

    fn get(&self, path: &str, range: Option<&str>, offset: Option<u64>, size: Option<u64>) -> (Response, Vec<u8>) {
        let place = self.place(path);
        let mut probe = None;
        let mut opened = None;
        let mut read: Option<Result<Vec<u8>, FsErrorKind>> = None;
        let mut file = vec![];
        loop {
            match read_file(&self.state, path, &place, range, offset, size, probe, opened, read.clone()) {
                Next::Do { path, deed: Deed::Look } => probe = self.probe(&path),
                Next::Do { path, deed: Deed::OpenRead } => {
                    file = self.content(&path);
                    opened = Some(Ok(file.len() as u64));
                },
                Next::Do { deed: Deed::ReadAt { start, len }, .. } => {
                    read = Some(Ok(file[start as usize..(start + len) as usize].to_vec()));
                },
                Next::Reply(r) => {
                    let body = match &r.content {
                        Content::WholeFile => file,
                        _ => body_of(&r),
                    };
                    return (r, body);
                },
                _ => panic!("reading wants nothing else"),
            }
        }
    }

    fn patch(&mut self, path: &str, header: Option<&str>, chunks: &[&[u8]]) -> Response {
        let place = self.place(path);
        let mut parents = None;
        let mut opened = None;
        let mut extended = None;
        let mut sought = None;
        let mut at = 0usize;
        let mut name = String::new();
        let mut session: PatchSession = loop {
            match patch_file(&self.state, path, &place, header, parents, opened, extended, sought) {
                PatchStep::Receive(session) => break session,
                PatchStep::Next(Next::Reply(r)) => return r,
                PatchStep::Next(Next::Do { path, deed }) => match deed {
                    Deed::MakeParents => {
                        let above = parent(&path).to_string();
                        parents = Some(self.make_dirs(&above));
                    },
                    Deed::OpenWrite => {
                        let node = self.nodes.entry(path.clone()).or_insert((Some(vec![]), 0o644));
                        opened = Some(Ok(node.0.as_ref().map(|b| b.len()).unwrap_or(0) as u64));
                        name = path;
                    },
                    Deed::Extend(n) => {
                        if let Some((Some(b), _)) = self.nodes.get_mut(&path) {
                            b.resize(n as usize, 0);
                        }
                        extended = Some(Ok(()));
                    },
                    Deed::Seek(n) => {
                        at = n as usize;
                        sought = Some(Ok(()));
                    },
                    _ => panic!("patching wants nothing else"),
                },
            }
        };
        for chunk in chunks {
            if let Some(refusal) = session.offer(chunk.len()) {
                return refusal;
            }
            if let Some((Some(b), _)) = self.nodes.get_mut(&name) {
                b[at..at + chunk.len()].copy_from_slice(chunk);
            }
            at += chunk.len();
        }
        session.finish()
    }

    fn head(&self, path: &str) -> Response {
        let place = self.place(path);
        let mut probe = None;
        let mut meta = None;
        loop {
            match file_info(&self.state, path, &place, probe, meta) {
                Next::Do { path, deed: Deed::Look } => probe = self.probe(&path),
                Next::Do { path, deed: Deed::Stat } => {
                    meta = Some(Some(Meta {
                        len: self.content(&path).len() as u64,
                        modified: Some(CHANGED),
                    }));
                },
                Next::Reply(r) => return r,
                _ => panic!("looking wants nothing else"),
            }
        }
    }

    fn list(&self, path: &str) -> Response {
        let place = self.place(path);
        let probe = match list_directory(&self.state, path, &place, None, None) {
            Next::Do { path, deed: Deed::Look } => self.probe(&path),
            Next::Reply(r) => return r,
            _ => panic!("the path has to be looked at"),
        };
        let dir = match list_directory(&self.state, path, &place, probe, None) {
            Next::Do { path, deed: Deed::List } => path,
            Next::Reply(r) => return r,
            _ => panic!("the directory has to be read"),
        };
        let found = self
            .nodes
            .iter()
            .filter(|(p, _)| parent(p) == dir)
            .map(|(p, (content, mode))| {
                Some(FoundEntry {
                    name: p[dir.len() + 1..].to_string(),
                    is_dir: content.is_none(),
                    size: content.as_ref().map(|b| b.len()).unwrap_or(0) as u64,
                    modified: Some(2.5f64.to_bits()),
                    created: None,
                    unix_mode: Some(*mode),
                    readonly: false,
                })
            })
            .collect();
        match list_directory(&self.state, path, &place, probe, Some(Some(found))) {
            Next::Reply(r) => r,
            _ => panic!("the listing should be answered"),
        }
    }

    fn mkdir(&mut self, path: &str) -> Response {
        let place = self.place(path);
        let mut made = None;
        loop {
            match create_directory(&self.state, path, &place, made) {
                Next::Do { path, deed: Deed::MakeDirs } => made = Some(self.make_dirs(&path)),
                Next::Reply(r) => return r,
                _ => panic!("making a directory wants nothing else"),
            }
        }
    }

    fn delete(&mut self, path: &str) -> Response {
        let place = self.place(path);
        let mut probe = None;
        let mut removed = None;
        loop {
            match delete_file(&self.state, path, &place, probe, removed) {
                Next::Do { path, deed: Deed::Look } => probe = self.probe(&path),
                Next::Do { path, deed: Deed::RemoveFile } => {
                    self.nodes.remove(&path);
                    removed = Some(Ok(()));
                },
                Next::Do { path, deed: Deed::RemoveDir } => {
                    removed = Some(if self.nodes.keys().any(|p| parent(p) == path) {
                        Err(FsErrorKind::DirectoryNotEmpty)
                    } else {
                        self.nodes.remove(&path);
                        Ok(())
                    });
                },
                Next::Reply(r) => return r,
                _ => panic!("deleting wants nothing else"),
            }
        }
    }

    fn rename(&mut self, from: &str, to: &str) -> Response {
        let request = RenameRequest { from: from.to_string(), to: to.to_string() };
        let from_place = self.place(from);
        let to_place = self.place(to);
        let mut probe = None;
        let mut parents = None;
        let mut renamed = None;
        loop {
            match rename_entry(&self.state, &request, &from_place, &to_place, probe, parents, renamed) {
                Next::Do { path, deed: Deed::Look } => probe = self.probe(&path),
                Next::Do { path, deed: Deed::MakeParents } => {
                    let above = parent(&path).to_string();
                    parents = Some(self.make_dirs(&above));
                },
                Next::Do { path, deed: Deed::RenameTo(to) } => {
                    let node = self.nodes.remove(&path).expect("the source exists");
                    self.nodes.insert(to, node);
                    renamed = Some(Ok(()));
                },
                Next::Reply(r) => return r,
                _ => panic!("renaming wants nothing else"),
            }
        }
    }

    fn attrs(&mut self, path: &str, mode: Option<u32>) -> Response {
        let request = SetAttrsRequest { mode };
        let place = self.place(path);
        let mut probe = None;
        let mut stat = None;
        let mut changed = None;
        loop {
            match set_attrs(&self.state, path, &place, &request, probe, stat, changed) {
                Next::Do { path, deed: Deed::Look } => probe = self.probe(&path),
                Next::Do { deed: Deed::Stat, .. } => stat = Some(Ok(())),
                Next::Do { path, deed: Deed::SetMode(mode) } => {
                    self.nodes.get_mut(&path).expect("the file exists").1 = mode;
                    changed = Some(Ok(()));
                },
                Next::Reply(r) => return r,
                _ => panic!("new attributes want nothing else"),
            }
        }
    }
}

fn says(r: &Response, status: u16, words: &str) -> bool {
    r.status == status && matches!(&r.content, Content::Words(w) if w == words)
}

#[test]
fn mkdir_list_delete_file_flow_works() {
    let mut server = TestServer::new();
    assert_eq!(server.mkdir("docs/sub").status, 200);
    assert_eq!(server.put("docs/sub/a.txt", b"abc").status, 200);

    let listed = server.list("docs/sub");
    assert_eq!(listed.status, 200);
    let entries = match listed.content {
        Content::Listing(l) => l.entries,
        _ => panic!("entries should be answered"),
    };
    let entry = entries.iter().find(|e| e.name == "a.txt").expect("a.txt should be listed");
    assert!(!entry.is_dir);
    assert_eq!(entry.size, 3);
    assert_eq!(entry.mtime, 2.5f64.to_bits());
    assert_eq!(entry.ctime, entry.mtime);
    assert_eq!(entry.mode, 0o644);

    assert_eq!(server.delete("docs/sub/a.txt").status, 200);
    assert_eq!(server.delete("docs/sub/a.txt").status, 404);
}

#[test]
fn list_rejects_path_traversal() {
    let server = TestServer::new();
    assert_eq!(server.list("../evil").status, 400);
}

#[test]
fn deleting_non_empty_directory_is_rejected() {
    let mut server = TestServer::new();
    assert_eq!(server.mkdir("data").status, 200);
    assert_eq!(server.put("data/file.bin", b"x").status, 200);
    let refused = server.delete("data");
    assert!(!(200..300).contains(&refused.status));
    assert!(says(&refused, 409, "Failed to delete"));
}

#[test]
fn write_and_read_full_file_stream() {
    let mut server = TestServer::new();
    let put = server.put("docs/test.bin", b"abcdef");
    assert_eq!(put.status, 200);
    assert!(matches!(put.content, Content::Outcome(a) if a.success && a.bytes_written == Some(6)));
    let (get, body) = server.get("docs/test.bin", None, None, None);
    assert_eq!(get.status, 200);
    assert_eq!(body, b"abcdef");
}

#[test]
fn read_with_offset_and_size_query_returns_requested_slice() {
    let mut server = TestServer::new();
    assert_eq!(server.put("data/chunk.txt", b"0123456789").status, 200);
    let (get, body) = server.get("data/chunk.txt", None, Some(3), Some(4));
    assert_eq!(get.status, 200);
    assert_eq!(body, b"3456");
}

#[test]
fn read_with_range_header_returns_partial_content() {
    let mut server = TestServer::new();
    assert_eq!(server.put("range/file.txt", b"abcdef").status, 200);
    let (get, body) = server.get("range/file.txt", Some("bytes=1-3"), None, None);
    assert_eq!(get.status, 206);
    assert_eq!(get.content_range.as_deref(), Some("bytes 1-3/6"));
    assert_eq!(body, b"bcd");

    let (open, body) = server.get("range/file.txt", Some("bytes=4-"), None, None);
    assert_eq!((open.status, body.as_slice()), (206, &b"ef"[..]));
    let (beyond, _) = server.get("range/file.txt", Some("bytes=9-12"), None, None);
    assert_eq!(beyond.status, 416);
    let (unclear, body) = server.get("range/file.txt", Some("bytes=x-3"), None, None);
    assert_eq!((unclear.status, body.as_slice()), (200, &b"abcdef"[..]));
}

#[test]
fn read_with_offset_beyond_eof_returns_empty_body() {
    let mut server = TestServer::new();
    assert_eq!(server.put("eof.txt", b"xy").status, 200);
    let (get, body) = server.get("eof.txt", None, Some(99), Some(10));
    assert_eq!(get.status, 200);
    assert!(body.is_empty());
}

#[test]
fn patch_with_content_range_writes_partial_data_and_extends_file() {
    let mut server = TestServer::new();
    assert_eq!(server.patch("patch/new.bin", Some("bytes 2-4/*"), &[b"XY", b"Z"]).status, 200);
    let (get, body) = server.get("patch/new.bin", None, None, None);
    assert_eq!(get.status, 200);
    assert_eq!(body, &[0u8, 0u8, b'X', b'Y', b'Z']);
}

#[test]
fn patch_rejects_invalid_header_or_payload_length_mismatch() {
    let mut server = TestServer::new();
    assert_eq!(server.patch("patch/missing.bin", None, &[b"abc"]).status, 400);
    assert_eq!(server.patch("patch/mismatch.bin", Some("bytes 0-4/*"), &[b"abc"]).status, 400);
    assert!(says(
        &server.patch("patch/larger.bin", Some("bytes 0-1/*"), &[b"abc"]),
        400,
        "Payload larger than Content-Range"
    ));
    assert!(says(&server.patch("p", Some("items 0-1/*"), &[]), 400, "Invalid Content-Range format"));
    assert!(says(&server.patch("p", Some("bytes 1/*"), &[]), 400, "Invalid start-end"));
    assert!(says(&server.patch("p", Some("bytes a-1/*"), &[]), 400, "Invalid start"));
    assert!(says(&server.patch("p", Some("bytes 0-b/*"), &[]), 400, "Invalid end"));
    assert!(says(&server.patch("p", Some("bytes 3-1/*"), &[]), 400, "End < start"));
}

#[test]
fn index_endpoint_returns_service_metadata() {
    let body = index();
    assert_eq!(body.name, "Remote File System Server (Rust)");
    assert_eq!(body.version, "1.0.0");
    assert!(body.endpoints.len() >= 5);
}

#[test]
fn health_endpoint_reports_success() {
    let r = health();
    assert_eq!(r.status, 200);
    match r.content {
        Content::Outcome(a) => {
            assert!(a.success);
            assert_eq!(a.message.as_deref(), Some("ok"));
        },
        _ => panic!("an outcome was expected"),
    }
}

#[test]
fn head_returns_content_length_and_last_modified() {
    let mut server = TestServer::new();
    assert_eq!(server.put("meta/file.txt", b"12345").status, 200);
    let head = server.head("meta/file.txt");
    assert_eq!(head.status, 200);
    match head.content {
        Content::Head { length, modified } => {
            assert_eq!(length, 5);
            assert_eq!(modified, "Sun, 06 Nov 1994 08:49:37 GMT");
        },
        _ => panic!("headers were expected"),
    }
    assert_eq!(server.head("meta").status, 400);
    assert_eq!(server.head("meta/none").status, 404);
    assert_eq!(server.head("../x").status, 400);
}

#[test]
fn rename_moves_file_and_creates_destination_parent() {
    let mut server = TestServer::new();
    assert_eq!(server.put("src/old.txt", b"hello").status, 200);
    assert_eq!(server.rename("/src/old.txt", "/dst/nested/new.txt").status, 200);
    assert_eq!(server.get("src/old.txt", None, None, None).0.status, 404);
    let (new, body) = server.get("dst/nested/new.txt", None, None, None);
    assert_eq!(new.status, 200);
    assert_eq!(body, b"hello");
}

#[test]
fn rename_rejects_invalid_paths() {
    let mut server = TestServer::new();
    assert!(says(&server.rename("../escape.txt", "/safe.txt"), 400, "Invalid 'from' path"));
    assert!(says(&server.rename("/safe.txt", "../escape.txt"), 400, "Invalid 'to' path"));
    assert!(says(&server.rename("/none.txt", "/safe.txt"), 404, "Source not found"));
}

#[test]
fn set_attrs_handles_not_found_and_success_case() {
    let mut server = TestServer::new();
    assert_eq!(server.attrs("nope.txt", Some(420)).status, 404);
    assert_eq!(server.put("perm/file.txt", b"x").status, 200);
    assert_eq!(server.attrs("perm/file.txt", Some(384)).status, 200);
    assert_eq!(server.nodes["/srv/data/perm/file.txt"].1 & 0o777, 0o600);
    assert_eq!(server.attrs("perm/file.txt", None).status, 200);
    assert_eq!(server.nodes["/srv/data/perm/file.txt"].1 & 0o777, 0o600);
}

#[test]
fn reading_and_listing_tell_files_from_directories() {
    let mut server = TestServer::new();
    server.put("d/f", b"x");
    assert!(says(&server.get("d", None, None, None).0, 400, "Is a directory"));
    assert!(says(&server.get("d/g", None, None, None).0, 404, "File not found"));
    assert!(says(&server.list("d/f"), 400, "Not a directory"));
    assert!(says(&server.list("e"), 404, "Directory not found"));
    assert_eq!(server.list("").status, 200);
}

#[test]
fn a_parent_outside_the_root_is_refused() {
    let state = AppState { root_dir: ROOT.to_string(), windows: false };
    let place = Place { base_abs: Some(ROOT.to_string()), parent_abs: Some("/etc".to_string()) };
    match list_directory(&state, "link/x", &place, None, None) {
        Next::Reply(r) => assert!(says(&r, 400, "Invalid path")),
        _ => panic!("the path should be refused"),
    }
}

#[test]
fn modes_are_shown_as_far_as_they_are_known() {
    assert_eq!(permissions_mode(Some(0o640), true), 0o640);
    assert_eq!(permissions_mode(None, true), 0o555);
    assert_eq!(permissions_mode(None, false), 0o666);
    assert!(set_permissions_mode(0o444));
    assert!(!set_permissions_mode(0o600));
}

#[test]
fn failures_of_the_file_system_have_their_statuses() {
    let server = TestServer::new();
    let place = server.place("f");
    let reply = |next| match next {
        Next::Reply(r) => r,
        Next::Do { .. } => panic!("an answer was expected"),
    };
    for (kind, status) in [
        (FsErrorKind::NotFound, 404),
        (FsErrorKind::AlreadyExists, 409),
        (FsErrorKind::PermissionDenied, 403),
        (FsErrorKind::DirectoryNotEmpty, 409),
        (FsErrorKind::Other, 500),
    ] {
        let made = reply(create_directory(&server.state, "f", &place, Some(Err(kind))));
        assert!(says(&made, status, "Failed to create directory"));
        assert!(says(&PatchSession::unwritten(kind), status, "Failed to write chunk"));
    }
    let ok = Some(Ok(()));
    assert_eq!(reply(write_file(&server.state, "f", &place, ok, ok, Some(Received::Broken))).status, 400);
    assert_eq!(reply(write_file(&server.state, "f", &place, ok, ok, Some(Received::Unwritten))).status, 500);
}

#[test]
fn a_partial_write_is_read_back_by_its_range() {
    let mut server = TestServer::new();
    assert_eq!(server.put("f", b"0123456789").status, 200);
    assert_eq!(server.patch("f", Some("bytes 4-6/*"), &[b"a", b"bc"]).status, 200);
    let (part, body) = server.get("f", Some("bytes=4-6"), None, None);
    assert_eq!((part.status, body.as_slice()), (206, &b"abc"[..]));
    let (all, body) = server.get("f", None, None, None);
    assert_eq!((all.status, body.as_slice()), (200, &b"0123abc789"[..]));
    assert_eq!(server.put("f", b"new").status, 200);
    let (all, body) = server.get("f", None, None, None);
    assert_eq!((all.status, body.as_slice()), (200, &b"new"[..]));
}

#[test]
fn an_upload_is_counted_piece_by_piece() {
    let mut count = UploadCount::new();
    count.add(3);
    count.add(0);
    count.add(4);
    assert_eq!(count.finish(), Received::Whole(7));
}
