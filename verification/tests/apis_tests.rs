use remotefs::api::{ApiError, FileEntry};
use remotefs::client::{ApiClient, RetryStep, Step, MAX_RETRIES};
use remotefs::errno::Errno;
use remotefs::http::{Body, Exchange, Method, NetworkFault, Request};

const BASE: &str = "http://127.0.0.1:3000";

fn make_client() -> ApiClient {
    ApiClient::new(BASE.to_string())
}

fn sample_entry(name: &str) -> FileEntry {
    FileEntry {
        name: name.to_string(),
        is_dir: false,
        size: 7,
        mtime: 11.0f64.to_bits(),
        ctime: 5.0f64.to_bits(),
        mode: 0o644,
    }
}

fn answered<T>(status: u16, body: T) -> Option<Exchange<T>> {
    Some(Exchange::Answered { status, body: Ok(body) })
}

fn sent<T>(step: Step<T>) -> Request {
    match step {
        Step::Send(request) => request,
        Step::Done(_) => panic!("a request was expected"),
    }
}

fn done<T>(step: Step<T>) -> Result<T, ApiError> {
    match step {
        Step::Done(result) => result,
        Step::Send(_) => panic!("the operation should be over"),
    }
}

fn failure<T>(step: Step<T>) -> ApiError {
    match done(step) {
        Err(e) => e,
        Ok(_) => panic!("an error was expected"),
    }
}

#[test]
fn validate_path_rejects_traversal() {
    let err = ApiClient::validate_path("/safe/../evil", "list_directory").unwrap_err();
    assert_eq!(err.errno.code(), libc::EINVAL);
    assert!(err.message.contains("list_directory"));
    assert!(ApiClient::validate_path("/safe/..evil/...", "list_directory").is_ok());
}

#[test]
fn list_directory_successfully_parses_entries() {
    let client = make_client();
    let request = sent(client.list_directory("/dir", None));
    assert_eq!(request.method, Method::Get);
    assert_eq!(request.url, format!("{BASE}/list/dir"));
    assert!(matches!(request.body, Body::Empty));

    let entries = done(client.list_directory("/dir", answered(200, vec![sample_entry("hello.txt")])))
        .expect("list_directory should return the entry");
    assert_eq!(entries.len(), 1);
    assert_eq!(entries[0].name, "hello.txt");
}

#[test]
fn list_directory_returns_parse_error_for_invalid_json() {
    let client = make_client();
    let answer = Some(Exchange::Answered { status: 200, body: Err("expected value".to_string()) });
    let err = failure(client.list_directory("/dir", answer));
    assert_eq!(err.errno.code(), libc::EIO);
    assert!(err.message.contains("Failed to parse response"));
    assert!(err.message.contains("expected value"));
}

#[test]
fn read_file_chunk_zero_size_short_circuits_without_http_call() {
    let bytes = done(make_client().read_file_chunk("/any", 0, 0, None))
        .expect("size=0 should return empty vec");
    assert!(bytes.is_empty());
}

#[test]
fn read_file_chunk_truncates_server_payload_to_requested_size() {
    let client = make_client();
    let request = sent(client.read_file_chunk("/blob", 0, 4, None));
    assert_eq!(request.method, Method::Get);
    assert_eq!(request.url, format!("{BASE}/files/blob?offset=0&size=4"));

    let bytes = done(client.read_file_chunk("/blob", 0, 4, answered(200, vec![1u8, 2, 3, 4, 5, 6])))
        .expect("read_file_chunk should succeed");
    assert_eq!(bytes, vec![1u8, 2, 3, 4]);
}

#[test]
fn write_file_chunk_empty_payload_short_circuits() {
    done(make_client().write_file_chunk("/blob", 10, &vec![], None, None, None))
        .expect("empty chunk write should be a no-op");
}

#[test]
fn write_file_chunk_uses_patch_with_content_range() {
    let client = make_client();
    let data = b"xyz".to_vec();
    let request = sent(client.write_file_chunk("/blob", 5, &data, None, None, None));
    assert_eq!(request.method, Method::Patch);
    assert_eq!(request.url, format!("{BASE}/files/blob"));
    assert_eq!(request.content_range.as_deref(), Some("bytes 5-7/*"));
    assert!(matches!(&request.body, Body::Bytes(b) if b == b"xyz"));

    done(client.write_file_chunk("/blob", 5, &data, answered(200, ()), None, None))
        .expect("patch write should succeed");
}

#[test]
fn write_file_chunk_falls_back_to_read_modify_write_on_405() {
    let client = make_client();
    let data = b"xyz".to_vec();
    let patch = sent(client.write_file_chunk("/file.txt", 2, &data, None, None, None));
    assert_eq!(patch.method, Method::Patch);

    let read = sent(client.write_file_chunk("/file.txt", 2, &data, answered(405, ()), None, None));
    assert_eq!(read.method, Method::Get);
    assert_eq!(read.url, format!("{BASE}/files/file.txt"));

    let write = sent(client.write_file_chunk(
        "/file.txt",
        2,
        &data,
        answered(405, ()),
        answered(200, b"ABCDE".to_vec()),
        None,
    ));
    assert_eq!(write.method, Method::Put);
    assert_eq!(write.url, format!("{BASE}/files/file.txt"));
    assert!(matches!(&write.body, Body::Bytes(b) if b == b"ABxyz"));

    done(client.write_file_chunk(
        "/file.txt",
        2,
        &data,
        answered(405, ()),
        answered(200, b"ABCDE".to_vec()),
        answered(200, ()),
    ))
    .expect("fallback write should succeed");
}

#[test]
fn write_file_chunk_fallback_creates_new_content_when_file_missing() {
    let client = make_client();
    let data = b"AB".to_vec();
    let write = sent(client.write_file_chunk(
        "/new.bin",
        2,
        &data,
        answered(405, ()),
        answered(404, vec![]),
        None,
    ));
    assert_eq!(write.method, Method::Put);
    assert_eq!(write.url, format!("{BASE}/files/new.bin"));
    assert!(matches!(&write.body, Body::Bytes(b) if b == b"\0\0AB"));

    done(client.write_file_chunk(
        "/new.bin",
        2,
        &data,
        answered(405, ()),
        answered(404, vec![]),
        answered(200, ()),
    ))
    .expect("fallback should create missing content with zero-fill");
}

#[test]
fn create_delete_rename_set_attrs_and_health_check_hit_expected_endpoints() {
    let client = make_client();

    let mkdir = sent(client.create_directory("/docs", None));
    assert_eq!((mkdir.method, mkdir.url), (Method::Post, format!("{BASE}/mkdir/docs")));
    let delete = sent(client.delete("/docs/file.txt", None));
    assert_eq!((delete.method, delete.url), (Method::Delete, format!("{BASE}/files/docs/file.txt")));
    let rename = sent(client.rename("/a.txt", "/b.txt", None));
    assert_eq!((rename.method, rename.url), (Method::Post, format!("{BASE}/rename")));
    assert!(matches!(&rename.body, Body::Rename { from, to } if from == "/a.txt" && to == "/b.txt"));
    let attrs = sent(client.set_attrs("/file.txt", Some(0o644), None));
    assert_eq!((attrs.method, attrs.url), (Method::Patch, format!("{BASE}/attrs/file.txt")));
    assert!(matches!(attrs.body, Body::Mode(Some(420))));
    let health = sent(client.health_check(None));
    assert_eq!((health.method, health.url), (Method::Get, format!("{BASE}/health")));

    done(client.create_directory("/docs", answered(200, ()))).expect("mkdir should succeed");
    done(client.delete("/docs/file.txt", answered(200, ()))).expect("delete should succeed");
    done(client.rename("/a.txt", "/b.txt", answered(200, ()))).expect("rename should succeed");
    done(client.set_attrs("/file.txt", Some(0o644), answered(200, ()))).expect("set_attrs should succeed");
    done(client.health_check(answered(200, ()))).expect("health_check should succeed");
}

#[test]
fn path_validation_happens_before_any_network_request() {
    let client = ApiClient::new("http://127.0.0.1:9".to_string());
    let x = b"x".to_vec();

    assert_eq!(failure(client.list_directory("/a/../b", None)).errno.code(), libc::EINVAL);
    assert_eq!(failure(client.read_file("/a/../b", None)).errno.code(), libc::EINVAL);
    assert_eq!(failure(client.read_file_chunk("/a/../b", 0, 1, None)).errno.code(), libc::EINVAL);
    assert_eq!(failure(client.write_file("/a/../b", &x, None)).errno.code(), libc::EINVAL);
    assert_eq!(
        failure(client.write_file_chunk("/a/../b", 0, &x, None, None, None)).errno.code(),
        libc::EINVAL
    );
    assert_eq!(failure(client.create_directory("/a/../b", None)).errno.code(), libc::EINVAL);
    assert_eq!(failure(client.delete("/a/../b", None)).errno.code(), libc::EINVAL);
    assert_eq!(failure(client.rename("/ok", "/a/../b", None)).errno.code(), libc::EINVAL);
    assert_eq!(failure(client.set_attrs("/a/../b", None, None)).errno.code(), libc::EINVAL);
}

#[test]
fn api_error_status_mapping_covers_special_cases() {
    let not_found = ApiError::from_status(404, "read_file");
    assert_eq!(not_found.errno.code(), libc::ENOENT);

    let delete_conflict = ApiError::from_status(409, "delete");
    assert_eq!(delete_conflict.errno.code(), libc::ENOTEMPTY);

    let create_conflict = ApiError::from_status(409, "create_directory");
    assert_eq!(create_conflict.errno.code(), libc::EEXIST);

    let unsupported = ApiError::from_status(405, "write_file_chunk");
    assert_eq!(unsupported.errno.code(), libc::ENOSYS);

    let storage_full = ApiError::from_status(507, "write_file");
    assert_eq!(storage_full.errno.code(), libc::ENOSPC);

    let custom = ApiError::from_status(418, "op");
    assert_eq!(custom.errno.code(), libc::EIO);
    assert!(custom.message.contains("418"));
}

#[test]
fn api_error_display_includes_errno() {
    let err = ApiError { errno: Errno::Io, message: "broken".to_string() };
    let displayed = err.display();
    assert!(displayed.contains("broken"));
    assert!(displayed.contains("errno"));
    assert!(displayed.contains(&libc::EIO.to_string()));
}

#[test]
fn network_faults_map_to_errnos() {
    let timeout = ApiError::from_network_error("op", &NetworkFault::Timeout);
    assert_eq!(timeout.errno.code(), libc::ETIMEDOUT);
    let refused = ApiError::from_network_error("op", &NetworkFault::Connect);
    assert_eq!(refused.errno.code(), libc::EHOSTUNREACH);
    let other = ApiError::from_network_error("op", &NetworkFault::Other("odd".to_string()));
    assert_eq!(other.errno.code(), libc::EIO);
    assert!(other.message.contains("odd"));
}

#[test]
fn every_errno_has_the_platform_number() {
    let pairs = [
        (Errno::NoEnt, libc::ENOENT),
        (Errno::Io, libc::EIO),
        (Errno::Acces, libc::EACCES),
        (Errno::Exist, libc::EEXIST),
        (Errno::Inval, libc::EINVAL),
        (Errno::FBig, libc::EFBIG),
        (Errno::NoSpc, libc::ENOSPC),
        (Errno::Again, libc::EAGAIN),
        (Errno::NoSys, libc::ENOSYS),
        (Errno::NotEmpty, libc::ENOTEMPTY),
        (Errno::TimedOut, libc::ETIMEDOUT),
        (Errno::ConnRefused, libc::ECONNREFUSED),
        (Errno::HostUnreach, libc::EHOSTUNREACH),
        (Errno::NotConn, libc::ENOTCONN),
    ];
    for (errno, number) in pairs {
        assert_eq!(errno.code(), number);
    }
}

#[test]
fn a_chunk_write_gives_up_on_a_refusal_and_retries_on_a_failing_server() {
    let client = make_client();
    let data = vec![1u8, 2, 3];
    match client.write_file_chunk_async("/fail.bin", 0, &data, 0, None) {
        RetryStep::Send(r) => {
            assert_eq!(r.method, Method::Patch);
            assert_eq!(r.content_range.as_deref(), Some("bytes 0-2/*"));
        },
        _ => panic!("a request was expected"),
    }
    assert!(matches!(
        client.write_file_chunk_async("/fail.bin", 0, &data, 0, answered(400, ())),
        RetryStep::Done(Err(_))
    ));
    let mut attempt = 0;
    let mut waited = vec![];
    let end = loop {
        match client.write_file_chunk_async("/fail.bin", 0, &data, attempt, answered(503, ())) {
            RetryStep::Wait { millis, attempt: next } => {
                waited.push(millis);
                attempt = next;
            },
            RetryStep::Done(r) => break r,
            RetryStep::Send(_) => panic!("the answer is known"),
        }
    };
    assert!(end.is_err());
    assert_eq!(attempt, MAX_RETRIES);
    assert_eq!(waited, vec![1000, 2000, 4000, 8000]);
    assert!(matches!(
        client.write_file_chunk_async("/fail.bin", 0, &data, 2, answered(200, ())),
        RetryStep::Done(Ok(()))
    ));
}
