use std::collections::BTreeMap;

use remotefs::daemon::{
    daemon_child_args, is_process_listed, is_process_running, mount_point, pid_file_path,
    read_pid_file, read_pid_file_from, read_pid_file_optional, read_pid_file_optional_from, remove_pid_file,
    running_daemon_pid, running_daemon_pid_from, server_address, should_daemonize_from_args,
    should_stop_daemon_from_args, signal_target, spawn_daemon_child, stop_daemon,
    stop_daemon_by_killer, write_pid_file, write_pid_file_to, FileText, Interrupt, Killed, PidFault,
    PidStep, Ping, SpawnStep, StopStep,
};

fn args(words: &[&str]) -> Vec<String> {
    words.iter().map(|w| w.to_string()).collect()
}

/// The pid files that exist, by path.
struct Files(BTreeMap<String, String>);

impl Files {
    fn content(&self, path: &str) -> FileText {
        match self.0.get(path) {
            Some(text) => FileText::Text(text.clone()),
            None => FileText::Missing,
        }
    }
}

/// Asks for the running daemon, as long as there is something to look up.
fn detect(files: &mut Files, path: &str, alive: bool) -> Result<Option<u32>, PidFault> {
    let mut content: Option<&str> = None;
    let mut probed: Option<bool> = None;
    loop {
        let given = content.map(|p| files.content(p));
        match running_daemon_pid_from(path, given, probed) {
            PidStep::Read(p) => {
                assert_eq!(p, path);
                content = Some(path);
            },
            PidStep::Probe(_) => probed = Some(alive),
            PidStep::DoneRemoving(r, p) => {
                files.0.remove(&p);
                return r;
            },
            PidStep::Done(r) => return r,
        }
    }
}

#[test]
fn should_stop_daemon_detects_stop_flag() {
    assert!(should_stop_daemon_from_args(&args(&["client", "--stop"])));
    assert!(!should_stop_daemon_from_args(&args(&["client", "--daemon"])));
}

#[test]
fn should_daemonize_requires_daemon_without_foreground() {
    assert!(should_daemonize_from_args(&args(&["client", "--daemon"])));
    assert!(!should_daemonize_from_args(&args(&["client", "--daemon", "--foreground"])));
    assert!(!should_daemonize_from_args(&args(&["client"])));
}

#[test]
fn pid_file_roundtrip_with_custom_path() {
    let path = "/tmp/remotefs-client-roundtrip.pid";
    let mut files = Files(BTreeMap::new());

    let written = write_pid_file_to(path, 123_456);
    files.0.insert(written.path, written.text);
    let pid = read_pid_file_from(&files.content(path)).expect("read_pid_file_from should succeed");
    assert_eq!(pid, 123_456);

    files.0.remove(path);
    assert!(read_pid_file_from(&files.content(path)).is_err());
}

#[test]
fn read_pid_file_from_reports_invalid_content() {
    let err = read_pid_file_from(&FileText::Text("not-a-pid".to_string()))
        .expect_err("parsing invalid pid must fail");
    assert!(err.describe().contains("Invalid pid file content"));
}

#[test]
fn read_pid_file_optional_from_returns_none_when_missing() {
    let path = "/tmp/remotefs-client-missing.pid";
    match read_pid_file_optional_from(path, None) {
        PidStep::Read(p) => assert_eq!(p, path),
        _ => panic!("the file has to be read"),
    }
    match read_pid_file_optional_from(path, Some(FileText::Missing)) {
        PidStep::Done(r) => assert!(r.expect("optional read should not fail").is_none()),
        _ => panic!("nothing is left to do"),
    }
}

#[test]
fn running_daemon_pid_from_detects_current_process() {
    let path = "/tmp/remotefs-client-running.pid";
    let mut files = Files(BTreeMap::new());
    let written = write_pid_file_to(path, 4711);
    files.0.insert(written.path, written.text);

    let detected = detect(&mut files, path, true).expect("running pid check should succeed");
    assert_eq!(detected, Some(4711));
    assert!(files.0.contains_key(path));
}

#[test]
fn running_daemon_pid_from_cleans_invalid_pid_file() {
    let path = "/tmp/remotefs-client-stale-invalid.pid";
    let mut files = Files(BTreeMap::new());
    files.0.insert(path.to_string(), "invalid-pid".to_string());

    let detected = detect(&mut files, path, true).expect("running pid check should succeed");
    assert!(detected.is_none());
    assert!(!files.0.contains_key(path));
}

#[test]
fn a_pid_file_of_a_process_that_is_gone_is_removed() {
    let path = "/tmp/remotefs-client-stale.pid";
    let mut files = Files(BTreeMap::new());
    files.0.insert(path.to_string(), " 99 \n".to_string());

    assert_eq!(detect(&mut files, path, false).expect("the check should succeed"), None);
    assert!(!files.0.contains_key(path));
}

#[test]
fn process_running_helper_recognizes_current_pid_and_rejects_zero() {
    assert!(is_process_running(4711, Ping::Delivered));
    assert!(is_process_running(4711, Ping::NotPermitted));
    assert!(!is_process_running(4711, Ping::Failed));
    assert!(!is_process_running(0, Ping::Delivered));
    assert_eq!(signal_target(0), None);
    assert_eq!(signal_target(4711), Some(4711));
    assert_eq!(signal_target(u32::MAX), None);
}

#[test]
fn a_process_is_listed_where_the_output_names_it() {
    assert!(is_process_listed(42, Some("\"client.exe\",\"42\",\"Console\"")));
    assert!(!is_process_listed(42, Some("INFO: No tasks are running")));
    assert!(!is_process_listed(42, None));
}

#[test]
fn the_pid_file_lies_in_the_temporary_directory() {
    let path = pid_file_path("/tmp");
    assert!(path.starts_with("/tmp/"));
    assert_eq!(remove_pid_file("/tmp"), path);
    let written = write_pid_file("/tmp", 7);
    assert_eq!(written.path, path);
    match read_pid_file("/tmp", None) {
        PidStep::Read(p) => assert_eq!(p, path),
        _ => panic!("the file has to be read"),
    }
    match read_pid_file("/tmp", Some(FileText::Text(written.text))) {
        PidStep::Done(r) => assert_eq!(r.expect("the pid should be read"), 7),
        _ => panic!("nothing is left to do"),
    }
    match read_pid_file_optional("/tmp", None) {
        PidStep::Read(p) => assert_eq!(p, path),
        _ => panic!("the file has to be read"),
    }
    match read_pid_file_optional("/tmp", Some(FileText::Text("12".to_string()))) {
        PidStep::Done(r) => assert_eq!(r, Ok(Some(12))),
        _ => panic!("nothing is left to do"),
    }
    match running_daemon_pid("/tmp", Some(FileText::Text("12".to_string())), None) {
        PidStep::Probe(pid) => assert_eq!(pid, 12),
        _ => panic!("the process has to be looked for"),
    }
    match running_daemon_pid("/tmp", Some(FileText::Text("12".to_string())), Some(true)) {
        PidStep::Done(r) => assert_eq!(r, Ok(Some(12))),
        _ => panic!("nothing is left to do"),
    }
    match read_pid_file("/tmp", Some(FileText::Unreadable)) {
        PidStep::Done(r) => assert_eq!(r, Err(PidFault::NotFound)),
        _ => panic!("nothing is left to do"),
    }
    match read_pid_file("/tmp", Some(FileText::Missing)) {
        PidStep::Done(r) => assert_eq!(r, Err(PidFault::NotFound)),
        _ => panic!("nothing is left to do"),
    }
}

#[test]
fn stopping_interrupts_the_daemon_and_forgets_it() {
    assert!(matches!(stop_daemon(None, None), StopStep::Say(_)));
    assert!(matches!(stop_daemon(Some(9), None), StopStep::Interrupt(9)));
    assert!(matches!(
        stop_daemon(Some(9), Some(Interrupt::Delivered)),
        StopStep::Say(_) | StopStep::SayRemoving(_)
    ));
    assert!(matches!(stop_daemon(Some(9), Some(Interrupt::Gone)), StopStep::SayRemoving(_)));
    match stop_daemon(Some(9), Some(Interrupt::Failed("not allowed".to_string()))) {
        StopStep::Fail(words) => assert!(words.contains("not allowed")),
        _ => panic!("the failure should be told"),
    }
}

#[test]
fn a_killer_that_failed_is_no_failure_where_the_process_is_gone() {
    let failed = |still_running: bool| Killed {
        success: false,
        status: "exit code: 1".to_string(),
        complaint: "access denied".to_string(),
        still_running,
    };
    assert!(matches!(stop_daemon_by_killer(Some(9), None), StopStep::Interrupt(9)));
    assert!(matches!(stop_daemon_by_killer(Some(9), Some(failed(false))), StopStep::SayRemoving(_)));
    match stop_daemon_by_killer(Some(9), Some(failed(true))) {
        StopStep::Fail(words) => assert!(words.contains("access denied")),
        _ => panic!("the failure should be told"),
    }
}

#[test]
fn the_child_runs_in_the_foreground() {
    let child = daemon_child_args(&args(&["client", "--daemon", "--verbose"]));
    assert!(child.contains(&"--foreground".to_string()));
    assert!(child.contains(&"--verbose".to_string()));
    assert!(!should_daemonize_from_args(&child));
}

#[test]
fn spawning_writes_the_pid_of_the_child() {
    let given = args(&["client", "--daemon"]);
    assert!(matches!(spawn_daemon_child("/tmp", &given, Some(5), None), SpawnStep::Say(_)));
    match spawn_daemon_child("/tmp", &given, None, None) {
        SpawnStep::Spawn(child) => assert_eq!(child, daemon_child_args(&given)),
        _ => panic!("the child has to be started"),
    }
    match spawn_daemon_child("/tmp", &given, None, Some(77)) {
        SpawnStep::SayWriting(words, write) => {
            assert!(words.contains("77"));
            assert_eq!(write.path, pid_file_path("/tmp"));
            assert!(write.text.contains("77"));
        },
        _ => panic!("the pid has to be written"),
    }
}

#[test]
fn settings_have_defaults() {
    assert_eq!(server_address(Some("http://10.0.0.1:9")), "http://10.0.0.1:9");
    assert!(server_address(None).starts_with("http"));
    assert_eq!(mount_point(Some("/mnt/x"), false), "/mnt/x");
    assert_ne!(mount_point(None, true), mount_point(None, false));
}
