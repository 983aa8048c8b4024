use remotefs::bytes::{slice_of, splice};
use remotefs::client::render_range;
use remotefs::native::{is_under, names_of, push_path};
use remotefs::numeral::{parse_octal_u16, parse_u32, parse_u64, render_decimal, render_hexadecimal};
use remotefs::paths::{
    append_path, child_of, get_safe_path, normalize_path, normalize_request_path, path_below,
    resolve_under_root, safe_candidate, segments_of, split_parent_and_name, Candidate,
};
use remotefs::range::{
    parse_content_range, parse_range, read_window, render_answer_range, select_range, RangeFault,
};
use remotefs::table::PathTable;
use remotefs::text::{find_last, replace_char, split_char, trim, trim_char};

#[test]
fn segments_leave_out_what_names_nothing() {
    assert_eq!(segments_of("/a//./b/"), vec!["a", "b"]);
    assert_eq!(segments_of("a/../b"), vec!["a", "..", "b"]);
    assert!(segments_of("/").is_empty());
}

#[test]
fn a_request_stays_below_the_root() {
    assert_eq!(normalize_request_path("/a/./b", false).as_deref(), Ok("a/b"));
    assert!(normalize_request_path("a/..", false).is_err());
    let full = resolve_under_root("/srv/root", "x//y", false).expect("the path is safe");
    assert_eq!(full, "/srv/root/x/y");
    assert!(is_under(&full, "/srv/root", false));
    assert!(!is_under("/srv/rooted", "/srv/root", false));
    assert!(!is_under("srv/root", "/srv/root", false));
    assert!(!is_under("a/b", "./a", false));
    assert!(is_under("./a/b", "./a", false));
    assert!(is_under("anything", "", false));
    assert_eq!(resolve_under_root("/srv", "", false).as_deref(), Ok("/srv/"));
}

#[test]
fn a_safe_path_needs_a_root_that_exists() {
    assert_eq!(get_safe_path("/r", "a/b", Some("/r"), Some("/r/a"), false).as_deref(), Some("/r/a/b"));
    assert_eq!(get_safe_path("/r", "a/b", Some("/r"), None, false).as_deref(), Some("/r/a/b"));
    assert_eq!(get_safe_path("/r", "a/b", Some("/r"), Some("/etc"), false), None);
    assert_eq!(get_safe_path("/r", "a/b", None, None, false), None);
    assert_eq!(get_safe_path("/r", "a/../b", Some("/r"), None, false), None);
    assert_eq!(get_safe_path("/r", "//b", Some("/r"), None, false), None);
    assert_eq!(get_safe_path("/r", "/", None, None, false).as_deref(), Some("/r"));
    assert!(matches!(safe_candidate("/r", ".", false), Candidate::Below(_)));
}

#[test]
fn parent_and_name_put_a_path_together_again() {
    let (parent, name) = split_parent_and_name("a/b/c");
    assert_eq!(append_path(&parent, &name), "/a/b/c");
    let (parent, name) = split_parent_and_name("c");
    assert_eq!(append_path(&parent, &name), "/c");
}

#[test]
fn paths_are_built_from_pieces() {
    assert_eq!(append_path("a", "b"), "a/b");
    assert_eq!(append_path("a/", "b"), "a/b");
    assert_eq!(append_path("", "b"), "b");
    assert_eq!(path_below("a", "b"), "a/b");
    assert_eq!(child_of("", "b"), "b");
    assert_eq!(normalize_path("\\a\\b"), "a/b");
}

#[test]
fn ranges_are_read() {
    assert_eq!(parse_range("bytes=1-3"), Some((1, Some(3))));
    assert_eq!(parse_range("bytes=7-"), Some((7, None)));
    assert_eq!(parse_range("bytes=-7"), None);
    assert_eq!(parse_range("bytes=1-2-3"), None);
    assert_eq!(parse_range("lines=1-3"), None);
    assert_eq!(parse_content_range("bytes 2-4/*"), Ok((2, 4)));
    assert_eq!(parse_content_range("bytes 2-4"), Ok((2, 4)));
    assert_eq!(parse_content_range("2-4"), Err(RangeFault::Format));
    assert_eq!(parse_content_range("bytes 4"), Err(RangeFault::StartEnd));
    assert_eq!(parse_content_range("bytes x-4"), Err(RangeFault::Start));
    assert_eq!(parse_content_range("bytes 2-x"), Err(RangeFault::End));
    assert_eq!(parse_content_range("bytes 4-2"), Err(RangeFault::Order));
    assert_eq!(parse_content_range(&render_range(5, 7)), Ok((5, 7)));
}

#[test]
fn ranges_are_cut_to_the_file() {
    assert_eq!(select_range(1, Some(3), 6), Some((1, 3)));
    assert_eq!(select_range(4, Some(99), 6), Some((4, 5)));
    assert_eq!(select_range(4, None, 6), Some((4, 5)));
    assert_eq!(select_range(6, None, 6), None);
    assert_eq!(select_range(3, Some(2), 6), None);
    assert_eq!(render_answer_range(1, 3, 6), "bytes 1-3/6");
    assert_eq!(read_window(Some(3), Some(4), 10), (3, 4));
    assert_eq!(read_window(Some(8), Some(u64::MAX), 10), (8, 2));
    assert_eq!(read_window(Some(10), None, 10), (0, 0));
    assert_eq!(read_window(None, None, 10), (0, 10));
}

#[test]
fn what_was_written_is_read_back() {
    let mut data = vec![1u8, 2, 3];
    splice(&mut data, 5, &vec![8, 9]);
    assert_eq!(data, vec![1, 2, 3, 0, 0, 8, 9]);
    assert_eq!(slice_of(&data, 5, 2), vec![8, 9]);
    assert_eq!(slice_of(&data, 0, 3), vec![1, 2, 3]);
    splice(&mut data, 1, &vec![7]);
    assert_eq!(data, vec![1, 7, 3, 0, 0, 8, 9]);
    assert_eq!(slice_of(&data, 6, 10), vec![9]);
    assert!(slice_of(&data, 7, 1).is_empty());
}

#[test]
fn numbers_are_read_and_written() {
    assert_eq!(parse_u64("18446744073709551615"), Some(u64::MAX));
    assert_eq!(parse_u64("18446744073709551616"), None);
    assert_eq!(parse_u64("+5"), Some(5));
    assert_eq!(parse_u64("-5"), None);
    assert_eq!(parse_u64(""), None);
    assert_eq!(parse_u64("+"), None);
    assert_eq!(parse_u32("4294967296"), None);
    assert_eq!(parse_octal_u16("755"), Some(0o755));
    assert_eq!(parse_octal_u16("8"), None);
    assert_eq!(render_decimal(0), "0");
    assert_eq!(render_decimal(u64::MAX), "18446744073709551615");
    assert_eq!(render_hexadecimal(3054), "bee");
}

#[test]
fn texts_are_cut_and_joined() {
    assert_eq!(split_char("a/b/", '/'), vec!["a", "b", ""]);
    assert_eq!(trim_char("//a/", '/'), "a");
    assert_eq!(trim(" \t42\n"), "42");
    assert_eq!(replace_char("a\\b", '\\', '/'), "a/b");
    assert_eq!(find_last("a.b.c", '.'), Some(3));
    assert_eq!(find_last("abc", '.'), None);
}

#[test]
fn a_table_finds_what_was_put_in() {
    let mut table: PathTable<u32> = PathTable::new();
    table.insert("a".to_string(), 1);
    table.insert("b".to_string(), 2);
    table.insert("a".to_string(), 3);
    assert_eq!(table.len(), 2);
    assert_eq!(table.get("a"), Some(&3));
    assert_eq!(table.remove("a"), Some(3));
    assert_eq!(table.remove("a"), None);
    assert_eq!(table.get("b"), Some(&2));
    table.clear();
    assert!(table.is_empty());
}

#[test]
fn on_windows_either_slash_separates() {
    assert_eq!(normalize_request_path("a\\b/c", true).as_deref(), Ok("a\\b\\c"));
    assert!(normalize_request_path("..\\x", true).is_err());
    assert_eq!(normalize_request_path("..\\x", false).as_deref(), Ok("..\\x"));
    assert_eq!(normalize_request_path("C:\\x", true).as_deref(), Ok("x"));
    assert!(matches!(safe_candidate("/r", "a\\..\\b", true), Candidate::Refused));
    assert!(matches!(safe_candidate("/r", "\\x", true), Candidate::Refused));
    assert!(matches!(safe_candidate("/r", "C:x", true), Candidate::Refused));
    assert!(matches!(safe_candidate("/r", "C:x", false), Candidate::Below(_)));
    assert_eq!(
        get_safe_path("C:\\r", "a\\b", Some("\\\\?\\C:\\r"), Some("\\\\?\\C:\\r\\a"), true).as_deref(),
        Some("C:\\r\\a\\b")
    );
}

#[test]
fn on_windows_what_a_path_starts_with_is_left_out() {
    let request = |path: &str| normalize_request_path(path, true).unwrap();
    assert_eq!(request("\\\\server\\share\\x"), "x");
    assert_eq!(request("//server/share/x/y"), "x\\y");
    assert_eq!(request("\\\\server\\share"), "");
    assert_eq!(request("\\\\server"), "server");
    assert_eq!(request("\\\\.\\COM42\\x"), "x");
    assert_eq!(request("\\\\?\\C:\\a\\b"), "a\\b");
    assert_eq!(request("\\\\?\\UNC\\server\\share\\x"), "x");
    assert_eq!(request("\\\\?\\pictures\\x"), "x");
    assert_eq!(request("C:x"), "x");
    assert_eq!(request("C:/x"), "x");
    assert_eq!(
        normalize_request_path("//server/share/x", false).as_deref(),
        Ok("server/share/x")
    );
    assert!(normalize_request_path("//server/../x", false).is_err());
    assert_eq!(names_of("\\\\server\\share\\a\\.\\b", true), vec!["a", "b"]);
    assert!(matches!(safe_candidate("C:\\r", "\\\\server\\share\\x", true), Candidate::Refused));
    assert!(matches!(safe_candidate("C:\\r", "///server/share/x", true), Candidate::Refused));
    assert_eq!(
        resolve_under_root("C:\\r", "\\\\server\\share\\x", true).as_deref(),
        Ok("C:\\r\\x")
    );
}

#[test]
fn a_drive_among_the_names_leaves_the_root() {
    let resolve = |path: &str| resolve_under_root("C:\\srv", path, true);
    assert_eq!(resolve("a/b").as_deref(), Ok("C:\\srv\\a\\b"));
    assert_eq!(resolve("a/D:/b").unwrap_err(), "Invalid path escape");
    assert_eq!(resolve("a/../b").unwrap_err(), "Invalid path (.. not allowed)");
    assert_eq!(resolve_under_root("/srv", "a/D:/b", false).as_deref(), Ok("/srv/a/D:/b"));
}

#[test]
fn a_path_is_put_behind_another() {
    assert_eq!(push_path("/srv", "a/b", false), "/srv/a/b");
    assert_eq!(push_path("/srv/", "a", false), "/srv/a");
    assert_eq!(push_path("/srv", "/a", false), "/a");
    assert_eq!(push_path("/srv", "C:/x", false), "/srv/C:/x");
    assert_eq!(push_path("C:\\srv", "a/b", true), "C:\\srv\\a/b");
    assert_eq!(push_path("C:/srv/", "a", true), "C:/srv/a");
    assert_eq!(push_path("C:\\srv", "D:x", true), "D:x");
    assert_eq!(push_path("C:\\srv", "C:/x", true), "C:/x");
    assert_eq!(push_path("C:\\srv", "\\x", true), "C:\\x");
    assert_eq!(push_path("srv", "\\x", true), "\\x");
    assert_eq!(push_path("C:\\srv", "\\\\server\\share\\x", true), "\\\\server\\share\\x");
    assert_eq!(push_path("\\\\server\\share\\srv", "/x", true), "\\\\server\\share/x");
    assert_eq!(push_path("C:", "x", true), "C:x");
    assert_eq!(push_path("\\\\?\\C:\\srv", "a/../b/./c", true), "\\\\?\\C:\\srv\\b\\c");
    assert_eq!(push_path("\\\\?\\C:\\srv", "/x", true), "\\\\?\\C:\\x");
}

#[test]
fn on_windows_drives_are_told_apart() {
    assert!(is_under("c:\\srv\\a", "C:/srv", true));
    assert!(!is_under("D:\\srv\\a", "C:\\srv", true));
    assert!(!is_under("C:srv\\a", "C:\\srv", true));
    assert!(is_under("\\\\?\\C:\\r\\a", "\\\\?\\C:\\r", true));
    assert!(!is_under("\\\\?\\C:\\rest", "\\\\?\\C:\\r", true));
    assert!(is_under("\\\\s\\t\\a", "//s/t", true));
    assert!(!is_under("\\\\s\\u\\a", "//s/t", true));
}
