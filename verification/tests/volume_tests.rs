use remotefs::dokany;
use remotefs::http::{Body, Method};
use remotefs::plain_volume;
use remotefs::plain_volume::{InfoStep, PlainCreate, WinError};
use remotefs::remote::FileInfo;
use remotefs::remote_api::DirEntry;
use remotefs::wide::units_ordered;
use remotefs::winfsp::{
    create_file_info, create_root_file_info, filetime_at, get_security_by_name, get_volume_info,
    is_system_file, is_system_name, is_tellable, sort_by_name, text_ordered, unix_to_filetime, WinFs, WinStep,
    DELETE, FILE_ATTRIBUTE_DIRECTORY, FILE_ATTRIBUTE_NORMAL, FILE_WRITE_DATA,
    GENERIC_WRITE, STATUS_ACCESS_DENIED, STATUS_DEVICE_IO_ERROR, STATUS_NO_SUCH_FILE,
    STATUS_UNSUPPORTED,
};

const SERVER: &str = "http://127.0.0.1:3000/";

fn info(name: &str, file_type: &str, size: u64) -> FileInfo {
    FileInfo {
        name: name.to_string(),
        path: name.to_string(),
        file_type: file_type.to_string(),
        size,
        timestamp: 100,
        permissions: "755".to_string(),
    }
}

fn make_fs() -> WinFs {
    WinFs::new(SERVER.to_string())
}

fn opened(fs: &mut WinFs, name: &str) -> u64 {
    match fs.open(Some(name), Some(Some(info(name, "file", 10)))) {
        WinStep::Done(Ok(ino)) => ino,
        _ => panic!("the file should be opened"),
    }
}

#[test]
fn times_are_counted_from_sixteen_hundred_and_one() {
    assert_eq!(unix_to_filetime(0), 116_444_736_000_000_000);
    assert_eq!(unix_to_filetime(1), 116_444_736_010_000_000);
    assert_eq!(filetime_at(1_999_999_999), unix_to_filetime(1));
    assert_eq!(filetime_at(-1), unix_to_filetime(0));
}

#[test]
fn a_file_takes_whole_blocks() {
    let told = create_file_info(7, &info("f", "file", 4097));
    assert_eq!(told.allocation_size, 8192);
    assert_eq!(told.file_size, 4097);
    assert_eq!(told.file_attributes, FILE_ATTRIBUTE_NORMAL);
    assert_eq!(told.index_number, 7);
    assert_eq!(told.last_write_time, unix_to_filetime(100));
    assert_eq!(create_file_info(7, &info("d", "dir", 0)).file_attributes, FILE_ATTRIBUTE_DIRECTORY);
    assert!(is_tellable(u64::MAX - 4095, 0));
    assert!(!is_tellable(u64::MAX - 4094, 0));
    assert!(!is_tellable(0, u64::MAX / 10_000_000));
    let root = create_root_file_info();
    assert_eq!(root.index_number, 1);
    assert_eq!(root.file_attributes, FILE_ATTRIBUTE_DIRECTORY);
}

#[test]
fn files_that_the_system_looks_for_are_told() {
    assert!(is_system_file("docs/Desktop.INI"));
    assert!(is_system_file("AlbumArtSmall.jpg"));
    assert!(!is_system_file("desktop.ini/notes.txt"));
    assert!(is_system_name("thumbs.db"));
    assert!(!is_system_name("Thumbs.db"));
}

#[test]
fn names_are_sorted() {
    let files = vec![info("b", "file", 1), info("a", "file", 2), info("ab", "file", 3), info("a", "file", 4)];
    let sorted = sort_by_name(&files);
    let shown: Vec<(&str, u64)> = sorted.iter().map(|f| (f.name.as_str(), f.size)).collect();
    assert_eq!(shown, vec![("a", 2), ("a", 4), ("ab", 3), ("b", 1)]);
    assert!(text_ordered("a", "ab"));
    assert!(!text_ordered("b", "ab"));
    assert!(units_ordered(&vec![1, 2], &vec![1, 2, 0]));
    assert!(!units_ordered(&vec![2], &vec![1, 9]));
}

#[test]
fn a_file_is_opened_once() {
    let mut fs = make_fs();
    assert!(matches!(fs.open(Some("\\"), None), WinStep::Done(Ok(1))));
    match fs.open(Some("\\d\\f.txt"), None) {
        WinStep::Ask(r) => assert_eq!(r.url, "http://127.0.0.1:3000/stat/d/f.txt"),
        _ => panic!("the server has to be asked"),
    }
    assert!(matches!(fs.open(Some("\\d\\f.txt"), Some(None)), WinStep::Done(Err(STATUS_NO_SUCH_FILE))));
    assert_eq!(opened(&mut fs, "\\d\\f.txt"), 2);
    assert!(matches!(fs.open(Some("/d/f.txt"), None), WinStep::Done(Ok(2))));
    assert!(matches!(fs.get_file_info(2, 0, None), WinStep::Done(Ok(i)) if i.file_size == 10));
    assert!(matches!(fs.get_file_info(9, 0, None), WinStep::Done(Err(STATUS_NO_SUCH_FILE))));
    assert!(matches!(fs.get_file_info(1, 5, None), WinStep::Done(Ok(i)) if i.change_time == 5));
}

#[test]
fn creating_asks_for_what_is_wanted() {
    let mut fs = make_fs();
    let normal = FILE_ATTRIBUTE_NORMAL;
    assert!(matches!(fs.create(Some(""), GENERIC_WRITE, normal, None, 0), WinStep::Done(Err(STATUS_ACCESS_DENIED))));
    assert!(matches!(fs.create(Some("\\f"), 1, normal, None, 0), WinStep::Done(Err(STATUS_NO_SUCH_FILE))));
    assert!(matches!(
        fs.create(Some("\\Desktop.ini"), GENERIC_WRITE, normal, None, 0),
        WinStep::Done(Err(STATUS_NO_SUCH_FILE))
    ));
    assert!(matches!(
        fs.create(Some("\\f"), FILE_WRITE_DATA | DELETE, normal, None, 0),
        WinStep::Done(Err(STATUS_NO_SUCH_FILE))
    ));
    assert!(matches!(
        fs.create(Some("\\f"), FILE_WRITE_DATA, normal, None, 0),
        WinStep::Ask(r) if r.url == "http://127.0.0.1:3000/files/f"
            && r.method == Method::Put
            && r.content_type.as_deref() == Some("text/plain")
            && matches!(&r.body, Body::Bytes(b) if b.is_empty())
    ));
    assert!(matches!(
        fs.create(Some("\\d"), GENERIC_WRITE, FILE_ATTRIBUTE_DIRECTORY, None, 0),
        WinStep::Ask(r) if r.url == "http://127.0.0.1:3000/mkdir/d"
            && r.method == Method::Post
            && r.content_type.is_none()
    ));
    assert!(matches!(
        fs.create(Some("\\f"), FILE_WRITE_DATA, normal, Some(false), 0),
        WinStep::Done(Err(STATUS_ACCESS_DENIED))
    ));
    assert!(matches!(fs.create(Some("\\f"), FILE_WRITE_DATA, normal, Some(true), 9), WinStep::Done(Ok(2))));
    assert!(matches!(fs.open(Some("f"), None), WinStep::Done(Ok(2))));
}

#[test]
fn reading_and_writing_work_on_open_files() {
    let mut fs = make_fs();
    let ino = opened(&mut fs, "f");
    assert!(matches!(fs.read(1, 4, 0, None), WinStep::Done(Err(STATUS_UNSUPPORTED))));
    assert!(matches!(fs.read(ino, 4, 0, Some(None)), WinStep::Done(Err(STATUS_DEVICE_IO_ERROR))));
    let bytes = Some(Some(vec![1, 2, 3, 4, 5]));
    assert!(matches!(fs.read(ino, 2, 3, bytes.clone()), WinStep::Done(Ok(b)) if b == [4, 5]));
    assert!(matches!(fs.read(ino, 9, 9, bytes), WinStep::Done(Ok(b)) if b.is_empty()));

    assert!(matches!(fs.write(1, &vec![7, 8, 9], 0, None), WinStep::Done(Err(STATUS_ACCESS_DENIED))));
    assert!(matches!(fs.write(ino, &vec![7, 8, 9], 1, None), WinStep::Done(Err(STATUS_UNSUPPORTED))));
    assert!(matches!(fs.write(ino, &vec![7, 8, 9], 0, Some(false)), WinStep::Done(Err(STATUS_DEVICE_IO_ERROR))));
    assert!(matches!(fs.write(ino, &vec![7, 8, 9], 0, Some(true)), WinStep::Done(Ok(3))));
    assert!(matches!(
        fs.write(ino, &vec![7, 8, 9], 0, None),
        WinStep::Ask(r) if r.url == "http://127.0.0.1:3000/files/f"
            && r.method == Method::Put
            && r.content_type.as_deref() == Some("application/octet-stream")
            && matches!(&r.body, Body::Bytes(b) if b == &[7, 8, 9])
    ));
    assert!(matches!(fs.get_file_info(ino, 0, None), WinStep::Done(Ok(i)) if i.file_size == 3));
    assert_eq!(fs.set_file_size(ino, 77).map(|i| i.file_size), Ok(77));
    assert_eq!(fs.set_file_size(1, 77).unwrap_err(), STATUS_ACCESS_DENIED);
}

#[test]
fn a_deleted_file_is_forgotten() {
    let mut fs = make_fs();
    let ino = opened(&mut fs, "d/f");
    assert!(matches!(fs.delete_file(1, None), WinStep::Done(Err(STATUS_ACCESS_DENIED))));
    assert!(matches!(fs.delete_file(99, None), WinStep::Done(Err(STATUS_NO_SUCH_FILE))));
    assert!(matches!(
        fs.delete_file(ino, None),
        WinStep::Ask(r) if r.url == "http://127.0.0.1:3000/files/d/f"
    ));
    assert!(matches!(fs.delete_file(ino, Some(false)), WinStep::Done(Err(STATUS_DEVICE_IO_ERROR))));
    assert!(matches!(fs.get_file_info(ino, 0, None), WinStep::Done(Ok(_))));
    assert!(matches!(fs.delete_file(ino, Some(true)), WinStep::Done(Ok(()))));
    assert!(matches!(fs.get_file_info(ino, 0, None), WinStep::Done(Err(STATUS_NO_SUCH_FILE))));
    assert!(matches!(fs.open(Some("d/f"), None), WinStep::Ask(_)));
}

#[test]
fn a_directory_is_listed_behind_a_marker() {
    let mut fs = make_fs();
    assert!(matches!(
        fs.read_directory(1, None, None, 0),
        WinStep::Ask(r) if r.url == "http://127.0.0.1:3000/list/"
    ));
    let files = || vec![info("z", "file", 1), info("b", "dir", 0), info("n\0o", "file", 1)];
    let mut names = vec![];
    let mut scan = match fs.read_directory(1, None, Some(Some(files())), 0) {
        WinStep::Done(Ok(scan)) => scan,
        _ => panic!("the directory should be listed"),
    };
    while let Some(l) = fs.next_entry(&mut scan) {
        names.push((l.name, l.info.index_number));
    }
    let shown: Vec<(&str, u64)> = names.iter().map(|(n, i)| (n.as_str(), *i)).collect();
    assert_eq!(shown, vec![(".", 1), ("..", 1), ("b", 2), ("z", 3)]);

    let marker = Some("b".encode_utf16().collect());
    let mut scan = match fs.read_directory(1, marker, Some(Some(files())), 0) {
        WinStep::Done(Ok(scan)) => scan,
        _ => panic!("the directory should be listed"),
    };
    let l = fs.next_entry(&mut scan).expect("one entry is left");
    assert_eq!((l.name.as_str(), l.info.index_number), ("z", 3));
    assert!(fs.next_entry(&mut scan).is_none());
}

#[test]
fn the_volumes_tell_of_themselves() {
    assert_eq!(get_volume_info(), (1_099_511_627_776, 1_099_511_627_776, "RemoteFS".to_string()));
    assert_eq!(get_security_by_name(), (false, 0, FILE_ATTRIBUTE_NORMAL));
    assert_eq!(
        plain_volume::get_volume_info(),
        (1_073_741_824, 1_073_741_824, "RemoteFS".to_string())
    );
    assert_eq!(dokany::get_volume_information().max_component_length, 255);
}

fn entry(name: &str, is_dir: bool, size: u64) -> DirEntry {
    DirEntry { name: name.to_string(), is_dir, size }
}

#[test]
fn a_plain_volume_finds_a_file_in_its_directory() {
    assert!(matches!(
        plain_volume::get_file_info("/", None),
        InfoStep::Done(Ok(i)) if i.is_dir && i.file_attributes == 0x10
    ));
    assert!(matches!(plain_volume::get_file_info("/a/b.txt", None), InfoStep::List(p) if p == "/a"));
    let entries = || Some(Some(vec![entry("b.txt", false, 12)]));
    assert!(matches!(
        plain_volume::get_file_info("/a/b.txt", entries()),
        InfoStep::Done(Ok(i)) if !i.is_dir && i.size == 12 && i.file_attributes == 0
    ));
    assert!(matches!(
        plain_volume::get_file_info("/a/c.txt", entries()),
        InfoStep::Done(Err(WinError::FileNotFound))
    ));
    assert!(matches!(
        plain_volume::get_file_info("/a/c.txt", Some(None)),
        InfoStep::Done(Err(WinError::FileNotFound))
    ));
    assert_eq!(plain_volume::read_directory(None).len(), 0);
    let shown = plain_volume::read_directory(Some(vec![entry("d", true, 0)]));
    assert_eq!(shown[0].0, "d");
    assert!(shown[0].1.is_dir);
}

#[test]
fn a_plain_volume_creates_by_extension() {
    assert!(plain_volume::extension("/a/b.txt"));
    assert!(!plain_volume::extension("/a.d/b"));
    assert!(!plain_volume::extension("/a/.hidden"));
    assert_eq!(plain_volume::create("/f.txt", None, None, None), PlainCreate::Read);
    assert_eq!(plain_volume::create("/f.txt", Some(false), None, None), PlainCreate::Write);
    assert_eq!(
        plain_volume::create("/f.txt", Some(false), Some(false), None),
        PlainCreate::Fail(WinError::AccessDenied)
    );
    assert_eq!(plain_volume::create("/f.txt", Some(false), Some(true), None), PlainCreate::Tell);
    assert_eq!(plain_volume::create("/d", Some(true), None, None), PlainCreate::MakeDirectory);
    assert_eq!(plain_volume::create("/d", Some(true), None, Some(true)), PlainCreate::Tell);
}

#[test]
fn a_plain_volume_reads_what_there_is() {
    assert_eq!(plain_volume::read(Some(vec![1, 2, 3]), 1, 9), Ok(vec![2, 3]));
    assert_eq!(plain_volume::read(Some(vec![1, 2, 3]), 5, 9), Ok(vec![]));
    assert_eq!(plain_volume::read(None, 0, 1), Err(WinError::FileNotFound));
    assert_eq!(plain_volume::write(4, true), Ok(4));
    assert_eq!(plain_volume::write(4, false), Err(WinError::AccessDenied));
    assert_eq!(plain_volume::delete(true), Ok(()));
    assert_eq!(plain_volume::delete(false), Err(WinError::AccessDenied));
}

#[test]
fn a_name_that_is_no_text_is_refused() {
    let mut fs = make_fs();
    assert!(matches!(fs.open(None, None), WinStep::Done(Err(STATUS_NO_SUCH_FILE))));
    assert!(matches!(
        fs.create(None, GENERIC_WRITE, FILE_ATTRIBUTE_NORMAL, None, 0),
        WinStep::Done(Err(STATUS_ACCESS_DENIED))
    ));
}

#[test]
fn statuses_have_their_numbers() {
    assert_eq!(STATUS_NO_SUCH_FILE, 2);
    assert_eq!(STATUS_ACCESS_DENIED, 5);
    assert_eq!(STATUS_DEVICE_IO_ERROR, 31);
}

#[test]
fn a_directory_is_listed_in_pages() {
    let mut fs = make_fs();
    let files = || vec![info("c", "file", 1), info("a", "dir", 0), info("b", "file", 2)];
    let mut names: Vec<(String, u64)> = vec![];
    let mut marker: Option<Vec<u16>> = None;
    for room in [1usize, 2, 1, 3] {
        let mut scan = match fs.read_directory(1, marker.clone(), Some(Some(files())), 0) {
            WinStep::Done(Ok(scan)) => scan,
            _ => panic!("the directory should be listed"),
        };
        for _ in 0..room {
            if let Some(l) = fs.next_entry(&mut scan) {
                marker = Some(l.name.encode_utf16().collect());
                names.push((l.name, l.info.index_number));
            }
        }
    }
    let shown: Vec<(&str, u64)> = names.iter().map(|(n, i)| (n.as_str(), *i)).collect();
    assert_eq!(shown, vec![(".", 1), ("..", 1), ("a", 2), ("b", 3), ("c", 4)]);
}

#[test]
fn an_entry_that_found_no_room_keeps_its_number() {
    let mut fs = make_fs();
    let files = || vec![info("c", "file", 1), info("a", "dir", 0), info("b", "file", 2)];
    let opened = fs.open(Some("b"), Some(Some(info("b", "file", 2))));
    assert!(matches!(opened, WinStep::Done(Ok(_))));
    let mut names: Vec<(String, u64)> = vec![];
    let mut marker: Option<Vec<u16>> = None;
    for now in 0..5u64 {
        let mut scan = match fs.read_directory(1, marker.clone(), Some(Some(files())), now) {
            WinStep::Done(Ok(scan)) => scan,
            _ => panic!("the directory should be listed"),
        };
        if let Some(l) = fs.next_entry(&mut scan) {
            marker = Some(l.name.encode_utf16().collect());
            names.push((l.name, l.info.index_number));
        }
        fs.next_entry(&mut scan);
    }
    let shown: Vec<(&str, u64)> = names.iter().map(|(n, i)| (n.as_str(), *i)).collect();
    assert_eq!(shown, vec![(".", 1), ("..", 1), ("a", 3), ("b", 2), ("c", 4)]);
}

#[test]
fn either_slash_separates_in_a_plain_volume() {
    let list = |path: &str| match plain_volume::get_file_info(path, None) {
        InfoStep::List(p) => p,
        _ => panic!("a directory has to be listed"),
    };
    assert_eq!(list("\\a\\b"), "\\a");
    assert_eq!(list("/a/."), "/");
    assert_eq!(list("/a/./b//"), "/a");
    assert_eq!(list("a\\b/c"), "a\\b");
    assert_eq!(list("\\x"), "\\");
    assert_eq!(list("x"), "");
    assert!(matches!(
        plain_volume::get_file_info("\\", None),
        InfoStep::Done(Ok(i)) if i.is_dir
    ));
    assert!(plain_volume::extension("\\a.d\\b.txt"));
    assert!(!plain_volume::extension("\\a.d\\b"));
}
