use std::collections::HashMap;

use remotefs::api::{ApiError, FileEntry};
use remotefs::cache::{
    configured_chunk_size, configured_max_cache_size, CacheManager, CachedChunk, CachedEntry,
    DirectoryCache, FileCache, CHUNK_SIZE, DATA_CACHE_TTL, DIRECTORY_CACHE_TTL, MAX_CACHE_SIZE,
    MAX_CHUNK_SIZE, MIN_CACHE_SIZE, MIN_CHUNK_SIZE,
};
use remotefs::client::{ApiClient, Step};
use remotefs::clock::{Clock, Reading};
use remotefs::errno::Errno;
use remotefs::http::Exchange;

const MILLISECOND: i64 = 1_000_000;
const SECOND: i64 = 1_000_000_000;

fn file_entry(name: &str) -> FileEntry {
    FileEntry {
        name: name.to_string(),
        is_dir: false,
        size: 10,
        mtime: 1.0f64.to_bits(),
        ctime: 1.0f64.to_bits(),
        mode: 0o644,
    }
}

fn manager() -> CacheManager {
    CacheManager::new(None, None)
}

/// Reads through the cache. `serve` stands for the server: it is given the
/// offset and the size of each chunk that is wanted.
fn read_through(
    manager: &mut CacheManager,
    path: &str,
    offset: u64,
    size: u32,
    serve: &mut dyn FnMut(u64, u32) -> Vec<u8>,
) -> Vec<u8> {
    let mut session = manager.start_read(path, offset, size);
    while let Some((at, wanted)) = manager.read_with_cache(&mut session) {
        let client = ApiClient::new("http://server".to_string());
        let payload = match client.read_file_chunk(path, at, wanted, None) {
            Step::Send(_) => serve(at, wanted),
            Step::Done(_) => panic!("a request was expected"),
        };
        let answer = Some(Exchange::Answered { status: 200, body: Ok(payload) });
        match client.read_file_chunk(path, at, wanted, answer) {
            Step::Done(fetched) => manager.supply(&mut session, fetched).unwrap(),
            Step::Send(_) => panic!("the chunk should have been read"),
        }
    }
    session.collected
}

#[test]
fn cached_entry_expiration_logic_works() {
    let clock = Clock::start();
    let mut entry = CachedEntry::new(42usize, 2 * SECOND as u64, &clock);
    assert!(!entry.is_expired(&clock));

    entry.created_at = clock.now() - 3 * SECOND;
    assert!(entry.is_expired(&clock));
}

#[test]
fn an_entry_is_good_up_to_its_lifetime_and_no_longer() {
    let entry = CachedEntry::new_at("x", 5, 100);
    assert!(!entry.is_expired_at(100));
    assert!(!entry.is_expired_at(105));
    assert!(entry.is_expired_at(106));
}

#[test]
fn a_chunk_is_good_up_to_its_lifetime_and_no_longer() {
    let chunk = CachedChunk { data: vec![1], last_access: 0, created_at: 7 };
    assert!(!chunk.is_expired_at(7 + DATA_CACHE_TTL as i64));
    assert!(chunk.is_expired_at(8 + DATA_CACHE_TTL as i64));

    let clock = Clock::start();
    let old = CachedChunk {
        data: vec![1],
        last_access: 0,
        created_at: clock.now() - DATA_CACHE_TTL as i64 - MILLISECOND,
    };
    assert!(old.is_expired(&clock));
}

#[test]
fn store_and_get_directory_listing_roundtrip() {
    let mut manager = manager();
    manager.store_directory_listing("/docs", vec![file_entry("a.txt")]);

    let cached = manager
        .get_cached_directory("/docs")
        .expect("directory should be in cache");
    assert_eq!(cached.len(), 1);
    assert_eq!(cached[0].name, "a.txt");
}

#[test]
fn a_listing_is_found_until_it_is_too_old() {
    let mut manager = manager();
    manager.store_directory_listing_at("/docs", vec![file_entry("a.txt")], 50);
    let good_until = 50 + DIRECTORY_CACHE_TTL as i64;
    assert!(manager.get_cached_directory_at("/docs", good_until).is_some());
    assert!(manager.get_cached_directory_at("/docs", good_until + 1).is_none());
    assert!(manager.directory_cache.is_empty());
}

#[test]
fn invalidate_directory_cache_removes_parent_directory_too() {
    let mut manager = manager();
    manager.store_directory_listing("/root", vec![file_entry("root.txt")]);
    manager.store_directory_listing("/root/child", vec![file_entry("child.txt")]);

    manager.invalidate_directory_cache("/root/child");

    assert!(manager.get_cached_directory("/root/child").is_none());
    assert!(manager.get_cached_directory("/root").is_none());
}

#[test]
fn invalidate_directory_cache_handles_root_parent() {
    let mut manager = manager();
    manager.store_directory_listing("/", vec![file_entry("top")]);

    manager.invalidate_directory_cache("/file.txt");
    assert!(manager.get_cached_directory("/").is_none());
}

#[test]
fn invalidating_leaves_other_listings_alone() {
    let mut manager = manager();
    manager.store_directory_listing("/", vec![file_entry("top")]);
    manager.store_directory_listing("/a", vec![file_entry("x")]);
    manager.store_directory_listing("/b", vec![file_entry("y")]);

    manager.invalidate_directory_cache("/a/x");

    assert!(manager.get_cached_directory("/a").is_none());
    assert!(manager.get_cached_directory("/b").is_some());
    assert!(manager.get_cached_directory("/").is_some());
}

#[test]
fn read_from_cache_returns_requested_slice() {
    let mut manager = manager();
    manager.store_file_chunk("/blob", 0, (0u8..=31u8).collect());

    let data = manager
        .read_from_cache("/blob", 4, 5)
        .expect("chunk should be cached");
    assert_eq!(data, vec![4, 5, 6, 7, 8]);
}

#[test]
fn read_from_cache_removes_expired_chunk_and_updates_size() {
    let mut manager = manager();
    let path = "/expired".to_string();
    let created_at = manager.clock.now() - DATA_CACHE_TTL as i64 - MILLISECOND;

    manager.file_cache.insert(
        path.clone(),
        FileCache {
            chunks: HashMap::from([(
                0,
                CachedChunk { data: vec![1, 2, 3, 4], last_access: 0, created_at },
            )]),
            total_size: 4,
        },
    );

    let miss = manager.read_from_cache(&path, 0, 4);
    assert!(miss.is_none());

    let file_cache = manager
        .file_cache
        .get(&path)
        .expect("file cache entry should still exist");
    assert!(file_cache.chunks.is_empty());
    assert_eq!(file_cache.total_size, 0);
}

#[test]
fn store_chunk_evicts_old_data_when_exceeding_max_size() {
    let mut manager = manager();
    let path = "/big";

    manager.store_file_chunk(path, 0, vec![1u8; MAX_CACHE_SIZE]);
    manager.store_file_chunk(path, CHUNK_SIZE as u64, vec![2u8; 1]);

    let file_cache = manager.file_cache.get(path).expect("file cache should exist");
    assert!(!file_cache.chunks.contains_key(&0));
    assert!(file_cache.chunks.contains_key(&(CHUNK_SIZE as u64)));
    assert_eq!(file_cache.total_size, 1);
}

#[test]
fn the_chunk_used_longest_ago_makes_room() {
    let mut manager = CacheManager::new(Some("64"), Some("4"));
    let chunk = 65_536u64;
    let half = 2 * 1_048_576usize;
    let at = |n: i64| Reading { instant: n, wall: n };
    manager.store_chunk_at("/f", 0, vec![1u8; half], at(1));
    manager.store_chunk_at("/f", chunk, vec![2u8; half], at(2));
    assert!(manager.read_from_cache_at("/f", 0, 1, at(3)).is_some());
    manager.store_chunk_at("/f", 2 * chunk, vec![3u8; 1], at(4));

    let file_cache = manager.file_cache.get("/f").expect("file cache should exist");
    assert!(file_cache.chunks.contains_key(&0));
    assert!(!file_cache.chunks.contains_key(&chunk));
    assert!(file_cache.chunks.contains_key(&(2 * chunk)));
    assert_eq!(file_cache.total_size, half + 1);
}

#[test]
fn storing_same_offset_replaces_existing_chunk_size() {
    let mut manager = manager();
    let path = "/replace";

    manager.store_file_chunk(path, 0, vec![1u8; 10]);
    manager.store_file_chunk(path, 0, vec![9u8; 4]);

    let file_cache = manager.file_cache.get(path).expect("file cache should exist");
    assert_eq!(file_cache.total_size, 4);
    assert_eq!(file_cache.chunks.len(), 1);
    assert_eq!(file_cache.chunks.get(&0).expect("chunk at 0").data, vec![9u8; 4]);
}

#[test]
fn cleanup_expired_removes_stale_directories_and_files() {
    let mut manager = manager();
    let now = manager.clock.now();

    manager.directory_cache.insert(
        "/old-dir".to_string(),
        DirectoryCache {
            entries: CachedEntry {
                data: vec![file_entry("old")],
                created_at: now - DIRECTORY_CACHE_TTL as i64 - MILLISECOND,
                ttl: DIRECTORY_CACHE_TTL,
            },
        },
    );

    manager.file_cache.insert(
        "/old-file".to_string(),
        FileCache {
            chunks: HashMap::from([(
                0,
                CachedChunk {
                    data: vec![1, 2, 3],
                    last_access: 0,
                    created_at: now - DATA_CACHE_TTL as i64 - MILLISECOND,
                },
            )]),
            total_size: 3,
        },
    );

    manager.cleanup_expired();

    assert!(manager.directory_cache.is_empty());
    assert!(manager.file_cache.is_empty());
}

#[test]
fn clear_removes_everything() {
    let mut manager = manager();
    manager.store_directory_listing("/d", vec![file_entry("x")]);
    manager.store_file_chunk("/f", 0, vec![1, 2, 3]);

    manager.clear();

    assert!(manager.directory_cache.is_empty());
    assert!(manager.file_cache.is_empty());
}

#[test]
fn list_directory_cached_fetches_once_then_uses_cache() {
    let mut manager = manager();

    assert!(manager.list_directory_cached("/data", None).is_none());
    let first = match manager.list_directory_cached("/data", Some(Ok(vec![file_entry("cached.txt")]))) {
        Some(Ok(entries)) => entries,
        _ => panic!("first list call should give what was fetched"),
    };
    let second = match manager.list_directory_cached("/data", None) {
        Some(Ok(entries)) => entries,
        _ => panic!("second list call should hit cache"),
    };

    assert_eq!(first.len(), 1);
    assert_eq!(second.len(), 1);
    assert_eq!(second[0].name, "cached.txt");
}

#[test]
fn a_failed_listing_is_passed_on_and_not_stored() {
    let mut manager = manager();
    let err = ApiError { errno: Errno::NoEnt, message: "gone".to_string() };
    match manager.list_directory_cached("/data", Some(Err(err))) {
        Some(Err(e)) => assert_eq!(e.message, "gone"),
        _ => panic!("the error should be passed on"),
    }
    assert!(manager.directory_cache.is_empty());
}

#[test]
fn read_with_cache_fetches_once_then_serves_from_cache() {
    let mut manager = manager();
    let payload: Vec<u8> = (0u8..=15u8).collect();
    let mut hits = 0;
    let mut serve = |offset: u64, size: u32| {
        assert_eq!((offset, size), (0, CHUNK_SIZE));
        hits += 1;
        payload.clone()
    };

    let first = read_through(&mut manager, "/blob", 2, 4, &mut serve);
    let second = read_through(&mut manager, "/blob", 3, 3, &mut serve);

    assert_eq!(first, vec![2, 3, 4, 5]);
    assert_eq!(second, vec![3, 4, 5]);
    assert_eq!(hits, 1);
}

#[test]
fn read_with_cache_spanning_chunks_stitches_full_response() {
    let first_chunk: Vec<u8> = (0..CHUNK_SIZE as usize).map(|i| (i % 251) as u8).collect();
    let second_chunk: Vec<u8> = (0..CHUNK_SIZE as usize).map(|i| ((i + 17) % 251) as u8).collect();
    let mut manager = manager();
    let mut first_hits = 0;
    let mut second_hits = 0;
    let mut serve = |offset: u64, size: u32| {
        assert_eq!(size, CHUNK_SIZE);
        if offset == 0 {
            first_hits += 1;
            first_chunk.clone()
        } else {
            assert_eq!(offset, CHUNK_SIZE as u64);
            second_hits += 1;
            second_chunk.clone()
        }
    };

    let warmup = read_through(&mut manager, "/blob", 0, CHUNK_SIZE, &mut serve);
    assert_eq!(warmup.len(), CHUNK_SIZE as usize);

    let overlap = 4096usize;
    let start = CHUNK_SIZE as u64 - overlap as u64;
    let requested = (overlap * 2) as u32;

    let stitched = read_through(&mut manager, "/blob", start, requested, &mut serve);

    let mut expected = Vec::with_capacity(requested as usize);
    expected.extend_from_slice(&first_chunk[first_chunk.len() - overlap..]);
    expected.extend_from_slice(&second_chunk[..overlap]);

    assert_eq!(stitched.len(), requested as usize);
    assert_eq!(stitched, expected);
    assert_eq!(first_hits, 1);
    assert_eq!(second_hits, 1);
}

#[test]
fn a_read_past_the_end_gives_nothing() {
    let mut manager = manager();
    let mut serve = |_: u64, _: u32| vec![1u8, 2, 3];
    assert_eq!(read_through(&mut manager, "/short", 0, 100, &mut serve), vec![1, 2, 3]);
    assert!(read_through(&mut manager, "/short", 50, 10, &mut serve).is_empty());
    assert!(read_through(&mut manager, "/short", 0, 0, &mut serve).is_empty());
    assert!(read_through(&mut manager, "/short", u64::MAX, 10, &mut serve).is_empty());
}

#[test]
fn a_failed_fetch_ends_the_read_with_its_error() {
    let mut manager = manager();
    let size = CHUNK_SIZE as u64;
    manager.store_file_chunk("/blob", 0, vec![7; CHUNK_SIZE as usize]);
    let mut session = manager.start_read("/blob", size - 2, 4);
    assert_eq!(manager.read_with_cache(&mut session), Some((size, CHUNK_SIZE)));

    let err = ApiError { errno: Errno::TimedOut, message: "late".to_string() };
    match manager.supply(&mut session, Err(err)) {
        Err(e) => {
            assert_eq!(e.errno, Errno::TimedOut);
            assert_eq!(e.message, "late");
        },
        Ok(()) => panic!("the error should be passed on"),
    }
    assert_eq!(session.collected, vec![7, 7]);
    assert!(!session.finished);
    assert_eq!(manager.file_cache.get("/blob").unwrap().chunks.len(), 1);
    assert_eq!(manager.file_cache.get("/blob").unwrap().total_size, CHUNK_SIZE as usize);
}

#[test]
fn a_read_gives_the_bytes_of_the_file_whatever_was_cached() {
    let chunk = CHUNK_SIZE as usize;
    let content: Vec<u8> = (0..3 * chunk + 10).map(|i| (i % 253) as u8).collect();
    let from = chunk - 3;
    let size = 2 * chunk + 100;
    for cached in 0..16usize {
        let mut manager = manager();
        for k in 0..4usize {
            if cached & (1 << k) != 0 {
                let end = content.len().min((k + 1) * chunk);
                let piece = content[k * chunk..end].to_vec();
                manager.store_file_chunk("/blob", (k * chunk) as u64, piece);
            }
        }
        let mut asked = Vec::new();
        let mut serve = |at: u64, wanted: u32| {
            assert_eq!(wanted, CHUNK_SIZE);
            asked.push(at as usize / chunk);
            let end = content.len().min(at as usize + wanted as usize);
            content[at as usize..end].to_vec()
        };
        let read = read_through(&mut manager, "/blob", from as u64, size as u32, &mut serve);
        assert_eq!(read, content[from..content.len().min(from + size)].to_vec());
        let missing: Vec<usize> = (0..4usize).filter(|k| cached & (1 << k) == 0).collect();
        assert_eq!(asked, missing);
    }
}

#[test]
fn invalidate_all_for_path_clears_file_and_parent_directory_cache() {
    let mut manager = manager();
    manager.store_file_chunk("/root/file.txt", 0, vec![1, 2]);
    manager.store_directory_listing("/root", vec![file_entry("file.txt")]);

    manager.invalidate_all_for_path("/root/file.txt");

    assert!(!manager.file_cache.contains_key("/root/file.txt"));
    assert!(!manager.directory_cache.contains_key("/root"));
}

#[test]
fn sizes_are_taken_from_the_settings_within_bounds() {
    assert_eq!(configured_chunk_size(None), CHUNK_SIZE);
    assert_eq!(configured_chunk_size(Some("128")), 131_072);
    assert_eq!(configured_chunk_size(Some("1")), MIN_CHUNK_SIZE);
    assert_eq!(configured_chunk_size(Some("100000")), MAX_CHUNK_SIZE);
    assert_eq!(configured_chunk_size(Some("many")), CHUNK_SIZE);
    assert_eq!(configured_max_cache_size(None), MAX_CACHE_SIZE);
    assert_eq!(configured_max_cache_size(Some("64")), 67_108_864);
    assert_eq!(configured_max_cache_size(Some("1")), MIN_CACHE_SIZE);
    assert_eq!(configured_max_cache_size(Some("")), MAX_CACHE_SIZE);
}

#[test]
fn readings_are_the_clocks_in_nanoseconds() {
    assert_eq!(Reading::of(5, Ok(9)), Reading { instant: 5, wall: 9 });
    assert_eq!(Reading::of(0, Err(7)), Reading { instant: 0, wall: -7 });
    let longest = Reading::of(u128::MAX, Err(u128::MAX));
    assert_eq!(longest, Reading { instant: i64::MAX, wall: -i64::MAX });

    let clock = Clock::start();
    let first = clock.read();
    assert!(first.instant >= 0);
    assert!(first.wall > 0);
    assert!(clock.now() >= first.instant);
}

#[test]
fn what_would_have_ended_before_the_clock_started_has_expired() {
    let clock = Clock::start();
    let mut entry = CachedEntry::new((), 10, &clock);
    assert!(entry.created_at >= 0);
    entry.created_at = -11;
    assert!(entry.is_expired(&clock));
}
