use jorge_a_day::cache::CacheTrait;
use jorge_a_day::image_cache::cache::{covers, Cache, CacheError, Fetch};
use jorge_a_day::image_cache::image::{FileProbe, RecordError, Resolved};

const PNG_HEAD: [u8; 12] = [0x89, b'P', b'N', b'G', 13, 10, 26, 10, 0, 0, 0, 13];

fn probe(path: &str, created: i64) -> FileProbe {
    FileProbe {
        path: path.to_string(),
        canonical: Some(path.to_string()),
        is_file: Some(true),
        head: Some(PNG_HEAD.to_vec()),
        created: Some(created),
    }
}

/// An empty store over `/pics` whose bytes stay fresh for 100 ms.
fn store() -> Cache {
    let mut cache = Cache::new(100);
    cache.init(vec!["/pics".to_string()], &Vec::new());
    cache
}

fn bytes(data: &[u8], compressed: &[u8]) -> Result<Resolved, RecordError> {
    Ok(Resolved { data: data.to_vec(), compressed_data: compressed.to_vec() })
}

fn key(candidate: &str) -> String {
    candidate.to_string()
}

#[test]
fn new_store_is_empty() {
    let mut cache = Cache::new(300);
    assert_eq!(cache.len(), 0);
    assert!(cache.directories().is_empty());
    assert!(cache.get_images("images").is_empty());
    assert!(cache.get_newest_image_id().is_none());
    assert!(cache.get_newest_image_at(0).is_none());
}

#[test]
fn store_from_a_time_to_live_is_empty() {
    let mut cache = Cache::from(300);
    assert_eq!(cache.len(), 0);
    assert!(cache.directories().is_empty());
    cache.init(vec!["/pics".to_string()], &vec![probe("/pics/a.png", 1)]);
    let k = cache.get_images("i")[0].url[2..].to_string();
    cache.store_data_at(&k, bytes(&[1], &[2]), 1_000).unwrap();
    assert!(matches!(cache.get_data_at(&k, 1_299), Ok(Fetch::Ready(_))));
    assert!(matches!(cache.get_data_at(&k, 1_300), Ok(Fetch::Load { .. })));
}

#[test]
fn covers_compares_whole_components() {
    assert!(covers(b"/pics", b"/pics/a.png"));
    assert!(covers(b"/pics", b"/pics/sub/a.png"));
    assert!(covers(b"/pics", b"/pics"));
    assert!(covers(b"/", b"/pics/a.png"));
    assert!(covers(b"/", b"/"));
    assert!(!covers(b"/pics", b"/pics2/a.png"));
    assert!(!covers(b"/pics", b"/pic"));
    assert!(!covers(b"/pics", b"/other/pics/a.png"));
    assert!(!covers(b"/pics/sub", b"/pics"));
    assert!(!covers(b"/pics", b""));
}

#[test]
fn scope_is_any_of_the_roots() {
    let mut cache = Cache::new(100);
    cache.init(vec!["/pics".to_string(), "/more/art".to_string()], &Vec::new());
    assert_eq!(cache.directories(), vec!["/pics", "/more/art"]);
    assert!(cache.in_scope(&"/pics/a.png".to_string()));
    assert!(cache.in_scope(&"/more/art/deep/b.png".to_string()));
    assert!(!cache.in_scope(&"/more/a.png".to_string()));
    assert!(!cache.in_scope(&"/picsou/a.png".to_string()));
    assert!(!Cache::new(1).in_scope(&"/pics/a.png".to_string()));
}

#[test]
fn scope_counts_bytes_not_characters() {
    let mut cache = Cache::new(100);
    cache.init(vec!["/bilder/größe".to_string()], &Vec::new());
    assert!(cache.in_scope(&"/bilder/größe/a.png".to_string()));
    assert!(!cache.in_scope(&"/bilder/größen/a.png".to_string()));
}

#[test]
fn insert_tracks_an_unresolved_record() {
    let mut cache = store();
    let k = cache.insert_data_with(&probe("/pics/a.png", 5), key("k1"), 40).unwrap();
    assert_eq!(k, "k1");
    assert_eq!(cache.len(), 1);
    match cache.get_data_at(&k, 41) {
        Ok(Fetch::Load { key, path }) => {
            assert_eq!(key, "k1");
            assert_eq!(path, "/pics/a.png");
        },
        other => panic!("{:?}", other),
    }
}

#[test]
fn insert_outside_every_root_is_out_of_scope() {
    let mut cache = store();
    let r = cache.insert_data_with(&probe("/elsewhere/a.png", 5), key("k"), 0);
    assert_eq!(r, Err(CacheError::OutOfScope));
    let r = cache.insert_data(&probe("/pics2/a.png", 5));
    assert_eq!(r, Err(CacheError::OutOfScope));
    assert_eq!(cache.len(), 0);
}

#[test]
fn insert_of_a_directory_is_not_a_file() {
    let mut cache = store();
    let mut dir = probe("/pics/sub", 5);
    dir.is_file = Some(false);
    dir.head = None;
    assert_eq!(cache.insert_data_with(&dir, key("k"), 0), Err(CacheError::NotAFile));
    let mut outside = probe("/elsewhere", 5);
    outside.is_file = Some(false);
    assert_eq!(cache.insert_data(&outside), Err(CacheError::NotAFile));
    assert_eq!(cache.len(), 0);
}

#[test]
fn insert_of_unknown_bytes_is_unsupported() {
    let mut cache = store();
    let mut text = probe("/pics/notes.txt", 5);
    text.head = Some(b"hello, world".to_vec());
    assert_eq!(cache.insert_data_with(&text, key("k"), 0), Err(CacheError::UnsupportedFormat));
    assert_eq!(cache.insert_data(&text), Err(CacheError::UnsupportedFormat));
    assert_eq!(cache.len(), 0);
}

#[test]
fn insert_with_missing_facts_is_an_io_error() {
    let mut cache = store();
    let mut p = probe("/pics/a.png", 5);
    p.canonical = None;
    assert_eq!(cache.insert_data_with(&p, key("k"), 0), Err(CacheError::IOError));
    let mut p = probe("/pics/a.png", 5);
    p.is_file = None;
    assert_eq!(cache.insert_data_with(&p, key("k"), 0), Err(CacheError::IOError));
    let mut p = probe("/pics/a.png", 5);
    p.head = None;
    assert_eq!(cache.insert_data_with(&p, key("k"), 0), Err(CacheError::IOError));
    let mut p = probe("/pics/a.png", 5);
    p.head = Some(PNG_HEAD[..8].to_vec());
    assert_eq!(cache.insert_data_with(&p, key("k"), 0), Err(CacheError::IOError));
    let mut p = probe("/pics/a.png", 5);
    p.created = None;
    assert_eq!(cache.insert_data(&p), Err(CacheError::IOError));
    assert_eq!(cache.len(), 0);
}

#[test]
fn scope_is_tested_before_the_format() {
    let mut cache = store();
    let mut p = probe("/elsewhere/notes.txt", 5);
    p.head = Some(b"hello, world".to_vec());
    assert_eq!(cache.insert_data_with(&p, key("k"), 0), Err(CacheError::OutOfScope));
}

#[test]
fn drawn_keys_are_uuids_and_differ() {
    let mut cache = store();
    let a = cache.insert_data(&probe("/pics/a.png", 1)).unwrap();
    let b = cache.insert_data(&probe("/pics/b.png", 2)).unwrap();
    assert_ne!(a, b);
    for k in [&a, &b] {
        assert_eq!(k.len(), 36);
        assert_eq!(uuid::Uuid::parse_str(k).unwrap().get_version_num(), 4);
    }
    assert_eq!(cache.len(), 2);
}

#[test]
fn a_key_in_use_is_lengthened_past_every_key() {
    let mut cache = store();
    cache.insert_data_with(&probe("/pics/a.png", 1), key("ab"), 0).unwrap();
    cache.insert_data_with(&probe("/pics/b.png", 2), key("longer"), 0).unwrap();
    assert_eq!(cache.settle_key(key("free")), "free");
    assert_eq!(cache.settle_key(key("ab")), "ab-----");
    assert_eq!(cache.settle_key(key("longer")), "longer-");
    let k = cache.insert_data_with(&probe("/pics/c.png", 3), key("ab"), 0).unwrap();
    assert_eq!(k, "ab-----");
    assert_eq!(cache.len(), 3);
    assert!(cache.get_data_at(&key("ab"), 0).is_ok());
    assert!(cache.get_data_at(&k, 0).is_ok());
}

#[test]
fn a_path_inserted_again_replaces_its_record() {
    let mut cache = store();
    let first = cache.insert_data_with(&probe("/pics/a.png", 1), key("k1"), 0).unwrap();
    cache.store_data_at(&first, bytes(&[1], &[2]), 10).unwrap();
    let second = cache.insert_data_with(&probe("/pics/a.png", 9), key("k2"), 20).unwrap();
    assert_eq!(cache.len(), 1);
    assert_eq!(cache.get_data_at(&first, 20).err(), Some(CacheError::NotFound));
    assert!(matches!(cache.get_data_at(&second, 20), Ok(Fetch::Load { .. })));
    let listing = cache.get_images("images");
    assert_eq!(listing.len(), 1);
    assert_eq!(listing[0].date, 9);
}

#[test]
fn remove_of_an_untracked_path_changes_nothing() {
    let mut cache = store();
    let k = cache.insert_data_with(&probe("/pics/a.png", 1), key("k1"), 0).unwrap();
    assert_eq!(cache.get_newest_image_id(), Some(key("k1")));
    assert!(cache.remove_data(&"/pics/none.png".to_string()).is_none());
    assert!(cache.remove_data(&"/elsewhere/a.png".to_string()).is_none());
    assert_eq!(cache.len(), 1);
    assert!(cache.get_data_at(&k, 0).is_ok());
}

#[test]
fn remove_drops_exactly_the_record_of_the_path() {
    let mut cache = store();
    let a = cache.insert_data_with(&probe("/pics/a.png", 1), key("ka"), 0).unwrap();
    let b = cache.insert_data_with(&probe("/pics/b.png", 2), key("kb"), 0).unwrap();
    cache.store_data_at(&a, bytes(&[1, 2], &[3]), 5).unwrap();
    let gone = cache.remove_data(&"/pics/a.png".to_string()).unwrap();
    assert_eq!(gone.path, "/pics/a.png");
    assert_eq!(gone.data, vec![1, 2]);
    assert_eq!(gone.image_age, 1);
    assert_eq!(cache.len(), 1);
    assert_eq!(cache.get_data_at(&a, 5).err(), Some(CacheError::NotFound));
    assert_eq!(cache.get_data(&a).err(), Some(CacheError::NotFound));
    assert!(cache.get_data_at(&b, 5).is_ok());
    assert!(cache.remove_data(&"/pics/a.png".to_string()).is_none());
}

#[test]
fn get_of_an_unknown_key_is_not_found() {
    let cache = store();
    assert_eq!(cache.get_data_at(&key("nothing"), 0).err(), Some(CacheError::NotFound));
    assert_eq!(cache.get_data(&key("nothing")).err(), Some(CacheError::NotFound));
}

#[test]
fn stored_bytes_are_handed_out_while_fresh() {
    let mut cache = store();
    let k = cache.insert_data_with(&probe("/pics/a.png", 1), key("k1"), 0).unwrap();
    let image = cache.store_data_at(&k, bytes(&[1, 2, 3], &[4, 5]), 1_000).unwrap();
    assert_eq!(image.data, vec![1, 2, 3]);
    assert_eq!(image.compressed_data, vec![4, 5]);
    assert_eq!(image.path, "/pics/a.png");
    assert_eq!(image.cache_age_at(1_000), 0);
    match cache.get_data_at(&k, 1_099) {
        Ok(Fetch::Ready(image)) => {
            assert_eq!(image.data, vec![1, 2, 3]);
            assert_eq!(image.compressed_data, vec![4, 5]);
            assert_eq!(image.content_type(), "image/png");
        },
        other => panic!("{:?}", other),
    }
    assert!(matches!(cache.get_data_at(&k, 1_100), Ok(Fetch::Load { .. })));
}

#[test]
fn empty_bytes_are_never_fresh() {
    let mut cache = store();
    let k = cache.insert_data_with(&probe("/pics/a.png", 1), key("k1"), 0).unwrap();
    cache.store_data_at(&k, bytes(&[], &[]), 1_000).unwrap();
    assert!(matches!(cache.get_data_at(&k, 1_000), Ok(Fetch::Load { .. })));
}

#[test]
fn store_for_an_unknown_key_is_not_found() {
    let mut cache = store();
    let r = cache.store_data_at(&key("nothing"), bytes(&[1], &[2]), 0);
    assert_eq!(r.err(), Some(CacheError::NotFound));
    let r = cache.store_data(&key("nothing"), Err(RecordError::IOError));
    assert_eq!(r.err(), Some(CacheError::NotFound));
}

#[test]
fn failed_resolve_names_key_and_cause_and_keeps_the_record() {
    let mut cache = store();
    let k = cache.insert_data_with(&probe("/pics/a.png", 1), key("k1"), 0).unwrap();
    cache.store_data_at(&k, bytes(&[1], &[2]), 1_000).unwrap();
    for cause in [RecordError::IOError, RecordError::DecodeError, RecordError::EncodeError] {
        let r = cache.store_data_at(&k, Err(cause), 5_000);
        assert_eq!(r.err(), Some(CacheError::ResolveFailed { key: key("k1"), cause }));
    }
    match cache.get_data_at(&k, 1_050) {
        Ok(Fetch::Ready(image)) => assert_eq!(image.data, vec![1]),
        other => panic!("{:?}", other),
    }
}

#[test]
fn a_corrupt_file_leaves_the_store_usable() {
    let mut cache = store();
    let good = cache.insert_data_with(&probe("/pics/good.png", 1), key("good"), 0).unwrap();
    let mut broken = probe("/pics/broken.png", 2);
    broken.head = Some(vec![0; 12]);
    assert_eq!(cache.insert_data_with(&broken, key("b"), 0), Err(CacheError::UnsupportedFormat));
    let cut = cache.insert_data_with(&probe("/pics/cut.png", 3), key("cut"), 0).unwrap();
    let r = cache.store_data_at(&cut, Err(RecordError::DecodeError), 10);
    assert_eq!(
        r.err(),
        Some(CacheError::ResolveFailed { key: key("cut"), cause: RecordError::DecodeError })
    );
    assert!(matches!(cache.get_data_at(&cut, 11), Ok(Fetch::Load { .. })));
    cache.store_data_at(&good, bytes(&[7], &[8]), 10).unwrap();
    assert!(matches!(cache.get_data_at(&good, 11), Ok(Fetch::Ready(_))));
    assert_eq!(cache.len(), 2);
    assert_eq!(cache.get_images("images").len(), 2);
}

#[test]
fn sweep_clears_what_has_expired_and_keeps_the_record() {
    let mut cache = store();
    let old = cache.insert_data_with(&probe("/pics/old.png", 1), key("old"), 0).unwrap();
    let edge = cache.insert_data_with(&probe("/pics/edge.png", 2), key("edge"), 0).unwrap();
    let young = cache.insert_data_with(&probe("/pics/young.png", 3), key("young"), 0).unwrap();
    cache.store_data_at(&old, bytes(&[1], &[1]), 1_000).unwrap();
    cache.store_data_at(&edge, bytes(&[2], &[2]), 1_001).unwrap();
    cache.store_data_at(&young, bytes(&[3], &[3]), 1_050).unwrap();
    cache.clean_cache_at(1_101);
    assert_eq!(cache.len(), 3);
    let removed = cache.remove_data(&"/pics/old.png".to_string()).unwrap();
    assert!(removed.is_empty());
    assert!(removed.compressed_is_empty());
    assert_eq!(removed.image_age, 1);
    let kept = cache.remove_data(&"/pics/edge.png".to_string()).unwrap();
    assert_eq!(kept.data, vec![2]);
    assert_eq!(kept.compressed_data, vec![2]);
    let fresh = cache.remove_data(&"/pics/young.png".to_string()).unwrap();
    assert_eq!(fresh.data, vec![3]);
}

#[test]
fn after_expiry_the_next_get_loads_again() {
    let mut cache = store();
    let k = cache.insert_data_with(&probe("/pics/a.png", 1), key("k1"), 0).unwrap();
    cache.store_data_at(&k, bytes(&[1], &[2]), 1_000).unwrap();
    cache.clean_cache_at(1_101);
    match cache.get_data_at(&k, 1_102) {
        Ok(Fetch::Load { key, path }) => {
            assert_eq!(key, "k1");
            assert_eq!(path, "/pics/a.png");
        },
        other => panic!("{:?}", other),
    }
    let image = cache.store_data_at(&k, bytes(&[5, 6], &[7]), 1_103).unwrap();
    assert_eq!(image.data, vec![5, 6]);
    assert_eq!(image.cache_age_at(1_103), 0);
    match cache.get_data_at(&k, 1_150) {
        Ok(Fetch::Ready(image)) => {
            assert_eq!(image.data, vec![5, 6]);
            assert_eq!(image.compressed_data, vec![7]);
            assert_eq!(image.cache_age_at(1_150), 47);
        },
        other => panic!("{:?}", other),
    }
}

#[test]
fn sweep_with_the_clock_keeps_fresh_bytes() {
    let mut cache = Cache::new(3_600_000);
    cache.init(vec!["/pics".to_string()], &Vec::new());
    let k = cache.insert_data(&probe("/pics/a.png", 1)).unwrap();
    let image = cache.store_data(&k, bytes(&[1], &[2])).unwrap();
    assert_eq!(image.data, vec![1]);
    cache.clean_cache();
    match cache.get_data(&k) {
        Ok(Fetch::Ready(image)) => assert_eq!(image.data, vec![1]),
        other => panic!("{:?}", other),
    }
}

#[test]
fn sweep_with_the_clock_clears_stale_bytes() {
    let mut cache = Cache::new(-1);
    cache.init(vec!["/pics".to_string()], &Vec::new());
    let k = cache.insert_data(&probe("/pics/a.png", 1)).unwrap();
    cache.store_data(&k, bytes(&[1], &[2])).unwrap();
    assert!(matches!(cache.get_data(&k), Ok(Fetch::Load { .. })));
    cache.clean_cache();
    assert!(cache.remove_data(&"/pics/a.png".to_string()).unwrap().is_empty());
}

#[test]
fn newest_is_the_record_created_last() {
    let mut cache = store();
    cache.insert_data_with(&probe("/pics/b.png", 20), key("kb"), 0).unwrap();
    cache.insert_data_with(&probe("/pics/c.png", 30), key("kc"), 0).unwrap();
    cache.insert_data_with(&probe("/pics/a.png", 10), key("ka"), 0).unwrap();
    assert_eq!(cache.get_newest_image_id(), Some(key("kc")));
    assert_eq!(cache.get_newest_image_id(), Some(key("kc")));
    match cache.get_newest_image_at(0) {
        Some(Fetch::Load { key, path }) => {
            assert_eq!(key, "kc");
            assert_eq!(path, "/pics/c.png");
        },
        other => panic!("{:?}", other),
    }
}

#[test]
fn newest_follows_inserts_and_removes() {
    let mut cache = store();
    cache.insert_data_with(&probe("/pics/a.png", 10), key("ka"), 0).unwrap();
    assert_eq!(cache.get_newest_image_id(), Some(key("ka")));
    cache.insert_data_with(&probe("/pics/b.png", 20), key("kb"), 0).unwrap();
    assert_eq!(cache.get_newest_image_id(), Some(key("kb")));
    cache.insert_data_with(&probe("/pics/old.png", 5), key("ko"), 0).unwrap();
    assert_eq!(cache.get_newest_image_id(), Some(key("kb")));
    cache.remove_data(&"/pics/b.png".to_string()).unwrap();
    assert_eq!(cache.get_newest_image_id(), Some(key("ka")));
    cache.remove_data(&"/pics/a.png".to_string()).unwrap();
    cache.remove_data(&"/pics/old.png".to_string()).unwrap();
    assert_eq!(cache.get_newest_image_id(), None);
    assert!(cache.get_newest_image_at(0).is_none());
    assert!(cache.get_newest_image().is_none());
}

#[test]
fn newest_hands_out_fresh_bytes() {
    let mut cache = store();
    cache.insert_data_with(&probe("/pics/a.png", 10), key("ka"), 0).unwrap();
    cache.insert_data_with(&probe("/pics/b.png", 20), key("kb"), 0).unwrap();
    cache.store_data_at(&key("kb"), bytes(&[2], &[22]), 1_000).unwrap();
    match cache.get_newest_image_at(1_050) {
        Some(Fetch::Ready(image)) => {
            assert_eq!(image.path, "/pics/b.png");
            assert_eq!(image.data, vec![2]);
        },
        other => panic!("{:?}", other),
    }
    cache.clean_cache_at(1_200);
    assert!(matches!(cache.get_newest_image_at(1_201), Some(Fetch::Load { .. })));
}

#[test]
fn newest_with_the_clock_asks_for_a_load_first() {
    let mut cache = Cache::new(3_600_000);
    cache.init(vec!["/pics".to_string()], &vec![probe("/pics/a.png", 10)]);
    let k = match cache.get_newest_image() {
        Some(Fetch::Load { key, path }) => {
            assert_eq!(path, "/pics/a.png");
            key
        },
        other => panic!("{:?}", other),
    };
    cache.store_data(&k, bytes(&[1], &[2])).unwrap();
    assert!(matches!(cache.get_newest_image(), Some(Fetch::Ready(_))));
}

#[test]
fn listing_is_ordered_by_creation_time_later_first() {
    let mut cache = store();
    cache.insert_data_with(&probe("/pics/b.png", 20), key("kb"), 0).unwrap();
    cache.insert_data_with(&probe("/pics/d.png", 40), key("kd"), 0).unwrap();
    cache.insert_data_with(&probe("/pics/a.png", 10), key("ka"), 0).unwrap();
    cache.insert_data_with(&probe("/pics/c.png", 30), key("kc"), 0).unwrap();
    let listing = cache.get_images("images");
    let dates: Vec<i64> = listing.iter().map(|e| e.date).collect();
    let urls: Vec<&str> = listing.iter().map(|e| e.url.as_str()).collect();
    assert_eq!(dates, vec![40, 30, 20, 10]);
    assert_eq!(urls, vec!["images/kd", "images/kc", "images/kb", "images/ka"]);
    assert_eq!(listing.len(), cache.len());
}

#[test]
fn listing_shows_records_of_one_time_once_each() {
    let mut cache = store();
    cache.insert_data_with(&probe("/pics/a.png", 7), key("ka"), 0).unwrap();
    cache.insert_data_with(&probe("/pics/b.png", 9), key("kb"), 0).unwrap();
    cache.insert_data_with(&probe("/pics/c.png", 7), key("kc"), 0).unwrap();
    let listing = cache.get_images("http://host/images");
    assert_eq!(listing.len(), 3);
    assert_eq!(listing[0].url, "http://host/images/kb");
    assert_eq!(listing[0].date, 9);
    let mut rest: Vec<&str> = listing[1..].iter().map(|e| e.url.as_str()).collect();
    rest.sort();
    assert_eq!(rest, vec!["http://host/images/ka", "http://host/images/kc"]);
    assert!(listing[1..].iter().all(|e| e.date == 7));
}

#[test]
fn listing_does_not_resolve() {
    let mut cache = store();
    let k = cache.insert_data_with(&probe("/pics/a.png", 7), key("ka"), 0).unwrap();
    let _ = cache.get_images("images");
    assert!(matches!(cache.get_data_at(&k, 0), Ok(Fetch::Load { .. })));
}

#[test]
fn startup_scan_tracks_every_image_later_first() {
    let mut cache = Cache::new(100);
    let files = vec![
        probe("/pics/two.png", 2_000),
        probe("/pics/one.png", 1_000),
        probe("/pics/three.png", 3_000),
    ];
    cache.init(vec!["/pics".to_string()], &files);
    assert_eq!(cache.len(), 3);
    let listing = cache.get_images("images");
    let dates: Vec<i64> = listing.iter().map(|e| e.date).collect();
    assert_eq!(dates, vec![3_000, 2_000, 1_000]);
    for e in &listing {
        assert!(e.url.starts_with("images/"));
        assert_eq!(e.url.len(), "images/".len() + 36);
    }
    let newest = match cache.get_newest_image_at(10) {
        Some(Fetch::Load { key, path }) => {
            assert_eq!(path, "/pics/three.png");
            assert_eq!(listing[0].url, format!("images/{}", key));
            key
        },
        other => panic!("{:?}", other),
    };
    cache.store_data_at(&newest, bytes(&[3, 3, 3], &[3]), 20).unwrap();
    match cache.get_newest_image_at(30) {
        Some(Fetch::Ready(image)) => {
            assert_eq!(image.data, vec![3, 3, 3]);
            assert_eq!(image.image_age, 3_000);
        },
        other => panic!("{:?}", other),
    }
}

#[test]
fn startup_scan_swallows_refusals() {
    let mut cache = Cache::new(100);
    let mut dir = probe("/pics/sub", 1);
    dir.is_file = Some(false);
    let mut text = probe("/pics/readme.txt", 2);
    text.head = Some(b"hello, world".to_vec());
    let files = vec![dir, probe("/pics/a.png", 3), text, probe("/other/b.png", 4)];
    cache.init(vec!["/pics".to_string()], &files);
    assert_eq!(cache.len(), 1);
    assert_eq!(cache.get_images("images")[0].date, 3);
}

#[test]
fn init_starts_over() {
    let mut cache = store();
    cache.insert_data_with(&probe("/pics/a.png", 1), key("ka"), 0).unwrap();
    cache.init(vec!["/art".to_string()], &vec![probe("/art/b.png", 2), probe("/pics/a.png", 1)]);
    assert_eq!(cache.directories(), vec!["/art"]);
    assert_eq!(cache.len(), 1);
    assert_eq!(cache.get_images("i")[0].date, 2);
}

#[test]
fn insert_all_offers_the_probes_in_order() {
    let mut cache = store();
    let files = vec![probe("/pics/a.png", 1), probe("/pics/b.png", 2), probe("/pics/a.png", 3)];
    cache.insert_all(&files);
    assert_eq!(cache.len(), 2);
    let dates: Vec<i64> = cache.get_images("i").iter().map(|e| e.date).collect();
    assert_eq!(dates, vec![3, 2]);
}

#[test]
fn the_trait_reaches_the_store() {
    fn fill<C: CacheTrait>(cache: &mut C, data: &C::DataSource) -> usize {
        let _ = cache.insert_data(data);
        cache.clean_cache();
        cache.len()
    }
    let mut cache = store();
    assert_eq!(fill(&mut cache, &probe("/pics/a.png", 1)), 1);
    assert_eq!(fill(&mut cache, &probe("/else/b.png", 2)), 1);
    assert_eq!(CacheTrait::directories(&cache), vec!["/pics"]);
    let gone = CacheTrait::remove_data(&mut cache, &probe("/pics/a.png", 1)).unwrap();
    assert_eq!(gone.path, "/pics/a.png");
    assert_eq!(CacheTrait::len(&cache), 0);
}
