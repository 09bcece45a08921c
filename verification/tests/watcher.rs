use jorge_a_day::cache::{
    cache_cleanup, directory_watcher, watch_action, EventKind, ModifyKind, RenameMode, WatchAction,
    WatchEvent, CLEANUP_INTERVAL_SECS, WATCH_QUEUE_LEN,
};
use jorge_a_day::image_cache::cache::{Cache, CacheError, Fetch};
use jorge_a_day::image_cache::image::{FileProbe, Resolved};

const PNG_HEAD: [u8; 12] = [0x89, b'P', b'N', b'G', 13, 10, 26, 10, 0, 0, 0, 13];

fn probe(path: &str, created: i64) -> FileProbe {
    FileProbe {
        path: path.to_string(),
        canonical: Some(path.to_string()),
        is_file: Some(true),
        head: Some(PNG_HEAD.to_vec()),
        created: Some(created),
    }
}

/// What is known of a path whose file is gone.
fn gone(path: &str) -> FileProbe {
    FileProbe { path: path.to_string(), canonical: None, is_file: None, head: None, created: None }
}

fn store() -> Cache {
    let mut cache = Cache::new(100);
    cache.init(vec!["/pics".to_string()], &Vec::new());
    cache
}

fn event(kind: EventKind, paths: Vec<FileProbe>) -> WatchEvent<FileProbe> {
    WatchEvent { kind, paths }
}

fn urls(cache: &Cache) -> Vec<String> {
    cache.get_images("images").into_iter().map(|e| e.url).collect()
}

#[test]
fn intervals_are_as_configured() {
    assert_eq!(CLEANUP_INTERVAL_SECS, 60);
    assert_eq!(WATCH_QUEUE_LEN, 100);
}

#[test]
fn creation_and_renaming_into_place_insert() {
    assert_eq!(watch_action(EventKind::Create), WatchAction::Insert);
    assert_eq!(
        watch_action(EventKind::Modify(ModifyKind::Name(RenameMode::To))),
        WatchAction::Insert
    );
}

#[test]
fn removal_and_renaming_away_remove() {
    assert_eq!(watch_action(EventKind::Remove), WatchAction::Remove);
    assert_eq!(
        watch_action(EventKind::Modify(ModifyKind::Name(RenameMode::From))),
        WatchAction::Remove
    );
}

#[test]
fn every_other_kind_is_ignored() {
    let kinds = [
        EventKind::Any,
        EventKind::Access,
        EventKind::Other,
        EventKind::Modify(ModifyKind::Any),
        EventKind::Modify(ModifyKind::Data),
        EventKind::Modify(ModifyKind::Metadata),
        EventKind::Modify(ModifyKind::Other),
        EventKind::Modify(ModifyKind::Name(RenameMode::Any)),
        EventKind::Modify(ModifyKind::Name(RenameMode::Both)),
        EventKind::Modify(ModifyKind::Name(RenameMode::Other)),
    ];
    for kind in kinds {
        assert_eq!(watch_action(kind), WatchAction::Ignore);
    }
}

#[test]
fn a_created_file_appears_and_a_deleted_one_disappears() {
    let mut cache = store();
    directory_watcher(&mut cache, &event(EventKind::Create, vec![probe("/pics/new.png", 5)]));
    let listing = urls(&cache);
    assert_eq!(listing.len(), 1);
    let key = listing[0]["images/".len()..].to_string();
    assert!(matches!(cache.get_data_at(&key, 0), Ok(Fetch::Load { .. })));

    directory_watcher(&mut cache, &event(EventKind::Remove, vec![gone("/pics/new.png")]));
    assert!(urls(&cache).is_empty());
    assert_eq!(cache.get_data_at(&key, 0).err(), Some(CacheError::NotFound));
}

#[test]
fn renaming_moves_the_record_to_the_new_path() {
    let mut cache = store();
    directory_watcher(&mut cache, &event(EventKind::Create, vec![probe("/pics/a.png", 5)]));
    let from = EventKind::Modify(ModifyKind::Name(RenameMode::From));
    let to = EventKind::Modify(ModifyKind::Name(RenameMode::To));
    directory_watcher(&mut cache, &event(from, vec![gone("/pics/a.png")]));
    assert_eq!(cache.len(), 0);
    directory_watcher(&mut cache, &event(to, vec![probe("/pics/b.png", 5)]));
    assert_eq!(cache.len(), 1);
    assert!(cache.remove_data(&"/pics/a.png".to_string()).is_none());
    assert_eq!(cache.remove_data(&"/pics/b.png".to_string()).unwrap().path, "/pics/b.png");
}

#[test]
fn every_path_of_a_notification_is_handled() {
    let mut cache = store();
    let created = vec![probe("/pics/a.png", 1), probe("/pics/b.png", 2), probe("/pics/c.png", 3)];
    directory_watcher(&mut cache, &event(EventKind::Create, created));
    assert_eq!(cache.len(), 3);
    let removed = vec![gone("/pics/a.png"), gone("/pics/none.png"), gone("/pics/c.png")];
    directory_watcher(&mut cache, &event(EventKind::Remove, removed));
    assert_eq!(cache.len(), 1);
    assert_eq!(cache.get_images("images")[0].date, 2);
}

#[test]
fn refused_paths_do_not_stop_the_others() {
    let mut cache = store();
    let mut dir = probe("/pics/sub", 1);
    dir.is_file = Some(false);
    let mut partial = probe("/pics/partial.png", 2);
    partial.head = Some(vec![0x89, b'P']);
    let paths = vec![dir, partial, gone("/pics/vanished.png"), probe("/out/x.png", 3),
        probe("/pics/ok.png", 4)];
    directory_watcher(&mut cache, &event(EventKind::Create, paths));
    assert_eq!(cache.len(), 1);
    assert_eq!(cache.get_images("images")[0].date, 4);
}

#[test]
fn ignored_notifications_change_nothing() {
    let mut cache = store();
    directory_watcher(&mut cache, &event(EventKind::Create, vec![probe("/pics/a.png", 1)]));
    let before = urls(&cache);
    for kind in [EventKind::Access, EventKind::Modify(ModifyKind::Data), EventKind::Any] {
        directory_watcher(&mut cache, &event(kind, vec![probe("/pics/b.png", 2)]));
        directory_watcher(&mut cache, &event(kind, vec![gone("/pics/a.png")]));
    }
    assert_eq!(urls(&cache), before);
}

#[test]
fn notifications_apply_in_arrival_order() {
    let mut cache = store();
    let steps = vec![
        event(EventKind::Create, vec![probe("/pics/a.png", 1)]),
        event(EventKind::Remove, vec![gone("/pics/a.png")]),
        event(EventKind::Create, vec![probe("/pics/a.png", 9)]),
    ];
    for step in &steps {
        directory_watcher(&mut cache, step);
    }
    assert_eq!(cache.len(), 1);
    assert_eq!(cache.get_images("images")[0].date, 9);
}

#[test]
fn cleanup_step_sweeps_the_store() {
    let mut cache = Cache::new(-1);
    cache.init(vec!["/pics".to_string()], &vec![probe("/pics/a.png", 1)]);
    let key = urls(&cache)[0]["images/".len()..].to_string();
    cache.store_data(&key, Ok(Resolved { data: vec![1], compressed_data: vec![2] })).unwrap();
    cache_cleanup(&mut cache);
    assert_eq!(cache.len(), 1);
    assert!(cache.remove_data(&"/pics/a.png".to_string()).unwrap().is_empty());
}
