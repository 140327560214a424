use spectecle::cache::{Cache, CacheData, FileAction, ScannedFile, BATCH_SIZE};
use spectecle::key::hash_relative_path;
use spectecle::store::CacheItem;

fn scanned(path: &str, modified: u128) -> ScannedFile {
    ScannedFile { relative_path: path.to_string(), last_modified: modified }
}

fn item_for(file: &ScannedFile, has_cover: bool) -> CacheItem {
    CacheItem {
        key: hash_relative_path(&file.relative_path),
        relative_path: file.relative_path.clone(),
        last_modified: file.last_modified,
        title: file.relative_path.clone(),
        has_cover,
    }
}

/// Runs a refresh in which every archive that must be read yields an entry.
fn refresh_all(cache: &mut Cache, scan: &Vec<ScannedFile>) -> (Vec<usize>, Vec<String>) {
    let plan = cache.refresh(scan);
    for &i in &plan.index {
        cache.record(&scan[i], Some(item_for(&scan[i], true)));
    }
    (plan.index, plan.stale_covers)
}

fn snapshot(cache: &Cache) -> Vec<(String, String, u128, String, bool)> {
    let mut v: Vec<_> = cache
        .data()
        .items
        .iter()
        .map(|i| (i.key.clone(), i.relative_path.clone(), i.last_modified, i.title.clone(), i.has_cover))
        .collect();
    v.sort();
    v
}

#[test]
fn new_files_are_indexed() {
    let mut cache = Cache::new("/lib");
    let scan = vec![scanned("a.epub", 10), scanned("b.epub", 20)];
    assert_eq!(cache.check_file(&scan[0]), FileAction::Index);
    let (index, stale) = refresh_all(&mut cache, &scan);
    assert_eq!(index, vec![0, 1]);
    assert!(stale.is_empty());
    assert_eq!(cache.data().items.len(), 2);
}

#[test]
fn refresh_twice_changes_nothing() {
    let mut cache = Cache::new("/lib");
    let scan = vec![scanned("a.epub", 10), scanned("sub/b.epub", 20)];
    refresh_all(&mut cache, &scan);
    let first = snapshot(&cache);
    let (index, stale) = refresh_all(&mut cache, &scan);
    assert!(index.is_empty());
    assert!(stale.is_empty());
    assert_eq!(snapshot(&cache), first);
}

#[test]
fn deleted_file_is_forgotten_and_others_kept() {
    let mut cache = Cache::new("/lib");
    let scan = vec![scanned("a.epub", 10), scanned("b.epub", 20)];
    refresh_all(&mut cache, &scan);
    let a_before = snapshot(&cache).into_iter().find(|e| e.1 == "a.epub").unwrap();
    let (index, stale) = refresh_all(&mut cache, &vec![scanned("a.epub", 10)]);
    assert!(index.is_empty());
    assert_eq!(stale, vec![hash_relative_path("b.epub")]);
    assert_eq!(snapshot(&cache), vec![a_before]);
}

#[test]
fn touched_file_is_read_again() {
    let mut cache = Cache::new("/lib");
    refresh_all(&mut cache, &vec![scanned("a.epub", 10), scanned("b.epub", 20)]);
    let touched = scanned("a.epub", 11);
    assert_eq!(cache.check_file(&touched), FileAction::Reindex);
    let (index, stale) = refresh_all(&mut cache, &vec![touched, scanned("b.epub", 20)]);
    assert_eq!(index, vec![0]);
    assert_eq!(stale, vec![hash_relative_path("a.epub")]);
    let a = snapshot(&cache).into_iter().find(|e| e.1 == "a.epub").unwrap();
    assert_eq!(a.2, 11);
}

#[test]
fn unreadable_changed_file_leaves_the_index() {
    let mut cache = Cache::new("/lib");
    let scan = vec![scanned("a.epub", 10)];
    refresh_all(&mut cache, &scan);
    let touched = scanned("a.epub", 12);
    let plan = cache.refresh(&vec![scanned("a.epub", 12)]);
    assert_eq!(plan.index, vec![0]);
    let covers = cache.index_file(&touched, None);
    assert!(covers.is_empty());
    assert!(cache.data().items.is_empty());
}

#[test]
fn rebuild_drops_everything_first() {
    let mut cache = Cache::new("/lib");
    refresh_all(&mut cache, &vec![scanned("a.epub", 10), scanned("gone.epub", 20)]);
    cache.push_cover_for_writing(&"k".to_string(), vec![1]);
    let scan = vec![scanned("a.epub", 10), scanned("new.epub", 30)];
    let plan = cache.rebuild(&scan);
    assert_eq!(plan.index, vec![0, 1]);
    assert!(plan.stale_covers.is_empty());
    assert!(cache.data().items.is_empty());
    assert!(cache.take_covers(true).is_empty());
    for &i in &plan.index {
        cache.record(&scan[i], Some(item_for(&scan[i], false)));
    }
    let paths: Vec<String> = snapshot(&cache).into_iter().map(|e| e.1).collect();
    assert_eq!(paths, vec!["a.epub".to_string(), "new.epub".to_string()]);
}

#[test]
fn batch_of_forty_seven_waits_for_a_forced_flush() {
    let mut cache = Cache::new("/lib");
    for i in 0..47 {
        cache.push_cover_for_writing(&format!("k{}", i), vec![i as u8]);
        assert!(cache.take_covers(false).is_empty());
    }
    let all = cache.take_covers(true);
    assert_eq!(all.len(), 47);
    assert!(cache.take_covers(true).is_empty());
}

#[test]
fn batch_of_forty_eight_flushes_once() {
    let mut cache = Cache::new("/lib");
    let mut flushes = 0;
    for i in 0..BATCH_SIZE {
        cache.push_cover_for_writing(&format!("k{}", i), vec![i as u8]);
        let out = cache.take_covers(false);
        if !out.is_empty() {
            flushes += 1;
            assert_eq!(out.len(), 48);
        }
    }
    assert_eq!(flushes, 1);
    assert!(cache.take_covers(true).is_empty());
}

#[test]
fn queued_cover_replaces_one_of_the_same_key() {
    let mut cache = Cache::new("/lib");
    cache.push_cover_for_writing(&"k".to_string(), vec![1]);
    cache.push_cover_for_writing(&"j".to_string(), vec![2]);
    cache.push_cover_for_writing(&"k".to_string(), vec![3]);
    let out = cache.take_covers(true);
    let pairs: Vec<(String, Vec<u8>)> = out.into_iter().map(|c| (c.key, c.data)).collect();
    assert_eq!(pairs, vec![("j".to_string(), vec![2]), ("k".to_string(), vec![3])]);
}

#[test]
fn records_join_paths() {
    let mut cache = Cache::new("/lib");
    let a = scanned("shelf/a.epub", 1);
    let b = scanned("b.epub", 2);
    cache.record(&a, Some(item_for(&a, true)));
    cache.record(&b, Some(item_for(&b, false)));
    let books = cache.get_book_data("/lib");
    assert_eq!(books.len(), 2);
    let ka = hash_relative_path("shelf/a.epub");
    let ra = books.iter().find(|r| r.key == ka).unwrap();
    assert_eq!(ra.book_path, "/lib/shelf/a.epub");
    assert_eq!(ra.cover_path, Some(format!("/lib/.spectecle/cache/covers/{}", ka)));
    assert_eq!(ra.title, "shelf/a.epub");
    let rb = books.iter().find(|r| r.key != ka).unwrap();
    assert_eq!(rb.book_path, "/lib/b.epub");
    assert_eq!(rb.cover_path, None);
    assert_eq!(cache.snapshot_file(), "/lib/.spectecle/cache/cache.json");
    assert_eq!(cache.covers_dir(), "/lib/.spectecle/cache/covers");
}

#[test]
fn snapshot_with_repeated_keys_keeps_the_last() {
    let a = scanned("a.epub", 1);
    let mut older = item_for(&a, false);
    older.title = "old".to_string();
    let newer = item_for(&a, true);
    let cache = Cache::from_data("/lib", CacheData { items: vec![older, newer] });
    let items = &cache.data().items;
    assert_eq!(items.len(), 1);
    assert!(items[0].has_cover);
}
