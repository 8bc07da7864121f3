use roextract::logic::checkpoints::{
    asset_key, checkpoint_entry, diff_checkpoint, entry_version_changed, CacheCheckpoint,
    CheckpointEntry,
};
use roextract::logic::{AssetInfo, Category, Timestamp};

fn asset(name: &str, category: Category, size: u64, fingerprint: Option<u64>) -> AssetInfo {
    AssetInfo {
        name: name.to_owned(),
        _size: size,
        last_modified: Some(Timestamp { secs: 100, nanos: 0 }),
        from_file: true,
        from_sql: false,
        from_rbx_storage: false,
        category,
        fingerprint,
        file_type: Some("PNG".to_owned()),
        extension: Some("png".to_owned()),
        detected_at: Some(Timestamp { secs: 0, nanos: 0 }),
    }
}

fn snapshot(assets: &[AssetInfo]) -> Vec<CheckpointEntry> {
    assets.iter().map(checkpoint_entry).collect()
}

fn checkpoint(entries: Vec<CheckpointEntry>) -> CacheCheckpoint {
    CacheCheckpoint {
        id: "test".to_owned(),
        name: "Test".to_owned(),
        created_at_secs: 0,
        entries,
    }
}

#[test]
fn test_asset_key_is_stable_and_unique() {
    let a = asset("abc", Category::Images, 1, Some(1));
    let mut b = asset("abc", Category::Images, 1, Some(1));
    b.from_file = false;
    b.from_sql = true;
    assert_ne!(asset_key(&a), asset_key(&b), "different sources must differ");
    assert_eq!(asset_key(&a), asset_key(&a));
    // Name changes must change the key, but index/order must not.
    let b2 = asset("def", Category::Images, 1, Some(1));
    assert_ne!(asset_key(&a), asset_key(&b2));
}

#[test]
fn test_diff_added_modified_removed() {
    // Snapshot: A (unchanged), B (will change), C (will be removed/vanish).
    let cache_a = asset("A", Category::Images, 10, Some(111));
    let cache_b = asset("B", Category::Sounds, 20, Some(222));
    let cache_c = asset("C", Category::Ktx, 30, Some(333));
    let entries = snapshot(&[cache_a.clone(), cache_b.clone(), cache_c.clone()]);

    // Current: A unchanged, B changed content, C gone, D newly added.
    let mut current_b = asset("B", Category::Sounds, 20, Some(222));
    current_b._size = 25; // changed
    let current = vec![
        cache_a.clone(),
        current_b,
        asset("D", Category::Images, 40, Some(444)),
    ];

    let diff = diff_checkpoint(&checkpoint(entries), &current);

    assert_eq!(diff.added.len(), 1);
    assert_eq!(diff.added[0].name, "D");
    assert_eq!(diff.modified.len(), 1);
    assert_eq!(diff.modified[0].name, "B");
    assert_eq!(diff.removed.len(), 1);
    assert_eq!(diff.removed[0].name, "C");

    let diff = diff_checkpoint(&checkpoint(snapshot(&[cache_a, cache_b, cache_c])), &current);
    assert_eq!(diff.added.len(), 1);
    assert_eq!(diff.modified.len(), 1);
    assert_eq!(diff.removed.len(), 1);
}

#[test]
fn test_entry_version_changed() {
    let entry = checkpoint_entry(&asset("A", Category::Images, 10, Some(111)));
    assert!(!entry_version_changed(&entry, &asset("A", Category::Images, 10, Some(111))));
    assert!(entry_version_changed(&entry, &asset("A", Category::Images, 11, Some(111))), "size");
    assert!(entry_version_changed(&entry, &asset("A", Category::Images, 10, Some(222))), "fingerprint");

    // None fingerprint + same metadata = unchanged (music-style records).
    let none_entry = checkpoint_entry(&asset("M", Category::Music, 5, None));
    assert!(!entry_version_changed(&none_entry, &asset("M", Category::Music, 5, None)));
    assert!(entry_version_changed(&none_entry, &asset("M", Category::Music, 6, None)));
}
