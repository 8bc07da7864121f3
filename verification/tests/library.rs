use std::path::PathBuf;

use roextract::gui::checkpoints::CheckpointUi;
use roextract::logic::cache_directory::{
    self, category_subdirectory, create_asset_info_unchecked, get_cache_directory,
    set_cache_directory, CacheDirectory,
};
use roextract::logic::checkpoints::{
    add_checkpoint, category_name, delete_checkpoint, diff_checkpoint, filter_for_view,
    get_active_checkpoint_id, get_checkpoints, get_current_cache, get_current_generation,
    new_checkpoint, refresh_full_cache, rename_checkpoint, set_active_checkpoint,
    set_current_cache, system_time_secs, CheckpointState,
};
use roextract::logic::checkpoints::{
    begin_checkpoint, checkpoint_id, default_checkpoint_name, finish_checkpoint,
};
use roextract::logic::rbx_storage_directory::{
    self, detect_directory, get_rbx_storage_dir, set_rbx_storage_dir, RbxStorage,
};
use roextract::logic::sql_database::{self, asset_name, decode_asset_id, listed_row, ttl_time};
use roextract::logic::{
    alias_with_extension, apply_source_detection, asset_source, content_fingerprint,
    create_asset_info, determine_category, extract_asset_to_bytes, extract_file_list,
    extract_to_file, finish_clear_cache, finish_list_task, finish_task, get_request_repaint,
    get_status, get_task_running, get_temp_dir, listing_category, maybe_decompress,
    request_list_stop, resolve_path, resolve_path_for_user, start_list_task, transfer_succeeded,
    try_start_task, update_status, AssetInfo, AssetSource, Category, FileMetadata, LogicState,
    TempDirectory, Timestamp,
};

fn record(name: &str, category: Category, size: u64) -> AssetInfo {
    AssetInfo {
        name: name.to_owned(),
        _size: size,
        last_modified: Some(Timestamp { secs: 50, nanos: 0 }),
        from_file: true,
        from_sql: false,
        from_rbx_storage: false,
        category,
        fingerprint: Some(size),
        file_type: None,
        extension: None,
        detected_at: None,
    }
}

fn cache_checkpoint(id: &str, current: &Vec<AssetInfo>) -> roextract::logic::checkpoints::CacheCheckpoint {
    new_checkpoint(id.to_owned(), format!("Checkpoint {id}"), 10, current)
}

// ---------------------------------------------------------------------------
// Fingerprints and detection
// ---------------------------------------------------------------------------

#[test]
fn test_fingerprint_exact_values() {
    assert_eq!(content_fingerprint(b""), 0xcbf2_9ce4_8422_2325);
    assert_eq!(content_fingerprint(b"a"), 0xaf63_dc4c_8601_ec8c);
    assert_eq!(content_fingerprint(b"foobar"), 0x8594_4171_f739_67e8);
}

#[test]
fn test_detection_decided_by_first_twelve_bytes() {
    let data = b"\x00\x00\x00\x20ftypisom....more data after the brand".to_vec();
    let prefix = &data[..12];
    assert_eq!(
        roextract::logic::detect_file_format(prefix),
        roextract::logic::detect_file_format(&data)
    );
    assert_eq!(roextract::logic::detect_extension(&data), Some("mp4"));
}

#[test]
fn test_detect_mp4_brand_with_three_bytes_never_matches() {
    // A four-byte brand is never equal to the three bytes "mp4".
    assert_eq!(roextract::logic::detect_file_format(b"\x00\x00\x00\x20ftypmp4 "), None);
}

#[test]
fn test_determine_category_id3_without_binary_marker() {
    assert_eq!(determine_category(b"ID3 tag only"), Category::All);
    assert_eq!(determine_category(b"xxOggSxx"), Category::Sounds);
}

#[test]
fn test_apply_source_detection_known_and_unknown() {
    let now = Timestamp { secs: 1234, nanos: 5 };
    let mut asset = record("abc", Category::Images, 3);
    let png = b"\x89PNG\r\n\x1a\nrest";
    apply_source_detection(&mut asset, png, now);
    assert_eq!(asset.fingerprint, Some(content_fingerprint(png)));
    assert_eq!(asset.file_type.as_deref(), Some("PNG"));
    assert_eq!(asset.extension.as_deref(), Some("png"));
    assert_eq!(asset.detected_at, Some(now));
    assert_eq!(asset.name, "abc");
    assert_eq!(asset._size, 3);

    apply_source_detection(&mut asset, b"nothing known", now);
    assert_eq!(asset.file_type.as_deref(), Some("unknown"));
    assert_eq!(asset.extension, None);
}

// ---------------------------------------------------------------------------
// Decompression
// ---------------------------------------------------------------------------

#[test]
fn test_maybe_decompress_zstd_frame() {
    let body = b"a cached asset body".to_vec();
    let compressed = zstd::encode_all(body.as_slice(), 0).unwrap();
    assert_eq!(&compressed[..4], &[0x28, 0xB5, 0x2F, 0xFD]);
    assert_eq!(maybe_decompress(compressed), body);
}

#[test]
fn test_maybe_decompress_broken_frame_keeps_raw() {
    let broken = vec![0x28, 0xB5, 0x2F, 0xFD, 0x00, 0x01];
    assert_eq!(maybe_decompress(broken.clone()), broken);
}

// ---------------------------------------------------------------------------
// Extraction
// ---------------------------------------------------------------------------

#[test]
fn test_extract_to_file_png_signature() {
    let asset = record("img", Category::Images, 0);
    let bytes = b"HTTP header\x89PNG\r\n\x1a\nbody".to_vec();
    let (data, extension) = extract_to_file(&asset, bytes);
    assert_eq!(data, b"\x89PNG\r\n\x1a\nbody".to_vec());
    assert_eq!(extension, "png");
}

#[test]
fn test_extract_to_file_extension_from_header() {
    // "JFIF" found at 10: extraction starts 6 bytes earlier; the extracted
    // bytes carry no known signature, so the header names the extension.
    let asset = record("jpg", Category::Images, 0);
    let (data, extension) = extract_to_file(&asset, b"0123456789JFIFxx".to_vec());
    assert_eq!(data, b"456789JFIFxx".to_vec());
    assert_eq!(extension, "jpg");
}

#[test]
fn test_extract_to_file_listed_extension_then_bin() {
    let mut asset = record("raw", Category::Ktx, 0);
    asset.extension = Some("webp".to_owned());
    let (data, extension) = extract_to_file(&asset, b"no header".to_vec());
    assert_eq!(data, b"no header".to_vec());
    assert_eq!(extension, "webp");

    asset.extension = None;
    let (_, extension) = extract_to_file(&asset, b"no header".to_vec());
    assert_eq!(extension, "bin");
}

#[test]
fn test_extract_asset_to_bytes_sounds() {
    let asset = record("snd", Category::Sounds, 0);
    assert_eq!(extract_asset_to_bytes(&asset, b"garbageOggSdata".to_vec()), b"OggSdata".to_vec());
}

#[test]
fn test_extract_file_list_plan() {
    let placeholder = roextract::logic::create_no_files("No files to list.".to_owned());
    let list = vec![
        record("a", Category::Images, 1),
        placeholder,
        record("b", Category::Music, 2),
    ];
    let aliases = vec!["alias-a".to_owned(), "none".to_owned(), "alias-b".to_owned()];

    let jobs = extract_file_list(&list, &aliases, true, true);
    assert_eq!(jobs.len(), 2);
    assert_eq!((jobs[0].index, jobs[0].item), (0, 1));
    assert_eq!(jobs[0].folder, Some("images"));
    assert_eq!(jobs[0].file_name, "alias-a");
    assert_eq!((jobs[1].index, jobs[1].item), (2, 2));
    assert_eq!(jobs[1].folder, Some("music"));
    assert_eq!(jobs[1].file_name, "alias-b");

    let jobs = extract_file_list(&list, &aliases, false, false);
    assert_eq!(jobs[0].folder, None);
    assert_eq!(jobs[1].file_name, "b");
}

// ---------------------------------------------------------------------------
// Names and paths
// ---------------------------------------------------------------------------

#[test]
fn test_alias_with_extension() {
    let mut asset = record("abc123", Category::Images, 0);
    asset.extension = Some("png".to_owned());
    assert_eq!(alias_with_extension(&asset, "abc123".to_owned()), "abc123.png");
    // The alias already ends with the extension, in another case.
    assert_eq!(alias_with_extension(&asset, "Logo.PNG".to_owned()), "Logo.PNG");
    asset.extension = Some(String::new());
    assert_eq!(alias_with_extension(&asset, "abc".to_owned()), "abc");
    asset.extension = None;
    assert_eq!(alias_with_extension(&asset, "abc".to_owned()), "abc");
}

#[test]
fn test_resolve_path_for_user_templates() {
    assert_eq!(
        resolve_path_for_user("%Temp%\\Roblox", "bob"),
        "C:\\Users\\bob\\AppData\\Local\\Temp\\Roblox"
    );
    assert_eq!(
        resolve_path_for_user("%localappdata%\\Roblox\\rbx-storage", "bob"),
        "C:\\Users\\bob\\AppData\\Local\\Roblox\\rbx-storage"
    );
    assert_eq!(
        resolve_path_for_user("~/.var/app/org.vinegarhq.Sober/cache/sober", "bob"),
        "/home/bob/.var/app/org.vinegarhq.Sober/cache/sober"
    );
    assert_eq!(resolve_path_for_user("/plain/dir", "bob"), "/plain/dir");
}

#[test]
fn test_resolve_path_expands_home() {
    let resolved = resolve_path("~/cache");
    assert!(resolved.starts_with("/home/"));
    assert!(resolved.ends_with("/cache"));
    assert_ne!(resolved, "~/cache");
    assert_eq!(resolve_path("/plain/dir"), "/plain/dir");
}

// ---------------------------------------------------------------------------
// Backends
// ---------------------------------------------------------------------------

#[test]
fn test_sql_names_round_trip() {
    let id = vec![0xde, 0xad, 0x01, 0xff];
    let name = asset_name(&id);
    assert_eq!(name, "dead01ff");
    assert_eq!(decode_asset_id(&name), Some(id.clone()));
    assert_eq!(decode_asset_id("DEAD01FF"), Some(id));
    assert_eq!(decode_asset_id("abc"), None);
    assert_eq!(decode_asset_id("zz"), None);
}

#[test]
fn test_sql_rows() {
    assert_eq!(ttl_time(100), Some(Timestamp { secs: 100, nanos: 0 }));
    assert_eq!(ttl_time(u64::MAX), None);

    let info = sql_database::create_asset_info("ab", Category::Images, Some((7, 100))).unwrap();
    assert!(info.from_sql && !info.from_file && !info.from_rbx_storage);
    assert_eq!(info._size, 7);
    assert_eq!(info.last_modified, Some(Timestamp { secs: 100, nanos: 0 }));
    assert!(sql_database::create_asset_info("ab", Category::Images, None).is_none());

    let now = Timestamp { secs: 9, nanos: 0 };
    let row = listed_row(&[0xab], 5, 100, b"..\x89PNG\r\n", Category::All, now).unwrap();
    assert_eq!(row.name, "ab");
    assert_eq!(row.category, Category::Images);
    assert_eq!(row.detected_at, Some(now));
    assert_eq!(row.file_type.as_deref(), Some("unknown"));
    assert!(listed_row(&[0xab], 5, 100, b"nothing", Category::All, now).is_none());
}

#[test]
fn test_listing_category() {
    assert_eq!(listing_category(Category::All, b"..PNG.."), Some(Category::Images));
    assert_eq!(listing_category(Category::Images, b"..OggS.."), None);
    assert_eq!(listing_category(Category::Music, b"OggS"), Some(Category::Music));
    assert_eq!(listing_category(Category::Rbxm, b"<roblox!"), Some(Category::Rbxm));
}

#[test]
fn test_cache_directory_records() {
    assert_eq!(category_subdirectory(Category::Music), "sounds");
    assert_eq!(category_subdirectory(Category::Images), "http");

    let meta = FileMetadata { len: 42, modified: Some(Timestamp { secs: 3, nanos: 0 }) };
    let r = create_asset_info_unchecked(Some("f1".to_owned()), "/c/http/f1".to_owned(), Some(meta), Category::Ktx);
    assert_eq!((r.name.as_str(), r._size), ("f1", 42));
    assert_eq!(r.last_modified, Some(Timestamp { secs: 3, nanos: 0 }));
    assert!(r.from_file);

    let r = create_asset_info_unchecked(None, "/c/http/..".to_owned(), Some(meta), Category::Ktx);
    assert_eq!((r.name.as_str(), r._size, r.last_modified), ("/c/http/..", 0, None));

    assert!(cache_directory::create_asset_info(false, None, String::new(), None, Category::All).is_none());

    let mut cache = CacheDirectory { directory: PathBuf::from("/a") };
    set_cache_directory(&mut cache, PathBuf::from("/b"));
    assert_eq!(get_cache_directory(&cache), PathBuf::from("/b"));
}

#[test]
fn test_rbx_storage_records() {
    let r = rbx_storage_directory::create_asset_info("defcd8".to_owned(), None, Category::Images);
    assert!(r.from_rbx_storage && !r.from_file && !r.from_sql);
    assert_eq!(r._size, 0);

    let found = detect_directory(vec![
        (PathBuf::from("/missing"), false),
        (PathBuf::from("/second"), true),
        (PathBuf::from("/third"), true),
    ]);
    assert_eq!(found, Some(PathBuf::from("/second")));
    assert_eq!(detect_directory(vec![(PathBuf::from("/missing"), false)]), None);

    let mut storage = RbxStorage { directory: None };
    set_rbx_storage_dir(&mut storage, Some(PathBuf::from("/rbx")));
    assert_eq!(get_rbx_storage_dir(&storage), Some(PathBuf::from("/rbx")));
}

#[test]
fn test_create_asset_info_prefers_sql_then_file() {
    let sql = record("s", Category::Images, 1);
    let file = record("f", Category::Images, 2);
    assert_eq!(create_asset_info("x", Category::Images, Some(sql.clone()), Some(file.clone())), sql);
    assert_eq!(create_asset_info("x", Category::Images, None, Some(file.clone())), file);
    let missing = create_asset_info("x", Category::Rbxm, None, None);
    assert_eq!(missing.name, "x");
    assert_eq!(missing.category, Category::Rbxm);
    assert!(!missing.from_file && !missing.from_sql && !missing.from_rbx_storage);
    assert_eq!(asset_source(&missing), None);
    assert_eq!(asset_source(&file), Some(AssetSource::CacheDirectory));
}

#[test]
fn test_transfer_fails_only_when_every_backend_fails() {
    assert!(!transfer_succeeded(false, false, false));
    assert!(transfer_succeeded(false, true, false));
}

#[test]
fn test_temp_directory() {
    let temp = TempDirectory { path: PathBuf::from("/tmp/RoExtract") };
    assert_eq!(get_temp_dir(&temp), PathBuf::from("/tmp/RoExtract"));
}

// ---------------------------------------------------------------------------
// Shared state
// ---------------------------------------------------------------------------

#[test]
fn test_request_repaint_is_acknowledged() {
    let mut state = LogicState::new("Idling".to_owned());
    assert!(!get_request_repaint(&mut state));
    update_status(&mut state, "Working".to_owned());
    assert_eq!(get_status(&state), "Working");
    assert!(get_request_repaint(&mut state));
    assert!(!get_request_repaint(&mut state));
}

#[test]
fn test_task_guard_excludes_second_task() {
    let mut state = LogicState::new("Idling".to_owned());
    assert!(try_start_task(&mut state));
    assert!(get_task_running(&state));
    assert!(!try_start_task(&mut state));
    finish_task(&mut state, "All extracted".to_owned());
    assert!(!get_task_running(&state));
    assert_eq!(get_status(&state), "All extracted");
    assert!(try_start_task(&mut state));

    finish_clear_cache(&mut state, "No files to list.".to_owned(), "Idling".to_owned());
    let list = roextract::logic::get_file_list(&state);
    assert_eq!(list.len(), 1);
    assert_eq!(list[0].name, "No files to list.");
    assert!(!get_task_running(&state));
}

#[test]
fn test_list_task_hand_over() {
    let mut state = LogicState::new("Idling".to_owned());
    assert!(!request_list_stop(&mut state));
    start_list_task(&mut state);
    assert!(roextract::logic::get_list_task_running(&state));
    assert!(request_list_stop(&mut state));
    assert!(roextract::logic::get_stop_list_running(&state));
    finish_list_task(&mut state, "Idling".to_owned());
    assert!(!roextract::logic::get_list_task_running(&state));
    start_list_task(&mut state);
    assert!(!roextract::logic::get_stop_list_running(&state));
}

// ---------------------------------------------------------------------------
// Checkpoints
// ---------------------------------------------------------------------------

#[test]
fn test_fresh_checkpoint_shows_no_change() {
    let current = vec![record("A", Category::Images, 1), record("B", Category::Sounds, 2)];
    let diff = diff_checkpoint(&cache_checkpoint("cp", &current), &current);
    assert!(diff.added.is_empty() && diff.modified.is_empty() && diff.removed.is_empty());
}

#[test]
fn test_active_checkpoint_filters_view() {
    let mut current = vec![record("A", Category::Images, 1), record("B", Category::Images, 2)];
    let mut state = CheckpointState::new(Vec::new(), None);
    assert_eq!(filter_for_view(&state, current.clone()), current);

    add_checkpoint(&mut state, cache_checkpoint("cp-1", &current));
    assert_eq!(get_active_checkpoint_id(&state), Some("cp-1".to_owned()));
    assert!(filter_for_view(&state, current.clone()).is_empty());

    current[1]._size = 5;
    current.push(record("C", Category::Images, 3));
    let shown = filter_for_view(&state, current.clone());
    let names: Vec<&str> = shown.iter().map(|a| a.name.as_str()).collect();
    assert_eq!(names, vec!["C", "B"]);

    // An active id without a checkpoint leaves the list as it is.
    set_active_checkpoint(&mut state, Some("gone".to_owned()));
    assert_eq!(filter_for_view(&state, current.clone()).len(), 3);
}

#[test]
fn test_rename_and_delete_checkpoints() {
    let current = vec![record("A", Category::Images, 1)];
    let mut state = CheckpointState::new(Vec::new(), None);
    add_checkpoint(&mut state, cache_checkpoint("one", &current));
    add_checkpoint(&mut state, cache_checkpoint("two", &current));
    add_checkpoint(&mut state, cache_checkpoint("one", &current));

    assert!(rename_checkpoint(&mut state, "two", "Renamed"));
    assert!(!rename_checkpoint(&mut state, "missing", "x"));
    assert_eq!(get_checkpoints(&state)[1].name, "Renamed");

    set_active_checkpoint(&mut state, Some("one".to_owned()));
    assert!(delete_checkpoint(&mut state, "one"));
    let left = get_checkpoints(&state);
    assert_eq!(left.len(), 1);
    assert_eq!(left[0].id, "two");
    assert_eq!(get_active_checkpoint_id(&state), None);
    assert!(!delete_checkpoint(&mut state, "one"));
}

#[test]
fn test_current_cache_generation() {
    let mut state = CheckpointState::new(Vec::new(), None);
    assert_eq!(get_current_generation(&state), 0);
    set_current_cache(&mut state, vec![record("A", Category::Images, 1)]);
    assert_eq!(get_current_generation(&state), 1);
    assert_eq!(get_current_cache(&state).len(), 1);
    state.current_generation = u64::MAX;
    set_current_cache(&mut state, Vec::new());
    assert_eq!(get_current_generation(&state), 0);
}

#[test]
fn test_full_cache_lists_each_record_once() {
    let all = vec![record("A", Category::Images, 1), record("M", Category::Music, 2)];
    let music = vec![record("M", Category::Music, 2), record("N", Category::Music, 3)];
    let full = refresh_full_cache(all, music);
    let names: Vec<&str> = full.iter().map(|a| a.name.as_str()).collect();
    assert_eq!(names, vec!["A", "M", "N"]);
}

#[test]
fn test_checkpoint_helpers() {
    assert_eq!(category_name(Category::Ktx), "Ktx");
    assert_eq!(system_time_secs(Timestamp { secs: -5, nanos: 0 }), 0);
    assert_eq!(system_time_secs(Timestamp { secs: 77, nanos: 9 }), 77);
}

#[test]
fn test_checkpoint_view_diffs() {
    let current = vec![record("A", Category::Images, 1)];
    let mut state = CheckpointState::new(Vec::new(), None);
    add_checkpoint(&mut state, cache_checkpoint("empty", &Vec::new()));
    set_current_cache(&mut state, current);

    let mut view = CheckpointUi::new();
    let diff = view.diff_for(&state, "empty");
    assert_eq!(diff.added.len(), 1);
    assert_eq!(view.last_generation, 1);
    assert_eq!(view.last_ids, vec!["empty".to_owned()]);

    let unknown = view.diff_for(&state, "unknown");
    assert!(unknown.added.is_empty() && unknown.modified.is_empty() && unknown.removed.is_empty());
}

#[test]
fn test_rbx_asset_subdirectory() {
    assert_eq!(
        rbx_storage_directory::asset_subdirectory("defcd8fbdc641282f02ab5e35c8b059f"),
        "de"
    );
    assert_eq!(rbx_storage_directory::asset_subdirectory("a"), "a");
    assert_eq!(rbx_storage_directory::asset_subdirectory(""), "");
}

#[test]
fn test_sql_connection_lifecycle() {
    let mut db = sql_database::SqlDatabase::connect(None);
    assert_eq!(sql_database::get_db_path(&db), None);
    assert!(sql_database::clean_up(&mut db).is_ok());

    let mut db = sql_database::SqlDatabase::connect(Some(rusqlite::Connection::open_in_memory().unwrap()));
    assert_eq!(sql_database::get_db_path(&db), Some(String::new()));
    assert!(sql_database::clean_up(&mut db).is_ok());
    assert!(db.connection.is_none());
    assert_eq!(sql_database::get_db_path(&db), None);

    let reopened = rusqlite::Connection::open_in_memory().unwrap();
    assert!(sql_database::reset_database(&mut db, Some(reopened)).is_ok());
    assert!(db.connection.is_some());
    assert_eq!(sql_database::get_db_path(&db), Some(String::new()));
    assert!(sql_database::reset_database(&mut db, None).is_ok());
    assert_eq!(sql_database::get_db_path(&db), None);
}

#[test]
fn test_empty_search_keeps_every_record() {
    let mut state = LogicState::new("Idling".to_owned());
    let view = vec![record("One", Category::Images, 1), record("two", Category::Sounds, 2)];
    let aliases = vec!["first".to_owned(), "second".to_owned()];
    roextract::logic::filter_file_list(&mut state, &view, &aliases, "");
    assert_eq!(roextract::logic::get_filtered_file_list(&state), view);

    // Aliases are searched too, in any case.
    roextract::logic::filter_file_list(&mut state, &view, &aliases, "SEC");
    let found = roextract::logic::get_filtered_file_list(&state);
    assert_eq!(found.len(), 1);
    assert_eq!(found[0].name, "two");
}

#[test]
fn test_find_header_first_match_and_error() {
    assert_eq!(
        roextract::logic::find_header(Category::Images, b"..GIF8..WEBP.."),
        Ok("WEBP".to_owned())
    );
    assert_eq!(
        roextract::logic::find_header(Category::Ktx, b"nothing here"),
        Err("Headers not found in bytes".to_owned())
    );
}

#[test]
fn test_fingerprint_of_example_bytes() {
    assert_eq!(content_fingerprint(b"some cache bytes"), 0xd45a_6b93_ebf3_2e54);
    assert_eq!(content_fingerprint(b"other bytes"), 0xaed6_1e48_f767_541a);
}

#[test]
fn test_first_valid_directory() {
    assert_eq!(
        cache_directory::first_valid_directory(vec![
            Err("a: missing".to_owned()),
            Ok("/cache".to_owned()),
            Ok("/other".to_owned()),
        ]),
        Ok("/cache".to_owned())
    );
    assert_eq!(
        cache_directory::first_valid_directory(vec![Err("a;".to_owned()), Err("b;".to_owned())]),
        Err("a;b;".to_owned())
    );
    assert_eq!(cache_directory::first_valid_directory(Vec::new()), Err(String::new()));
}

#[test]
fn test_resolve_path_replaces_from_the_left() {
    assert_eq!(resolve_path_for_user("~~x~", "u"), "/home/u/home/ux/home/u");
    assert_eq!(resolve_path_for_user("%Temp%%Temp%", "u"), "C:\\Users\\u\\AppData\\Local\\TempC:\\Users\\u\\AppData\\Local\\Temp");
    assert_eq!(resolve_path_for_user("é~é", "ü"), "é/home/üé");
}

#[test]
fn test_checkpoint_view_follows_state_changes() {
    let mut state = CheckpointState::new(Vec::new(), None);
    add_checkpoint(&mut state, cache_checkpoint("cp", &Vec::new()));
    let mut view = CheckpointUi::new();
    assert!(view.diff_for(&state, "cp").added.is_empty());

    // A new cache state is picked up, not served from the cached diffs.
    set_current_cache(&mut state, vec![record("A", Category::Images, 1)]);
    assert_eq!(view.diff_for(&state, "cp").added.len(), 1);
    set_current_cache(&mut state, vec![record("A", Category::Images, 1), record("B", Category::Images, 2)]);
    assert_eq!(view.diff_for(&state, "cp").added.len(), 2);

    // A new checkpoint changes the ids, so its diff is computed too.
    let current = get_current_cache(&state);
    add_checkpoint(&mut state, cache_checkpoint("cp2", &current));
    let diff = view.diff_for(&state, "cp2");
    assert!(diff.added.is_empty() && diff.modified.is_empty() && diff.removed.is_empty());
}

#[test]
fn test_trim_and_rename_from_input() {
    assert_eq!(roextract::text::trim("  \t My cache \u{3000}\n"), "My cache");
    assert_eq!(roextract::text::trim(" \u{a0} "), "");
    assert_eq!(roextract::text::trim("x"), "x");

    let mut state = CheckpointState::new(Vec::new(), None);
    add_checkpoint(&mut state, cache_checkpoint("one", &Vec::new()));
    assert!(roextract::logic::checkpoints::rename_from_input(&mut state, "one", "  New name "));
    assert_eq!(get_checkpoints(&state)[0].name, "New name");
    assert!(!roextract::logic::checkpoints::rename_from_input(&mut state, "one", "   "));
    assert_eq!(get_checkpoints(&state)[0].name, "New name");
    assert!(!roextract::logic::checkpoints::rename_from_input(&mut state, "two", "x"));
}

#[test]
fn test_checkpoint_creation_steps() {
    assert_eq!(checkpoint_id(0), "checkpoint-0");
    assert_eq!(checkpoint_id(1_700_000_000_123_456_789), "checkpoint-1700000000123456789");

    let mut checkpoints = CheckpointState::new(Vec::new(), None);
    let mut logic = LogicState::new("Idling".to_owned());
    assert_eq!(default_checkpoint_name(&checkpoints, "Checkpoint"), "Checkpoint 1");

    assert!(begin_checkpoint(&mut logic, "Creating".to_owned()));
    assert_eq!(get_status(&logic), "Creating");
    assert!(!begin_checkpoint(&mut logic, "Again".to_owned()));
    assert_eq!(get_status(&logic), "Creating");

    let current = vec![record("A", Category::Images, 1)];
    finish_checkpoint(&mut checkpoints, &mut logic, "cp".to_owned(), "Checkpoint 1".to_owned(), 42, current.clone(), "Created".to_owned());
    let stored = get_checkpoints(&checkpoints);
    assert_eq!(stored.len(), 1);
    assert_eq!((stored[0].id.as_str(), stored[0].name.as_str(), stored[0].created_at_secs), ("cp", "Checkpoint 1", 42));
    assert_eq!(stored[0].entries.len(), 1);
    assert_eq!(get_active_checkpoint_id(&checkpoints), Some("cp".to_owned()));
    assert_eq!(get_current_cache(&checkpoints), current);
    assert!(!get_task_running(&logic));
    assert_eq!(get_status(&logic), "Created");
    assert_eq!(default_checkpoint_name(&checkpoints, "Checkpoint"), "Checkpoint 2");
}

#[test]
fn test_listing_run_leaves_what_was_found() {
    let mut state = LogicState::new("Idling".to_owned());
    roextract::logic::update_file_list(&mut state, record("old", Category::Images, 1));
    start_list_task(&mut state);
    roextract::logic::update_file_list(&mut state, record("sql", Category::Images, 1));
    update_status(&mut state, "Filtering files (1/2)".to_owned());
    roextract::logic::update_file_list(&mut state, record("file", Category::Images, 2));
    finish_list_task(&mut state, "Idling".to_owned());
    let names: Vec<String> = roextract::logic::get_file_list(&state).into_iter().map(|a| a.name).collect();
    assert_eq!(names, vec!["sql".to_owned(), "file".to_owned()]);
    assert!(!roextract::logic::get_list_task_running(&state));
    assert!(!roextract::logic::get_stop_list_running(&state));
    assert_eq!(get_status(&state), "Idling");
}
