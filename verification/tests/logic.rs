use roextract::logic::checkpoints::CheckpointState;
use roextract::logic::{
    bytes_contains, bytes_search, category_folder, clear_file_list, content_fingerprint,
    create_no_files, detect_extension, detect_file_format, determine_category,
    extension_from_header, extract_bytes, filter_file_list, get_file_list,
    get_filtered_file_list, get_headers, is_placeholder_asset, maybe_decompress,
    update_file_list, AssetInfo, Category, LogicState,
};

fn dummy_asset(name: &str) -> AssetInfo {
    AssetInfo {
        name: name.to_owned(),
        _size: 0,
        last_modified: None,
        from_file: true,
        from_sql: false,
        from_rbx_storage: false,
        category: Category::Music,
        fingerprint: None,
        file_type: None,
        extension: None,
        detected_at: None,
    }
}

#[test]
fn test_maybe_decompress_no_zstd() {
    let bytes = vec![1, 2, 3, 4];
    let result = maybe_decompress(bytes.clone());
    assert_eq!(result, bytes);
}

// A snapshot from get_file_list() must stay stable after later writes, and
// filter_file_list must produce the matching subset.
#[test]
fn test_file_list_arc_snapshot_and_filter() {
    let mut state = LogicState::new("Idling".to_owned());
    clear_file_list(&mut state);
    update_file_list(&mut state, dummy_asset("apple"));

    // Take a snapshot, then mutate the live list.
    let snapshot = get_file_list(&state);
    assert_eq!(snapshot.len(), 1);
    update_file_list(&mut state, dummy_asset("banana"));

    // The snapshot is unchanged; the live list reflects the new push.
    assert_eq!(snapshot.len(), 1, "snapshot must not see later writes");
    assert_eq!(snapshot[0].name, "apple");
    let live = get_file_list(&state);
    assert_eq!(live.len(), 2);
    // The snapshot is a separate allocation from the live list.
    assert!(!std::ptr::eq(snapshot.as_ptr(), live.as_ptr()));

    // Filtering matches on the asset name (case-insensitive).
    let checkpoints = CheckpointState::new(Vec::new(), None);
    let view = roextract::logic::checkpoints::filter_for_view(&checkpoints, get_file_list(&state));
    let aliases: Vec<String> = view.iter().map(|a| a.name.clone()).collect();
    filter_file_list(&mut state, &view, &aliases, "APP");
    let filtered = get_filtered_file_list(&state);
    assert_eq!(filtered.len(), 1);
    assert_eq!(filtered[0].name, "apple");

    clear_file_list(&mut state);
    assert_eq!(get_file_list(&state).len(), 0);
}

#[test]
fn test_bytes_search() {
    let haystack = b"hello world";
    assert_eq!(bytes_search(haystack, b"hello"), Some(0));
    assert_eq!(bytes_search(haystack, b"world"), Some(6));
    assert_eq!(bytes_search(haystack, b"rust"), None);
    assert_eq!(bytes_search(haystack, b""), None);
}

#[test]
fn test_bytes_contains() {
    let haystack = b"hello world";
    assert!(bytes_contains(haystack, b"hello"));
    assert!(bytes_contains(haystack, b"world"));
    assert!(!bytes_contains(haystack, b"rust"));
    assert!(!bytes_contains(haystack, b""));
}

#[test]
fn test_determine_category_png() {
    let png_bytes = b"\x89PNG\r\n\x1a\n";
    assert_eq!(determine_category(png_bytes), Category::Images);
}

#[test]
fn test_determine_category_webp() {
    let webp_bytes = b"RIFF....WEBP";
    assert_eq!(determine_category(webp_bytes), Category::Images);
}

#[test]
fn test_determine_category_ktx() {
    let ktx_bytes = b"\xABKTX 11\xBB";
    assert_eq!(determine_category(ktx_bytes), Category::Ktx);
}

#[test]
fn test_determine_category_rbxm() {
    let rbxm_bytes = b"<roblox!";
    assert_eq!(determine_category(rbxm_bytes), Category::Rbxm);
}

#[test]
fn test_determine_category_mp3() {
    // ID3 header requires "binary/" for Category::Sounds
    let mp3_bytes = b"ID3...binary/";
    assert_eq!(determine_category(mp3_bytes), Category::Sounds);
}

#[test]
fn test_determine_category_unknown() {
    let unknown_bytes = b"unknown data";
    assert_eq!(determine_category(unknown_bytes), Category::All);
}

#[test]
fn test_determine_category_jpeg() {
    let jpeg_bytes = b"\xFF\xD8\xFF\xE0\x00\x10JFIF\x00";
    assert_eq!(determine_category(jpeg_bytes), Category::Images);
}

#[test]
fn test_determine_category_gif() {
    let gif_bytes = b"GIF89a";
    assert_eq!(determine_category(gif_bytes), Category::Images);
}

#[test]
fn test_determine_category_dds() {
    let dds_bytes = b"DDS \x7C\x00\x00\x00";
    assert_eq!(determine_category(dds_bytes), Category::Images);
}

#[test]
fn test_get_headers() {
    assert!(get_headers(&Category::Images).contains(&"PNG"));
    assert!(get_headers(&Category::Images).contains(&"WEBP"));
    // Music reuses the audio headers so find_header can resolve its extension.
    assert!(get_headers(&Category::Music).contains(&"OggS"));
    assert!(get_headers(&Category::Music).contains(&"ID3"));
}

#[test]
fn test_get_headers_all_excludes_music_duplicates() {
    // All aggregates every category except All and Music, so the audio
    // headers appear exactly once (from Sounds), not twice.
    let all = get_headers(&Category::All);
    let oggs = all.iter().filter(|&&h| h == "OggS").count();
    let id3 = all.iter().filter(|&&h| h == "ID3").count();
    assert_eq!(oggs, 1);
    assert_eq!(id3, 1);
}

#[test]
fn test_extract_bytes_offset_underflow() {
    // The WEBP offset is 8. If the header is found at an index smaller than
    // the offset, the index must saturate to 0.
    let bytes = b"WEBPdata".to_vec();
    let result = extract_bytes("WEBP", bytes.clone());
    assert_eq!(result, bytes);
}

#[test]
fn test_extract_bytes_png_offset() {
    // PNG has an offset of 1, so extraction starts one byte before "PNG".
    let bytes = b"\x89PNG\r\n".to_vec();
    let result = extract_bytes("PNG", bytes.clone());
    assert_eq!(result, bytes);
}

#[test]
fn test_extract_bytes_no_header_returns_input() {
    let bytes = b"no header here".to_vec();
    let result = extract_bytes("OggS", bytes.clone());
    assert_eq!(result, bytes);
}

#[test]
fn test_detect_extension_known_formats() {
    assert_eq!(detect_extension(b"\x89PNG\r\n\x1a\nrest"), Some("png"));
    assert_eq!(detect_extension(b"RIFF\x00\x00\x00\x00WEBPdata"), Some("webp"));
    assert_eq!(detect_extension(b"RIFF\x00\x00\x00\x00WAVEdata"), Some("wav"));
    assert_eq!(detect_extension(b"OggSrest"), Some("ogg"));
    assert_eq!(detect_extension(b"ID3rest"), Some("mp3"));
    assert_eq!(detect_extension(b"fLaCrest"), Some("flac"));
    assert_eq!(detect_extension(&[0xFF, 0xD8, 0xFF, 0xE0]), Some("jpg"));
    assert_eq!(detect_extension(b"GIF89a"), Some("gif"));
    assert_eq!(detect_extension(b"GIF87a"), Some("gif"));
    assert_eq!(detect_extension(b"\xABKTX 11\xBB"), Some("ktx"));
    assert_eq!(detect_extension(b"<roblox!"), Some("rbxm"));
    assert_eq!(detect_extension(b"DDS rest"), Some("dds"));
    assert_eq!(detect_extension(b"BMfake"), Some("bmp"));
}

#[test]
fn test_detect_extension_unknown() {
    assert_eq!(detect_extension(b"unknown data"), None);
    assert_eq!(detect_extension(b""), None);
    // "RIFF" without a WEBP/WAVE form type is not a known format.
    assert_eq!(detect_extension(b"RIFFothersSSSS"), None);
    assert_eq!(detect_extension(b"RIFF"), None);
}

#[test]
fn test_detect_file_format_new_formats() {
    assert_eq!(detect_file_format(b"\x1A\x45\xDF\xA3data"), Some(("WebM", "webm")));
    assert_eq!(detect_file_format(b"%PDF-1.7"), Some(("PDF", "pdf")));
    assert_eq!(detect_file_format(b"PK\x03\x04rest"), Some(("ZIP", "zip")));
    assert_eq!(detect_file_format(b"PK\x05\x06"), Some(("ZIP", "zip")));
    assert_eq!(detect_file_format(&[0x1F, 0x8B, 0x08, 0x00]), Some(("GZIP", "gz")));
    // ISO-BMFF brands
    let mut mp4 = b"\x00\x00\x00\x20ftypmp42".to_vec();
    mp4.extend_from_slice(b"....mdat");
    assert_eq!(detect_file_format(&mp4).map(|(_, e)| e), Some("mp4"));
    let avif = b"\x00\x00\x00\x20ftypavif".to_vec();
    assert_eq!(detect_file_format(&avif).map(|(_, e)| e), Some("avif"));
    let m4a = b"\x00\x00\x00\x20ftypM4A ".to_vec();
    assert_eq!(detect_file_format(&m4a).map(|(_, e)| e), Some("m4a"));
    // MPEG frame sync without ID3 tag
    assert_eq!(detect_file_format(&[0xFF, 0xFB, 0x90, 0x00]).map(|(_, e)| e), Some("mp3"));
    // Non-BMFF "ftyp" without a known brand stays unknown.
    assert_eq!(detect_file_format(b"\x00\x00\x00\x20ftyp????"), None);
}

#[test]
fn test_content_fingerprint_deterministic() {
    let data = b"some cache bytes";
    assert_eq!(content_fingerprint(data), content_fingerprint(data));
    assert_ne!(content_fingerprint(data), content_fingerprint(b"other bytes"));
    // Empty input must not panic and is stable.
    assert_eq!(content_fingerprint(b""), content_fingerprint(b""));
}

#[test]
fn test_extension_from_header() {
    assert_eq!(extension_from_header("PNG"), Some("png"));
    assert_eq!(extension_from_header("WEBP"), Some("webp"));
    assert_eq!(extension_from_header("OggS"), Some("ogg"));
    assert_eq!(extension_from_header("ID3"), Some("mp3"));
    assert_eq!(extension_from_header("KTX"), Some("ktx"));
    assert_eq!(extension_from_header("<roblox!"), Some("rbxm"));
    assert_eq!(extension_from_header("JFIF"), Some("jpg"));
    assert_eq!(extension_from_header("GIF8"), Some("gif"));
    assert_eq!(extension_from_header("DDS "), Some("dds"));
    assert_eq!(extension_from_header("unknown"), None);
}

#[test]
fn test_category_folder_names() {
    assert_eq!(category_folder(Category::Music), "music");
    assert_eq!(category_folder(Category::Sounds), "sounds");
    assert_eq!(category_folder(Category::Images), "images");
    assert_eq!(category_folder(Category::Ktx), "ktx-files");
    assert_eq!(category_folder(Category::Rbxm), "rbxm-files");
    assert_eq!(category_folder(Category::All), "other");
}

#[test]
fn test_is_placeholder_asset() {
    let placeholder = create_no_files("No files to list.".to_owned());
    assert!(is_placeholder_asset(&placeholder));
    assert!(!is_placeholder_asset(&dummy_asset("asset")));
}
