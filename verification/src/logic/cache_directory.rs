//! Records of the cache directory: one file per cached asset, under
//! "sounds" for music and "http" for everything else.

use vstd::prelude::*;

use crate::logic::{clone_path, AssetInfo, Category, FileMetadata};

verus! {

/// The subdirectory of the cache that holds a category's files.
pub open spec fn spec_category_subdirectory(category: Category) -> Seq<char> {
    if category == Category::Music {
        "sounds"@
    } else {
        "http"@
    }
}

/// Music is located in /sounds, everything else in /http.
pub fn category_subdirectory(category: Category) -> (r: &'static str)
    ensures
        r@ == spec_category_subdirectory(category),
{
    if category == Category::Music {
        "sounds"
    } else {
        "http"
    }
}

/// The record for a cache-directory file, whatever its metadata gave.
pub open spec fn is_cache_file_record(
    r: AssetInfo,
    file_name: Option<String>,
    path: Seq<char>,
    metadata: Option<FileMetadata>,
    category: Category,
) -> bool {
    &&& r.name@ == match file_name {
        Some(n) => n@,
        None => path,
    }
    &&& r._size == match (file_name, metadata) {
        (Some(_), Some(m)) => m.len,
        _ => 0,
    }
    &&& r.last_modified == match (file_name, metadata) {
        (Some(_), Some(m)) => m.modified,
        _ => None,
    }
    &&& r.from_file && !r.from_sql && !r.from_rbx_storage
    &&& r.category == category
    &&& r.fingerprint is None && r.file_type is None && r.extension is None
    &&& r.detected_at is None
}

/// The record for a cache-directory file: named by its file name (or by
/// its whole path when it has none), with the size and modification time
/// its metadata gave (zero and none when reading the metadata failed).
pub fn create_asset_info_unchecked(
    file_name: Option<String>,
    path: String,
    metadata: Option<FileMetadata>,
    category: Category,
) -> (r: AssetInfo)
    ensures
        is_cache_file_record(r, file_name, path@, metadata, category),
{
    let ghost file_name_ghost = file_name;
    let (name, size, last_modified) = match file_name {
        Some(name) => match metadata {
            Some(m) => (name, m.len, m.modified),
            None => (name, 0, None),
        },
        None => (path, 0, None),
    };
    AssetInfo {
        name,
        _size: size,
        last_modified,
        from_file: true,
        from_sql: false,
        from_rbx_storage: false,
        category,
        fingerprint: None,
        file_type: None,
        extension: None,
        detected_at: None,
    }
}

/// The record for a named asset of the cache directory, or `None` when no
/// such file exists.
pub fn create_asset_info(
    exists: bool,
    file_name: Option<String>,
    path: String,
    metadata: Option<FileMetadata>,
    category: Category,
) -> (r: Option<AssetInfo>)
    ensures
        !exists ==> r is None,
        exists ==> (r matches Some(info) && is_cache_file_record(
            info,
            file_name,
            path@,
            metadata,
            category,
        )),
{
    if exists {
        Some(create_asset_info_unchecked(file_name, path, metadata, category))
    } else {
        None
    }
}

/// Where the cache directory is.
pub struct CacheDirectory {
    pub directory: std::path::PathBuf,
}

/// The cache directory.
pub fn get_cache_directory(cache: &CacheDirectory) -> (r: std::path::PathBuf)
    ensures
        r == cache.directory,
{
    clone_path(&cache.directory)
}

/// Use another cache directory.
pub fn set_cache_directory(cache: &mut CacheDirectory, value: std::path::PathBuf)
    ensures
        final(cache).directory == value,
{
    cache.directory = value;
}

/// A result with its strings taken as character sequences.
pub open spec fn result_view(r: Result<String, String>) -> Result<Seq<char>, Seq<char>> {
    match r {
        Ok(d) => Ok(d@),
        Err(e) => Err(e@),
    }
}

/// The first validated directory, in order of priority; when none is valid,
/// every validation error (after `errors`), joined in order.
pub open spec fn spec_first_valid(results: Seq<Result<String, String>>, errors: Seq<char>) -> Result<
    Seq<char>,
    Seq<char>,
>
    decreases results.len(),
{
    if results.len() == 0 {
        Err(errors)
    } else {
        match results[0] {
            Ok(d) => Ok(d@),
            Err(e) => spec_first_valid(results.drop_first(), errors + e@),
        }
    }
}

/// Pick the cache directory among the validation results of the candidates
/// (the configured directory, then the platform defaults): the first valid
/// one, or all the errors when none is.
pub fn first_valid_directory(results: Vec<Result<String, String>>) -> (r: Result<String, String>)
    ensures
        result_view(r) == spec_first_valid(results@, Seq::empty()),
{
    let mut rest = results;
    let mut errors = String::new();
    while rest.len() > 0
        invariant
            spec_first_valid(rest@, errors@) == spec_first_valid(results@, Seq::empty()),
        decreases rest@.len(),
    {
        let ghost before = rest@;
        let result = rest.remove(0);
        assert(rest@ =~= before.drop_first());
        match result {
            Ok(directory) => {
                return Ok(directory);
            },
            Err(e) => {
                errors.append(e.as_str());
            },
        }
    }
    Err(errors)
}

} // verus!
