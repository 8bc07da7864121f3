//! Records of the rbx-storage directory: one file per asset, named by its
//! hash and stored in a subdirectory named by the hash's first two
//! characters.

use vstd::prelude::*;
use vstd::string::StringSliceAdditionalSpecFns;

use crate::logic::{clone_path, AssetInfo, Category, FileMetadata};

verus! {

/// Where the rbx-storage directory is, if there is one.
pub struct RbxStorage {
    pub directory: Option<std::path::PathBuf>,
}

/// The rbx-storage directory, if there is one.
pub fn get_rbx_storage_dir(storage: &RbxStorage) -> (r: Option<std::path::PathBuf>)
    ensures
        r == storage.directory,
{
    match &storage.directory {
        Some(dir) => Some(clone_path(dir)),
        None => None,
    }
}

/// Use another rbx-storage directory (or none).
pub fn set_rbx_storage_dir(storage: &mut RbxStorage, value: Option<std::path::PathBuf>)
    ensures
        final(storage).directory == value,
{
    storage.directory = value;
}

/// The first of the candidate directories that exists.
pub open spec fn first_existing(candidates: Seq<(std::path::PathBuf, bool)>) -> Option<
    std::path::PathBuf,
>
    decreases candidates.len(),
{
    if candidates.len() == 0 {
        None
    } else if candidates[0].1 {
        Some(candidates[0].0)
    } else {
        first_existing(candidates.drop_first())
    }
}

/// The first candidate directory that exists, in order of priority (the
/// configured directory, then the platform defaults); each candidate comes
/// with whether it is an existing directory.
pub fn detect_directory(candidates: Vec<(std::path::PathBuf, bool)>) -> (r: Option<std::path::PathBuf>)
    ensures
        r == first_existing(candidates@),
{
    let mut rest = candidates;
    while rest.len() > 0
        invariant
            first_existing(rest@) == first_existing(candidates@),
        decreases rest@.len(),
    {
        let ghost before = rest@;
        let (dir, is_dir) = rest.remove(0);
        if is_dir {
            return Some(dir);
        }
        assert(rest@ =~= before.drop_first());
    }
    None
}

/// The subdirectory an rbx-storage file is stored in: the first two bytes of
/// its hash, or the whole hash when it is shorter (e.g.
/// "defcd8fbdc641282f02ab5e35c8b059f" is stored under "de").
pub fn asset_subdirectory(hash: &str) -> (r: &str)
    requires
        hash.spec_bytes().len() <= usize::MAX,
        hash.spec_bytes().len() <= 2 || vstd::utf8::is_char_boundary(hash.spec_bytes(), 2),
    ensures
        hash.spec_bytes().len() <= 2 ==> r.spec_bytes() == hash.spec_bytes(),
        hash.spec_bytes().len() > 2 ==> r.spec_bytes() == hash.spec_bytes().take(2),
{
    if hash.len() <= 2 {
        hash
    } else {
        hash.split_at(2).0
    }
}

/// The record for an rbx-storage file named `hash`, with the size and
/// modification time its metadata gave (zero and none when reading it
/// failed).
pub fn create_asset_info(hash: String, metadata: Option<FileMetadata>, category: Category) -> (r:
    AssetInfo)
    ensures
        r.name == hash,
        r._size == match metadata {
            Some(m) => m.len,
            None => 0,
        },
        r.last_modified == match metadata {
            Some(m) => m.modified,
            None => None,
        },
        !r.from_file && !r.from_sql && r.from_rbx_storage,
        r.category == category,
        r.fingerprint is None && r.file_type is None && r.extension is None,
        r.detected_at is None,
{
    let (size, last_modified) = match metadata {
        Some(m) => (m.len, m.modified),
        None => (0, None),
    };
    AssetInfo {
        name: hash,
        _size: size,
        last_modified,
        from_file: false,
        from_sql: false,
        from_rbx_storage: true,
        category,
        fingerprint: None,
        file_type: None,
        extension: None,
        detected_at: None,
    }
}

} // verus!
