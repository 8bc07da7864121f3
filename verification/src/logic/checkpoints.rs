//! Cache Checkpoints: snapshots of the cache state used as time boundaries
//! for observing which caches appeared, changed or disappeared afterwards.
//!
//! Checkpoints never delete or modify cache data; they only store the
//! identities and content fingerprints of the caches that existed when the
//! checkpoint was created.

use vstd::prelude::*;

use crate::text;
use crate::logic::{
    clone_string_option, duplicate_list, finish_task, AssetInfo, Category, LogicState, Timestamp,
};

verus! {

broadcast use vstd::seq::group_seq_axioms;

/// One cache record inside a checkpoint snapshot.
#[derive(Clone, Debug, PartialEq)]
pub struct CheckpointEntry {
    /// Stable unique cache identity (source + category + name).
    pub key: String,
    /// Raw cache name within its source.
    pub name: String,
    /// Size of the cached source data in bytes.
    pub size: u64,
    /// Last modification time (unix seconds) when available.
    pub modified_secs: Option<i64>,
    /// Content fingerprint (FNV-1a over the inspected source bytes).
    pub fingerprint: Option<u64>,
    /// Detected file format, e.g. "PNG", "WebP", "MP4" or "unknown".
    pub file_type: Option<String>,
    /// Detected file extension (no dot), e.g. "png".
    pub extension: Option<String>,
}

/// A snapshot of the cache state at a point in time.
#[derive(Clone, Debug, PartialEq)]
pub struct CacheCheckpoint {
    /// Unique identifier.
    pub id: String,
    /// User-visible name, defaults to "Checkpoint N".
    pub name: String,
    /// Creation time (unix seconds).
    pub created_at_secs: i64,
    /// The cache state at creation time.
    pub entries: Vec<CheckpointEntry>,
}

/// Result of comparing a checkpoint snapshot with the current cache state.
#[derive(Clone, Debug)]
pub struct CheckpointDiff {
    /// Caches that exist now but did not exist at checkpoint time.
    pub added: Vec<AssetInfo>,
    /// Caches that exist in both states but differ (size, fingerprint, mtime).
    pub modified: Vec<AssetInfo>,
    /// Caches captured at checkpoint time that no longer exist now.
    pub removed: Vec<CheckpointEntry>,
}

impl Default for CheckpointDiff {
    fn default() -> (r: CheckpointDiff)
        ensures
            r.added@.len() == 0,
            r.modified@.len() == 0,
            r.removed@.len() == 0,
    {
        CheckpointDiff { added: Vec::new(), modified: Vec::new(), removed: Vec::new() }
    }
}

impl CheckpointEntry {
    /// A field-by-field copy of this entry.
    pub fn duplicate(&self) -> (r: CheckpointEntry)
        ensures
            r == *self,
    {
        CheckpointEntry {
            key: self.key.clone(),
            name: self.name.clone(),
            size: self.size,
            modified_secs: self.modified_secs,
            fingerprint: self.fingerprint,
            file_type: clone_string_option(&self.file_type),
            extension: clone_string_option(&self.extension),
        }
    }
}

/// A copy of a list of entries, element for element.
pub fn duplicate_entries(list: &Vec<CheckpointEntry>) -> (r: Vec<CheckpointEntry>)
    ensures
        r@ == list@,
{
    let mut r: Vec<CheckpointEntry> = Vec::new();
    for i in 0..list.len()
        invariant
            r@ == list@.take(i as int),
    {
        r.push(list[i].duplicate());
        assert(r@ =~= list@.take(i + 1));
    }
    assert(list@.take(list.len() as int) =~= list@);
    r
}

impl CacheCheckpoint {
    /// A copy of this checkpoint.
    pub fn duplicate(&self) -> (r: CacheCheckpoint)
        ensures
            r.id == self.id,
            r.name == self.name,
            r.created_at_secs == self.created_at_secs,
            r.entries@ == self.entries@,
    {
        CacheCheckpoint {
            id: self.id.clone(),
            name: self.name.clone(),
            created_at_secs: self.created_at_secs,
            entries: duplicate_entries(&self.entries),
        }
    }
}

// ---------------------------------------------------------------------------
// Keys
// ---------------------------------------------------------------------------

/// The backend a record comes from, as named in its key. The SQL flag wins
/// over the rbx-storage flag; a record with neither is a cache-directory
/// file.
pub open spec fn source_chars(asset: AssetInfo) -> Seq<char> {
    if asset.from_sql {
        seq!['s', 'q', 'l']
    } else if asset.from_rbx_storage {
        seq!['r', 'b', 'x']
    } else {
        seq!['f', 'i', 'l', 'e']
    }
}

/// The display name of a category.
pub open spec fn category_chars(category: Category) -> Seq<char> {
    match category {
        Category::Music => seq!['M', 'u', 's', 'i', 'c'],
        Category::Sounds => seq!['S', 'o', 'u', 'n', 'd', 's'],
        Category::Images => seq!['I', 'm', 'a', 'g', 'e', 's'],
        Category::Ktx => seq!['K', 't', 'x'],
        Category::Rbxm => seq!['R', 'b', 'x', 'm'],
        Category::All => seq!['A', 'l', 'l'],
    }
}

/// Three parts joined by ':'.
pub open spec fn join_key(source: Seq<char>, category: Seq<char>, name: Seq<char>) -> Seq<char> {
    source + seq![':'] + category + seq![':'] + name
}

/// "source:Category:name", the stable identity of a record.
pub open spec fn spec_asset_key(asset: AssetInfo) -> Seq<char> {
    join_key(source_chars(asset), category_chars(asset.category), asset.name@)
}

fn source_name(asset: &AssetInfo) -> (r: &'static str)
    ensures
        r@ == source_chars(*asset),
{
    proof {
        reveal_strlit("sql");
        reveal_strlit("rbx");
        reveal_strlit("file");
        assert("sql"@ == seq!['s', 'q', 'l']);
        assert("rbx"@ == seq!['r', 'b', 'x']);
        assert("file"@ == seq!['f', 'i', 'l', 'e']);
    }
    if asset.from_sql {
        "sql"
    } else if asset.from_rbx_storage {
        "rbx"
    } else {
        "file"
    }
}

/// The display name of a category ("Music", "Sounds", ...).
pub fn category_name(category: Category) -> (r: &'static str)
    ensures
        r@ == category_chars(category),
{
    proof {
        reveal_strlit("Music");
        reveal_strlit("Sounds");
        reveal_strlit("Images");
        reveal_strlit("Ktx");
        reveal_strlit("Rbxm");
        reveal_strlit("All");
        assert("Music"@ == seq!['M', 'u', 's', 'i', 'c']);
        assert("Sounds"@ == seq!['S', 'o', 'u', 'n', 'd', 's']);
        assert("Images"@ == seq!['I', 'm', 'a', 'g', 'e', 's']);
        assert("Ktx"@ == seq!['K', 't', 'x']);
        assert("Rbxm"@ == seq!['R', 'b', 'x', 'm']);
        assert("All"@ == seq!['A', 'l', 'l']);
    }
    match category {
        Category::Music => "Music",
        Category::Sounds => "Sounds",
        Category::Images => "Images",
        Category::Ktx => "Ktx",
        Category::Rbxm => "Rbxm",
        Category::All => "All",
    }
}

/// Stable unique identity of a cache record across refresh runs: the source
/// backend, the category and the name, so changes are never inferred from
/// list positions or display order.
pub fn asset_key(asset: &AssetInfo) -> (r: String)
    ensures
        r@ == spec_asset_key(*asset),
{
    proof {
        reveal_strlit(":");
        assert(":"@ == seq![':']);
    }
    let mut key = String::from_str(source_name(asset));
    key.append(":");
    key.append(category_name(asset.category));
    key.append(":");
    key.append(asset.name.as_str());
    key
}

pub open spec fn colon_free(s: Seq<char>) -> bool {
    forall|i: int| 0 <= i < s.len() ==> s[i] != ':'
}

proof fn lemma_split_at_first_colon(s1: Seq<char>, r1: Seq<char>, s2: Seq<char>, r2: Seq<char>)
    requires
        colon_free(s1),
        colon_free(s2),
        s1 + seq![':'] + r1 == s2 + seq![':'] + r2,
    ensures
        s1 == s2,
        r1 == r2,
{
    let a = s1 + seq![':'] + r1;
    let b = s2 + seq![':'] + r2;
    if s1.len() < s2.len() {
        assert(a[s1.len() as int] == ':');
        assert(b[s1.len() as int] == s2[s1.len() as int]);
    } else if s2.len() < s1.len() {
        assert(b[s2.len() as int] == ':');
        assert(a[s2.len() as int] == s1[s2.len() as int]);
    } else {
        assert(s1 =~= a.take(s1.len() as int));
        assert(s2 =~= b.take(s2.len() as int));
        assert(r1 =~= a.skip(s1.len() + 1int));
        assert(r2 =~= b.skip(s2.len() + 1int));
    }
}

proof fn lemma_join_key_injective(
    s1: Seq<char>,
    c1: Seq<char>,
    n1: Seq<char>,
    s2: Seq<char>,
    c2: Seq<char>,
    n2: Seq<char>,
)
    requires
        colon_free(s1),
        colon_free(s2),
        colon_free(c1),
        colon_free(c2),
        join_key(s1, c1, n1) == join_key(s2, c2, n2),
    ensures
        s1 == s2,
        c1 == c2,
        n1 == n2,
{
    assert(join_key(s1, c1, n1) =~= s1 + seq![':'] + (c1 + seq![':'] + n1));
    assert(join_key(s2, c2, n2) =~= s2 + seq![':'] + (c2 + seq![':'] + n2));
    lemma_split_at_first_colon(s1, c1 + seq![':'] + n1, s2, c2 + seq![':'] + n2);
    lemma_split_at_first_colon(c1, n1, c2, n2);
}

/// Keys are unique: two records have the same key exactly when they come
/// from the same backend, have the same category and the same name.
pub proof fn lemma_asset_key_unique(a: AssetInfo, b: AssetInfo)
    ensures
        spec_asset_key(a) == spec_asset_key(b) <==> (source_chars(a) == source_chars(b)
            && a.category == b.category && a.name@ == b.name@),
{
    if spec_asset_key(a) == spec_asset_key(b) {
        lemma_join_key_injective(
            source_chars(a),
            category_chars(a.category),
            a.name@,
            source_chars(b),
            category_chars(b.category),
            b.name@,
        );
        let ca = category_chars(a.category);
        let cb = category_chars(b.category);
        if a.category != b.category {
            assert(ca.len() != cb.len() || ca[0] != cb[0] || ca[1] != cb[1]);
        }
    }
}

// ---------------------------------------------------------------------------
// Snapshot entries and versions
// ---------------------------------------------------------------------------

/// Unix seconds of a time; times before the epoch count as 0.
pub open spec fn spec_system_time_secs(time: Timestamp) -> i64 {
    if time.secs >= 0 {
        time.secs
    } else {
        0
    }
}

pub open spec fn spec_modified_secs(asset: AssetInfo) -> Option<i64> {
    match asset.last_modified {
        Some(t) => Some(spec_system_time_secs(t)),
        None => None,
    }
}

/// Unix seconds of a time; times before the epoch count as 0.
pub fn system_time_secs(time: Timestamp) -> (r: i64)
    ensures
        r == spec_system_time_secs(time),
{
    if time.secs >= 0 {
        time.secs
    } else {
        0
    }
}

fn modified_secs(asset: &AssetInfo) -> (r: Option<i64>)
    ensures
        r == spec_modified_secs(*asset),
{
    match asset.last_modified {
        Some(t) => Some(system_time_secs(t)),
        None => None,
    }
}

/// The snapshot entry recorded for a record.
pub open spec fn is_entry_of(entry: CheckpointEntry, asset: AssetInfo) -> bool {
    &&& entry.key@ == spec_asset_key(asset)
    &&& entry.name == asset.name
    &&& entry.size == asset._size
    &&& entry.modified_secs == spec_modified_secs(asset)
    &&& entry.fingerprint == asset.fingerprint
    &&& entry.file_type == asset.file_type
    &&& entry.extension == asset.extension
}

/// The snapshot entry for a record.
pub fn checkpoint_entry(asset: &AssetInfo) -> (r: CheckpointEntry)
    ensures
        is_entry_of(r, *asset),
{
    CheckpointEntry {
        key: asset_key(asset),
        name: asset.name.clone(),
        size: asset._size,
        modified_secs: modified_secs(asset),
        fingerprint: asset.fingerprint,
        file_type: clone_string_option(&asset.file_type),
        extension: clone_string_option(&asset.extension),
    }
}

/// The current version of a cache differs from its snapshot record in
/// fingerprint, size or modification second.
pub open spec fn spec_version_changed(entry: CheckpointEntry, asset: AssetInfo) -> bool {
    entry.fingerprint != asset.fingerprint || entry.size != asset._size || entry.modified_secs
        != spec_modified_secs(asset)
}

/// Whether the current version of a cache differs from its snapshot record.
pub fn entry_version_changed(entry: &CheckpointEntry, asset: &AssetInfo) -> (r: bool)
    ensures
        r == spec_version_changed(*entry, *asset),
{
    entry.fingerprint != asset.fingerprint || entry.size != asset._size || entry.modified_secs
        != modified_secs(asset)
}

/// A record's own snapshot entry never reports a change.
pub proof fn lemma_own_entry_unchanged(entry: CheckpointEntry, asset: AssetInfo)
    requires
        is_entry_of(entry, asset),
    ensures
        !spec_version_changed(entry, asset),
{
}

// ---------------------------------------------------------------------------
// Comparing a snapshot with the current state
// ---------------------------------------------------------------------------

/// The position of the last of the first `n` entries with the given key.
/// (Of several entries with one key, the last one counts.)
pub open spec fn lookup_prefix(entries: Seq<CheckpointEntry>, key: Seq<char>, n: int) -> Option<int>
    decreases n,
{
    if n <= 0 {
        None
    } else if entries[n - 1].key@ == key {
        Some(n - 1)
    } else {
        lookup_prefix(entries, key, n - 1)
    }
}

proof fn lemma_lookup_bounds(entries: Seq<CheckpointEntry>, key: Seq<char>, n: int)
    ensures
        lookup_prefix(entries, key, n) matches Some(i) ==> 0 <= i < n && entries[i].key@ == key,
    decreases n,
{
    if n > 0 {
        lemma_lookup_bounds(entries, key, n - 1);
    }
}

/// The snapshot entry recorded under `key`, if any.
pub open spec fn lookup(entries: Seq<CheckpointEntry>, key: Seq<char>) -> Option<CheckpointEntry> {
    match lookup_prefix(entries, key, entries.len() as int) {
        Some(i) => Some(entries[i]),
        None => None,
    }
}

/// Of the first `n` current records, those that did not exist at checkpoint
/// time, in order.
pub open spec fn added_prefix(entries: Seq<CheckpointEntry>, current: Seq<AssetInfo>, n: int) -> Seq<
    AssetInfo,
>
    decreases n,
{
    if n <= 0 {
        Seq::empty()
    } else if lookup(entries, spec_asset_key(current[n - 1])) is None {
        added_prefix(entries, current, n - 1).push(current[n - 1])
    } else {
        added_prefix(entries, current, n - 1)
    }
}

/// Of the first `n` current records, those that existed at checkpoint time
/// but differ from their snapshot, in order.
pub open spec fn modified_prefix(
    entries: Seq<CheckpointEntry>,
    current: Seq<AssetInfo>,
    n: int,
) -> Seq<AssetInfo>
    decreases n,
{
    if n <= 0 {
        Seq::empty()
    } else if lookup(entries, spec_asset_key(current[n - 1])) matches Some(e)
        && spec_version_changed(e, current[n - 1]) {
        modified_prefix(entries, current, n - 1).push(current[n - 1])
    } else {
        modified_prefix(entries, current, n - 1)
    }
}

proof fn lemma_modified_prefix_has(entries: Seq<CheckpointEntry>, current: Seq<AssetInfo>, n: int, j: int)
    requires
        0 <= j < n <= current.len(),
        lookup(entries, spec_asset_key(current[j])) matches Some(e) && spec_version_changed(
            e,
            current[j],
        ),
    ensures
        modified_prefix(entries, current, n).contains(current[j]),
    decreases n,
{
    let prev = modified_prefix(entries, current, n - 1);
    if j == n - 1 {
        assert(prev.push(current[j])[prev.len() as int] == current[j]);
    } else {
        lemma_modified_prefix_has(entries, current, n - 1, j);
        let i = choose|i: int| 0 <= i < prev.len() && prev[i] == current[j];
        assert(prev.push(current[n - 1])[i] == current[j]);
    }
}

/// A current record that has a snapshot entry under its key is listed as
/// modified when its size, its fingerprint or its modification second
/// differs from the entry's (any one of them is enough).
pub proof fn lemma_differing_record_is_modified(
    entries: Seq<CheckpointEntry>,
    current: Seq<AssetInfo>,
    j: int,
)
    requires
        0 <= j < current.len(),
        lookup(entries, spec_asset_key(current[j])) matches Some(e) && (e.size != current[j]._size
            || e.fingerprint != current[j].fingerprint || e.modified_secs != spec_modified_secs(
            current[j],
        )),
    ensures
        modified_prefix(entries, current, current.len() as int).contains(current[j]),
{
    let e = lookup(entries, spec_asset_key(current[j]))->0;
    assert(spec_version_changed(e, current[j]));
    lemma_modified_prefix_has(entries, current, current.len() as int, j);
}

/// In particular, a cache file rewritten after a checkpoint (a new
/// modification second) is listed as modified even when its size and
/// fingerprint are unchanged.
pub proof fn lemma_rewritten_record_is_modified(
    entries: Seq<CheckpointEntry>,
    current: Seq<AssetInfo>,
    j: int,
)
    requires
        0 <= j < current.len(),
        lookup(entries, spec_asset_key(current[j])) matches Some(e) && e.size == current[j]._size
            && e.fingerprint == current[j].fingerprint && e.modified_secs != spec_modified_secs(
            current[j],
        ),
    ensures
        modified_prefix(entries, current, current.len() as int).contains(current[j]),
{
    lemma_differing_record_is_modified(entries, current, j);
}

/// Some current record has the key.
pub open spec fn key_is_current(current: Seq<AssetInfo>, key: Seq<char>) -> bool {
    exists|j: int| 0 <= j < current.len() && #[trigger] spec_asset_key(current[j]) == key
}

/// Of the first `n` snapshot entries, those no current record has the key
/// of, in order.
pub open spec fn removed_prefix(
    entries: Seq<CheckpointEntry>,
    current: Seq<AssetInfo>,
    n: int,
) -> Seq<CheckpointEntry>
    decreases n,
{
    if n <= 0 {
        Seq::empty()
    } else if !key_is_current(current, entries[n - 1].key@) {
        removed_prefix(entries, current, n - 1).push(entries[n - 1])
    } else {
        removed_prefix(entries, current, n - 1)
    }
}

/// `diff` is the comparison of the snapshot `entries` with `current`.
pub open spec fn is_diff(
    diff: CheckpointDiff,
    entries: Seq<CheckpointEntry>,
    current: Seq<AssetInfo>,
) -> bool {
    &&& diff.added@ == added_prefix(entries, current, current.len() as int)
    &&& diff.modified@ == modified_prefix(entries, current, current.len() as int)
    &&& diff.removed@ == removed_prefix(entries, current, entries.len() as int)
}

fn lookup_entry(entries: &Vec<CheckpointEntry>, key: &String) -> (r: Option<usize>)
    ensures
        r matches Some(i) ==> lookup_prefix(entries@, key@, entries@.len() as int) == Some(i as int)
            && i < entries@.len(),
        r is None ==> lookup_prefix(entries@, key@, entries@.len() as int) is None,
{
    proof {
        lemma_lookup_bounds(entries@, key@, entries@.len() as int);
    }
    let mut i: usize = entries.len();
    while i > 0
        invariant
            i <= entries@.len(),
            lookup_prefix(entries@, key@, entries@.len() as int) == lookup_prefix(
                entries@,
                key@,
                i as int,
            ),
        decreases i,
    {
        if entries[i - 1].key == *key {
            return Some(i - 1);
        }
        i = i - 1;
    }
    None
}

fn key_present(keys: &Vec<String>, current: Ghost<Seq<AssetInfo>>, key: &String) -> (r: bool)
    requires
        keys@.len() == current@.len(),
        forall|j: int| 0 <= j < keys@.len() ==> keys@[j]@ == spec_asset_key(current@[j]),
    ensures
        r == key_is_current(current@, key@),
{
    let mut j: usize = 0;
    while j < keys.len()
        invariant
            keys@.len() == current@.len(),
            forall|k: int| 0 <= k < keys@.len() ==> keys@[k]@ == spec_asset_key(current@[k]),
            j <= keys@.len(),
            forall|k: int| 0 <= k < j ==> spec_asset_key(current@[k]) != key@,
        decreases keys@.len() - j,
    {
        if keys[j] == *key {
            assert(spec_asset_key(current@[j as int]) == key@);
            return true;
        }
        j = j + 1;
    }
    false
}

/// Compare a checkpoint snapshot with the current cache state: which current
/// records are new, which changed, and which snapshot entries are gone.
pub fn diff_checkpoint(checkpoint: &CacheCheckpoint, current: &Vec<AssetInfo>) -> (r: CheckpointDiff)
    ensures
        is_diff(r, checkpoint.entries@, current@),
{
    let entries = &checkpoint.entries;
    let mut added: Vec<AssetInfo> = Vec::new();
    let mut modified: Vec<AssetInfo> = Vec::new();
    let mut current_keys: Vec<String> = Vec::new();
    for j in 0..current.len()
        invariant
            current_keys@.len() == j,
            forall|k: int| 0 <= k < j ==> current_keys@[k]@ == spec_asset_key(current@[k]),
            added@ == added_prefix(entries@, current@, j as int),
            modified@ == modified_prefix(entries@, current@, j as int),
    {
        let asset = &current[j];
        let key = asset_key(asset);
        match lookup_entry(entries, &key) {
            None => added.push(asset.duplicate()),
            Some(i) => {
                assert(lookup(entries@, spec_asset_key(current@[j as int])) == Some(
                    entries@[i as int],
                ));
                if entry_version_changed(&entries[i], asset) {
                    modified.push(asset.duplicate());
                }
            },
        }
        current_keys.push(key);
    }
    let mut removed: Vec<CheckpointEntry> = Vec::new();
    for i in 0..entries.len()
        invariant
            current_keys@.len() == current@.len(),
            forall|k: int| 0 <= k < current_keys@.len() ==> current_keys@[k]@ == spec_asset_key(
                current@[k],
            ),
            removed@ == removed_prefix(entries@, current@, i as int),
    {
        if !key_present(&current_keys, Ghost(current@), &entries[i].key) {
            removed.push(entries[i].duplicate());
        }
    }
    CheckpointDiff { added, modified, removed }
}

/// `entries` is a snapshot of `current`: one entry per record, in order.
pub open spec fn is_snapshot_of(entries: Seq<CheckpointEntry>, current: Seq<AssetInfo>) -> bool {
    entries.len() == current.len() && forall|i: int|
        0 <= i < current.len() ==> #[trigger] is_entry_of(entries[i], current[i])
}

/// No two records have the same key.
pub open spec fn distinct_keys(records: Seq<AssetInfo>) -> bool {
    forall|i: int, j: int|
        0 <= i < records.len() && 0 <= j < records.len() && i != j ==> spec_asset_key(
            #[trigger] records[i],
        ) != spec_asset_key(#[trigger] records[j])
}

proof fn lemma_lookup_in_snapshot(
    entries: Seq<CheckpointEntry>,
    current: Seq<AssetInfo>,
    j: int,
    n: int,
)
    requires
        is_snapshot_of(entries, current),
        distinct_keys(current),
        0 <= j < n <= current.len(),
    ensures
        lookup_prefix(entries, spec_asset_key(current[j]), n) == Some(j),
    decreases n,
{
    assert(is_entry_of(entries[n - 1], current[n - 1]));
    if n - 1 != j {
        lemma_lookup_in_snapshot(entries, current, j, n - 1);
    }
}

/// A checkpoint taken of the current state shows no change against that
/// same state: nothing added, modified or removed. (It relies on the
/// records having distinct keys; of two records with one key, only the
/// later one's version is remembered.)
pub proof fn lemma_fresh_checkpoint_shows_no_change(
    entries: Seq<CheckpointEntry>,
    current: Seq<AssetInfo>,
)
    requires
        is_snapshot_of(entries, current),
        distinct_keys(current),
    ensures
        added_prefix(entries, current, current.len() as int).len() == 0,
        modified_prefix(entries, current, current.len() as int).len() == 0,
        removed_prefix(entries, current, entries.len() as int).len() == 0,
{
    lemma_no_change_prefix(entries, current, current.len() as int);
}

proof fn lemma_no_change_prefix(entries: Seq<CheckpointEntry>, current: Seq<AssetInfo>, n: int)
    requires
        is_snapshot_of(entries, current),
        distinct_keys(current),
        0 <= n <= current.len(),
    ensures
        added_prefix(entries, current, n).len() == 0,
        modified_prefix(entries, current, n).len() == 0,
        removed_prefix(entries, current, n).len() == 0,
    decreases n,
{
    if n > 0 {
        lemma_no_change_prefix(entries, current, n - 1);
        let j = n - 1;
        lemma_lookup_in_snapshot(entries, current, j, current.len() as int);
        assert(is_entry_of(entries[j], current[j]));
        lemma_own_entry_unchanged(entries[j], current[j]);
        assert(spec_asset_key(current[j]) == entries[j].key@);
        assert(key_is_current(current, entries[j].key@));
    }
}

/// A new checkpoint of the current state.
pub fn new_checkpoint(id: String, name: String, created_at_secs: i64, current: &Vec<AssetInfo>) -> (r:
    CacheCheckpoint)
    ensures
        r.id == id,
        r.name == name,
        r.created_at_secs == created_at_secs,
        is_snapshot_of(r.entries@, current@),
{
    let mut entries: Vec<CheckpointEntry> = Vec::new();
    for i in 0..current.len()
        invariant
            entries@.len() == i,
            forall|k: int| 0 <= k < i ==> #[trigger] is_entry_of(entries@[k], current@[k]),
    {
        entries.push(checkpoint_entry(&current[i]));
    }
    CacheCheckpoint { id, name, created_at_secs, entries }
}

// ---------------------------------------------------------------------------
// The full cache state
// ---------------------------------------------------------------------------

/// Some record among the first `n` has the key.
pub open spec fn key_among(records: Seq<AssetInfo>, key: Seq<char>) -> bool {
    exists|j: int| 0 <= j < records.len() && #[trigger] spec_asset_key(records[j]) == key
}

/// The `All` listing followed by the first `n` music records whose key it
/// (or an earlier music record) does not already have.
pub open spec fn merge_prefix(all: Seq<AssetInfo>, music: Seq<AssetInfo>, n: int) -> Seq<AssetInfo>
    decreases n,
{
    if n <= 0 {
        all
    } else {
        let before = merge_prefix(all, music, n - 1);
        if key_among(before, spec_asset_key(music[n - 1])) {
            before
        } else {
            before.push(music[n - 1])
        }
    }
}

/// The whole cache as one list: the `All` listing (cache directory, SQL
/// database and rbx-storage) followed by the music records not already in
/// it, so a snapshot covers the whole cache, not only one tab.
pub fn refresh_full_cache(all: Vec<AssetInfo>, music: Vec<AssetInfo>) -> (r: Vec<AssetInfo>)
    ensures
        r@ == merge_prefix(all@, music@, music@.len() as int),
{
    let mut result = all;
    let mut keys: Vec<String> = Vec::new();
    for i in 0..result.len()
        invariant
            keys@.len() == i,
            forall|k: int| 0 <= k < i ==> keys@[k]@ == spec_asset_key(result@[k]),
    {
        let key = asset_key(&result[i]);
        keys.push(key);
    }
    for i in 0..music.len()
        invariant
            keys@.len() == result@.len(),
            forall|k: int| 0 <= k < keys@.len() ==> keys@[k]@ == spec_asset_key(result@[k]),
            result@ == merge_prefix(all@, music@, i as int),
    {
        let asset = &music[i];
        let key = asset_key(asset);
        let present = key_present(&keys, Ghost(result@), &key);
        if !present {
            result.push(asset.duplicate());
            keys.push(key);
        }
    }
    result
}

proof fn lemma_merge_distinct(all: Seq<AssetInfo>, music: Seq<AssetInfo>, n: int)
    requires
        distinct_keys(all),
        0 <= n <= music.len(),
    ensures
        distinct_keys(merge_prefix(all, music, n)),
    decreases n,
{
    if n > 0 {
        lemma_merge_distinct(all, music, n - 1);
        let before = merge_prefix(all, music, n - 1);
        if !key_among(before, spec_asset_key(music[n - 1])) {
            let after = before.push(music[n - 1]);
            assert forall|i: int, j: int|
                0 <= i < after.len() && 0 <= j < after.len() && i != j implies spec_asset_key(
                #[trigger] after[i],
            ) != spec_asset_key(#[trigger] after[j]) by {
                if i == before.len() {
                    assert(after[j] == before[j]);
                } else if j == before.len() {
                    assert(after[i] == before[i]);
                }
            }
        }
    }
}

/// The full cache never lists a record twice: when the `All` listing has
/// distinct keys, so does the merged list.
pub proof fn lemma_full_cache_distinct(all: Seq<AssetInfo>, music: Seq<AssetInfo>)
    requires
        distinct_keys(all),
    ensures
        distinct_keys(merge_prefix(all, music, music.len() as int)),
{
    lemma_merge_distinct(all, music, music.len() as int);
}

// ---------------------------------------------------------------------------
// Stored checkpoints
// ---------------------------------------------------------------------------

/// The stored checkpoints, the one the asset tabs filter by, and the latest
/// full cache state captured for the checkpoint view.
pub struct CheckpointState {
    pub checkpoints: Vec<CacheCheckpoint>,
    /// Id of the checkpoint the asset tabs filter by.
    pub active_checkpoint: Option<String>,
    /// Latest full cache state captured by a checkpoint refresh.
    pub current_cache: Vec<AssetInfo>,
    /// Bumped (wrapping) every time `current_cache` is replaced.
    pub current_generation: u64,
}

impl CheckpointState {
    /// The state loaded at start: the persisted checkpoints and active id.
    pub fn new(checkpoints: Vec<CacheCheckpoint>, active_checkpoint: Option<String>) -> (r:
        CheckpointState)
        ensures
            r.checkpoints == checkpoints,
            r.active_checkpoint == active_checkpoint,
            r.current_cache@.len() == 0,
            r.current_generation == 0,
    {
        CheckpointState {
            checkpoints,
            active_checkpoint,
            current_cache: Vec::new(),
            current_generation: 0,
        }
    }
}

/// The ids of a list of checkpoints.
pub open spec fn ids(checkpoints: Seq<CacheCheckpoint>) -> Seq<Seq<char>> {
    checkpoints.map_values(|cp: CacheCheckpoint| cp.id@)
}

/// The first checkpoint with the id, if any.
pub open spec fn first_with_id(checkpoints: Seq<CacheCheckpoint>, id: Seq<char>, i: int) -> bool {
    &&& 0 <= i < checkpoints.len()
    &&& checkpoints[i].id@ == id
    &&& forall|j: int| 0 <= j < i ==> (#[trigger] checkpoints[j]).id@ != id
}

fn find_checkpoint(checkpoints: &Vec<CacheCheckpoint>, id: &str) -> (r: Option<usize>)
    ensures
        r matches Some(i) ==> first_with_id(checkpoints@, id@, i as int),
        r is None ==> forall|j: int| 0 <= j < checkpoints@.len() ==> (#[trigger] checkpoints@[j]).id@ != id@,
{
    let mut i: usize = 0;
    while i < checkpoints.len()
        invariant
            i <= checkpoints@.len(),
            forall|j: int| 0 <= j < i ==> (#[trigger] checkpoints@[j]).id@ != id@,
        decreases checkpoints@.len() - i,
    {
        if text::equal_str(checkpoints[i].id.as_str(), id) {
            return Some(i);
        }
        i = i + 1;
    }
    None
}

/// The asset list a tab shows: with an active checkpoint that still exists,
/// only the caches that appeared or changed after it (added, then
/// modified); otherwise the list unchanged.
pub open spec fn spec_filter_for_view(
    checkpoints: Seq<CacheCheckpoint>,
    active: Option<String>,
    assets: Seq<AssetInfo>,
) -> Seq<AssetInfo> {
    match active {
        None => assets,
        Some(id) => if exists|i: int| first_with_id(checkpoints, id@, i) {
            let cp = checkpoints[choose|i: int| first_with_id(checkpoints, id@, i)];
            added_prefix(cp.entries@, assets, assets.len() as int) + modified_prefix(
                cp.entries@,
                assets,
                assets.len() as int,
            )
        } else {
            assets
        },
    }
}

pub(crate) proof fn lemma_first_with_id_unique(checkpoints: Seq<CacheCheckpoint>, id: Seq<char>, i: int, j: int)
    requires
        first_with_id(checkpoints, id, i),
        first_with_id(checkpoints, id, j),
    ensures
        i == j,
{
    if i < j {
        assert(checkpoints[i].id@ != id);
    } else if j < i {
        assert(checkpoints[j].id@ != id);
    }
}

/// Filter a tab's asset list to the caches that appeared or changed after
/// the active checkpoint; the list is returned unchanged when no checkpoint
/// is active (or the active checkpoint no longer exists).
pub fn filter_for_view(state: &CheckpointState, assets: Vec<AssetInfo>) -> (r: Vec<AssetInfo>)
    ensures
        r@ == spec_filter_for_view(state.checkpoints@, state.active_checkpoint, assets@),
{
    let active_id = match &state.active_checkpoint {
        Some(id) => id,
        None => return assets,
    };
    match find_checkpoint(&state.checkpoints, active_id.as_str()) {
        None => assets,
        Some(i) => {
            proof {
                let k = choose|k: int| first_with_id(state.checkpoints@, active_id@, k);
                lemma_first_with_id_unique(state.checkpoints@, active_id@, i as int, k);
            }
            let diff = diff_checkpoint(&state.checkpoints[i], &assets);
            let mut result = diff.added;
            let mut modified = diff.modified;
            result.append(&mut modified);
            result
        },
    }
}

/// Copies of the stored checkpoints.
pub fn get_checkpoints(state: &CheckpointState) -> (r: Vec<CacheCheckpoint>)
    ensures
        r@.len() == state.checkpoints@.len(),
        forall|i: int|
            0 <= i < r@.len() ==> (#[trigger] r@[i]).id == state.checkpoints@[i].id && r@[i].name
                == state.checkpoints@[i].name && r@[i].created_at_secs
                == state.checkpoints@[i].created_at_secs && r@[i].entries@
                == state.checkpoints@[i].entries@,
{
    let mut r: Vec<CacheCheckpoint> = Vec::new();
    for i in 0..state.checkpoints.len()
        invariant
            r@.len() == i,
            forall|k: int|
                0 <= k < i ==> (#[trigger] r@[k]).id == state.checkpoints@[k].id && r@[k].name
                    == state.checkpoints@[k].name && r@[k].created_at_secs
                    == state.checkpoints@[k].created_at_secs && r@[k].entries@
                    == state.checkpoints@[k].entries@,
    {
        r.push(state.checkpoints[i].duplicate());
    }
    r
}

/// The id of the checkpoint the asset tabs filter by.
pub fn get_active_checkpoint_id(state: &CheckpointState) -> (r: Option<String>)
    ensures
        r == state.active_checkpoint,
{
    clone_string_option(&state.active_checkpoint)
}

/// Choose the checkpoint the asset tabs filter by (`None` for no filter).
pub fn set_active_checkpoint(state: &mut CheckpointState, id: Option<String>)
    ensures
        final(state).active_checkpoint == id,
        final(state).checkpoints == old(state).checkpoints,
        final(state).current_cache == old(state).current_cache,
        final(state).current_generation == old(state).current_generation,
{
    state.active_checkpoint = id;
}

/// Rename the first checkpoint with the id; reports whether there was one.
pub fn rename_checkpoint(state: &mut CheckpointState, id: &str, name: &str) -> (r: bool)
    ensures
        r == exists|i: int| first_with_id(old(state).checkpoints@, id@, i),
        r ==> exists|i: int|
            #[trigger] first_with_id(old(state).checkpoints@, id@, i) && final(state).checkpoints@
                == old(state).checkpoints@.update(
                i,
                CacheCheckpoint { name: final(state).checkpoints@[i].name, ..old(state).checkpoints@[i] },
            ) && final(state).checkpoints@[i].name@ == name@,
        !r ==> final(state).checkpoints == old(state).checkpoints,
        final(state).active_checkpoint == old(state).active_checkpoint,
        final(state).current_cache == old(state).current_cache,
        final(state).current_generation == old(state).current_generation,
{
    match find_checkpoint(&state.checkpoints, id) {
        None => false,
        Some(i) => {
            let mut checkpoint = state.checkpoints.remove(i);
            checkpoint.name = String::from_str(name);
            state.checkpoints.insert(i, checkpoint);
            assert(state.checkpoints@[i as int].name@ == name@);
            true
        },
    }
}

/// Rename the first checkpoint with the id to what the user typed, without
/// its surrounding white space; an empty name renames nothing. Reports
/// whether a checkpoint was renamed.
pub fn rename_from_input(state: &mut CheckpointState, id: &str, input: &str) -> (r: bool)
    ensures
        r == (text::trimmed(input@).len() > 0 && exists|i: int|
            first_with_id(old(state).checkpoints@, id@, i)),
        r ==> exists|i: int|
            #[trigger] first_with_id(old(state).checkpoints@, id@, i) && final(state).checkpoints@
                == old(state).checkpoints@.update(
                i,
                CacheCheckpoint { name: final(state).checkpoints@[i].name, ..old(state).checkpoints@[i] },
            ) && final(state).checkpoints@[i].name@ == text::trimmed(input@),
        !r ==> final(state).checkpoints == old(state).checkpoints,
        final(state).active_checkpoint == old(state).active_checkpoint,
        final(state).current_cache == old(state).current_cache,
        final(state).current_generation == old(state).current_generation,
{
    let name = text::trim(input);
    if name.is_empty() {
        return false;
    }
    rename_checkpoint(state, id, name)
}

/// The first `n` checkpoints without the id, in order.
pub open spec fn keep_prefix(checkpoints: Seq<CacheCheckpoint>, id: Seq<char>, n: int) -> Seq<
    CacheCheckpoint,
>
    decreases n,
{
    if n <= 0 {
        Seq::empty()
    } else if checkpoints[n - 1].id@ != id {
        keep_prefix(checkpoints, id, n - 1).push(checkpoints[n - 1])
    } else {
        keep_prefix(checkpoints, id, n - 1)
    }
}

/// The active checkpoint is the one with the id.
pub open spec fn is_active(active: Option<String>, id: Seq<char>) -> bool {
    match active {
        Some(a) => a@ == id,
        None => false,
    }
}

/// Delete every checkpoint with the id; reports whether any was deleted.
/// Deleting the active checkpoint also turns the filter off.
pub fn delete_checkpoint(state: &mut CheckpointState, id: &str) -> (r: bool)
    ensures
        final(state).checkpoints@ == keep_prefix(
            old(state).checkpoints@,
            id@,
            old(state).checkpoints@.len() as int,
        ),
        r == (final(state).checkpoints@.len() != old(state).checkpoints@.len()),
        final(state).active_checkpoint == (if r && is_active(old(state).active_checkpoint, id@) {
            None
        } else {
            old(state).active_checkpoint
        }),
        final(state).current_cache == old(state).current_cache,
        final(state).current_generation == old(state).current_generation,
{
    let len_before = state.checkpoints.len();
    let mut kept: Vec<CacheCheckpoint> = Vec::new();
    let mut old_list: Vec<CacheCheckpoint> = Vec::new();
    std::mem::swap(&mut old_list, &mut state.checkpoints);
    let ghost listed = old_list@;
    let total = old_list.len();
    let mut i: usize = 0;
    while old_list.len() > 0
        invariant
            total == listed.len(),
            i + old_list@.len() == listed.len(),
            old_list@ == listed.subrange(i as int, listed.len() as int),
            kept@ == keep_prefix(listed, id@, i as int),
        decreases old_list@.len(),
    {
        let checkpoint = old_list.remove(0);
        assert(checkpoint == listed[i as int]);
        if !text::equal_str(checkpoint.id.as_str(), id) {
            kept.push(checkpoint);
        }
        i = i + 1;
        assert(old_list@ =~= listed.subrange(i as int, listed.len() as int));
    }
    state.checkpoints = kept;
    let changed = state.checkpoints.len() != len_before;
    if changed {
        let clear = match &state.active_checkpoint {
            Some(active) => text::equal_str(active.as_str(), id),
            None => false,
        };
        if clear {
            state.active_checkpoint = None;
        }
    }
    changed
}

proof fn lemma_keep_prefix_without_id(checkpoints: Seq<CacheCheckpoint>, id: Seq<char>, n: int)
    requires
        0 <= n <= checkpoints.len(),
    ensures
        forall|i: int|
            0 <= i < keep_prefix(checkpoints, id, n).len() ==> (#[trigger] keep_prefix(
                checkpoints,
                id,
                n,
            )[i]).id@ != id,
    decreases n,
{
    if n > 0 {
        lemma_keep_prefix_without_id(checkpoints, id, n - 1);
        let before = keep_prefix(checkpoints, id, n - 1);
        let after = keep_prefix(checkpoints, id, n);
        assert forall|i: int| 0 <= i < after.len() implies (#[trigger] after[i]).id@ != id by {
            if i < before.len() {
                assert(after[i] == before[i]);
            }
        }
    }
}

/// After deleting the checkpoints with an id, no stored checkpoint has it.
pub proof fn lemma_deleted_id_gone(checkpoints: Seq<CacheCheckpoint>, id: Seq<char>)
    ensures
        forall|i: int|
            0 <= i < keep_prefix(checkpoints, id, checkpoints.len() as int).len() ==> (
            #[trigger] keep_prefix(checkpoints, id, checkpoints.len() as int)[i]).id@ != id,
{
    lemma_keep_prefix_without_id(checkpoints, id, checkpoints.len() as int);
}

/// Add a new checkpoint and make it the active one.
pub fn add_checkpoint(state: &mut CheckpointState, checkpoint: CacheCheckpoint)
    ensures
        final(state).checkpoints@ == old(state).checkpoints@.push(checkpoint),
        final(state).active_checkpoint == Some(checkpoint.id),
        final(state).current_cache == old(state).current_cache,
        final(state).current_generation == old(state).current_generation,
{
    let id = checkpoint.id.clone();
    state.checkpoints.push(checkpoint);
    state.active_checkpoint = Some(id);
}

/// Creating a checkpoint of the current cache state (with a new id) and
/// making it active hides every record of that state: the tabs show no
/// cache as appeared or changed until the cache changes.
pub proof fn lemma_new_checkpoint_hides_current(
    checkpoints: Seq<CacheCheckpoint>,
    checkpoint: CacheCheckpoint,
    current: Seq<AssetInfo>,
)
    requires
        is_snapshot_of(checkpoint.entries@, current),
        distinct_keys(current),
        forall|j: int| 0 <= j < checkpoints.len() ==> (#[trigger] checkpoints[j]).id@ != checkpoint.id@,
    ensures
        spec_filter_for_view(checkpoints.push(checkpoint), Some(checkpoint.id), current).len() == 0,
{
    let all = checkpoints.push(checkpoint);
    let n = checkpoints.len() as int;
    assert(first_with_id(all, checkpoint.id@, n));
    let k = choose|i: int| first_with_id(all, checkpoint.id@, i);
    lemma_first_with_id_unique(all, checkpoint.id@, n, k);
    lemma_fresh_checkpoint_shows_no_change(checkpoint.entries@, current);
}

/// Replace the full cache state shown by the checkpoint view.
pub fn set_current_cache(state: &mut CheckpointState, assets: Vec<AssetInfo>)
    ensures
        final(state).current_cache == assets,
        final(state).current_generation == old(state).current_generation.wrapping_add(1),
        final(state).checkpoints == old(state).checkpoints,
        final(state).active_checkpoint == old(state).active_checkpoint,
{
    state.current_cache = assets;
    state.current_generation = state.current_generation.wrapping_add(1);
}

/// A copy of the full cache state shown by the checkpoint view.
pub fn get_current_cache(state: &CheckpointState) -> (r: Vec<AssetInfo>)
    ensures
        r@ == state.current_cache@,
{
    duplicate_list(&state.current_cache)
}

/// How many times the full cache state has been replaced (wrapping).
pub fn get_current_generation(state: &CheckpointState) -> (r: u64)
    ensures
        r == state.current_generation,
{
    state.current_generation
}

// ---------------------------------------------------------------------------
// Creating a checkpoint
// ---------------------------------------------------------------------------

/// The id of a checkpoint created `nanos` nanoseconds after the Unix epoch.
pub fn checkpoint_id(nanos: u128) -> (r: String)
    ensures
        r@ == "checkpoint-"@ + text::decimal(nanos as nat),
{
    let mut id = String::from_str("checkpoint-");
    text::append_decimal(&mut id, nanos);
    id
}

/// The default name of the next checkpoint: the localised word `prefix`
/// and its number in the list (one more than the checkpoints stored).
pub fn default_checkpoint_name(state: &CheckpointState, prefix: &str) -> (r: String)
    ensures
        r@ == prefix@ + seq![' '] + text::decimal((state.checkpoints@.len() + 1) as nat),
{
    proof {
        reveal_strlit(" ");
    }
    let mut name = String::from_str(prefix);
    name.append(" ");
    let count = state.checkpoints.len() as u128 + 1;
    text::append_decimal(&mut name, count);
    name
}

/// Claim the task guard for a new checkpoint and show `creating`: refused,
/// with nothing changed, while another task runs.
pub fn begin_checkpoint(logic: &mut LogicState, creating: String) -> (started: bool)
    ensures
        started == !old(logic).task_running,
        !started ==> *final(logic) == *old(logic),
        started ==> final(logic).task_running && final(logic).status == creating
            && final(logic).request_repaint && final(logic).file_list == old(logic).file_list
            && final(logic).filtered_file_list == old(logic).filtered_file_list
            && final(logic).list_task_running == old(logic).list_task_running
            && final(logic).stop_list_running == old(logic).stop_list_running,
{
    if logic.task_running {
        return false;
    }
    logic.task_running = true;
    logic.status = creating;
    logic.request_repaint = true;
    true
}

/// The whole cache `current` has been captured: store it as a new
/// checkpoint `id` named `name` and make it the active one, show `current`
/// in the checkpoint view, release the task guard and show `created`.
pub fn finish_checkpoint(
    checkpoints: &mut CheckpointState,
    logic: &mut LogicState,
    id: String,
    name: String,
    created_at_secs: i64,
    current: Vec<AssetInfo>,
    created: String,
)
    ensures
        final(checkpoints).checkpoints@.len() == old(checkpoints).checkpoints@.len() + 1,
        final(checkpoints).checkpoints@.take(old(checkpoints).checkpoints@.len() as int)
            == old(checkpoints).checkpoints@,
        final(checkpoints).checkpoints@.last().id == id,
        final(checkpoints).checkpoints@.last().name == name,
        final(checkpoints).checkpoints@.last().created_at_secs == created_at_secs,
        is_snapshot_of(final(checkpoints).checkpoints@.last().entries@, current@),
        final(checkpoints).active_checkpoint == Some(id),
        final(checkpoints).current_cache@ == current@,
        final(checkpoints).current_generation == old(checkpoints).current_generation.wrapping_add(1),
        !final(logic).task_running,
        final(logic).status == created,
        final(logic).request_repaint,
        final(logic).file_list == old(logic).file_list,
        final(logic).filtered_file_list == old(logic).filtered_file_list,
        final(logic).list_task_running == old(logic).list_task_running,
        final(logic).stop_list_running == old(logic).stop_list_running,
{
    let checkpoint = new_checkpoint(id, name, created_at_secs, &current);
    add_checkpoint(checkpoints, checkpoint);
    assert(checkpoints.checkpoints@.take(old(checkpoints).checkpoints@.len() as int)
        =~= old(checkpoints).checkpoints@);
    set_current_cache(checkpoints, current);
    finish_task(logic, created);
}

} // verus!
