//! Records of the SQL database: rows of a `files` table, keyed by a binary
//! id that the listing shows as lower-case hex.

use vstd::prelude::*;
use vstd::string::StringSliceAdditionalSpecFns;

use crate::logic::{
    apply_source_detection, clone_string_option, detected_extension, detected_type, fnv1a, listing_category,
    opt_string_view, spec_listing_category, AssetInfo, Category, Timestamp,
};

verus! {

broadcast use vstd::seq::group_seq_axioms;

/// The lower-case hex digit for a value below 16.
pub open spec fn hex_digit(n: int) -> char {
    seq!['0', '1', '2', '3', '4', '5', '6', '7', '8', '9', 'a', 'b', 'c', 'd', 'e', 'f'][n]
}

/// Lower-case hex: two digits per byte, the high nibble first.
pub open spec fn hex_encoded(bytes: Seq<u8>) -> Seq<char> {
    Seq::new(
        2 * bytes.len(),
        |k: int|
            if k % 2 == 0 {
                hex_digit(bytes[k / 2] as int / 16)
            } else {
                hex_digit(bytes[k / 2] as int % 16)
            },
    )
}

/// Whether a byte is a hex digit in either case.
pub open spec fn is_hex_byte(c: u8) -> bool {
    (0x30 <= c <= 0x39) || (0x41 <= c <= 0x46) || (0x61 <= c <= 0x66)
}

/// The value of a hex digit byte.
pub open spec fn hex_value(c: u8) -> int {
    if 0x41 <= c <= 0x46 {
        c - 0x41 + 10
    } else if 0x61 <= c <= 0x66 {
        c - 0x61 + 10
    } else {
        c - 0x30
    }
}

/// Decoding hex text (as bytes): `None` when its length is odd or a byte
/// is not a hex digit; otherwise one byte per pair of digits, the first
/// digit of each pair being the high nibble.
pub open spec fn hex_decoded(text: Seq<u8>) -> Option<Seq<u8>> {
    if text.len() % 2 != 0 || !(forall|i: int| 0 <= i < text.len() ==> is_hex_byte(
        #[trigger] text[i],
    )) {
        None
    } else {
        Some(
            Seq::new(
                text.len() / 2,
                |i: int| (hex_value(text[2 * i]) * 16 + hex_value(text[2 * i + 1])) as u8,
            ),
        )
    }
}

/// Calls `hex::encode`, which writes each byte as two lower-case hex
/// digits, high nibble first.
#[verifier::external_body]
fn hex_encode(data: &[u8]) -> (r: String)
    ensures
        r@ == hex_encoded(data@),
{
    hex::encode(data)
}

/// Calls `hex::decode` on the bytes of a text, mapping its error to
/// `None`: it fails on an odd length or a byte that is not a hex digit of
/// either case, and otherwise decodes each pair of digits into a byte.
#[verifier::external_body]
fn hex_decode(text: &[u8]) -> (r: Option<Vec<u8>>)
    ensures
        r.deep_view() == hex_decoded(text@),
{
    match hex::decode(text) {
        Ok(bytes) => Some(bytes),
        Err(_) => None,
    }
}

/// The name a row with this id is listed under: its id in lower-case hex.
pub fn asset_name(id: &[u8]) -> (r: String)
    ensures
        r@ == hex_encoded(id@),
{
    hex_encode(id)
}

/// The id of the row an asset name refers to, or `None` when the name is
/// not hex.
pub fn decode_asset_id(name: &str) -> (r: Option<Vec<u8>>)
    ensures
        r.deep_view() == hex_decoded(name.spec_bytes()),
{
    hex_decode(name.as_bytes())
}

/// The time a row's ttl (unix seconds) denotes; `None` beyond what the
/// clock can hold.
pub open spec fn spec_ttl_time(ttl: u64) -> Option<Timestamp> {
    if ttl <= i64::MAX as u64 {
        Some(Timestamp { secs: ttl as i64, nanos: 0 })
    } else {
        None
    }
}

/// The time a row's ttl (unix seconds) denotes.
pub fn ttl_time(ttl: u64) -> (r: Option<Timestamp>)
    ensures
        r == spec_ttl_time(ttl),
{
    if ttl <= 0x7fff_ffff_ffff_ffff {
        Some(Timestamp { secs: ttl as i64, nanos: 0 })
    } else {
        None
    }
}

/// The record for a database row, with no detection applied yet.
pub open spec fn is_row_record(r: AssetInfo, name: Seq<char>, size: u64, ttl: u64, category: Category) -> bool {
    &&& r.name@ == name
    &&& r._size == size
    &&& r.last_modified == spec_ttl_time(ttl)
    &&& !r.from_file && r.from_sql && !r.from_rbx_storage
    &&& r.category == category
}

/// The record for the row `name` refers to, given its size and ttl when the
/// row exists.
pub fn create_asset_info(asset: &str, category: Category, row: Option<(u64, u64)>) -> (r: Option<
    AssetInfo,
>)
    ensures
        row is None ==> r is None,
        row matches Some((size, ttl)) ==> (r matches Some(info) && is_row_record(
            info,
            asset@,
            size,
            ttl,
            category,
        ) && info.fingerprint is None && info.file_type is None && info.extension is None
            && info.detected_at is None),
{
    match row {
        Some((size, ttl)) => Some(
            AssetInfo {
                name: asset.to_owned(),
                _size: size,
                last_modified: ttl_time(ttl),
                from_file: false,
                from_sql: true,
                from_rbx_storage: false,
                category,
                fingerprint: None,
                file_type: None,
                extension: None,
                detected_at: None,
            },
        ),
        None => None,
    }
}

/// The record a listing of `category` makes of a row (id, size, ttl and the
/// first bytes of its content), inspected at `now`; `None` when the row is
/// not listed.
pub fn listed_row(
    id: &[u8],
    size: u64,
    ttl: u64,
    content_prefix: &[u8],
    category: Category,
    now: Timestamp,
) -> (r: Option<AssetInfo>)
    ensures
        spec_listing_category(category, content_prefix@) is None ==> r is None,
        spec_listing_category(category, content_prefix@) matches Some(c) ==> (r matches Some(info)
            && is_row_record(info, hex_encoded(id@), size, ttl, c) && info.fingerprint == Some(
            fnv1a(content_prefix@),
        ) && opt_string_view(info.file_type) == Some(detected_type(content_prefix@))
            && opt_string_view(info.extension) == detected_extension(content_prefix@)
            && info.detected_at == Some(now)),
{
    match listing_category(category, content_prefix) {
        None => None,
        Some(detected) => {
            let mut info = AssetInfo {
                name: asset_name(id),
                _size: size,
                last_modified: ttl_time(ttl),
                from_file: false,
                from_sql: true,
                from_rbx_storage: false,
                category: detected,
                fingerprint: None,
                file_type: None,
                extension: None,
                detected_at: None,
            };
            apply_source_detection(&mut info, content_prefix, now);
            Some(info)
        },
    }
}

/// Hex text is ASCII, so the bytes of a listed name are its characters'
/// codes.
pub proof fn lemma_hex_ascii(id: Seq<u8>)
    ensures
        vstd::utf8::is_ascii_chars(hex_encoded(id)),
{
    let h = hex_encoded(id);
    assert forall|i: int| 0 <= i < h.len() implies '\0' <= #[trigger] h[i] <= '\u{7f}' by {
        let n: int = if i % 2 == 0 {
            id[i / 2] as int / 16
        } else {
            id[i / 2] as int % 16
        };
        assert(0 <= n < 16);
    }
}

/// A row's name leads back to the row: decoding the listed name of an id
/// gives that id.
pub proof fn lemma_asset_name_round_trip(name: &str, id: Seq<u8>)
    requires
        name@ == hex_encoded(id),
    ensures
        hex_decoded(name.spec_bytes()) == Some(id),
{
    lemma_hex_ascii(id);
    vstd::utf8::is_ascii_chars_encode_utf8(name@);
    let t = name.spec_bytes();
    assert(t.len() == 2 * id.len());
    assert forall|k: int| 0 <= k < t.len() implies is_hex_byte(#[trigger] t[k]) && hex_value(t[k])
        == (if k % 2 == 0 {
        id[k / 2] as int / 16
    } else {
        id[k / 2] as int % 16
    }) by {
        assert(t[k] == name@[k] as u8);
    }
    let d = hex_decoded(t)->0;
    assert forall|i: int| 0 <= i < id.len() implies d[i] == id[i] by {
        assert(hex_value(t[2 * i]) == id[i] as int / 16);
        assert(hex_value(t[2 * i + 1]) == id[i] as int % 16);
    }
    assert(d =~= id);
}

// ---------------------------------------------------------------------------
// The connection
// ---------------------------------------------------------------------------

#[verifier::external_type_specification]
#[verifier::external_body]
pub struct ExConnection(rusqlite::Connection);

#[verifier::external_type_specification]
#[verifier::external_body]
pub struct ExSqlError(rusqlite::Error);

/// The connection to the SQL database, when one is open, with the path of
/// its database file as read from the connection when it was stored.
pub struct SqlDatabase {
    pub connection: Option<rusqlite::Connection>,
    pub path: Option<String>,
}

/// A database state is consistent when no path is held without a
/// connection.
pub open spec fn well_formed(db: SqlDatabase) -> bool {
    db.connection is None ==> db.path is None
}

/// Calls `rusqlite::Connection::path`, copying the path out. The path is
/// that of the file the connection was opened on (empty for an in-memory
/// database; `None` when SQLite reports no file name or one that is not
/// UTF-8), which the opaque connection value does not show, so nothing is
/// claimed about it.
#[verifier::external_body]
fn connection_path(conn: &rusqlite::Connection) -> Option<String> {
    conn.path().map(str::to_owned)
}

/// Calls `rusqlite::Connection::close`, which hands the connection itself
/// back with the error when SQLite fails to close it. Whether it fails
/// depends on SQLite, so only that is claimed.
#[verifier::external_body]
fn close_connection(conn: rusqlite::Connection) -> (r: Result<(), (rusqlite::Connection, rusqlite::Error)>)
    ensures
        r matches Err((c, _)) ==> c == conn,
{
    conn.close()
}

fn path_of(connection: &Option<rusqlite::Connection>) -> (r: Option<String>)
    ensures
        connection is None ==> r is None,
{
    match connection {
        Some(conn) => connection_path(conn),
        None => None,
    }
}

impl SqlDatabase {
    /// Hold `connection` (or none), reading the path of its database file.
    pub fn connect(connection: Option<rusqlite::Connection>) -> (r: SqlDatabase)
        ensures
            r.connection == connection,
            well_formed(r),
    {
        let path = path_of(&connection);
        SqlDatabase { connection, path }
    }
}

/// The path of the database file, as read when the connection was stored;
/// `None` when no connection is open.
pub fn get_db_path(db: &SqlDatabase) -> (r: Option<String>)
    ensures
        r == db.path,
        well_formed(*db) && db.connection is None ==> r is None,
{
    clone_string_option(&db.path)
}

/// Disconnect from the database: the connection is closed and no longer
/// held, whether closing succeeded or not. With no connection open there is
/// nothing to close and the result is `Ok`.
pub fn clean_up(db: &mut SqlDatabase) -> (r: Result<(), (rusqlite::Connection, rusqlite::Error)>)
    ensures
        final(db).connection is None,
        final(db).path is None,
        old(db).connection is None ==> r is Ok,
        r matches Err((c, _)) ==> old(db).connection == Some(c),
{
    let result = match db.connection.take() {
        Some(conn) => close_connection(conn),
        None => Ok(()),
    };
    db.connection = None;
    db.path = None;
    result
}

/// Disconnect from the database (see `clean_up`) and use `reopened`, the
/// connection opened anew, from now on.
pub fn reset_database(db: &mut SqlDatabase, reopened: Option<rusqlite::Connection>) -> (r: Result<
    (),
    (rusqlite::Connection, rusqlite::Error),
>)
    ensures
        final(db).connection == reopened,
        well_formed(*final(db)),
        old(db).connection is None ==> r is Ok,
        r matches Err((c, _)) ==> old(db).connection == Some(c),
{
    let result = clean_up(db);
    db.path = path_of(&reopened);
    db.connection = reopened;
    result
}

} // verus!
