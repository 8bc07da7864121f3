//! Asset recognition and the shared listing state.

use vstd::prelude::*;
use vstd::string::StringSliceAdditionalSpecFns;

use crate::text;

pub mod cache_directory;
pub mod checkpoints;
pub mod rbx_storage_directory;
pub mod sql_database;

verus! {

broadcast use {vstd::seq::group_seq_axioms, vstd::slice::group_slice_axioms};

/// The asset categories the cache is browsed by.
#[derive(Clone, Copy, Debug, PartialEq, Eq, Hash, Structural)]
pub enum Category {
    Music,
    Sounds,
    Images,
    Ktx,
    Rbxm,
    All,
}

/// A point in time, as seconds and nanoseconds relative to the Unix epoch
/// (`secs` is negative for times before it; `nanos` is always below one
/// second and counts forward from `secs`).
#[derive(Clone, Copy, Debug, PartialEq, Eq, Structural)]
pub struct Timestamp {
    pub secs: i64,
    pub nanos: u32,
}

/// One cache record as listed to the user.
#[derive(Clone, Debug, PartialEq)]
pub struct AssetInfo {
    pub name: String,
    pub _size: u64,
    pub last_modified: Option<Timestamp>,
    pub from_file: bool,
    pub from_sql: bool,
    pub from_rbx_storage: bool,
    pub category: Category,
    /// Content fingerprint (FNV-1a over the inspected source bytes), used by
    /// Cache Checkpoint change detection. `None` when the source wasn't read.
    pub fingerprint: Option<u64>,
    /// Detected file format name, e.g. "PNG", "WebP", "MP4" or "unknown".
    pub file_type: Option<String>,
    /// Detected file extension (no dot), e.g. "png"; `None` when unknown.
    pub extension: Option<String>,
    /// When the source data was last inspected for detection.
    pub detected_at: Option<Timestamp>,
}

pub fn clone_string_option(o: &Option<String>) -> (r: Option<String>)
    ensures
        r == *o,
{
    match o {
        Some(s) => Some(s.clone()),
        None => None,
    }
}

impl AssetInfo {
    /// A field-by-field copy of this record.
    pub fn duplicate(&self) -> (r: AssetInfo)
        ensures
            r == *self,
    {
        AssetInfo {
            name: self.name.clone(),
            _size: self._size,
            last_modified: self.last_modified,
            from_file: self.from_file,
            from_sql: self.from_sql,
            from_rbx_storage: self.from_rbx_storage,
            category: self.category,
            fingerprint: self.fingerprint,
            file_type: clone_string_option(&self.file_type),
            extension: clone_string_option(&self.extension),
            detected_at: self.detected_at,
        }
    }
}

/// A copy of a whole list of records, element for element.
pub fn duplicate_list(list: &Vec<AssetInfo>) -> (r: Vec<AssetInfo>)
    ensures
        r@ == list@,
{
    let mut r: Vec<AssetInfo> = Vec::new();
    for i in 0..list.len()
        invariant
            r@ == list@.take(i as int),
    {
        r.push(list[i].duplicate());
        assert(r@ =~= list@.take(i + 1));
    }
    assert(list@.take(list.len() as int) =~= list@);
    r
}

// ---------------------------------------------------------------------------
// Byte search
// ---------------------------------------------------------------------------

/// `needle` occurs in `hay` starting at position `i`.
pub open spec fn bytes_match_at(hay: Seq<u8>, needle: Seq<u8>, i: int) -> bool {
    0 <= i && i + needle.len() <= hay.len() && hay.subrange(i, i + needle.len()) == needle
}

/// A non-empty `needle` occurs somewhere in `hay`.
pub open spec fn contains_bytes(hay: Seq<u8>, needle: Seq<u8>) -> bool {
    needle.len() > 0 && exists|i: int| #[trigger] bytes_match_at(hay, needle, i)
}

/// `bytes` begins with `prefix`.
pub open spec fn starts_with_bytes(bytes: Seq<u8>, prefix: Seq<u8>) -> bool {
    prefix.len() <= bytes.len() && bytes.take(prefix.len() as int) == prefix
}

fn bytes_match_at_exec(hay: &[u8], needle: &[u8], i: usize) -> (r: bool)
    ensures
        r == bytes_match_at(hay@, needle@, i as int),
{
    if needle.len() > hay.len() || i > hay.len() - needle.len() {
        return false;
    }
    let mut k: usize = 0;
    while k < needle.len()
        invariant
            k <= needle@.len(),
            i + needle@.len() <= hay@.len(),
            hay@.len() == hay.len(),
            needle@.len() == needle.len(),
            forall|j: int| 0 <= j < k ==> hay@[i + j] == needle@[j],
        decreases needle@.len() - k,
    {
        if hay[i + k] != needle[k] {
            assert(hay@.subrange(i as int, i + needle@.len())[k as int] != needle@[k as int]);
            return false;
        }
        k = k + 1;
    }
    assert(hay@.subrange(i as int, i + needle@.len()) =~= needle@);
    true
}

/// Whether `bytes` begins with `prefix`.
pub fn starts_with(bytes: &[u8], prefix: &[u8]) -> (r: bool)
    ensures
        r == starts_with_bytes(bytes@, prefix@),
{
    let r = bytes_match_at_exec(bytes, prefix, 0);
    proof {
        if prefix@.len() <= bytes@.len() {
            assert(bytes@.take(prefix@.len() as int) =~= bytes@.subrange(0, prefix@.len() as int));
        }
    }
    r
}

/// Whether two byte strings are equal.
pub fn bytes_equal(a: &[u8], b: &[u8]) -> (r: bool)
    ensures
        r == (a@ == b@),
{
    if a.len() != b.len() {
        return false;
    }
    let r = starts_with(a, b);
    assert(a@ =~= a@.take(b@.len() as int));
    r
}

/// Position of the first occurrence of a non-empty `needle` in `haystack`.
pub fn bytes_search(haystack: &[u8], needle: &[u8]) -> (r: Option<usize>)
    ensures
        r is None <==> !contains_bytes(haystack@, needle@),
        r matches Some(i) ==> {
            &&& needle@.len() > 0
            &&& bytes_match_at(haystack@, needle@, i as int)
            &&& forall|j: int| 0 <= j < i ==> !bytes_match_at(haystack@, needle@, j)
        },
{
    let len = needle.len();
    assert(haystack@.len() == haystack.len());
    if len == 0 {
        return None;
    }
    if len > haystack.len() {
        assert forall|i: int| !#[trigger] bytes_match_at(haystack@, needle@, i) by {}
        return None;
    }
    let last = haystack.len() - len;
    let mut i: usize = 0;
    while i < last
        invariant
            len == needle@.len(),
            len > 0,
            last == haystack@.len() - len,
            i <= last,
            forall|j: int| 0 <= j < i ==> !#[trigger] bytes_match_at(haystack@, needle@, j),
        decreases last - i,
    {
        if bytes_match_at_exec(haystack, needle, i) {
            return Some(i);
        }
        i = i + 1;
    }
    if bytes_match_at_exec(haystack, needle, last) {
        return Some(last);
    }
    assert forall|j: int| !#[trigger] bytes_match_at(haystack@, needle@, j) by {
        if 0 <= j <= last && j != last {
            assert(j < i);
        }
    }
    None
}

/// Whether a non-empty `needle` occurs anywhere in `haystack`.
pub fn bytes_contains(haystack: &[u8], needle: &[u8]) -> (r: bool)
    ensures
        r == contains_bytes(haystack@, needle@),
{
    bytes_search(haystack, needle).is_some()
}

// ---------------------------------------------------------------------------
// Category headers
// ---------------------------------------------------------------------------

/// The bytes of an ASCII character sequence.
pub open spec fn ascii(cs: Seq<char>) -> Seq<u8> {
    cs.map_values(|c: char| c as u8)
}

pub open spec fn is_ascii_seq(cs: Seq<char>) -> bool {
    vstd::utf8::is_ascii_chars(cs)
}

/// The character sequences of a list of string slices.
pub open spec fn str_views(v: Seq<&str>) -> Seq<Seq<char>> {
    v.map_values(|s: &str| s@)
}

proof fn lemma_str_views_push(v: Seq<&str>, s: &str)
    ensures
        str_views(v.push(s)) == str_views(v).push(s@),
{
    assert(str_views(v.push(s)) =~= str_views(v).push(s@));
}

/// The UTF-8 bytes of an ASCII string are its characters' codes.
pub proof fn lemma_ascii_bytes(s: &str)
    requires
        is_ascii_seq(s@),
    ensures
        s.spec_bytes() == ascii(s@),
{
    vstd::utf8::is_ascii_chars_encode_utf8(s@);
    assert(s.spec_bytes() =~= ascii(s@));
}

/// The header strings that locate each category's assets in a cache record
/// (as characters).
pub open spec fn header_chars(category: Category) -> Seq<Seq<char>> {
    match category {
        Category::Music => audio_headers(),
        Category::Sounds => audio_headers(),
        Category::Images => image_headers(),
        Category::Ktx => seq![seq!['K', 'T', 'X']],
        Category::Rbxm => seq![seq!['<', 'r', 'o', 'b', 'l', 'o', 'x', '!']],
        Category::All => audio_headers() + image_headers() + seq![seq!['K', 'T', 'X']] + seq![
            seq!['<', 'r', 'o', 'b', 'l', 'o', 'x', '!'],
        ],
    }
}

pub open spec fn audio_headers() -> Seq<Seq<char>> {
    seq![seq!['O', 'g', 'g', 'S'], seq!['I', 'D', '3']]
}

pub open spec fn image_headers() -> Seq<Seq<char>> {
    seq![
        seq!['P', 'N', 'G'],
        seq!['W', 'E', 'B', 'P'],
        seq!['J', 'F', 'I', 'F'],
        seq!['G', 'I', 'F', '8'],
        seq!['D', 'D', 'S', ' '],
    ]
}

/// The header strings of a category, as bytes.
pub open spec fn header_bytes(category: Category, i: int) -> Seq<u8> {
    ascii(header_chars(category)[i])
}

/// The marker that an audio record tagged with "ID3" must also carry.
pub open spec fn binary_marker() -> Seq<u8> {
    ascii(seq!['b', 'i', 'n', 'a', 'r', 'y', '/'])
}

pub open spec fn id3_bytes() -> Seq<u8> {
    ascii(seq!['I', 'D', '3'])
}

fn push_audio_headers(v: &mut Vec<&'static str>)
    ensures
        str_views(final(v)@) == str_views(old(v)@)
            + audio_headers(),
{
    let ghost before = v@;
    proof {
        reveal_strlit("OggS");
        assert("OggS"@ == seq!['O', 'g', 'g', 'S']);
        reveal_strlit("ID3");
        assert("ID3"@ == seq!['I', 'D', '3']);
    }
    v.push("OggS");
    v.push("ID3");
    proof {
        lemma_str_views_push(before, "OggS");
        lemma_str_views_push(before.push("OggS"), "ID3");
        assert(str_views(v@) == str_views(before).push("OggS"@).push("ID3"@));
    }
    assert(str_views(v@) =~= str_views(before)
        + audio_headers());
}

fn push_image_headers(v: &mut Vec<&'static str>)
    ensures
        str_views(final(v)@) == str_views(old(v)@)
            + image_headers(),
{
    let ghost before = v@;
    proof {
        reveal_strlit("PNG");
        assert("PNG"@ == seq!['P', 'N', 'G']);
        reveal_strlit("WEBP");
        assert("WEBP"@ == seq!['W', 'E', 'B', 'P']);
        reveal_strlit("JFIF");
        assert("JFIF"@ == seq!['J', 'F', 'I', 'F']);
        reveal_strlit("GIF8");
        assert("GIF8"@ == seq!['G', 'I', 'F', '8']);
        reveal_strlit("DDS ");
        assert("DDS "@ == seq!['D', 'D', 'S', ' ']);
    }
    v.push("PNG");
    v.push("WEBP");
    v.push("JFIF");
    v.push("GIF8");
    v.push("DDS ");
    proof {
        lemma_str_views_push(before, "PNG");
        lemma_str_views_push(before.push("PNG"), "WEBP");
        lemma_str_views_push(before.push("PNG").push("WEBP"), "JFIF");
        lemma_str_views_push(before.push("PNG").push("WEBP").push("JFIF"), "GIF8");
        lemma_str_views_push(before.push("PNG").push("WEBP").push("JFIF").push("GIF8"), "DDS ");
        assert(str_views(v@) == str_views(before).push("PNG"@).push("WEBP"@).push("JFIF"@).push(
            "GIF8"@,
        ).push("DDS "@));
    }
    assert(str_views(v@) =~= str_views(before)
        + image_headers());
}

fn push_ktx_header(v: &mut Vec<&'static str>)
    ensures
        str_views(final(v)@) == str_views(old(v)@)
            + header_chars(Category::Ktx),
{
    let ghost before = v@;
    proof {
        reveal_strlit("KTX");
        assert("KTX"@ == seq!['K', 'T', 'X']);
    }
    v.push("KTX");
    proof {
        lemma_str_views_push(before, "KTX");
        assert(str_views(v@) == str_views(before).push("KTX"@));
    }
    assert(str_views(v@) =~= str_views(before)
        + header_chars(Category::Ktx));
}

fn push_rbxm_header(v: &mut Vec<&'static str>)
    ensures
        str_views(final(v)@) == str_views(old(v)@)
            + header_chars(Category::Rbxm),
{
    let ghost before = v@;
    proof {
        reveal_strlit("<roblox!");
        assert("<roblox!"@ == seq!['<', 'r', 'o', 'b', 'l', 'o', 'x', '!']);
    }
    v.push("<roblox!");
    proof {
        lemma_str_views_push(before, "<roblox!");
        assert(str_views(v@) == str_views(before).push("<roblox!"@));
    }
    assert(str_views(v@) =~= str_views(before)
        + header_chars(Category::Rbxm));
}

/// The header strings of a category. `Music` shares the audio headers with
/// `Sounds`; `All` aggregates every category except `All` and `Music`, so
/// each header appears in it once.
pub fn get_headers(category: &Category) -> (r: Vec<&'static str>)
    ensures
        str_views(r@) == header_chars(*category),
{
    let mut v: Vec<&'static str> = Vec::new();
    match category {
        Category::Music => push_audio_headers(&mut v),
        Category::Sounds => push_audio_headers(&mut v),
        Category::Images => push_image_headers(&mut v),
        Category::Ktx => push_ktx_header(&mut v),
        Category::Rbxm => push_rbxm_header(&mut v),
        Category::All => {
            push_audio_headers(&mut v);
            push_image_headers(&mut v);
            push_ktx_header(&mut v);
            push_rbxm_header(&mut v);
        },
    }
    assert(str_views(v@) =~= header_chars(*category));
    v
}

/// Every header string is ASCII, so its bytes are its characters' codes.
pub proof fn lemma_headers_ascii(category: Category, i: int)
    requires
        0 <= i < header_chars(category).len(),
    ensures
        is_ascii_seq(header_chars(category)[i]),
{
}


/// `bytes` locate an asset through `header`. A record tagged "ID3" must
/// also carry the HTTP "binary/" marker, since "ID3" alone gives false
/// positives.
pub open spec fn rule_hit(bytes: Seq<u8>, header: Seq<u8>) -> bool {
    contains_bytes(bytes, header) && (header == id3_bytes() ==> contains_bytes(bytes, binary_marker()))
}

/// Some header of `category` locates an asset in `bytes`.
pub open spec fn category_hit(bytes: Seq<u8>, category: Category) -> bool {
    exists|i: int|
        0 <= i < header_chars(category).len() && #[trigger] rule_hit(bytes, header_bytes(category, i))
}

/// The category of unknown bytes: the first of Sounds, Images, Ktx and Rbxm
/// (in that order) one of whose headers locates an asset, and `All` when
/// none does. `Music` is a location-based category and is never the answer.
pub open spec fn spec_determine_category(bytes: Seq<u8>) -> Category {
    if category_hit(bytes, Category::Sounds) {
        Category::Sounds
    } else if category_hit(bytes, Category::Images) {
        Category::Images
    } else if category_hit(bytes, Category::Ktx) {
        Category::Ktx
    } else if category_hit(bytes, Category::Rbxm) {
        Category::Rbxm
    } else {
        Category::All
    }
}

/// The `i`-th header of a category, with the fact that its UTF-8 bytes are
/// `header_bytes(category, i)`.
fn header_at(headers: &Vec<&'static str>, category: Category, i: usize) -> (r: &'static [u8])
    requires
        str_views(headers@) == header_chars(category),
        i < headers@.len(),
    ensures
        r@ == header_bytes(category, i as int),
{
    let h: &'static str = headers[i];
    proof {
        assert(h@ == str_views(headers@)[i as int]);
        lemma_headers_ascii(category, i as int);
        lemma_ascii_bytes(h);
    }
    h.as_bytes()
}

fn id3_literal() -> (r: &'static [u8])
    ensures
        r@ == id3_bytes(),
{
    proof {
        reveal_strlit("ID3");
        assert("ID3"@ == seq!['I', 'D', '3']);
        lemma_ascii_bytes("ID3");
    }
    "ID3".as_bytes()
}

fn binary_literal() -> (r: &'static [u8])
    ensures
        r@ == binary_marker(),
{
    proof {
        reveal_strlit("binary/");
        assert("binary/"@ == seq!['b', 'i', 'n', 'a', 'r', 'y', '/']);
        lemma_ascii_bytes("binary/");
    }
    "binary/".as_bytes()
}

fn category_hit_exec(bytes: &[u8], category: Category) -> (r: bool)
    ensures
        r == category_hit(bytes@, category),
{
    let headers = get_headers(&category);
    let id3 = id3_literal();
    let binary = binary_literal();
    let mut i: usize = 0;
    while i < headers.len()
        invariant
            str_views(headers@) == header_chars(category),
            i <= headers@.len(),
            id3@ == id3_bytes(),
            binary@ == binary_marker(),
            forall|j: int| 0 <= j < i ==> !#[trigger] rule_hit(bytes@, header_bytes(category, j)),
        decreases headers@.len() - i,
    {
        let header = header_at(&headers, category, i);
        let hit = if bytes_equal(header, id3) {
            bytes_contains(bytes, header) && bytes_contains(bytes, binary)
        } else {
            bytes_contains(bytes, header)
        };
        if hit {
            assert(rule_hit(bytes@, header_bytes(category, i as int)));
            return true;
        }
        i = i + 1;
    }
    false
}

/// Classify unknown bytes by the headers they contain (see
/// `spec_determine_category`).
pub fn determine_category(bytes: &[u8]) -> (r: Category)
    ensures
        r == spec_determine_category(bytes@),
        r != Category::Music,
{
    if category_hit_exec(bytes, Category::Sounds) {
        Category::Sounds
    } else if category_hit_exec(bytes, Category::Images) {
        Category::Images
    } else if category_hit_exec(bytes, Category::Ktx) {
        Category::Ktx
    } else if category_hit_exec(bytes, Category::Rbxm) {
        Category::Rbxm
    } else {
        Category::All
    }
}

/// `i` is the first header of `category` that occurs in `bytes`.
pub open spec fn first_header_hit(bytes: Seq<u8>, category: Category, i: int) -> bool {
    &&& 0 <= i < header_chars(category).len()
    &&& contains_bytes(bytes, header_bytes(category, i))
    &&& forall|j: int| 0 <= j < i ==> !contains_bytes(bytes, #[trigger] header_bytes(category, j))
}

/// The first header of the category found in `bytes`, or an error message
/// when none of them occurs.
pub fn find_header(category: Category, bytes: &[u8]) -> (r: Result<String, String>)
    ensures
        r matches Ok(h) ==> exists|i: int|
            first_header_hit(bytes@, category, i) && h@ == #[trigger] header_chars(category)[i],
        r is Err ==> forall|i: int|
            0 <= i < header_chars(category).len() ==> !contains_bytes(
                bytes@,
                #[trigger] header_bytes(category, i),
            ),
        r matches Err(e) ==> e@ == "Headers not found in bytes"@,
{
    let headers = get_headers(&category);
    let mut i: usize = 0;
    while i < headers.len()
        invariant
            str_views(headers@) == header_chars(category),
            i <= headers@.len(),
            forall|j: int| 0 <= j < i ==> !contains_bytes(bytes@, #[trigger] header_bytes(category, j)),
        decreases headers@.len() - i,
    {
        let header = header_at(&headers, category, i);
        if bytes_contains(bytes, header) {
            let h: &str = headers[i];
            assert(h@ == str_views(headers@)[i as int]);
            assert(first_header_hit(bytes@, category, i as int));
            return Ok(h.to_owned());
        }
        i = i + 1;
    }
    Err("Headers not found in bytes".to_owned())
}

/// How far before its locating header a file's signature starts (e.g.
/// "WEBP" sits 8 bytes into the RIFF signature).
pub open spec fn header_offset(header: Seq<u8>) -> int {
    if header == ascii(seq!['P', 'N', 'G']) {
        1
    } else if header == ascii(seq!['K', 'T', 'X']) {
        1
    } else if header == ascii(seq!['W', 'E', 'B', 'P']) {
        8
    } else if header == ascii(seq!['J', 'F', 'I', 'F']) {
        6
    } else {
        0
    }
}

/// `i` is where `needle` first occurs in `hay`.
pub open spec fn first_match_at(hay: Seq<u8>, needle: Seq<u8>, i: int) -> bool {
    bytes_match_at(hay, needle, i) && forall|j: int| 0 <= j < i ==> !bytes_match_at(hay, needle, j)
}

/// The start of the extracted file for a header found at `index`.
pub open spec fn extraction_start(header: Seq<u8>, index: int) -> int {
    if index >= header_offset(header) {
        index - header_offset(header)
    } else {
        0
    }
}

fn literal_bytes(s: &'static str) -> (r: &'static [u8])
    requires
        is_ascii_seq(s@),
    ensures
        r@ == ascii(s@),
{
    proof {
        lemma_ascii_bytes(s);
    }
    s.as_bytes()
}

fn header_offset_exec(header: &[u8]) -> (r: usize)
    ensures
        r as int == header_offset(header@),
{
    proof {
        reveal_strlit("PNG");
        reveal_strlit("KTX");
        reveal_strlit("WEBP");
        reveal_strlit("JFIF");
        assert("PNG"@ == seq!['P', 'N', 'G']);
        assert("KTX"@ == seq!['K', 'T', 'X']);
        assert("WEBP"@ == seq!['W', 'E', 'B', 'P']);
        assert("JFIF"@ == seq!['J', 'F', 'I', 'F']);
    }
    if bytes_equal(header, literal_bytes("PNG")) {
        1
    } else if bytes_equal(header, literal_bytes("KTX")) {
        1
    } else if bytes_equal(header, literal_bytes("WEBP")) {
        8
    } else if bytes_equal(header, literal_bytes("JFIF")) {
        6
    } else {
        0
    }
}

/// `r` is what cutting a file out of `bytes` at the header `header` gives:
/// the record unchanged when the header does not occur, otherwise the
/// record from the start of the signature located by the header's first
/// occurrence.
pub open spec fn extracted_by(header: Seq<u8>, bytes: Seq<u8>, r: Seq<u8>) -> bool {
    &&& !contains_bytes(bytes, header) ==> r == bytes
    &&& contains_bytes(bytes, header) ==> exists|i: int|
        #[trigger] first_match_at(bytes, header, i) && r == bytes.skip(extraction_start(header, i))
}

/// Cut a file out of a cache record: everything from the start of the
/// signature located by `header` to the end. When the header does not occur
/// the record is returned unchanged.
pub fn extract_bytes(header: &str, bytes: Vec<u8>) -> (r: Vec<u8>)
    ensures
        extracted_by(header.spec_bytes(), bytes@, r@),
        !contains_bytes(bytes@, header.spec_bytes()) ==> r@ == bytes@,
        contains_bytes(bytes@, header.spec_bytes()) ==> exists|i: int|
            #[trigger] first_match_at(bytes@, header.spec_bytes(), i) && r@ == bytes@.skip(
                extraction_start(header.spec_bytes(), i),
            ),
{
    let hb = header.as_bytes();
    let offset = header_offset_exec(hb);
    match bytes_search(bytes.as_slice(), hb) {
        Some(index) => {
            let start = index.saturating_sub(offset);
            assert(first_match_at(bytes@, header.spec_bytes(), index as int));
            let tail = vstd::slice::slice_subrange(bytes.as_slice(), start, bytes.len());
            let r = vstd::slice::slice_to_vec(tail);
            assert(r@ =~= bytes@.skip(extraction_start(header.spec_bytes(), index as int)));
            r
        },
        None => bytes,
    }
}

/// The extension for a header string we recognise, e.g. "PNG" -> "png".
pub open spec fn spec_extension_from_header(header: Seq<u8>) -> Option<Seq<char>> {
    if header == ascii(seq!['O', 'g', 'g', 'S']) {
        Some("ogg"@)
    } else if header == ascii(seq!['I', 'D', '3']) {
        Some("mp3"@)
    } else if header == ascii(seq!['P', 'N', 'G']) {
        Some("png"@)
    } else if header == ascii(seq!['W', 'E', 'B', 'P']) {
        Some("webp"@)
    } else if header == ascii(seq!['K', 'T', 'X']) {
        Some("ktx"@)
    } else if header == ascii(seq!['<', 'r', 'o', 'b', 'l', 'o', 'x', '!']) {
        Some("rbxm"@)
    } else if header == ascii(seq!['J', 'F', 'I', 'F']) {
        Some("jpg"@)
    } else if header == ascii(seq!['G', 'I', 'F', '8']) {
        Some("gif"@)
    } else if header == ascii(seq!['D', 'D', 'S', ' ']) {
        Some("dds"@)
    } else {
        None
    }
}

/// The character sequence of an optional string slice.
pub open spec fn opt_str_view(o: Option<&str>) -> Option<Seq<char>> {
    match o {
        Some(s) => Some(s@),
        None => None,
    }
}

/// The extension for a header string we recognise; used as a fallback for
/// formats the magic-byte detection cannot identify.
pub fn extension_from_header(header: &str) -> (r: Option<&'static str>)
    ensures
        opt_str_view(r) == spec_extension_from_header(header.spec_bytes()),
{
    proof {
        reveal_strlit("OggS");
        reveal_strlit("ID3");
        reveal_strlit("PNG");
        reveal_strlit("WEBP");
        reveal_strlit("KTX");
        reveal_strlit("<roblox!");
        reveal_strlit("JFIF");
        reveal_strlit("GIF8");
        reveal_strlit("DDS ");
        assert("OggS"@ == seq!['O', 'g', 'g', 'S']);
        assert("ID3"@ == seq!['I', 'D', '3']);
        assert("PNG"@ == seq!['P', 'N', 'G']);
        assert("WEBP"@ == seq!['W', 'E', 'B', 'P']);
        assert("KTX"@ == seq!['K', 'T', 'X']);
        assert("<roblox!"@ == seq!['<', 'r', 'o', 'b', 'l', 'o', 'x', '!']);
        assert("JFIF"@ == seq!['J', 'F', 'I', 'F']);
        assert("GIF8"@ == seq!['G', 'I', 'F', '8']);
        assert("DDS "@ == seq!['D', 'D', 'S', ' ']);
    }
    let h = header.as_bytes();
    if bytes_equal(h, literal_bytes("OggS")) {
        Some("ogg")
    } else if bytes_equal(h, literal_bytes("ID3")) {
        Some("mp3")
    } else if bytes_equal(h, literal_bytes("PNG")) {
        Some("png")
    } else if bytes_equal(h, literal_bytes("WEBP")) {
        Some("webp")
    } else if bytes_equal(h, literal_bytes("KTX")) {
        Some("ktx")
    } else if bytes_equal(
        h,
        literal_bytes("<roblox!"),
    ) {
        Some("rbxm")
    } else if bytes_equal(h, literal_bytes("JFIF")) {
        Some("jpg")
    } else if bytes_equal(h, literal_bytes("GIF8")) {
        Some("gif")
    } else if bytes_equal(h, literal_bytes("DDS ")) {
        Some("dds")
    } else {
        None
    }
}

/// The folder that groups extracted assets of a category.
pub open spec fn spec_category_folder(category: Category) -> Seq<char> {
    match category {
        Category::Music => "music"@,
        Category::Sounds => "sounds"@,
        Category::Images => "images"@,
        Category::Ktx => "ktx-files"@,
        Category::Rbxm => "rbxm-files"@,
        Category::All => "other"@,
    }
}

/// Folder name used to group extracted assets by their category.
pub fn category_folder(category: Category) -> (r: &'static str)
    ensures
        r@ == spec_category_folder(category),
{
    match category {
        Category::Music => "music",
        Category::Sounds => "sounds",
        Category::Images => "images",
        Category::Ktx => "ktx-files",
        Category::Rbxm => "rbxm-files",
        Category::All => "other",
    }
}

/// The "No files to list." placeholder has every `from_*` flag cleared.
pub fn is_placeholder_asset(asset: &AssetInfo) -> (r: bool)
    ensures
        r == (!asset.from_file && !asset.from_sql && !asset.from_rbx_storage),
{
    !asset.from_file && !asset.from_sql && !asset.from_rbx_storage
}

/// The placeholder record shown when a listing found nothing; `message` is
/// its (localised) name.
pub fn create_no_files(message: String) -> (r: AssetInfo)
    ensures
        r.name == message,
        r._size == 0,
        r.last_modified is None,
        !r.from_file && !r.from_sql && !r.from_rbx_storage,
        r.category == Category::All,
        r.fingerprint is None,
        r.file_type is None,
        r.extension is None,
        r.detected_at is None,
{
    AssetInfo {
        name: message,
        _size: 0,
        last_modified: None,
        from_file: false,
        from_sql: false,
        from_rbx_storage: false,
        category: Category::All,
        fingerprint: None,
        file_type: None,
        extension: None,
        detected_at: None,
    }
}

// ---------------------------------------------------------------------------
// Content fingerprint
// ---------------------------------------------------------------------------

pub open spec fn fnv_offset_basis() -> u64 {
    0xcbf2_9ce4_8422_2325
}

pub open spec fn fnv_prime() -> u64 {
    0x0000_0100_0000_01b3
}

/// One FNV-1a step: xor in the byte, then multiply modulo 2^64.
pub open spec fn fnv_step(hash: u64, byte: u8) -> u64 {
    (((hash ^ (byte as u64)) as nat * fnv_prime() as nat) % 0x1_0000_0000_0000_0000) as u64
}

/// 64-bit FNV-1a over a byte sequence.
pub open spec fn fnv1a(bytes: Seq<u8>) -> u64
    decreases bytes.len(),
{
    if bytes.len() == 0 {
        fnv_offset_basis()
    } else {
        fnv_step(fnv1a(bytes.drop_last()), bytes.last())
    }
}

/// Stable FNV-1a hash of the inspected source bytes; a content fingerprint
/// that stays comparable across runs.
pub fn content_fingerprint(bytes: &[u8]) -> (r: u64)
    ensures
        r == fnv1a(bytes@),
{
    let mut hash: u64 = 0xcbf2_9ce4_8422_2325;
    let mut i: usize = 0;
    while i < bytes.len()
        invariant
            i <= bytes@.len(),
            hash == fnv1a(bytes@.take(i as int)),
        decreases bytes@.len() - i,
    {
        let byte = bytes[i];
        hash = hash ^ (byte as u64);
        hash = hash.wrapping_mul(0x0000_0100_0000_01b3);
        assert(bytes@.take(i + 1).drop_last() =~= bytes@.take(i as int));
        i = i + 1;
    }
    assert(bytes@.take(bytes@.len() as int) =~= bytes@);
    hash
}


// ---------------------------------------------------------------------------
// Format detection
// ---------------------------------------------------------------------------

pub open spec fn format(file_type: &str, extension: &str) -> Option<(Seq<char>, Seq<char>)> {
    Some((file_type@, extension@))
}

/// The brand of an ISO base media ("ftyp") file: bytes 8..12.
pub open spec fn iso_brand(b: Seq<u8>) -> Seq<u8> {
    b.subrange(8, 12)
}

/// The format named by an ISO base media brand.
pub open spec fn spec_iso_format(brand: Seq<u8>) -> Option<(Seq<char>, Seq<char>)> {
    if brand == ascii(seq!['a', 'v', 'i', 'f']) || brand == ascii(seq!['a', 'v', 'i', 's']) {
        format("AVIF", "avif")
    } else if brand == ascii(seq!['M', '4', 'A', ' ']) || brand == ascii(seq!['M', '4', 'B', ' ']) {
        format("MP4", "m4a")
    } else if brand == ascii(seq!['w', 'e', 'b', 'm']) {
        format("WebM", "webm")
    } else if brand == ascii(seq!['m', 'p', '4']) || brand == ascii(seq!['i', 's', 'o', 'm'])
        || brand == ascii(seq!['i', 's', 'o', '2']) || brand == ascii(seq!['m', 'p', '4', '1'])
        || brand == ascii(seq!['m', 'p', '4', '2']) || brand == ascii(seq!['m', 'm', 'p', '4'])
        || brand == ascii(seq!['M', '4', 'V', ' ']) {
        format("MP4", "mp4")
    } else {
        None
    }
}

/// The real format of a file from the magic bytes at its start, as
/// `(file_type, extension)`; `None` when the format cannot be determined.
/// The rules are tried in order and the first that applies decides.
pub open spec fn spec_detect_file_format(b: Seq<u8>) -> Option<(Seq<char>, Seq<char>)> {
    if starts_with_bytes(b, seq![0x89u8, 0x50, 0x4E, 0x47, 0x0D, 0x0A, 0x1A, 0x0A]) {
        format("PNG", "png")
    } else if starts_with_bytes(b, ascii(seq!['O', 'g', 'g', 'S'])) {
        format("Ogg", "ogg")
    } else if starts_with_bytes(b, ascii(seq!['I', 'D', '3'])) {
        format("MP3", "mp3")
    } else if starts_with_bytes(b, ascii(seq!['f', 'L', 'a', 'C'])) {
        format("FLAC", "flac")
    } else if starts_with_bytes(b, seq![0xFFu8, 0xD8, 0xFF]) {
        format("JPEG", "jpg")
    } else if starts_with_bytes(b, ascii(seq!['G', 'I', 'F', '8', '7', 'a'])) || starts_with_bytes(
        b,
        ascii(seq!['G', 'I', 'F', '8', '9', 'a']),
    ) {
        format("GIF", "gif")
    } else if starts_with_bytes(b, ascii(seq!['R', 'I', 'F', 'F'])) && b.len() >= 12 {
        if b.subrange(8, 12) == ascii(seq!['W', 'E', 'B', 'P']) {
            format("WebP", "webp")
        } else if b.subrange(8, 12) == ascii(seq!['W', 'A', 'V', 'E']) {
            format("WAV", "wav")
        } else {
            None
        }
    } else if starts_with_bytes(b, seq![0xABu8, 0x4B, 0x54, 0x58, 0x20, 0x31, 0x31, 0xBB])
        || starts_with_bytes(b, ascii(seq!['K', 'T', 'X'])) {
        format("KTX", "ktx")
    } else if starts_with_bytes(b, ascii(seq!['<', 'r', 'o', 'b', 'l', 'o', 'x', '!'])) {
        format("RBXM", "rbxm")
    } else if starts_with_bytes(b, ascii(seq!['D', 'D', 'S', ' '])) {
        format("DDS", "dds")
    } else if starts_with_bytes(b, ascii(seq!['B', 'M'])) {
        format("BMP", "bmp")
    } else if starts_with_bytes(b, ascii(seq!['%', 'P', 'D', 'F', '-'])) {
        format("PDF", "pdf")
    } else if starts_with_bytes(b, seq![0x50u8, 0x4B, 0x03, 0x04]) || starts_with_bytes(
        b,
        seq![0x50u8, 0x4B, 0x05, 0x06],
    ) {
        format("ZIP", "zip")
    } else if starts_with_bytes(b, seq![0x1Fu8, 0x8B]) {
        format("GZIP", "gz")
    } else if starts_with_bytes(b, seq![0x1Au8, 0x45, 0xDF, 0xA3]) {
        format("WebM", "webm")
    } else if b.len() >= 12 && b.subrange(4, 8) == ascii(seq!['f', 't', 'y', 'p']) {
        spec_iso_format(iso_brand(b))
    } else if b.len() >= 2 && b[0] == 0xFF && (b[1] & 0xE0) == 0xE0 {
        // MPEG audio frame sync (MP3 without an ID3 tag).
        format("MP3", "mp3")
    } else {
        None
    }
}

/// The pair of character sequences of an optional pair of string slices.
pub open spec fn opt_pair_view(o: Option<(&str, &str)>) -> Option<(Seq<char>, Seq<char>)> {
    match o {
        Some((t, e)) => Some((t@, e@)),
        None => None,
    }
}

fn iso_format(brand: &[u8]) -> (r: Option<(&'static str, &'static str)>)
    ensures
        opt_pair_view(r) == spec_iso_format(brand@),
{
    let avif: [u8; 4] = [0x61, 0x76, 0x69, 0x66];
    let avis: [u8; 4] = [0x61, 0x76, 0x69, 0x73];
    let m4a: [u8; 4] = [0x4D, 0x34, 0x41, 0x20];
    let m4b: [u8; 4] = [0x4D, 0x34, 0x42, 0x20];
    let webm: [u8; 4] = [0x77, 0x65, 0x62, 0x6D];
    let mp4: [u8; 3] = [0x6D, 0x70, 0x34];
    let isom: [u8; 4] = [0x69, 0x73, 0x6F, 0x6D];
    let iso2: [u8; 4] = [0x69, 0x73, 0x6F, 0x32];
    let mp41: [u8; 4] = [0x6D, 0x70, 0x34, 0x31];
    let mp42: [u8; 4] = [0x6D, 0x70, 0x34, 0x32];
    let mmp4: [u8; 4] = [0x6D, 0x6D, 0x70, 0x34];
    let m4v: [u8; 4] = [0x4D, 0x34, 0x56, 0x20];
    assert(avif@ =~= ascii(seq!['a', 'v', 'i', 'f']));
    assert(avis@ =~= ascii(seq!['a', 'v', 'i', 's']));
    assert(m4a@ =~= ascii(seq!['M', '4', 'A', ' ']));
    assert(m4b@ =~= ascii(seq!['M', '4', 'B', ' ']));
    assert(webm@ =~= ascii(seq!['w', 'e', 'b', 'm']));
    assert(mp4@ =~= ascii(seq!['m', 'p', '4']));
    assert(isom@ =~= ascii(seq!['i', 's', 'o', 'm']));
    assert(iso2@ =~= ascii(seq!['i', 's', 'o', '2']));
    assert(mp41@ =~= ascii(seq!['m', 'p', '4', '1']));
    assert(mp42@ =~= ascii(seq!['m', 'p', '4', '2']));
    assert(mmp4@ =~= ascii(seq!['m', 'm', 'p', '4']));
    assert(m4v@ =~= ascii(seq!['M', '4', 'V', ' ']));
    if bytes_equal(brand, avif.as_slice()) || bytes_equal(brand, avis.as_slice()) {
        Some(("AVIF", "avif"))
    } else if bytes_equal(brand, m4a.as_slice()) || bytes_equal(brand, m4b.as_slice()) {
        Some(("MP4", "m4a"))
    } else if bytes_equal(brand, webm.as_slice()) {
        Some(("WebM", "webm"))
    } else if bytes_equal(brand, mp4.as_slice()) || bytes_equal(brand, isom.as_slice())
        || bytes_equal(brand, iso2.as_slice()) || bytes_equal(brand, mp41.as_slice())
        || bytes_equal(brand, mp42.as_slice()) || bytes_equal(brand, mmp4.as_slice())
        || bytes_equal(brand, m4v.as_slice()) {
        Some(("MP4", "mp4"))
    } else {
        None
    }
}

/// Identify the real format of a file from its magic bytes (file signature).
///
/// Returns `(file_type, extension)` where `file_type` is a human-readable
/// format name and `extension` is the extension without a dot; `None` when
/// the format cannot be determined.
pub fn detect_file_format(bytes: &[u8]) -> (r: Option<(&'static str, &'static str)>)
    ensures
        opt_pair_view(r) == spec_detect_file_format(bytes@),
{
    let png: [u8; 8] = [0x89, 0x50, 0x4E, 0x47, 0x0D, 0x0A, 0x1A, 0x0A];
    let oggs: [u8; 4] = [0x4F, 0x67, 0x67, 0x53];
    let id3: [u8; 3] = [0x49, 0x44, 0x33];
    let flac: [u8; 4] = [0x66, 0x4C, 0x61, 0x43];
    let jpeg: [u8; 3] = [0xFF, 0xD8, 0xFF];
    let gif87: [u8; 6] = [0x47, 0x49, 0x46, 0x38, 0x37, 0x61];
    let gif89: [u8; 6] = [0x47, 0x49, 0x46, 0x38, 0x39, 0x61];
    let riff: [u8; 4] = [0x52, 0x49, 0x46, 0x46];
    let webp: [u8; 4] = [0x57, 0x45, 0x42, 0x50];
    let wave: [u8; 4] = [0x57, 0x41, 0x56, 0x45];
    let ktx11: [u8; 8] = [0xAB, 0x4B, 0x54, 0x58, 0x20, 0x31, 0x31, 0xBB];
    let ktx: [u8; 3] = [0x4B, 0x54, 0x58];
    let rbxm: [u8; 8] = [0x3C, 0x72, 0x6F, 0x62, 0x6C, 0x6F, 0x78, 0x21];
    let dds: [u8; 4] = [0x44, 0x44, 0x53, 0x20];
    let bmp: [u8; 2] = [0x42, 0x4D];
    let pdf: [u8; 5] = [0x25, 0x50, 0x44, 0x46, 0x2D];
    let zip: [u8; 4] = [0x50, 0x4B, 0x03, 0x04];
    let zip_empty: [u8; 4] = [0x50, 0x4B, 0x05, 0x06];
    let gzip: [u8; 2] = [0x1F, 0x8B];
    let ebml: [u8; 4] = [0x1A, 0x45, 0xDF, 0xA3];
    let ftyp: [u8; 4] = [0x66, 0x74, 0x79, 0x70];
    assert(png@ =~= seq![0x89u8, 0x50, 0x4E, 0x47, 0x0D, 0x0A, 0x1A, 0x0A]);
    assert(oggs@ =~= ascii(seq!['O', 'g', 'g', 'S']));
    assert(id3@ =~= ascii(seq!['I', 'D', '3']));
    assert(flac@ =~= ascii(seq!['f', 'L', 'a', 'C']));
    assert(jpeg@ =~= seq![0xFFu8, 0xD8, 0xFF]);
    assert(gif87@ =~= ascii(seq!['G', 'I', 'F', '8', '7', 'a']));
    assert(gif89@ =~= ascii(seq!['G', 'I', 'F', '8', '9', 'a']));
    assert(riff@ =~= ascii(seq!['R', 'I', 'F', 'F']));
    assert(webp@ =~= ascii(seq!['W', 'E', 'B', 'P']));
    assert(wave@ =~= ascii(seq!['W', 'A', 'V', 'E']));
    assert(ktx11@ =~= seq![0xABu8, 0x4B, 0x54, 0x58, 0x20, 0x31, 0x31, 0xBB]);
    assert(ktx@ =~= ascii(seq!['K', 'T', 'X']));
    assert(rbxm@ =~= ascii(seq!['<', 'r', 'o', 'b', 'l', 'o', 'x', '!']));
    assert(dds@ =~= ascii(seq!['D', 'D', 'S', ' ']));
    assert(bmp@ =~= ascii(seq!['B', 'M']));
    assert(pdf@ =~= ascii(seq!['%', 'P', 'D', 'F', '-']));
    assert(zip@ =~= seq![0x50u8, 0x4B, 0x03, 0x04]);
    assert(zip_empty@ =~= seq![0x50u8, 0x4B, 0x05, 0x06]);
    assert(gzip@ =~= seq![0x1Fu8, 0x8B]);
    assert(ebml@ =~= seq![0x1Au8, 0x45, 0xDF, 0xA3]);
    assert(ftyp@ =~= ascii(seq!['f', 't', 'y', 'p']));
    let len = bytes.len();
    if starts_with(bytes, png.as_slice()) {
        Some(("PNG", "png"))
    } else if starts_with(bytes, oggs.as_slice()) {
        Some(("Ogg", "ogg"))
    } else if starts_with(bytes, id3.as_slice()) {
        Some(("MP3", "mp3"))
    } else if starts_with(bytes, flac.as_slice()) {
        Some(("FLAC", "flac"))
    } else if starts_with(bytes, jpeg.as_slice()) {
        Some(("JPEG", "jpg"))
    } else if starts_with(bytes, gif87.as_slice()) || starts_with(bytes, gif89.as_slice()) {
        Some(("GIF", "gif"))
    } else if starts_with(bytes, riff.as_slice()) && len >= 12 {
        let form = vstd::slice::slice_subrange(bytes, 8, 12);
        if bytes_equal(form, webp.as_slice()) {
            Some(("WebP", "webp"))
        } else if bytes_equal(form, wave.as_slice()) {
            Some(("WAV", "wav"))
        } else {
            None
        }
    } else if starts_with(bytes, ktx11.as_slice()) || starts_with(bytes, ktx.as_slice()) {
        Some(("KTX", "ktx"))
    } else if starts_with(bytes, rbxm.as_slice()) {
        Some(("RBXM", "rbxm"))
    } else if starts_with(bytes, dds.as_slice()) {
        Some(("DDS", "dds"))
    } else if starts_with(bytes, bmp.as_slice()) {
        Some(("BMP", "bmp"))
    } else if starts_with(bytes, pdf.as_slice()) {
        Some(("PDF", "pdf"))
    } else if starts_with(bytes, zip.as_slice()) || starts_with(bytes, zip_empty.as_slice()) {
        Some(("ZIP", "zip"))
    } else if starts_with(bytes, gzip.as_slice()) {
        Some(("GZIP", "gz"))
    } else if starts_with(bytes, ebml.as_slice()) {
        Some(("WebM", "webm"))
    } else if len >= 12 && bytes_equal(vstd::slice::slice_subrange(bytes, 4, 8), ftyp.as_slice()) {
        // ISO Base Media: MP4 / M4A / AVIF / WebM containers.
        iso_format(vstd::slice::slice_subrange(bytes, 8, 12))
    } else if len >= 2 && bytes[0] == 0xFF && (bytes[1] & 0xE0) == 0xE0 {
        // MPEG audio frame sync (MP3 without an ID3 tag). Coarse rule, only
        // reached after every more specific signature above failed.
        Some(("MP3", "mp3"))
    } else {
        None
    }
}

proof fn lemma_first_byte_differs(b: Seq<u8>, p: Seq<u8>)
    requires
        b.len() > 0,
        p.len() > 0,
        b[0] != p[0],
    ensures
        !starts_with_bytes(b, p),
{
    if starts_with_bytes(b, p) {
        assert(b.take(p.len() as int)[0] == b[0]);
    }
}

/// ISO base media files are told apart by their brand. Data whose first
/// byte is 0 (the top byte of a box size, which no other signature starts
/// with) and that has "ftyp" at bytes 4..8 is an MP4 video for the brands
/// isom, iso2, mp41, mp42, mmp4 and "M4V ", AVIF for avif and avis, MP4
/// audio (m4a) for "M4A " and "M4B ", WebM for webm, and unknown otherwise.
pub proof fn lemma_iso_brands(b: Seq<u8>)
    requires
        b.len() >= 12,
        b[0] == 0,
        b.subrange(4, 8) == seq![0x66u8, 0x74, 0x79, 0x70],
    ensures
        ({
            let brand = b.subrange(8, 12);
            &&& (brand == seq![0x69u8, 0x73, 0x6f, 0x6d] || brand == seq![0x69u8, 0x73, 0x6f, 0x32]
                || brand == seq![0x6du8, 0x70, 0x34, 0x31] || brand == seq![0x6du8, 0x70, 0x34, 0x32]
                || brand == seq![0x6du8, 0x6d, 0x70, 0x34] || brand == seq![0x4du8, 0x34, 0x56, 0x20])
                ==> spec_detect_file_format(b) == Some(("MP4"@, "mp4"@))
            &&& (brand == seq![0x61u8, 0x76, 0x69, 0x66] || brand == seq![0x61u8, 0x76, 0x69, 0x73])
                ==> spec_detect_file_format(b) == Some(("AVIF"@, "avif"@))
            &&& (brand == seq![0x4du8, 0x34, 0x41, 0x20] || brand == seq![0x4du8, 0x34, 0x42, 0x20])
                ==> spec_detect_file_format(b) == Some(("MP4"@, "m4a"@))
            &&& brand == seq![0x77u8, 0x65, 0x62, 0x6d] ==> spec_detect_file_format(b) == Some(
                ("WebM"@, "webm"@),
            )
            &&& !(brand == seq![0x69u8, 0x73, 0x6f, 0x6d] || brand == seq![0x69u8, 0x73, 0x6f, 0x32]
                || brand == seq![0x6du8, 0x70, 0x34, 0x31] || brand == seq![0x6du8, 0x70, 0x34, 0x32]
                || brand == seq![0x6du8, 0x6d, 0x70, 0x34] || brand == seq![0x4du8, 0x34, 0x56, 0x20]
                || brand == seq![0x61u8, 0x76, 0x69, 0x66] || brand == seq![0x61u8, 0x76, 0x69, 0x73]
                || brand == seq![0x4du8, 0x34, 0x41, 0x20] || brand == seq![0x4du8, 0x34, 0x42, 0x20]
                || brand == seq![0x77u8, 0x65, 0x62, 0x6d]) ==> spec_detect_file_format(b) is None
        }),
{
    lemma_first_byte_differs(b, seq![0x89u8, 0x50, 0x4E, 0x47, 0x0D, 0x0A, 0x1A, 0x0A]);
    lemma_first_byte_differs(b, ascii(seq!['O', 'g', 'g', 'S']));
    lemma_first_byte_differs(b, ascii(seq!['I', 'D', '3']));
    lemma_first_byte_differs(b, ascii(seq!['f', 'L', 'a', 'C']));
    lemma_first_byte_differs(b, seq![0xFFu8, 0xD8, 0xFF]);
    lemma_first_byte_differs(b, ascii(seq!['G', 'I', 'F', '8', '7', 'a']));
    lemma_first_byte_differs(b, ascii(seq!['G', 'I', 'F', '8', '9', 'a']));
    lemma_first_byte_differs(b, ascii(seq!['R', 'I', 'F', 'F']));
    lemma_first_byte_differs(b, seq![0xABu8, 0x4B, 0x54, 0x58, 0x20, 0x31, 0x31, 0xBB]);
    lemma_first_byte_differs(b, ascii(seq!['K', 'T', 'X']));
    lemma_first_byte_differs(b, ascii(seq!['<', 'r', 'o', 'b', 'l', 'o', 'x', '!']));
    lemma_first_byte_differs(b, ascii(seq!['D', 'D', 'S', ' ']));
    lemma_first_byte_differs(b, ascii(seq!['B', 'M']));
    lemma_first_byte_differs(b, ascii(seq!['%', 'P', 'D', 'F', '-']));
    lemma_first_byte_differs(b, seq![0x50u8, 0x4B, 0x03, 0x04]);
    lemma_first_byte_differs(b, seq![0x50u8, 0x4B, 0x05, 0x06]);
    lemma_first_byte_differs(b, seq![0x1Fu8, 0x8B]);
    lemma_first_byte_differs(b, seq![0x1Au8, 0x45, 0xDF, 0xA3]);
    assert(ascii(seq!['f', 't', 'y', 'p']) =~= seq![0x66u8, 0x74, 0x79, 0x70]);
    assert(ascii(seq!['a', 'v', 'i', 'f']) =~= seq![0x61u8, 0x76, 0x69, 0x66]);
    assert(ascii(seq!['a', 'v', 'i', 's']) =~= seq![0x61u8, 0x76, 0x69, 0x73]);
    assert(ascii(seq!['M', '4', 'A', ' ']) =~= seq![0x4du8, 0x34, 0x41, 0x20]);
    assert(ascii(seq!['M', '4', 'B', ' ']) =~= seq![0x4du8, 0x34, 0x42, 0x20]);
    assert(ascii(seq!['w', 'e', 'b', 'm']) =~= seq![0x77u8, 0x65, 0x62, 0x6d]);
    assert(ascii(seq!['m', 'p', '4']) =~= seq![0x6du8, 0x70, 0x34]);
    assert(ascii(seq!['i', 's', 'o', 'm']) =~= seq![0x69u8, 0x73, 0x6f, 0x6d]);
    assert(ascii(seq!['i', 's', 'o', '2']) =~= seq![0x69u8, 0x73, 0x6f, 0x32]);
    assert(ascii(seq!['m', 'p', '4', '1']) =~= seq![0x6du8, 0x70, 0x34, 0x31]);
    assert(ascii(seq!['m', 'p', '4', '2']) =~= seq![0x6du8, 0x70, 0x34, 0x32]);
    assert(ascii(seq!['m', 'm', 'p', '4']) =~= seq![0x6du8, 0x6d, 0x70, 0x34]);
    assert(ascii(seq!['M', '4', 'V', ' ']) =~= seq![0x4du8, 0x34, 0x56, 0x20]);
    let brand = b.subrange(8, 12);
    assert(brand.len() == 4);
    assert(brand != seq![0x6du8, 0x70, 0x34]);
}

/// The extension of a detected format, without the dot.
pub open spec fn spec_detect_extension(b: Seq<u8>) -> Option<Seq<char>> {
    match spec_detect_file_format(b) {
        Some((_, e)) => Some(e),
        None => None,
    }
}

/// Detect a file extension from the magic bytes at the start of `bytes`.
pub fn detect_extension(bytes: &[u8]) -> (r: Option<&'static str>)
    ensures
        opt_str_view(r) == spec_detect_extension(bytes@),
{
    match detect_file_format(bytes) {
        Some((_, extension)) => Some(extension),
        None => None,
    }
}

proof fn lemma_starts_with_take(b: Seq<u8>, n: int, p: Seq<u8>)
    requires
        0 <= p.len() <= n <= b.len(),
    ensures
        starts_with_bytes(b.take(n), p) == starts_with_bytes(b, p),
{
    assert(b.take(n).take(p.len() as int) =~= b.take(p.len() as int));
}

/// The format is decided by the first twelve bytes: detecting on any prefix
/// of at least twelve bytes gives the same answer as detecting on the whole
/// data. (Listings inspect only the first bytes of a record.)
pub proof fn lemma_detection_decided_by_prefix(b: Seq<u8>, n: int)
    requires
        12 <= n <= b.len(),
    ensures
        spec_detect_file_format(b.take(n)) == spec_detect_file_format(b),
{
    let t = b.take(n);
    lemma_starts_with_take(b, n, seq![0x89u8, 0x50, 0x4E, 0x47, 0x0D, 0x0A, 0x1A, 0x0A]);
    lemma_starts_with_take(b, n, ascii(seq!['O', 'g', 'g', 'S']));
    lemma_starts_with_take(b, n, ascii(seq!['I', 'D', '3']));
    lemma_starts_with_take(b, n, ascii(seq!['f', 'L', 'a', 'C']));
    lemma_starts_with_take(b, n, seq![0xFFu8, 0xD8, 0xFF]);
    lemma_starts_with_take(b, n, ascii(seq!['G', 'I', 'F', '8', '7', 'a']));
    lemma_starts_with_take(b, n, ascii(seq!['G', 'I', 'F', '8', '9', 'a']));
    lemma_starts_with_take(b, n, ascii(seq!['R', 'I', 'F', 'F']));
    lemma_starts_with_take(b, n, seq![0xABu8, 0x4B, 0x54, 0x58, 0x20, 0x31, 0x31, 0xBB]);
    lemma_starts_with_take(b, n, ascii(seq!['K', 'T', 'X']));
    lemma_starts_with_take(b, n, ascii(seq!['<', 'r', 'o', 'b', 'l', 'o', 'x', '!']));
    lemma_starts_with_take(b, n, ascii(seq!['D', 'D', 'S', ' ']));
    lemma_starts_with_take(b, n, ascii(seq!['B', 'M']));
    lemma_starts_with_take(b, n, ascii(seq!['%', 'P', 'D', 'F', '-']));
    lemma_starts_with_take(b, n, seq![0x50u8, 0x4B, 0x03, 0x04]);
    lemma_starts_with_take(b, n, seq![0x50u8, 0x4B, 0x05, 0x06]);
    lemma_starts_with_take(b, n, seq![0x1Fu8, 0x8B]);
    lemma_starts_with_take(b, n, seq![0x1Au8, 0x45, 0xDF, 0xA3]);
    assert(t.subrange(8, 12) =~= b.subrange(8, 12));
    assert(t.subrange(4, 8) =~= b.subrange(4, 8));
    assert(t[0] == b[0] && t[1] == b[1]);
}

// ---------------------------------------------------------------------------
// Decompression
// ---------------------------------------------------------------------------

/// The zstd frame magic number 0xFD2FB528, as it appears in the data
/// (little-endian).
pub open spec fn zstd_magic() -> Seq<u8> {
    seq![0x28u8, 0xB5, 0x2F, 0xFD]
}

/// What zstd decompression makes of some bytes: the decompressed data, or
/// `None` when they are not valid zstd frames.
pub uninterp spec fn zstd_decoded(input: Seq<u8>) -> Option<Seq<u8>>;

/// Calls `zstd::decode_all` on the bytes, mapping its error to `None`.
/// The contract names the outcome and claims only that it depends on the
/// input bytes alone.
#[verifier::external_body]
fn zstd_decode_all(bytes: &[u8]) -> (r: Option<Vec<u8>>)
    ensures
        r.deep_view() == zstd_decoded(bytes@),
{
    match zstd::decode_all(bytes) {
        Ok(decompressed) => Some(decompressed),
        Err(_) => None,
    }
}

/// The data to use once a decompression attempt has been made: the
/// decompressed bytes when it succeeded, the raw bytes otherwise.
pub fn decompressed_or_raw(bytes: Vec<u8>, decoded: Option<Vec<u8>>) -> (r: Vec<u8>)
    ensures
        r@ == match decoded.deep_view() {
            Some(d) => d,
            None => bytes@,
        },
{
    match decoded {
        Some(decompressed) => decompressed,
        None => bytes,
    }
}

/// `maybe_decompress` on given bytes.
pub open spec fn spec_maybe_decompress(bytes: Seq<u8>) -> Seq<u8> {
    if starts_with_bytes(bytes, zstd_magic()) {
        match zstd_decoded(bytes) {
            Some(d) => d,
            None => bytes,
        }
    } else {
        bytes
    }
}

/// If `bytes` starts with the zstd magic number, decompress and return the
/// decompressed data (or the raw bytes when that fails). Otherwise return
/// `bytes` unchanged.
pub fn maybe_decompress(bytes: Vec<u8>) -> (r: Vec<u8>)
    ensures
        r@ == spec_maybe_decompress(bytes@),
{
    let magic: [u8; 4] = [0x28, 0xB5, 0x2F, 0xFD];
    assert(magic@ =~= zstd_magic());
    if starts_with(bytes.as_slice(), magic.as_slice()) {
        let decoded = zstd_decode_all(bytes.as_slice());
        decompressed_or_raw(bytes, decoded)
    } else {
        bytes
    }
}

// ---------------------------------------------------------------------------
// Source detection and extraction
// ---------------------------------------------------------------------------

/// The character sequence of an optional string.
pub open spec fn opt_string_view(o: Option<String>) -> Option<Seq<char>> {
    match o {
        Some(s) => Some(s@),
        None => None,
    }
}

/// The detected file type and extension recorded for inspected bytes:
/// unknown formats are marked "unknown" and get no extension.
pub open spec fn detected_type(bytes: Seq<u8>) -> Seq<char> {
    match spec_detect_file_format(bytes) {
        Some((t, _)) => t,
        None => "unknown"@,
    }
}

pub open spec fn detected_extension(bytes: Seq<u8>) -> Option<Seq<char>> {
    spec_detect_extension(bytes)
}

/// Inspect the source bytes of a cache record and store the detected
/// format, extension, content fingerprint and the detection time `now` on
/// it. Nothing else about the record changes.
pub fn apply_source_detection(asset: &mut AssetInfo, bytes: &[u8], now: Timestamp)
    ensures
        final(asset).fingerprint == Some(fnv1a(bytes@)),
        opt_string_view(final(asset).file_type) == Some(detected_type(bytes@)),
        opt_string_view(final(asset).extension) == detected_extension(bytes@),
        final(asset).detected_at == Some(now),
        final(asset).name == old(asset).name,
        final(asset)._size == old(asset)._size,
        final(asset).last_modified == old(asset).last_modified,
        final(asset).from_file == old(asset).from_file,
        final(asset).from_sql == old(asset).from_sql,
        final(asset).from_rbx_storage == old(asset).from_rbx_storage,
        final(asset).category == old(asset).category,
{
    asset.fingerprint = Some(content_fingerprint(bytes));
    match detect_file_format(bytes) {
        Some((file_type, extension)) => {
            asset.file_type = Some(file_type.to_owned());
            asset.extension = Some(extension.to_owned());
        },
        None => {
            asset.file_type = Some("unknown".to_owned());
            asset.extension = None;
        },
    }
    asset.detected_at = Some(now);
}

/// An alias with the detected extension appended, unless the extension is
/// empty or the alias already ends (case-insensitively) with it.
pub open spec fn spec_alias_with_extension(alias: Seq<char>, extension: Option<Seq<char>>) -> Seq<
    char,
> {
    match extension {
        Some(e) => if e.len() > 0 && !text::chars_end_with(
            text::lowercase(alias),
            seq!['.'] + e,
        ) {
            alias + seq!['.'] + e
        } else {
            alias
        },
        None => alias,
    }
}

/// The alias (or raw name) of an asset with its detected extension
/// appended, e.g. "abc123" detected as PNG -> "abc123.png". Never duplicates
/// the extension if the alias already contains it. `alias` is the display
/// name configured for the asset.
pub fn alias_with_extension(asset: &AssetInfo, alias: String) -> (r: String)
    ensures
        r@ == spec_alias_with_extension(alias@, opt_string_view(asset.extension)),
{
    proof {
        reveal_strlit(".");
        assert("."@ == seq!['.']);
    }
    match &asset.extension {
        Some(extension) => {
            let dotted = text::concat2(".", extension.as_str());
            let lower = text::to_lowercase(alias.as_str());
            if !extension.as_str().is_empty() && !text::ends_with_str(lower.as_str(), dotted.as_str()) {
                let mut r = alias;
                r.append(dotted.as_str());
                assert(r@ =~= alias@ + seq!['.'] + extension@);
                r
            } else {
                alias
            }
        },
        None => alias,
    }
}

proof fn lemma_first_match_unique(hay: Seq<u8>, needle: Seq<u8>, i: int, j: int)
    requires
        first_match_at(hay, needle, i),
        first_match_at(hay, needle, j),
    ensures
        i == j,
{
    if i < j {
        assert(!bytes_match_at(hay, needle, i));
    } else if j < i {
        assert(!bytes_match_at(hay, needle, j));
    }
}

proof fn lemma_first_header_unique(bytes: Seq<u8>, category: Category, i: int, j: int)
    requires
        first_header_hit(bytes, category, i),
        first_header_hit(bytes, category, j),
    ensures
        i == j,
{
    if i < j {
        assert(!contains_bytes(bytes, header_bytes(category, i)));
    } else if j < i {
        assert(!contains_bytes(bytes, header_bytes(category, j)));
    }
}

/// The index of the first header of `category` found in `bytes`.
pub open spec fn spec_find_header(bytes: Seq<u8>, category: Category) -> Option<int> {
    if exists|i: int| first_header_hit(bytes, category, i) {
        Some(choose|i: int| first_header_hit(bytes, category, i))
    } else {
        None
    }
}

/// `extract_bytes` on given bytes.
pub open spec fn spec_extract_bytes(header: Seq<u8>, bytes: Seq<u8>) -> Seq<u8> {
    if header.len() > 0 && exists|i: int| first_match_at(bytes, header, i) {
        bytes.skip(extraction_start(header, choose|i: int| first_match_at(bytes, header, i)))
    } else {
        bytes
    }
}

/// The bytes written out for a cache record of `category`: the file cut out
/// at the first of the category's headers that occurs, or the whole record
/// when none does.
pub open spec fn spec_extracted(category: Category, bytes: Seq<u8>) -> Seq<u8> {
    match spec_find_header(bytes, category) {
        Some(i) => spec_extract_bytes(header_bytes(category, i), bytes),
        None => bytes,
    }
}

/// The extension for an extracted record: from the magic bytes of the
/// extracted data, else from the header that located it, else the one
/// detected when the record was listed, else "bin".
pub open spec fn spec_extraction_extension(
    category: Category,
    bytes: Seq<u8>,
    listed_extension: Option<Seq<char>>,
) -> Seq<char> {
    match spec_detect_extension(spec_extracted(category, bytes)) {
        Some(e) => e,
        None => match (match spec_find_header(bytes, category) {
            Some(i) => spec_extension_from_header(header_bytes(category, i)),
            None => None,
        }) {
            Some(e) => e,
            None => match listed_extension {
                Some(e) => e,
                None => "bin"@,
            },
        },
    }
}

/// Extraction never invents bytes: what is written for a record is a
/// suffix of the record read (the whole record when no header occurs).
pub proof fn lemma_extracted_is_suffix(category: Category, bytes: Seq<u8>)
    ensures
        exists|k: int| 0 <= k <= bytes.len() && spec_extracted(category, bytes) == bytes.skip(k),
{
    match spec_find_header(bytes, category) {
        Some(i) => {
            let h = header_bytes(category, i);
            if h.len() > 0 && exists|j: int| first_match_at(bytes, h, j) {
                let j = choose|j: int| first_match_at(bytes, h, j);
                let k = extraction_start(h, j);
                assert(0 <= k <= bytes.len());
                assert(spec_extracted(category, bytes) == bytes.skip(k));
            } else {
                assert(bytes.skip(0) =~= bytes);
            }
        },
        None => {
            assert(bytes.skip(0) =~= bytes);
        },
    }
}

/// The bytes "RIFF".
pub open spec fn riff_bytes() -> Seq<u8> {
    seq![0x52u8, 0x49, 0x46, 0x46]
}

/// The bytes "WEBP".
pub open spec fn webp_bytes() -> Seq<u8> {
    seq![0x57u8, 0x45, 0x42, 0x50]
}

/// A WebP image in a record: `h` then "RIFF", a four-byte size `n`, "WEBP"
/// and the rest `t`.
pub open spec fn webp_record(h: Seq<u8>, n: Seq<u8>, t: Seq<u8>) -> Seq<u8> {
    h + riff_bytes() + n + webp_bytes() + t
}

proof fn lemma_webp_first_match(h: Seq<u8>, n: Seq<u8>, t: Seq<u8>)
    requires
        n.len() == 4,
        forall|j: int| 0 <= j < h.len() + 8 ==> !bytes_match_at(webp_record(h, n, t), webp_bytes(), j),
    ensures
        first_match_at(webp_record(h, n, t), webp_bytes(), h.len() as int + 8),
        contains_bytes(webp_record(h, n, t), webp_bytes()),
        webp_record(h, n, t).skip(h.len() as int) == riff_bytes() + n + webp_bytes() + t,
{
    let b = webp_record(h, n, t);
    let i = h.len() as int + 8;
    assert(b.subrange(i, i + 4) =~= webp_bytes());
    assert(bytes_match_at(b, webp_bytes(), i));
    assert(b.skip(h.len() as int) =~= riff_bytes() + n + webp_bytes() + t);
}

/// "WEBP" sits 8 bytes into a WebP file's RIFF header, so cutting a WebP
/// image out of a record by its "WEBP" header starts at the RIFF
/// signature: for a record h + "RIFF" + n + "WEBP" + t (n four bytes, and
/// "WEBP" not occurring earlier), the file extracted is "RIFF" + n +
/// "WEBP" + t.
pub proof fn lemma_webp_cut_at_riff(h: Seq<u8>, n: Seq<u8>, t: Seq<u8>, r: Seq<u8>)
    requires
        n.len() == 4,
        forall|j: int| 0 <= j < h.len() + 8 ==> !bytes_match_at(webp_record(h, n, t), webp_bytes(), j),
        extracted_by(webp_bytes(), webp_record(h, n, t), r),
    ensures
        r == riff_bytes() + n + webp_bytes() + t,
{
    let b = webp_record(h, n, t);
    lemma_webp_first_match(h, n, t);
    lemma_webp_offset();
    let k = choose|k: int|
        #[trigger] first_match_at(b, webp_bytes(), k) && r == b.skip(extraction_start(webp_bytes(), k));
    lemma_first_match_unique(b, webp_bytes(), k, h.len() as int + 8);
    assert(extraction_start(webp_bytes(), k) == h.len());
}

proof fn lemma_webp_offset()
    ensures
        header_offset(webp_bytes()) == 8,
{
    assert(ascii(seq!['W', 'E', 'B', 'P']) =~= webp_bytes());
    assert(ascii(seq!['P', 'N', 'G']).len() == 3);
    assert(ascii(seq!['K', 'T', 'X']).len() == 3);
}

/// The same for an image record extracted as such (`extract_to_file`,
/// `extract_asset_to_bytes`): when the record holds no "PNG" (the image
/// header tried first), the file written is the WebP from its RIFF
/// signature on.
pub proof fn lemma_webp_image_extracted_from_riff(h: Seq<u8>, n: Seq<u8>, t: Seq<u8>)
    requires
        n.len() == 4,
        forall|j: int| 0 <= j < h.len() + 8 ==> !bytes_match_at(webp_record(h, n, t), webp_bytes(), j),
        !contains_bytes(webp_record(h, n, t), ascii(seq!['P', 'N', 'G'])),
    ensures
        spec_extracted(Category::Images, webp_record(h, n, t)) == riff_bytes() + n + webp_bytes() + t,
{
    let b = webp_record(h, n, t);
    lemma_webp_first_match(h, n, t);
    assert(ascii(seq!['W', 'E', 'B', 'P']) =~= webp_bytes());
    assert(header_bytes(Category::Images, 1) == webp_bytes());
    assert(header_bytes(Category::Images, 0) == ascii(seq!['P', 'N', 'G']));
    assert(first_header_hit(b, Category::Images, 1));
    let i = choose|i: int| first_header_hit(b, Category::Images, i);
    lemma_first_header_unique(b, Category::Images, i, 1);
    let k = choose|k: int| first_match_at(b, webp_bytes(), k);
    lemma_first_match_unique(b, webp_bytes(), k, h.len() as int + 8);
    lemma_webp_offset();
    assert(extraction_start(webp_bytes(), k) == h.len());
}

fn extract_with_header(category: Category, bytes: Vec<u8>) -> (r: (Vec<u8>, Option<String>))
    ensures
        r.0@ == spec_extracted(category, bytes@),
        match spec_find_header(bytes@, category) {
            Some(i) => r.1 matches Some(h) && h@ == header_chars(category)[i],
            None => r.1 is None,
        },
{
    match find_header(category, bytes.as_slice()) {
        Ok(header) => {
            let ghost i = choose|i: int|
                first_header_hit(bytes@, category, i) && header@ == #[trigger] header_chars(
                    category,
                )[i];
            let hs = header.as_str();
            proof {
                let j = choose|j: int| first_header_hit(bytes@, category, j);
                lemma_first_header_unique(bytes@, category, i, j);
                lemma_headers_ascii(category, i);
                lemma_ascii_bytes(hs);
            }
            let ghost record = bytes@;
            let extracted = extract_bytes(hs, bytes);
            proof {
                let hb = header_bytes(category, i);
                if hb.len() > 0 && exists|k: int| first_match_at(record, hb, k) {
                    let k = choose|k: int| #[trigger] first_match_at(record, hb, k) && extracted@
                        == record.skip(extraction_start(hb, k));
                    let k2 = choose|k: int| first_match_at(record, hb, k);
                    lemma_first_match_unique(record, hb, k, k2);
                }
            }
            (extracted, Some(header))
        },
        Err(_) => {
            assert(!exists|i: int| first_header_hit(bytes@, category, i));
            (bytes, None)
        },
    }
}

/// Cut an asset out of the cache record read for it: everything from the
/// start of the signature located by the category's first matching header,
/// or the whole record when no header is found.
pub fn extract_asset_to_bytes(asset: &AssetInfo, bytes: Vec<u8>) -> (r: Vec<u8>)
    ensures
        r@ == spec_extracted(asset.category, bytes@),
{
    let (extracted, _) = extract_with_header(asset.category, bytes);
    extracted
}

/// The bytes to write for an extracted asset and the extension to give the
/// file (see `spec_extraction_extension`).
pub fn extract_to_file(asset: &AssetInfo, bytes: Vec<u8>) -> (r: (Vec<u8>, String))
    ensures
        r.0@ == spec_extracted(asset.category, bytes@),
        r.1@ == spec_extraction_extension(
            asset.category,
            bytes@,
            opt_string_view(asset.extension),
        ),
{
    let ghost record = bytes@;
    let (extracted, header) = extract_with_header(asset.category, bytes);
    let extension: String = match detect_extension(extracted.as_slice()) {
        Some(e) => e.to_owned(),
        None => {
            let from_header = match &header {
                Some(h) => {
                    let hs = h.as_str();
                    proof {
                        let i = spec_find_header(record, asset.category)->0;
                        lemma_headers_ascii(asset.category, i);
                        lemma_ascii_bytes(hs);
                    }
                    extension_from_header(hs)
                },
                None => None,
            };
            match from_header {
                Some(e) => e.to_owned(),
                None => match &asset.extension {
                    Some(e) => e.clone(),
                    None => "bin".to_owned(),
                },
            }
        },
    };
    (extracted, extension)
}

// ---------------------------------------------------------------------------
// Paths
// ---------------------------------------------------------------------------

/// A directory template with its placeholders expanded for `user`:
/// "%Temp%" and "%localappdata%" become the user's Windows temporary and
/// local application data folders, "~" the user's home directory.
pub open spec fn spec_resolve_path(directory: Seq<char>, user: Seq<char>) -> Seq<char> {
    text::replace_all(
        text::replace_all(
            text::replace_all(
                directory,
                "%Temp%"@,
                "C:\\Users\\"@ + user + "\\AppData\\Local\\Temp"@,
            ),
            "%localappdata%"@,
            "C:\\Users\\"@ + user + "\\AppData\\Local"@,
        ),
        "~"@,
        "/home/"@ + user,
    )
}

/// Expand the placeholders of a directory template for the given user name.
pub fn resolve_path_for_user(directory: &str, user: &str) -> (r: String)
    ensures
        r@ == spec_resolve_path(directory@, user@),
{
    proof {
        reveal_strlit("%Temp%");
        reveal_strlit("%localappdata%");
        reveal_strlit("~");
        assert("%Temp%"@.len() == 6);
        assert("%localappdata%"@.len() == 14);
        assert("~"@.len() == 1);
    }
    let mut temp = text::concat2("C:\\Users\\", user);
    temp.append("\\AppData\\Local\\Temp");
    let mut local = text::concat2("C:\\Users\\", user);
    local.append("\\AppData\\Local");
    let home = text::concat2("/home/", user);
    let step1 = text::replace(directory, "%Temp%", temp.as_str());
    let step2 = text::replace(step1.as_str(), "%localappdata%", local.as_str());
    text::replace(step2.as_str(), "~", home.as_str())
}

/// A directory with none of the placeholders is used as it is, whoever the
/// user is.
pub proof fn lemma_plain_path_unchanged(directory: Seq<char>, user: Seq<char>)
    requires
        !text::chars_contain(directory, "%Temp%"@),
        !text::chars_contain(directory, "%localappdata%"@),
        !text::chars_contain(directory, "~"@),
    ensures
        spec_resolve_path(directory, user) == directory,
{
    text::lemma_replace_absent(directory, "%Temp%"@, "C:\\Users\\"@ + user + "\\AppData\\Local\\Temp"@);
    text::lemma_replace_absent(directory, "%localappdata%"@, "C:\\Users\\"@ + user + "\\AppData\\Local"@);
    text::lemma_replace_absent(directory, "~"@, "/home/"@ + user);
}

/// Calls `whoami::username`. The name depends on the environment the
/// program runs in, so nothing is claimed about it.
#[verifier::external_body]
fn current_username() -> String {
    whoami::username()
}

/// Expand the placeholders of a directory template for the current user.
pub fn resolve_path(directory: &str) -> (r: String)
    ensures
        exists|user: Seq<char>| r@ == spec_resolve_path(directory@, user),
{
    let user = current_username();
    resolve_path_for_user(directory, user.as_str())
}

// ---------------------------------------------------------------------------
// Where records come from
// ---------------------------------------------------------------------------

/// The storage backend a record is read from.
#[derive(Clone, Copy, Debug, PartialEq, Eq, Structural)]
pub enum AssetSource {
    CacheDirectory,
    SqlDatabase,
    RbxStorage,
}

/// The backend to read an asset from: the cache directory, else the SQL
/// database, else rbx-storage, by the record's flags; `None` for a record
/// that comes from none of them.
pub fn asset_source(asset: &AssetInfo) -> (r: Option<AssetSource>)
    ensures
        r == (if asset.from_file {
            Some(AssetSource::CacheDirectory)
        } else if asset.from_sql {
            Some(AssetSource::SqlDatabase)
        } else if asset.from_rbx_storage {
            Some(AssetSource::RbxStorage)
        } else {
            None
        }),
{
    if asset.from_file {
        Some(AssetSource::CacheDirectory)
    } else if asset.from_sql {
        Some(AssetSource::SqlDatabase)
    } else if asset.from_rbx_storage {
        Some(AssetSource::RbxStorage)
    } else {
        None
    }
}

/// A record for an asset that exists in no backend.
pub open spec fn missing_asset(name: Seq<char>, category: Category, r: AssetInfo) -> bool {
    &&& r.name@ == name
    &&& r._size == 0
    &&& r.last_modified is None
    &&& !r.from_file && !r.from_sql && !r.from_rbx_storage
    &&& r.category == category
    &&& r.fingerprint is None
    &&& r.file_type is None
    &&& r.extension is None
    &&& r.detected_at is None
}

/// The record for a named asset: the SQL database's record when it has one,
/// else the cache directory's, else a record for an asset that exists
/// nowhere (its info is needed anyway).
pub fn create_asset_info(
    asset: &str,
    category: Category,
    sql_info: Option<AssetInfo>,
    file_info: Option<AssetInfo>,
) -> (r: AssetInfo)
    ensures
        sql_info matches Some(info) ==> r == info,
        sql_info is None && file_info is Some ==> r == file_info->0,
        sql_info is None && file_info is None ==> missing_asset(asset@, category, r),
{
    if let Some(info) = sql_info {
        return info;
    }
    if let Some(info) = file_info {
        return info;
    }
    AssetInfo {
        name: asset.to_owned(),
        _size: 0,
        last_modified: None,
        from_file: false,
        from_sql: false,
        from_rbx_storage: false,
        category,
        fingerprint: None,
        file_type: None,
        extension: None,
        detected_at: None,
    }
}

/// Whether a listing of `category` takes a record whose first bytes are
/// `buffer`: some header of the category occurs in them.
pub open spec fn listed(category: Category, buffer: Seq<u8>) -> bool {
    exists|i: int|
        0 <= i < header_chars(category).len() && contains_bytes(
            buffer,
            #[trigger] header_bytes(category, i),
        )
}

/// The `All` listing looks for every header of every other category: each
/// header of Music, Sounds, Images, Ktx or Rbxm is a header of `All`, and
/// `All` has no header of its own.
pub proof fn lemma_all_headers_cover(c: Category, i: int)
    requires
        c != Category::All,
        0 <= i < header_chars(c).len(),
    ensures
        exists|j: int|
            0 <= j < header_chars(Category::All).len() && #[trigger] header_chars(Category::All)[j]
                == header_chars(c)[i],
{
    let all = header_chars(Category::All);
    assert(all.len() == 9);
    let j: int = match c {
        Category::Music => i,
        Category::Sounds => i,
        Category::Images => i + 2,
        Category::Ktx => 7,
        Category::Rbxm => 8,
        Category::All => 0,
    };
    assert(all[j] == header_chars(c)[i]);
}

/// Every header of `All` is a header of Sounds, Images, Ktx or Rbxm.
pub proof fn lemma_all_headers_come_from_categories(j: int)
    requires
        0 <= j < header_chars(Category::All).len(),
    ensures
        exists|c: Category, i: int|
            c != Category::All && c != Category::Music && 0 <= i < header_chars(c).len()
                && #[trigger] header_chars(c)[i] == header_chars(Category::All)[j],
{
    let all = header_chars(Category::All);
    if j < 2 {
        assert(header_chars(Category::Sounds)[j] == all[j]);
    } else if j < 7 {
        assert(header_chars(Category::Images)[j - 2] == all[j]);
    } else if j == 7 {
        assert(header_chars(Category::Ktx)[0] == all[j]);
    } else {
        assert(header_chars(Category::Rbxm)[0] == all[j]);
    }
}

/// Any record a listing of one category takes is also taken by the `All`
/// listing.
pub proof fn lemma_all_listing_takes_more(c: Category, buffer: Seq<u8>)
    requires
        listed(c, buffer),
    ensures
        listed(Category::All, buffer),
{
    if c != Category::All {
        let i = choose|i: int|
            0 <= i < header_chars(c).len() && contains_bytes(buffer, #[trigger] header_bytes(c, i));
        lemma_all_headers_cover(c, i);
        let j = choose|j: int|
            0 <= j < header_chars(Category::All).len() && #[trigger] header_chars(Category::All)[j]
                == header_chars(c)[i];
        assert(header_bytes(Category::All, j) == header_bytes(c, i));
    }
}

/// The category a listing of `category` files a record under: `None` when
/// the record is not listed, its detected category for an `All` listing.
pub open spec fn spec_listing_category(category: Category, buffer: Seq<u8>) -> Option<Category> {
    if !listed(category, buffer) {
        None
    } else if category == Category::All {
        Some(spec_determine_category(buffer))
    } else {
        Some(category)
    }
}

/// Decide whether a listing of `category` takes a record from its first
/// bytes, and under which category.
pub fn listing_category(category: Category, buffer: &[u8]) -> (r: Option<Category>)
    ensures
        r == spec_listing_category(category, buffer@),
{
    let headers = get_headers(&category);
    let mut i: usize = 0;
    while i < headers.len()
        invariant
            str_views(headers@) == header_chars(category),
            i <= headers@.len(),
            forall|j: int| 0 <= j < i ==> !contains_bytes(buffer@, #[trigger] header_bytes(category, j)),
        decreases headers@.len() - i,
    {
        let header = header_at(&headers, category, i);
        if bytes_contains(buffer, header) {
            assert(contains_bytes(buffer@, header_bytes(category, i as int)));
            if category == Category::All {
                return Some(determine_category(buffer));
            } else {
                return Some(category);
            }
        }
        i = i + 1;
    }
    None
}

// ---------------------------------------------------------------------------
// Listing state
// ---------------------------------------------------------------------------

/// The state shared between the listing, extraction and the user interface.
pub struct LogicState {
    /// Status line shown to the user.
    pub status: String,
    /// Records found by the current listing.
    pub file_list: Vec<AssetInfo>,
    /// The records that match the current search.
    pub filtered_file_list: Vec<AssetInfo>,
    /// The interface should be redrawn.
    pub request_repaint: bool,
    /// A listing is running.
    pub list_task_running: bool,
    /// The running listing has been asked to stop.
    pub stop_list_running: bool,
    /// A delete, extract or checkpoint task is running.
    pub task_running: bool,
}

impl LogicState {
    /// The initial state, showing `status` (the idle message).
    pub fn new(status: String) -> (r: LogicState)
        ensures
            r.status == status,
            r.file_list@.len() == 0,
            r.filtered_file_list@.len() == 0,
            !r.request_repaint,
            !r.list_task_running,
            !r.stop_list_running,
            !r.task_running,
    {
        LogicState {
            status,
            file_list: Vec::new(),
            filtered_file_list: Vec::new(),
            request_repaint: false,
            list_task_running: false,
            stop_list_running: false,
            task_running: false,
        }
    }
}

/// `after` is `before` with `found` added to the end of the listing; only
/// the status line and the redraw request may change besides.
pub open spec fn listing_grew(before: LogicState, after: LogicState, found: Seq<AssetInfo>) -> bool {
    &&& after.file_list@ == before.file_list@ + found
    &&& after.filtered_file_list == before.filtered_file_list
    &&& after.list_task_running == before.list_task_running
    &&& after.stop_list_running == before.stop_list_running
    &&& after.task_running == before.task_running
}

/// Steps of one listing compose: what two steps add is added in order.
pub proof fn lemma_listing_grew_trans(
    a: LogicState,
    b: LogicState,
    c: LogicState,
    x: Seq<AssetInfo>,
    y: Seq<AssetInfo>,
)
    requires
        listing_grew(a, b, x),
        listing_grew(b, c, y),
    ensures
        listing_grew(a, c, x + y),
{
    assert(a.file_list@ + x + y =~= a.file_list@ + (x + y));
}

/// Add a record to the listing.
pub fn update_file_list(state: &mut LogicState, value: AssetInfo)
    ensures
        listing_grew(*old(state), *final(state), seq![value]),
        final(state).status == old(state).status,
        final(state).request_repaint == old(state).request_repaint,
{
    state.file_list.push(value);
    assert(state.file_list@ =~= old(state).file_list@ + seq![value]);
}

/// Empty the listing.
pub fn clear_file_list(state: &mut LogicState)
    ensures
        final(state).file_list@.len() == 0,
        final(state).filtered_file_list == old(state).filtered_file_list,
        final(state).status == old(state).status,
        final(state).request_repaint == old(state).request_repaint,
        final(state).list_task_running == old(state).list_task_running,
        final(state).stop_list_running == old(state).stop_list_running,
        final(state).task_running == old(state).task_running,
{
    state.file_list = Vec::new();
}

/// A snapshot of the listing; later changes to the state do not affect it.
pub fn get_file_list(state: &LogicState) -> (r: Vec<AssetInfo>)
    ensures
        r@ == state.file_list@,
{
    duplicate_list(&state.file_list)
}

/// A snapshot of the records that match the current search.
pub fn get_filtered_file_list(state: &LogicState) -> (r: Vec<AssetInfo>)
    ensures
        r@ == state.filtered_file_list@,
{
    duplicate_list(&state.filtered_file_list)
}

/// Show a new status line, and ask for a redraw.
pub fn update_status(state: &mut LogicState, value: String)
    ensures
        final(state).status == value,
        final(state).request_repaint,
        listing_grew(*old(state), *final(state), Seq::empty()),
        final(state).file_list == old(state).file_list,
        final(state).filtered_file_list == old(state).filtered_file_list,
        final(state).list_task_running == old(state).list_task_running,
        final(state).stop_list_running == old(state).stop_list_running,
        final(state).task_running == old(state).task_running,
{
    state.status = value;
    state.request_repaint = true;
}

/// Ask for a redraw (the progress shown changed).
pub fn request_repaint(state: &mut LogicState)
    ensures
        final(state).request_repaint,
        final(state).status == old(state).status,
        listing_grew(*old(state), *final(state), Seq::empty()),
        final(state).file_list == old(state).file_list,
        final(state).filtered_file_list == old(state).filtered_file_list,
        final(state).list_task_running == old(state).list_task_running,
        final(state).stop_list_running == old(state).stop_list_running,
        final(state).task_running == old(state).task_running,
{
    state.request_repaint = true;
}

/// The current status line.
pub fn get_status(state: &LogicState) -> (r: String)
    ensures
        r == state.status,
{
    state.status.clone()
}

/// Whether a long-running delete/extract/checkpoint task is currently running.
pub fn get_task_running(state: &LogicState) -> (r: bool)
    ensures
        r == state.task_running,
{
    state.task_running
}

/// Set the delete/extract/checkpoint task guard.
pub fn set_task_running(state: &mut LogicState, value: bool)
    ensures
        final(state).task_running == value,
        final(state).status == old(state).status,
        final(state).file_list == old(state).file_list,
        final(state).filtered_file_list == old(state).filtered_file_list,
        final(state).request_repaint == old(state).request_repaint,
        final(state).list_task_running == old(state).list_task_running,
        final(state).stop_list_running == old(state).stop_list_running,
{
    state.task_running = value;
}

/// Whether a listing is running.
pub fn get_list_task_running(state: &LogicState) -> (r: bool)
    ensures
        r == state.list_task_running,
{
    state.list_task_running
}

/// Whether the running listing has been asked to stop.
pub fn get_stop_list_running(state: &LogicState) -> (r: bool)
    ensures
        r == state.stop_list_running,
{
    state.stop_list_running
}

/// Whether a redraw was asked for since the last call; acknowledges it.
pub fn get_request_repaint(state: &mut LogicState) -> (r: bool)
    ensures
        r == old(state).request_repaint,
        !final(state).request_repaint,
        final(state).status == old(state).status,
        final(state).file_list == old(state).file_list,
        final(state).filtered_file_list == old(state).filtered_file_list,
        final(state).list_task_running == old(state).list_task_running,
        final(state).stop_list_running == old(state).stop_list_running,
        final(state).task_running == old(state).task_running,
{
    let old_request_repaint = state.request_repaint;
    state.request_repaint = false;
    old_request_repaint
}

/// Before a new listing starts: when one is running, ask it to stop and
/// report that the caller must wait for it.
pub fn request_list_stop(state: &mut LogicState) -> (wait: bool)
    ensures
        wait == old(state).list_task_running,
        final(state).stop_list_running == (old(state).list_task_running
            || old(state).stop_list_running),
        final(state).list_task_running == old(state).list_task_running,
        final(state).status == old(state).status,
        final(state).file_list == old(state).file_list,
        final(state).filtered_file_list == old(state).filtered_file_list,
        final(state).request_repaint == old(state).request_repaint,
        final(state).task_running == old(state).task_running,
{
    if state.list_task_running {
        state.stop_list_running = true;
        true
    } else {
        false
    }
}

/// `after` is `before` with a listing started: marked running, the stop
/// request withdrawn and the previous listing emptied.
pub open spec fn list_task_started(before: LogicState, after: LogicState) -> bool {
    &&& after.list_task_running
    &&& !after.stop_list_running
    &&& after.file_list@.len() == 0
    &&& after.filtered_file_list == before.filtered_file_list
    &&& after.task_running == before.task_running
}

/// `after` is `before` with the listing finished and `idle_status` shown.
pub open spec fn list_task_finished(before: LogicState, after: LogicState, idle_status: String) -> bool {
    &&& !after.list_task_running
    &&& after.status == idle_status
    &&& after.request_repaint
    &&& after.stop_list_running == before.stop_list_running
    &&& after.file_list == before.file_list
    &&& after.filtered_file_list == before.filtered_file_list
    &&& after.task_running == before.task_running
}

/// A listing run with no other writer: started, grown step by step by what
/// the backends found (records added, statuses shown), then finished. It
/// leaves exactly what was found, in order, with no listing running, no
/// stop requested and the idle status shown.
pub proof fn lemma_listing_run(
    s0: LogicState,
    s1: LogicState,
    s2: LogicState,
    s3: LogicState,
    found: Seq<AssetInfo>,
    idle_status: String,
)
    requires
        list_task_started(s0, s1),
        listing_grew(s1, s2, found),
        list_task_finished(s2, s3, idle_status),
    ensures
        s3.file_list@ == found,
        !s3.list_task_running,
        !s3.stop_list_running,
        s3.status == idle_status,
        s3.task_running == s0.task_running,
        s3.filtered_file_list == s0.filtered_file_list,
{
    assert(s1.file_list@ =~= Seq::<AssetInfo>::empty());
    assert(s2.file_list@ =~= found);
}

/// A listing starts: it is marked running, the stop request is withdrawn
/// and the previous listing is emptied.
pub fn start_list_task(state: &mut LogicState)
    ensures
        list_task_started(*old(state), *final(state)),
        final(state).status == old(state).status,
        final(state).request_repaint == old(state).request_repaint,
{
    state.list_task_running = true;
    state.stop_list_running = false;
    state.file_list = Vec::new();
}

/// A listing has finished: other listings may run, and `idle_status` is
/// shown.
pub fn finish_list_task(state: &mut LogicState, idle_status: String)
    ensures
        list_task_finished(*old(state), *final(state), idle_status),
{
    state.list_task_running = false;
    update_status(state, idle_status);
}

/// Claim the delete/extract/checkpoint guard: succeeds, and marks a task
/// running, only when no task is running.
pub fn try_start_task(state: &mut LogicState) -> (started: bool)
    ensures
        started == !old(state).task_running,
        final(state).task_running,
        final(state).status == old(state).status,
        final(state).file_list == old(state).file_list,
        final(state).filtered_file_list == old(state).filtered_file_list,
        final(state).request_repaint == old(state).request_repaint,
        final(state).list_task_running == old(state).list_task_running,
        final(state).stop_list_running == old(state).stop_list_running,
{
    if state.task_running {
        false
    } else {
        state.task_running = true;
        true
    }
}

/// A task has finished: the guard is released and `message` is shown.
pub fn finish_task(state: &mut LogicState, message: String)
    ensures
        !final(state).task_running,
        final(state).status == message,
        final(state).request_repaint,
        final(state).file_list == old(state).file_list,
        final(state).filtered_file_list == old(state).filtered_file_list,
        final(state).list_task_running == old(state).list_task_running,
        final(state).stop_list_running == old(state).stop_list_running,
{
    state.task_running = false;
    update_status(state, message);
}

/// Clearing the cache has finished: the listing shows only the "no files"
/// placeholder named `no_files`, the guard is released and `idle_status`
/// is shown.
pub fn finish_clear_cache(state: &mut LogicState, no_files: String, idle_status: String)
    ensures
        final(state).file_list@.len() == 1,
        final(state).file_list@[0].name == no_files,
        final(state).file_list@[0].category == Category::All,
        !final(state).file_list@[0].from_file && !final(state).file_list@[0].from_sql
            && !final(state).file_list@[0].from_rbx_storage,
        final(state).file_list@[0]._size == 0,
        final(state).file_list@[0].last_modified is None,
        final(state).file_list@[0].fingerprint is None,
        final(state).file_list@[0].file_type is None,
        final(state).file_list@[0].extension is None,
        final(state).file_list@[0].detected_at is None,
        !final(state).task_running,
        final(state).status == idle_status,
        final(state).request_repaint,
        final(state).filtered_file_list == old(state).filtered_file_list,
        final(state).list_task_running == old(state).list_task_running,
        final(state).stop_list_running == old(state).stop_list_running,
{
    clear_file_list(state);
    update_file_list(state, create_no_files(no_files));
    finish_task(state, idle_status);
}

// ---------------------------------------------------------------------------
// Searching
// ---------------------------------------------------------------------------

/// A record matches a search when its name or its alias contains the query,
/// all compared in lower case.
pub open spec fn matches_query(name: Seq<char>, alias: Seq<char>, query: Seq<char>) -> bool {
    text::chars_contain(text::lowercase(name), text::lowercase(query)) || text::chars_contain(
        text::lowercase(alias),
        text::lowercase(query),
    )
}

/// The records among the first `n` whose name or alias matches the query,
/// in order.
pub open spec fn search_prefix(
    records: Seq<AssetInfo>,
    aliases: Seq<String>,
    query: Seq<char>,
    n: int,
) -> Seq<AssetInfo>
    decreases n,
{
    if n <= 0 {
        Seq::empty()
    } else if matches_query(records[n - 1].name@, aliases[n - 1]@, query) {
        search_prefix(records, aliases, query, n - 1).push(records[n - 1])
    } else {
        search_prefix(records, aliases, query, n - 1)
    }
}

/// The lower-cased `query` occurs somewhere (at any position) in the
/// lower-cased `text`.
pub open spec fn occurs_lowercased(text: Seq<char>, query: Seq<char>) -> bool {
    exists|k: int| #[trigger] text::chars_match_at(text::lowercase(text), text::lowercase(query), k)
}

/// The search keeps every record whose lower-cased name or alias contains
/// the lower-cased query at any position.
pub proof fn lemma_search_keeps_matches(
    records: Seq<AssetInfo>,
    aliases: Seq<String>,
    query: Seq<char>,
    n: int,
    j: int,
)
    requires
        0 <= j < n <= records.len(),
        aliases.len() == records.len(),
        occurs_lowercased(records[j].name@, query) || occurs_lowercased(aliases[j]@, query),
    ensures
        search_prefix(records, aliases, query, n).contains(records[j]),
    decreases n,
{
    let prev = search_prefix(records, aliases, query, n - 1);
    if j == n - 1 {
        if occurs_lowercased(records[j].name@, query) {
            let k = choose|k: int| text::chars_match_at(text::lowercase(records[j].name@), text::lowercase(query), k);
            assert(text::chars_match_at(text::lowercase(records[j].name@), text::lowercase(query), k));
        } else {
            let k = choose|k: int| text::chars_match_at(text::lowercase(aliases[j]@), text::lowercase(query), k);
            assert(text::chars_match_at(text::lowercase(aliases[j]@), text::lowercase(query), k));
        }
        assert(matches_query(records[j].name@, aliases[j]@, query));
        assert(prev.push(records[j])[prev.len() as int] == records[j]);
    } else {
        lemma_search_keeps_matches(records, aliases, query, n - 1, j);
        let i = choose|i: int| 0 <= i < prev.len() && prev[i] == records[j];
        if matches_query(records[n - 1].name@, aliases[n - 1]@, query) {
            assert(prev.push(records[n - 1])[i] == records[j]);
        }
    }
}

/// `v` is one of the first `n` records, and its lower-cased name or alias
/// contains the lower-cased query.
pub open spec fn is_matching_record(
    records: Seq<AssetInfo>,
    aliases: Seq<String>,
    query: Seq<char>,
    n: int,
    v: AssetInfo,
) -> bool {
    exists|j: int|
        0 <= j < n && #[trigger] records[j] == v && (occurs_lowercased(records[j].name@, query)
            || occurs_lowercased(aliases[j]@, query))
}

/// The search keeps nothing else: every record it keeps is one of the
/// records whose lower-cased name or alias contains the lower-cased query.
pub proof fn lemma_search_keeps_only_matches(
    records: Seq<AssetInfo>,
    aliases: Seq<String>,
    query: Seq<char>,
    n: int,
)
    requires
        0 <= n <= records.len(),
        aliases.len() == records.len(),
    ensures
        forall|x: int|
            0 <= x < search_prefix(records, aliases, query, n).len() ==> is_matching_record(
                records,
                aliases,
                query,
                n,
                #[trigger] search_prefix(records, aliases, query, n)[x],
            ),
    decreases n,
{
    if n > 0 {
        lemma_search_keeps_only_matches(records, aliases, query, n - 1);
        let prev = search_prefix(records, aliases, query, n - 1);
        let cur = search_prefix(records, aliases, query, n);
        assert forall|x: int| 0 <= x < cur.len() implies is_matching_record(
            records,
            aliases,
            query,
            n,
            #[trigger] cur[x],
        ) by {
            if x < prev.len() {
                assert(cur[x] == prev[x]);
                assert(is_matching_record(records, aliases, query, n - 1, prev[x]));
                let j = choose|j: int|
                    0 <= j < n - 1 && #[trigger] records[j] == prev[x] && (occurs_lowercased(
                        records[j].name@,
                        query,
                    ) || occurs_lowercased(aliases[j]@, query));
                assert(records[j] == cur[x]);
            } else {
                let m = n - 1;
                assert(cur[x] == records[m]);
                assert(matches_query(records[m].name@, aliases[m]@, query));
                if text::chars_contain(text::lowercase(records[m].name@), text::lowercase(query)) {
                    let k = choose|k: int|
                        text::chars_match_at(text::lowercase(records[m].name@), text::lowercase(query), k);
                    assert(occurs_lowercased(records[m].name@, query));
                } else {
                    let k = choose|k: int|
                        text::chars_match_at(text::lowercase(aliases[m]@), text::lowercase(query), k);
                    assert(occurs_lowercased(aliases[m]@, query));
                }
                assert(records[m] == cur[x]);
            }
        }
    }
}

proof fn lemma_search_keeps_all(
    records: Seq<AssetInfo>,
    aliases: Seq<String>,
    query: Seq<char>,
    n: int,
)
    requires
        0 <= n <= records.len(),
        aliases.len() == records.len(),
        forall|i: int| 0 <= i < n ==> matches_query(#[trigger] records[i].name@, aliases[i]@, query),
    ensures
        search_prefix(records, aliases, query, n) == records.take(n),
    decreases n,
{
    if n > 0 {
        lemma_search_keeps_all(records, aliases, query, n - 1);
        assert(matches_query(records[n - 1].name@, aliases[n - 1]@, query));
        assert(records.take(n - 1).push(records[n - 1]) =~= records.take(n));
    } else {
        assert(records.take(0) =~= Seq::<AssetInfo>::empty());
    }
}

/// Search the records shown (`view`, whose aliases are `aliases`) for
/// `query` and store the matches as the filtered list. An empty query keeps
/// every record shown.
pub fn filter_file_list(
    state: &mut LogicState,
    view: &Vec<AssetInfo>,
    aliases: &Vec<String>,
    query: &str,
)
    requires
        aliases@.len() == view@.len(),
    ensures
        final(state).filtered_file_list@ == search_prefix(
            view@,
            aliases@,
            query@,
            view@.len() as int,
        ),
        query@.len() == 0 ==> final(state).filtered_file_list@ == view@,
        final(state).status == old(state).status,
        final(state).file_list == old(state).file_list,
        final(state).request_repaint == old(state).request_repaint,
        final(state).list_task_running == old(state).list_task_running,
        final(state).stop_list_running == old(state).stop_list_running,
        final(state).task_running == old(state).task_running,
{
    let query_lower = text::to_lowercase(query);
    proof {
        if query@.len() == 0 {
            let q = text::lowercase(query@);
            assert(q.len() == 0);
            assert forall|i: int| 0 <= i < view@.len() implies matches_query(
                #[trigger] view@[i].name@,
                aliases@[i]@,
                query@,
            ) by {
                let hay = text::lowercase(view@[i].name@);
                assert(hay.subrange(0, 0) =~= q);
                assert(text::chars_match_at(hay, q, 0));
            }
            lemma_search_keeps_all(view@, aliases@, query@, view@.len() as int);
            assert(view@.take(view@.len() as int) =~= view@);
        }
    }
    let mut filtered: Vec<AssetInfo> = Vec::new();
    for i in 0..view.len()
        invariant
            aliases@.len() == view@.len(),
            query_lower@ == text::lowercase(query@),
            filtered@ == search_prefix(view@, aliases@, query@, i as int),
    {
        let name_lower = text::to_lowercase(view[i].name.as_str());
        let alias_lower = text::to_lowercase(aliases[i].as_str());
        if text::contains_str(name_lower.as_str(), query_lower.as_str()) || text::contains_str(
            alias_lower.as_str(),
            query_lower.as_str(),
        ) {
            filtered.push(view[i].duplicate());
        }
    }
    state.filtered_file_list = filtered;
}

// ---------------------------------------------------------------------------
// Extraction of a whole listing
// ---------------------------------------------------------------------------

/// One file to write when extracting a listing.
pub struct ExtractionJob {
    /// Position of the record in the listing.
    pub index: usize,
    /// The 1-based count of this file among those extracted, for progress.
    pub item: usize,
    /// Subfolder of the destination to write it in, when grouping by
    /// category.
    pub folder: Option<&'static str>,
    /// The file name (alias or raw name; the extension is added later).
    pub file_name: String,
}

/// An extraction job as plain values.
pub open spec fn job_view(job: ExtractionJob) -> (int, int, Option<Seq<char>>, Seq<char>) {
    (job.index as int, job.item as int, opt_str_view(job.folder), job.file_name@)
}

/// The job for the record at `index`, when it is the `item`-th extracted.
pub open spec fn spec_job(
    record: AssetInfo,
    alias: Seq<char>,
    index: int,
    item: int,
    use_alias: bool,
    categorize: bool,
) -> (int, int, Option<Seq<char>>, Seq<char>) {
    (
        index,
        item,
        if categorize {
            Some(spec_category_folder(record.category))
        } else {
            None
        },
        if use_alias {
            alias
        } else {
            record.name@
        },
    )
}

/// The jobs for the first `n` records: one per record that is not the
/// "no files" placeholder, in order, numbered from 1.
pub open spec fn spec_plan(
    records: Seq<AssetInfo>,
    aliases: Seq<String>,
    use_alias: bool,
    categorize: bool,
    n: int,
) -> Seq<(int, int, Option<Seq<char>>, Seq<char>)>
    decreases n,
{
    if n <= 0 {
        Seq::empty()
    } else {
        let before = spec_plan(records, aliases, use_alias, categorize, n - 1);
        let r = records[n - 1];
        if !r.from_file && !r.from_sql && !r.from_rbx_storage {
            before
        } else {
            before.push(
                spec_job(r, aliases[n - 1]@, n - 1, before.len() + 1int, use_alias, categorize),
            )
        }
    }
}

pub proof fn lemma_plan_len(
    records: Seq<AssetInfo>,
    aliases: Seq<String>,
    use_alias: bool,
    categorize: bool,
    n: int,
)
    requires
        0 <= n,
    ensures
        spec_plan(records, aliases, use_alias, categorize, n).len() <= n,
    decreases n,
{
    if n > 0 {
        lemma_plan_len(records, aliases, use_alias, categorize, n - 1);
    }
}

/// Plan the extraction of every record in `file_list` (whose aliases are
/// `aliases`): skip the placeholder, name each file by its alias or raw
/// name, and optionally group the files into per-category folders.
pub fn extract_file_list(
    file_list: &Vec<AssetInfo>,
    aliases: &Vec<String>,
    use_alias: bool,
    categorize: bool,
) -> (r: Vec<ExtractionJob>)
    requires
        aliases@.len() == file_list@.len(),
    ensures
        r@.map_values(|j: ExtractionJob| job_view(j)) == spec_plan(
            file_list@,
            aliases@,
            use_alias,
            categorize,
            file_list@.len() as int,
        ),
{
    let mut jobs: Vec<ExtractionJob> = Vec::new();
    let mut count: usize = 0;
    for i in 0..file_list.len()
        invariant
            aliases@.len() == file_list@.len(),
            count == jobs@.len(),
            jobs@.map_values(|j: ExtractionJob| job_view(j)) == spec_plan(
                file_list@,
                aliases@,
                use_alias,
                categorize,
                i as int,
            ),
    {
        proof {
            lemma_plan_len(file_list@, aliases@, use_alias, categorize, i as int);
        }
        let entry = &file_list[i];
        if !is_placeholder_asset(entry) {
            count = count + 1;
            let file_name = if use_alias {
                aliases[i].clone()
            } else {
                entry.name.clone()
            };
            let folder = if categorize {
                Some(category_folder(entry.category))
            } else {
                None
            };
            let job = ExtractionJob { index: i, item: count, folder, file_name };
            let ghost before = jobs@;
            jobs.push(job);
            assert(jobs@.map_values(|j: ExtractionJob| job_view(j)) =~= before.map_values(
                |j: ExtractionJob| job_view(j),
            ).push(job_view(job)));
        }
    }
    jobs
}

/// Whether swapping or copying assets succeeded: it fails only when every
/// backend failed.
pub fn transfer_succeeded(cache_directory_ok: bool, sql_database_ok: bool, rbx_storage_ok: bool) -> (r: bool)
    ensures
        r == (cache_directory_ok || sql_database_ok || rbx_storage_ok),
{
    cache_directory_ok || sql_database_ok || rbx_storage_ok
}

// ---------------------------------------------------------------------------
// Directories
// ---------------------------------------------------------------------------

#[verifier::external_type_specification]
#[verifier::external_body]
pub struct ExPathBuf(std::path::PathBuf);

/// Calls `Clone::clone` on a `PathBuf`; the contract claims the copy is the
/// same path.
#[verifier::external_body]
pub(crate) fn clone_path(path: &std::path::PathBuf) -> (r: std::path::PathBuf)
    ensures
        r == *path,
{
    path.clone()
}

/// The temporary directory that extraction previews are written to.
pub struct TempDirectory {
    pub path: std::path::PathBuf,
}

/// The temporary directory.
pub fn get_temp_dir(temp: &TempDirectory) -> (r: std::path::PathBuf)
    ensures
        r == temp.path,
{
    clone_path(&temp.path)
}

/// Size and modification time of a file, as its metadata gives them.
#[derive(Clone, Copy, Debug, PartialEq, Eq, Structural)]
pub struct FileMetadata {
    pub len: u64,
    pub modified: Option<Timestamp>,
}

} // verus!
