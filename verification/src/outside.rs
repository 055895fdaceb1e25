//! Trusted bridges to std and outside-crate functions whose behaviour Verus
//! does not know by itself. Every item here states only what the called
//! function's documentation promises.

use vstd::prelude::*;

use crate::time::Timestamp;

verus! {

/// `String::push`: appends one character to the end of the string.
#[verifier::external_body]
pub(crate) fn push_char(s: &mut String, c: char)
    ensures
        final(s)@ == old(s)@.push(c),
{
    s.push(c);
}


/// Whether `c` is a digit or a lower-case letter of hexadecimal.
pub open spec fn is_lower_hex_digit(c: char) -> bool {
    ('0' <= c && c <= '9') || ('a' <= c && c <= 'f')
}

/// The hyphenated lower-case text of a UUID, such as
/// `67e55044-10b1-426f-9247-bb680e5fe0c8`.
pub open spec fn is_hyphenated_uuid(s: Seq<char>) -> bool {
    &&& s.len() == 36
    &&& forall|i: int|
        0 <= i < 36 ==> if i == 8 || i == 13 || i == 18 || i == 23 {
            s[i] == '-'
        } else {
            is_lower_hex_digit(#[trigger] s[i])
        }
}

/// `uuid::Uuid::new_v4().to_string()`: a random version-4 UUID. Its
/// `Display` writes the hyphenated lower-case form; which UUID comes out is
/// left open, so nothing else is claimed.
#[verifier::external_body]
pub(crate) fn new_uuid_v4() -> (r: String)
    ensures
        is_hyphenated_uuid(r@),
{
    uuid::Uuid::new_v4().to_string()
}


/// Whether `chrono::DateTime::<Utc>::from_timestamp(secs, nanos)` gives an
/// instant: the seconds lie within chrono's range of dates and the
/// nanoseconds are valid for them.
pub uninterp spec fn is_utc_instant(secs: i64, nanos: u32) -> bool;

/// `chrono::Utc::now()`: the current instant, as whole seconds since the
/// epoch and the nanoseconds past them. Which instant depends on the clock;
/// chrono documents that the nanoseconds stay below 2 * 10^9 (above 10^9
/// only during a leap second) and that `from_timestamp` gives back every
/// instant from these two numbers.
#[verifier::external_body]
pub(crate) fn utc_now() -> (t: Timestamp)
    ensures
        t.nanos < 2_000_000_000,
        is_utc_instant(t.secs, t.nanos),
{
    let now = chrono::Utc::now();
    Timestamp { secs: now.timestamp(), nanos: now.timestamp_subsec_nanos() }
}


/// The text that `chrono::DateTime::<Utc>::format(fmt)` writes for the
/// instant `secs`/`nanos`: a function of the instant and the format alone,
/// since UTC has no local offset.
pub uninterp spec fn utc_format(secs: i64, nanos: u32, fmt: Seq<char>) -> Seq<char>;

/// The formats the notebook writes instants in; chrono accepts each of them.
pub open spec fn is_known_format(fmt: Seq<char>) -> bool {
    ||| fmt == "%Y%m%d-%H%M%S"@
    ||| fmt == "%Y%m%d"@
    ||| fmt == "%Y%m%dT%H%M%S%.6fZ"@
    ||| fmt == "%Y%m%d%H%M%S"@
}

/// `DateTime::<Utc>::from_timestamp(..).format(fmt).to_string()`: the
/// instant written in one of the known formats.
#[verifier::external_body]
pub(crate) fn format_utc(t: Timestamp, fmt: &str) -> (r: String)
    requires
        is_utc_instant(t.secs, t.nanos),
        is_known_format(fmt@),
    ensures
        r@ == utc_format(t.secs, t.nanos, fmt@),
{
    match chrono::DateTime::<chrono::Utc>::from_timestamp(t.secs, t.nanos) {
        Some(d) => d.format(fmt).to_string(),
        None => String::new(),
    }
}

/// Whether `chrono::DateTime::<Utc>::from_timestamp(secs, nanos)` gives an
/// instant.
#[verifier::external_body]
pub(crate) fn utc_instant_ok(t: Timestamp) -> (r: bool)
    ensures
        r == is_utc_instant(t.secs, t.nanos),
{
    chrono::DateTime::<chrono::Utc>::from_timestamp(t.secs, t.nanos).is_some()
}

/// The text that `chrono::DateTime::<Utc>::to_rfc3339()` writes for the
/// instant `secs`/`nanos`: a function of the instant alone.
pub uninterp spec fn utc_rfc3339(secs: i64, nanos: u32) -> Seq<char>;

/// `DateTime::<Utc>::from_timestamp(..).to_rfc3339()`.
#[verifier::external_body]
pub(crate) fn rfc3339_of(t: Timestamp) -> (r: String)
    requires
        is_utc_instant(t.secs, t.nanos),
    ensures
        r@ == utc_rfc3339(t.secs, t.nanos),
{
    match chrono::DateTime::<chrono::Utc>::from_timestamp(t.secs, t.nanos) {
        Some(d) => d.to_rfc3339(),
        None => String::new(),
    }
}

/// The BLAKE3 hash of `bytes` in lower-case hexadecimal, as
/// `blake3::hash(bytes).to_hex()` writes it: a function of the bytes alone.
/// Hashing pieces one after another with a `blake3::Hasher` gives the hash
/// of their concatenation.
pub uninterp spec fn blake3_hex(bytes: Seq<u8>) -> Seq<char>;

/// `blake3::hash(bytes).to_hex().to_string()`.
#[verifier::external_body]
pub(crate) fn hash_hex(bytes: &[u8]) -> (r: String)
    ensures
        r@ == blake3_hex(bytes@),
{
    blake3::hash(bytes).to_hex().to_string()
}

/// The lower-case form of a text, as `str::to_lowercase` computes it from
/// the Unicode tables: a function of the text alone.
pub uninterp spec fn lowercase_of(s: Seq<char>) -> Seq<char>;

/// `str::to_lowercase`: the lower-case equivalent of a text. The result is
/// named, not stated: Unicode case mapping may change a text's length and
/// depends on context (a final sigma, for one).
#[verifier::external_body]
pub(crate) fn to_lowercase(s: &str) -> (r: String)
    ensures
        r@ == lowercase_of(s@),
{
    s.to_lowercase()
}

/// The entries that the `zip` crate lists in the bytes of an archive, in
/// the archive's order: each entry's name (`ZipFile::name`), whether it
/// is a directory (`ZipFile::is_dir`: the name ends in `/` or `\\`) and
/// the size its header declares once decompressed (`ZipFile::size`);
/// nothing when the archive or an entry cannot be opened. A function of
/// the bytes alone.
pub uninterp spec fn zip_listing_of(archive: Seq<u8>) -> Option<Seq<(Seq<char>, bool, u64)>>;

/// A listed archive entry by its views.
pub open spec fn zip_listed_view(e: (String, bool, u64)) -> (Seq<char>, bool, u64) {
    (e.0@, e.1, e.2)
}

/// Listed archive entries by their views.
pub open spec fn zip_listing_view(v: Seq<(String, bool, u64)>) -> Seq<(Seq<char>, bool, u64)> {
    v.map_values(|e: (String, bool, u64)| zip_listed_view(e))
}

/// `zip::ZipArchive::new` over the bytes, then `by_index` for each entry
/// in turn, with its name, `is_dir` and `size`; nothing is decompressed.
#[verifier::external_body]
pub(crate) fn list_zip(archive: &[u8]) -> (r: Option<Vec<(String, bool, u64)>>)
    ensures
        match r {
            Some(v) => zip_listing_of(archive@) == Some(zip_listing_view(v@)),
            None => zip_listing_of(archive@) is None,
        },
{
    let mut zip = zip::ZipArchive::new(std::io::Cursor::new(archive)).ok()?;
    (0..zip.len()).map(|i| {
        let entry = zip.by_index(i).ok()?;
        Some((entry.name().to_string(), entry.is_dir(), entry.size()))
    }).collect()
}

/// The first `max` bytes (all of them when there are fewer) that the `zip`
/// crate decompresses from the entry `index` of an archive; nothing when
/// the archive, the entry or its data cannot be read. A function of the
/// arguments alone.
pub uninterp spec fn zip_entry_bytes_of(archive: Seq<u8>, index: usize, max: u64) -> Option<Seq<u8>>;

/// `zip::ZipArchive::new` over the bytes, `by_index(index)`, then
/// `Read::take(max)` and `read_to_end`: so no more than `max` bytes are
/// ever decompressed.
#[verifier::external_body]
pub(crate) fn read_zip_entry(archive: &[u8], index: usize, max: u64) -> (r: Option<Vec<u8>>)
    ensures
        match r {
            Some(b) => zip_entry_bytes_of(archive@, index, max) == Some(b@) && b@.len() <= max,
            None => zip_entry_bytes_of(archive@, index, max) is None,
        },
{
    let mut zip = zip::ZipArchive::new(std::io::Cursor::new(archive)).ok()?;
    let entry = zip.by_index(index).ok()?;
    let mut bytes = Vec::new();
    std::io::Read::read_to_end(&mut std::io::Read::take(entry, max), &mut bytes).ok()?;
    Some(bytes)
}

/// The bytes of the archive that `zip::ZipWriter` writes into memory for
/// the given files, in order, each entry deflated under its name with the
/// writer's default options (no timestamps of the moment: the crate is
/// built without its `time` feature); nothing when the writer refuses, as
/// it does a name that occurs twice. A function of the files alone.
pub uninterp spec fn zip_archive_of(files: Seq<(Seq<char>, Seq<u8>)>) -> Option<Seq<u8>>;

/// A file to archive by its views.
pub open spec fn zip_file_view(f: (String, Vec<u8>)) -> (Seq<char>, Seq<u8>) {
    (f.0@, f.1@)
}

/// Files to archive by their views.
pub open spec fn zip_files_view(v: Seq<(String, Vec<u8>)>) -> Seq<(Seq<char>, Seq<u8>)> {
    v.map_values(|f: (String, Vec<u8>)| zip_file_view(f))
}

/// A name that the zip reader takes for a file, not a directory: not empty
/// and not ending in `/` or `\\`.
pub open spec fn is_file_entry_name(n: Seq<char>) -> bool {
    n.len() > 0 && n.last() != '/' && n.last() != '\\'
}

/// What the zip reader lists of an archive written from `files`: each file
/// under its name, as a file, of its length.
pub open spec fn written_listing(files: Seq<(Seq<char>, Seq<u8>)>) -> Seq<(Seq<char>, bool, u64)> {
    files.map_values(|f: (Seq<char>, Seq<u8>)| (f.0, false, f.1.len() as u64))
}

/// The first `max` bytes of `b` (all of them when there are fewer).
pub open spec fn first_bytes(b: Seq<u8>, max: u64) -> Seq<u8> {
    if b.len() <= max {
        b
    } else {
        b.take(max as int)
    }
}

/// `zip::ZipWriter` over a `Vec<u8>`: `start_file` with deflate and
/// `write_all` for each file in turn, then `finish`. The reader gives back
/// what the writer wrote: an archive written from files with file names
/// lists them in order, each of its length, and each entry decompresses
/// to the file's bytes (the writer records each name, the deflated data,
/// its CRC-32 and its length in the central directory that `ZipArchive`
/// reads).
#[verifier::external_body]
pub(crate) fn write_zip(files: &Vec<(String, Vec<u8>)>) -> (r: Option<Vec<u8>>)
    ensures
        match r {
            Some(b) => zip_archive_of(zip_files_view(files@)) == Some(b@),
            None => zip_archive_of(zip_files_view(files@)) is None,
        },
        r matches Some(b) ==> ((forall|i: int| 0 <= i < files@.len() ==> is_file_entry_name(#[trigger] files@[i].0@))
            ==> zip_listing_of(b@) == Some(written_listing(zip_files_view(files@)))),
        r matches Some(b) ==> ((forall|i: int| 0 <= i < files@.len() ==> is_file_entry_name(#[trigger] files@[i].0@))
            ==> forall|i: usize, max: u64|
            i < files@.len() ==> #[trigger] zip_entry_bytes_of(b@, i, max) == Some(
                first_bytes(files@[i as int].1@, max),
            )),
{
    let mut zip = zip::ZipWriter::new(std::io::Cursor::new(Vec::new()));
    let options = zip::write::SimpleFileOptions::default().compression_method(zip::CompressionMethod::Deflated);
    for (name, bytes) in files {
        zip.start_file(name.as_str(), options).ok()?;
        std::io::Write::write_all(&mut zip, bytes).ok()?;
    }
    Some(zip.finish().ok()?.into_inner())
}

/// The instant that `chrono::DateTime::parse_from_rfc3339` reads from a
/// text, in UTC, as seconds and nanoseconds; nothing when chrono does not
/// accept the text. A function of the text alone.
pub uninterp spec fn rfc3339_instant_of(text: Seq<char>) -> Option<(i64, u32)>;

/// `DateTime::parse_from_rfc3339(text)`, then `with_timezone(&Utc)`.
#[verifier::external_body]
pub(crate) fn parse_rfc3339(text: &str) -> (r: Option<(i64, u32)>)
    ensures
        r == rfc3339_instant_of(text@),
{
    match chrono::DateTime::parse_from_rfc3339(text) {
        Ok(d) => {
            let u = d.with_timezone(&chrono::Utc);
            Some((u.timestamp(), u.timestamp_subsec_nanos()))
        },
        Err(_) => None,
    }
}

} // verus!
