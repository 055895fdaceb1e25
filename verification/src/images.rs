//! Images pasted into notes: which payloads are accepted, under which name
//! they are stored, and which stored images a note no longer uses.

use vstd::prelude::*;
use vstd::utf8::{decode_utf8, valid_utf8};

use crate::error::{err, AppError};
use crate::notes::NoteStore;
use crate::outside::{is_hyphenated_uuid, new_uuid_v4};
use crate::paths::{ascii_lower, is_safe_component, join_path, path_join, to_ascii_lower};
use crate::text::{append_str, starts_with, starts_with_at, str_eq, string_from_chars, string_of, to_chars};

verus! {

/// `std::str::from_utf8`: the text that the bytes encode, when they are
/// valid UTF-8 (std rejects overlong forms, surrogates and values beyond
/// U+10FFFF, as `valid_utf8` does).
#[verifier::external_body]
fn utf8_text(data: &[u8]) -> (r: Option<String>)
    ensures
        r is Some <==> valid_utf8(data@),
        r matches Some(s) ==> s@ == decode_utf8(data@),
{
    match std::str::from_utf8(data) {
        Ok(s) => Some(s.to_string()),
        Err(_) => None,
    }
}

/// Whether the bytes `data` begin with `p`.
pub open spec fn bytes_start_with(data: Seq<u8>, p: Seq<u8>) -> bool {
    p.len() <= data.len() && data.take(p.len() as int) == p
}

fn bytes_start(data: &[u8], p: &[u8]) -> (r: bool)
    ensures
        r == bytes_start_with(data@, p@),
{
    if p.len() > data.len() {
        return false;
    }
    let mut i: usize = 0;
    while i < p.len()
        invariant
            i <= p@.len(),
            p@.len() <= data@.len(),
            forall|k: int| 0 <= k < i ==> data@[k] == p@[k],
        decreases p@.len() - i,
    {
        if data[i] != p[i] {
            assert(data@.take(p@.len() as int)[i as int] != p@[i as int]);
            return false;
        }
        i = i + 1;
    }
    assert(data@.take(p@.len() as int) == p@);
    true
}

/// The leading characters that do not count before an SVG's root: byte
/// order mark, space, tab, carriage return and line feed.
pub open spec fn is_svg_lead(c: char) -> bool {
    c == '\u{feff}' || c == ' ' || c == '\t' || c == '\r' || c == '\n'
}

/// `s` without its leading SVG lead characters.
pub open spec fn trim_svg_lead(s: Seq<char>) -> Seq<char>
    decreases s.len(),
{
    if s.len() > 0 && is_svg_lead(s[0]) { trim_svg_lead(s.drop_first()) } else { s }
}

/// Whether `p` occurs in `s`.
pub open spec fn has_substring(s: Seq<char>, p: Seq<char>) -> bool {
    exists|i: int| 0 <= i <= s.len() - p.len() && #[trigger] s.subrange(i, i + p.len()) == p
}

/// Whether a text is acceptable as an SVG image: its root (after the lead
/// characters) is `<svg`, or an XML declaration followed somewhere by
/// `<svg`; and it holds no `<script`, in any ASCII case, anywhere.
pub open spec fn is_svg_text(text: Seq<char>) -> bool {
    let t = trim_svg_lead(text);
    &&& (starts_with(t, "<svg"@) || (starts_with(t, "<?xml"@) && has_substring(t, "<svg"@)))
    &&& !has_substring(text.map_values(|c: char| ascii_lower(c)), "<script"@)
}

/// Whether the bytes of an image match its (lower-case) extension: the
/// signature of PNG, JPEG, GIF, WebP or BMP, or an SVG text (see
/// `is_svg_text`). Every other extension is refused.
pub open spec fn payload_matches(data: Seq<u8>, ext: Seq<char>) -> bool {
    if ext == "png"@ {
        bytes_start_with(data, seq![0x89u8, 0x50u8, 0x4Eu8, 0x47u8, 0x0Du8, 0x0Au8, 0x1Au8, 0x0Au8])
    } else if ext == "jpg"@ || ext == "jpeg"@ {
        bytes_start_with(data, seq![0xFFu8, 0xD8u8, 0xFFu8])
    } else if ext == "gif"@ {
        bytes_start_with(data, seq![0x47u8, 0x49u8, 0x46u8, 0x38u8, 0x37u8, 0x61u8])
            || bytes_start_with(data, seq![0x47u8, 0x49u8, 0x46u8, 0x38u8, 0x39u8, 0x61u8])
    } else if ext == "webp"@ {
        data.len() >= 12 && data.subrange(0, 4) == seq![0x52u8, 0x49u8, 0x46u8, 0x46u8]
            && data.subrange(8, 12) == seq![0x57u8, 0x45u8, 0x42u8, 0x50u8]
    } else if ext == "bmp"@ {
        bytes_start_with(data, seq![0x42u8, 0x4Du8])
    } else if ext == "svg"@ {
        valid_utf8(data) && is_svg_text(decode_utf8(data))
    } else {
        false
    }
}

fn chars_contain(v: &[char], p: &[char]) -> (r: bool)
    ensures
        r == has_substring(v@, p@),
{
    if p.len() > v.len() {
        return false;
    }
    let limit = v.len() - p.len();
    let mut i: usize = 0;
    while i < limit
        invariant
            p@.len() <= v@.len(),
            limit == v@.len() - p@.len(),
            i <= limit,
            forall|k: int| 0 <= k < i ==> #[trigger] v@.subrange(k, k + p@.len()) != p@,
        decreases limit - i,
    {
        assert(v@.skip(i as int).take(p@.len() as int) == v@.subrange(i as int, i + p@.len()));
        if starts_with_at(v, i, p) {
            return true;
        }
        i = i + 1;
    }
    assert(v@.skip(limit as int).take(p@.len() as int) == v@.subrange(limit as int, limit + p@.len()));
    starts_with_at(v, limit, p)
}

fn svg_text_ok(text: &str) -> (r: bool)
    ensures
        r == is_svg_text(text@),
{
    let v = to_chars(text);
    let mut lo: usize = 0;
    assert(v@.skip(0) == v@);
    while lo < v.len() && (v[lo] == '\u{feff}' || v[lo] == ' ' || v[lo] == '\t' || v[lo] == '\r'
        || v[lo] == '\n')
        invariant
            lo <= v@.len(),
            trim_svg_lead(v@.skip(lo as int)) == trim_svg_lead(v@),
        decreases v@.len() - lo,
    {
        assert(v@.skip(lo + 1) == v@.skip(lo as int).drop_first());
        lo = lo + 1;
    }
    let t = crate::text::slice_chars(v.as_slice(), lo, v.len());
    assert(t@ == v@.skip(lo as int));
    assert(trim_svg_lead(t@) == t@);
    let svg = to_chars("<svg");
    let xml = to_chars("<?xml");
    let root_ok = crate::text::chars_start_with(t.as_slice(), svg.as_slice()) || (
    crate::text::chars_start_with(t.as_slice(), xml.as_slice()) && chars_contain(
        t.as_slice(),
        svg.as_slice(),
    ));
    let mut lower: Vec<char> = Vec::new();
    let mut i: usize = 0;
    while i < v.len()
        invariant
            i <= v@.len(),
            lower@ == v@.take(i as int).map_values(|c: char| ascii_lower(c)),
        decreases v@.len() - i,
    {
        lower.push(to_ascii_lower(v[i]));
        i = i + 1;
        assert(lower@ =~= v@.take(i as int).map_values(|c: char| ascii_lower(c)));
    }
    assert(v@.take(v@.len() as int) == v@);
    let script = to_chars("<script");
    root_ok && !chars_contain(lower.as_slice(), script.as_slice())
}

/// Whether the bytes of an image match its lower-case extension (see
/// `payload_matches`).
pub fn image_payload_matches_extension(data: &[u8], extension: &str) -> (r: bool)
    ensures
        r == payload_matches(data@, extension@),
{
    if str_eq(extension, "png") {
        let sig: [u8; 8] = [0x89, 0x50, 0x4E, 0x47, 0x0D, 0x0A, 0x1A, 0x0A];
        assert(sig@ == seq![0x89u8, 0x50u8, 0x4Eu8, 0x47u8, 0x0Du8, 0x0Au8, 0x1Au8, 0x0Au8]);
        bytes_start(data, &sig)
    } else if str_eq(extension, "jpg") || str_eq(extension, "jpeg") {
        let sig: [u8; 3] = [0xFF, 0xD8, 0xFF];
        assert(sig@ == seq![0xFFu8, 0xD8u8, 0xFFu8]);
        bytes_start(data, &sig)
    } else if str_eq(extension, "gif") {
        let a: [u8; 6] = [0x47, 0x49, 0x46, 0x38, 0x37, 0x61];
        let b: [u8; 6] = [0x47, 0x49, 0x46, 0x38, 0x39, 0x61];
        assert(a@ == seq![0x47u8, 0x49u8, 0x46u8, 0x38u8, 0x37u8, 0x61u8]);
        assert(b@ == seq![0x47u8, 0x49u8, 0x46u8, 0x38u8, 0x39u8, 0x61u8]);
        bytes_start(data, &a) || bytes_start(data, &b)
    } else if str_eq(extension, "webp") {
        if data.len() < 12 {
            return false;
        }
        let ok = data[0] == 0x52 && data[1] == 0x49 && data[2] == 0x46 && data[3] == 0x46 && data[8]
            == 0x57 && data[9] == 0x45 && data[10] == 0x42 && data[11] == 0x50;
        assert(ok == (data@.subrange(0, 4) == seq![0x52u8, 0x49u8, 0x46u8, 0x46u8] && data@.subrange(8, 12)
            == seq![0x57u8, 0x45u8, 0x42u8, 0x50u8])) by {
            if data@.subrange(0, 4) == seq![0x52u8, 0x49u8, 0x46u8, 0x46u8] {
                assert(data@.subrange(0, 4)[1] == data@[1]);
                assert(data@.subrange(0, 4)[2] == data@[2]);
                assert(data@.subrange(0, 4)[3] == data@[3]);
            }
            if data@.subrange(8, 12) == seq![0x57u8, 0x45u8, 0x42u8, 0x50u8] {
                assert(data@.subrange(8, 12)[0] == data@[8]);
                assert(data@.subrange(8, 12)[1] == data@[9]);
                assert(data@.subrange(8, 12)[2] == data@[10]);
                assert(data@.subrange(8, 12)[3] == data@[11]);
            }
            if ok {
                assert(data@.subrange(0, 4) =~= seq![0x52u8, 0x49u8, 0x46u8, 0x46u8]);
                assert(data@.subrange(8, 12) =~= seq![0x57u8, 0x45u8, 0x42u8, 0x50u8]);
            }
        }
        ok
    } else if str_eq(extension, "bmp") {
        let sig: [u8; 2] = [0x42, 0x4D];
        assert(sig@ == seq![0x42u8, 0x4Du8]);
        bytes_start(data, &sig)
    } else if str_eq(extension, "svg") {
        match utf8_text(data) {
            Some(text) => svg_text_ok(text.as_str()),
            None => false,
        }
    } else {
        false
    }
}

/// The extensions of images that may be stored.
pub open spec fn is_allowed_image_extension(ext: Seq<char>) -> bool {
    ext == "png"@ || ext == "jpg"@ || ext == "jpeg"@ || ext == "gif"@ || ext == "webp"@ || ext
        == "bmp"@ || ext == "svg"@
}

/// The largest image that may be stored: 50 MiB.
pub open spec fn max_image_size() -> int {
    52428800int
}

/// Where a stored image is referenced from a note: `images/<note id>/<file>`.
pub open spec fn image_reference(note_id: Seq<char>, file_name: Seq<char>) -> Seq<char> {
    "images/"@ + note_id + "/"@ + file_name
}

/// A stored image: the reference to write into the note, and the path of
/// the file to write the bytes to.
#[derive(Debug)]
pub struct StoredImage {
    pub reference: String,
    pub path: String,
}

impl NoteStore {
    /// Decides how an image pasted into note `note_id` is stored. Refused,
    /// in this order, when larger than 50 MiB (`imageTooLarge`), when its
    /// extension (in ASCII lower case) is not an image format
    /// (`unsupportedImageFormat`), when the bytes do not match the
    /// extension (`invalidImageData`), and for an unusable note id.
    /// Otherwise it is stored as `<fresh uuid>.<ext>` in the note's image
    /// directory. The caller has found the note first.
    pub fn save_image(&self, note_id: &str, data: &[u8], extension: &str) -> (r: Result<
        StoredImage,
        AppError,
    >)
        ensures
            data@.len() > max_image_size() ==> (r matches Err(e) && e.wf() && e.code@
                == "imageTooLarge"@ && e.message@ == "单张图片不能超过 50 MB"@),
            ({
                let ext = extension@.map_values(|c: char| ascii_lower(c));
                &&& data@.len() <= max_image_size() && !is_allowed_image_extension(ext) ==> (r matches Err(e)
                    && e.wf() && e.code@ == "unsupportedImageFormat"@ && e.message@ == "不支持的图片格式: "@ + ext)
                &&& data@.len() <= max_image_size() && is_allowed_image_extension(ext)
                    && !payload_matches(data@, ext) ==> (r matches Err(e) && e.wf() && e.code@
                    == "invalidImageData"@ && e.message@ == "图片内容与扩展名不匹配"@)
                &&& data@.len() <= max_image_size() && is_allowed_image_extension(ext)
                    && payload_matches(data@, ext) ==> (r is Ok <==> is_safe_component(note_id@))
                &&& r matches Ok(img) ==> exists|u: Seq<char>|
                    is_hyphenated_uuid(u) && img.reference@ == #[trigger] image_reference(
                        note_id@,
                        u + "."@ + ext,
                    ) && img.path@ == path_join(
                        path_join(path_join(self.data_dir@, "images"@), note_id@),
                        u + "."@ + ext,
                    )
            }),
    {
        if data.len() > 50 * 1024 * 1024 {
            return Err(err("imageTooLarge", "单张图片不能超过 50 MB"));
        }
        let v = to_chars(extension);
        let mut e: Vec<char> = Vec::new();
        let mut i: usize = 0;
        while i < v.len()
            invariant
                i <= v@.len(),
                e@ == v@.take(i as int).map_values(|c: char| ascii_lower(c)),
            decreases v@.len() - i,
        {
            e.push(to_ascii_lower(v[i]));
            i = i + 1;
            assert(e@ =~= v@.take(i as int).map_values(|c: char| ascii_lower(c)));
        }
        assert(v@.take(v@.len() as int) == v@);
        let ext = string_from_chars(e.as_slice());
        let x = ext.as_str();
        let allowed = str_eq(x, "png") || str_eq(x, "jpg") || str_eq(x, "jpeg") || str_eq(x, "gif")
            || str_eq(x, "webp") || str_eq(x, "bmp") || str_eq(x, "svg");
        if !allowed {
            let mut m: Vec<char> = Vec::new();
            append_str(&mut m, "不支持的图片格式: ");
            append_str(&mut m, x);
            return Err(AppError::new(string_of("unsupportedImageFormat"), string_from_chars(m.as_slice())));
        }
        if !image_payload_matches_extension(data, x) {
            return Err(err("invalidImageData", "图片内容与扩展名不匹配"));
        }
        let dir = match self.images_dir(note_id) {
            Err(e) => {
                return Err(e);
            },
            Ok(d) => d,
        };
        let id = new_uuid_v4();
        let mut f: Vec<char> = Vec::new();
        append_str(&mut f, id.as_str());
        append_str(&mut f, ".");
        append_str(&mut f, x);
        let file_name = string_from_chars(f.as_slice());
        let mut rf: Vec<char> = Vec::new();
        append_str(&mut rf, "images/");
        append_str(&mut rf, note_id);
        append_str(&mut rf, "/");
        append_str(&mut rf, file_name.as_str());
        let reference = string_from_chars(rf.as_slice());
        let path = join_path(dir.as_str(), file_name.as_str());
        assert(reference@ == image_reference(note_id@, id@ + "."@ + ext@));
        Ok(StoredImage { reference, path })
    }

    /// The stored images of note `note_id` (the names of the files in its
    /// image directory) that its content no longer references, in listing
    /// order; the caller deletes them, and the directory when no image
    /// remains. Fails for an unusable note id.
    pub fn clean_unused_images(&self, note_id: &str, content: &str, files: &Vec<String>) -> (r: Result<
        Vec<String>,
        AppError,
    >)
        ensures
            r is Ok <==> is_safe_component(note_id@),
            r matches Ok(v) ==> v@ == files@.filter(
                |f: String| !has_substring(content@, image_reference(note_id@, f@)),
            ),
    {
        match self.images_dir(note_id) {
            Err(e) => {
                return Err(e);
            },
            Ok(_) => {},
        }
        let c = to_chars(content);
        let ghost all = files@;
        let mut removed: Vec<String> = Vec::new();
        let mut i: usize = 0;
        while i < files.len()
            invariant
                i <= files@.len(),
                all == files@,
                c@ == content@,
                removed@ == all.take(i as int).filter(
                    |f: String| !has_substring(content@, image_reference(note_id@, f@)),
                ),
            decreases files@.len() - i,
        {
            proof {
                reveal_with_fuel(Seq::<_>::filter, 1);
                assert(all.take(i + 1).drop_last() == all.take(i as int));
            }
            let mut rf: Vec<char> = Vec::new();
            append_str(&mut rf, "images/");
            append_str(&mut rf, note_id);
            append_str(&mut rf, "/");
            append_str(&mut rf, files[i].as_str());
            assert(rf@ == image_reference(note_id@, files@[i as int]@));
            if !chars_contain(c.as_slice(), rf.as_slice()) {
                removed.push(files[i].clone());
            }
            i = i + 1;
        }
        assert(all.take(all.len() as int) == all);
        Ok(removed)
    }
}

} // verus!
