//! Text sanitizers shared by the builder and the downloader, the
//! Traditional-to-Simplified conversion, image normalization, and the
//! version comparison.

use vstd::prelude::*;
use vstd::string::*;

use crate::text::push_char;

verus! {

/// How one character is written in XML text: `&`, `<` and `>` become
/// entities, everything else stays itself.
pub open spec fn esc_char(c: char) -> Seq<char> {
    if c == '&' {
        "&amp;"@
    } else if c == '<' {
        "&lt;"@
    } else if c == '>' {
        "&gt;"@
    } else {
        seq![c]
    }
}

/// `s` with `&`, `<` and `>` written as XML entities.
pub open spec fn escape_spec(s: Seq<char>) -> Seq<char>
    decreases s.len(),
{
    if s.len() == 0 {
        Seq::empty()
    } else {
        escape_spec(s.drop_last()) + esc_char(s.last())
    }
}

/// Escapes `&`, `<` and `>` for embedding in XML text.
pub fn escape_epub_text(input: &str) -> (r: String)
    ensures
        r@ == escape_spec(input@),
{
    let len = input.unicode_len();
    let mut out = String::new();
    let mut i: usize = 0;
    while i < len
        invariant
            len == input@.len(),
            i <= len,
            out@ == escape_spec(input@.take(i as int)),
        decreases len - i,
    {
        proof {
            assert(input@.take(i + 1).drop_last() =~= input@.take(i as int));
            assert(input@.take(i + 1).last() == input@[i as int]);
        }
        let c = input.get_char(i);
        if c == '&' {
            out.append("&amp;");
        } else if c == '<' {
            out.append("&lt;");
        } else if c == '>' {
            out.append("&gt;");
        } else {
            push_char(&mut out, c);
            assert(out@ =~= escape_spec(input@.take(i as int)) + esc_char(c));
        }
        i += 1;
    }
    proof {
        assert(input@.take(len as int) =~= input@);
    }
    out
}

/// A character the host file system refuses in file names.
pub open spec fn is_invalid_filename_char(c: char) -> bool {
    c == '<' || c == '>' || c == ':' || c == '"' || c == '/' || c == '\\' || c == '|' || c == '?'
        || c == '*'
}

/// `s` with the characters illegal in file names removed.
pub open spec fn remove_invalid_spec(s: Seq<char>) -> Seq<char>
    decreases s.len(),
{
    if s.len() == 0 {
        Seq::empty()
    } else {
        let pre = remove_invalid_spec(s.drop_last());
        if is_invalid_filename_char(s.last()) {
            pre
        } else {
            pre.push(s.last())
        }
    }
}

/// Strips the characters `< > : " / \ | ? *` from a file name.
pub fn remove_invalid_chars(filename: &str) -> (r: String)
    ensures
        r@ == remove_invalid_spec(filename@),
{
    let len = filename.unicode_len();
    let mut out = String::new();
    let mut i: usize = 0;
    while i < len
        invariant
            len == filename@.len(),
            i <= len,
            out@ == remove_invalid_spec(filename@.take(i as int)),
        decreases len - i,
    {
        proof {
            assert(filename@.take(i + 1).drop_last() =~= filename@.take(i as int));
            assert(filename@.take(i + 1).last() == filename@[i as int]);
        }
        let c = filename.get_char(i);
        let bad = c == '<' || c == '>' || c == ':' || c == '"' || c == '/' || c == '\\' || c == '|'
            || c == '?' || c == '*';
        if !bad {
            push_char(&mut out, c);
        }
        i += 1;
    }
    proof {
        assert(filename@.take(len as int) =~= filename@);
    }
    out
}

/// A character XML 1.0 allows in text.
pub open spec fn is_valid_xml_char(c: char) -> bool {
    ||| c as u32 == 0x9
    ||| c as u32 == 0xA
    ||| c as u32 == 0xD
    ||| (0x20 <= c as u32 && c as u32 <= 0xD7FF)
    ||| (0xE000 <= c as u32 && c as u32 <= 0xFFFD)
    ||| (0x10000 <= c as u32 && c as u32 <= 0x10FFFF)
}

/// `s` with the characters XML 1.0 forbids removed.
pub open spec fn remove_invalid_xml_spec(s: Seq<char>) -> Seq<char>
    decreases s.len(),
{
    if s.len() == 0 {
        Seq::empty()
    } else {
        let pre = remove_invalid_xml_spec(s.drop_last());
        if is_valid_xml_char(s.last()) {
            pre.push(s.last())
        } else {
            pre
        }
    }
}

/// Strips the characters XML 1.0 forbids.
pub fn remove_invalid_xml_chars(input: &str) -> (r: String)
    ensures
        r@ == remove_invalid_xml_spec(input@),
{
    let len = input.unicode_len();
    let mut out = String::new();
    let mut i: usize = 0;
    while i < len
        invariant
            len == input@.len(),
            i <= len,
            out@ == remove_invalid_xml_spec(input@.take(i as int)),
        decreases len - i,
    {
        proof {
            assert(input@.take(i + 1).drop_last() =~= input@.take(i as int));
            assert(input@.take(i + 1).last() == input@[i as int]);
        }
        let c = input.get_char(i);
        let u = c as u32;
        let ok = u == 0x9 || u == 0xA || u == 0xD || (0x20 <= u && u <= 0xD7FF) || (0xE000 <= u
            && u <= 0xFFFD) || (0x10000 <= u && u <= 0x10FFFF);
        if ok {
            push_char(&mut out, c);
        }
        i += 1;
    }
    proof {
        assert(input@.take(len as int) =~= input@);
    }
    out
}

/// Escaping followed by stripping the characters XML forbids: the full
/// sanitation every text run gets before it is embedded.
pub open spec fn sanitize_spec(s: Seq<char>) -> Seq<char> {
    remove_invalid_xml_spec(escape_spec(s))
}

/// Escapes `&`, `<`, `>` and strips the characters XML forbids.
pub fn sanitize_text(input: &str) -> (r: String)
    ensures
        r@ == sanitize_spec(input@),
{
    let escaped = escape_epub_text(input);
    remove_invalid_xml_chars(escaped.as_str())
}

/// What fast2s's conversion table yields for `s`.
pub uninterp spec fn simplified_of(s: Seq<char>) -> Seq<char>;

/// Relies on fast2s::convert: Traditional-to-Simplified Chinese conversion
/// by a fixed character table; the result depends on the input characters
/// alone.
#[verifier::external_body]
pub fn t2s(s: &str) -> (r: String)
    ensures
        r@ == simplified_of(s@),
{
    fast2s::convert(s)
}

/// The eight-byte PNG signature opens `d`.
pub open spec fn is_png(d: Seq<u8>) -> bool {
    d.len() >= 8 && d[0] == 0x89 && d[1] == 0x50 && d[2] == 0x4E && d[3] == 0x47 && d[4] == 0x0D
        && d[5] == 0x0A && d[6] == 0x1A && d[7] == 0x0A
}

/// The JPEG start-of-image marker opens `d`.
pub open spec fn is_jpeg(d: Seq<u8>) -> bool {
    d.len() >= 3 && d[0] == 0xFF && d[1] == 0xD8 && d[2] == 0xFF
}

/// What image's decoder and JPEG encoder yield for the image bytes `d`.
pub uninterp spec fn jpeg_of(d: Seq<u8>) -> Seq<u8>;

/// Whether image's decoder reads `d` as an image that its JPEG encoder
/// accepts: whether the transcode succeeds, a function of the bytes alone.
pub uninterp spec fn jpeg_decodable(d: Seq<u8>) -> bool;

/// Relies on image's ImageReader (format guessed from the bytes, then
/// decoded) and JpegEncoder: transcodes an image to JPEG; both the
/// outcome and the result depend on the input bytes alone. `None` exactly
/// when the bytes do not decode or the decoded image cannot be re-encoded.
#[verifier::external_body]
fn transcode_to_jpeg(data: &Vec<u8>) -> (r: Option<Vec<u8>>)
    ensures
        (r is Some) == jpeg_decodable(data@),
        r matches Some(v) ==> v@ == jpeg_of(data@),
{
    let reader = image::ImageReader::new(std::io::Cursor::new(data.as_slice()));
    let guessed = match reader.with_guessed_format() {
        Ok(g) => g,
        Err(_) => return None,
    };
    let img = match guessed.decode() {
        Ok(i) => i,
        Err(_) => return None,
    };
    let mut out = Vec::new();
    match img.write_with_encoder(image::codecs::jpeg::JpegEncoder::new(&mut out)) {
        Ok(()) => Some(out),
        Err(_) => None,
    }
}

/// The bytes handed to the image normalizer did not decode as an image.
#[derive(Debug, PartialEq, Eq)]
pub struct ImageDecodeError;

/// Normalizes image bytes for embedding: PNG and JPEG pass through
/// unchanged, anything else is transcoded to JPEG; only bytes that do not
/// decode are an error.
pub fn img_to_jpg(data: Vec<u8>) -> (r: Result<Vec<u8>, ImageDecodeError>)
    ensures
        is_png(data@) || is_jpeg(data@) ==> (r matches Ok(v) && v@ == data@),
        !(is_png(data@) || is_jpeg(data@)) ==> ((r is Ok) == jpeg_decodable(data@)),
        !(is_png(data@) || is_jpeg(data@)) ==> (r matches Ok(v) ==> v@ == jpeg_of(data@)),
{
    let png = data.len() >= 8 && data[0] == 0x89 && data[1] == 0x50 && data[2] == 0x4E && data[3]
        == 0x47 && data[4] == 0x0D && data[5] == 0x0A && data[6] == 0x1A && data[7] == 0x0A;
    let jpeg = data.len() >= 3 && data[0] == 0xFF && data[1] == 0xD8 && data[2] == 0xFF;
    if png || jpeg {
        Ok(data)
    } else {
        match transcode_to_jpeg(&data) {
            Some(v) => Ok(v),
            None => Err(ImageDecodeError),
        }
    }
}

/// `s` without its leading `v` characters.
pub open spec fn strip_v(s: Seq<char>) -> Seq<char>
    decreases s.len(),
{
    if s.len() > 0 && s[0] == 'v' {
        strip_v(s.drop_first())
    } else {
        s
    }
}

proof fn lemma_strip_v_at(s: Seq<char>, a: int)
    requires
        0 <= a <= s.len(),
        forall|j: int| 0 <= j < a ==> s[j] == 'v',
        a < s.len() ==> s[a] != 'v',
    ensures
        strip_v(s) =~= s.subrange(a, s.len() as int),
    decreases a,
{
    if a == 0 {
    } else {
        let t = s.drop_first();
        assert(t =~= s.subrange(1, s.len() as int));
        lemma_strip_v_at(t, a - 1);
    }
}

/// Whether the ordering semver gives the two version strings says that
/// `remote` is newer than `local`, each read as 0.0.0 when it does not
/// parse.
pub uninterp spec fn semver_newer(local: Seq<char>, remote: Seq<char>) -> bool;

/// Relies on semver::Version::parse and the `Ord` of semver::Version:
/// whether `remote` parses to a strictly greater version than `local`,
/// either falling back to 0.0.0 when it does not parse. A function of the
/// two strings alone.
#[verifier::external_body]
fn semver_is_newer(local: &str, remote: &str) -> (r: bool)
    ensures
        r == semver_newer(local@, remote@),
{
    let local_ver = semver::Version::parse(local).unwrap_or_else(|_| semver::Version::new(0, 0, 0));
    let remote_ver = semver::Version::parse(remote).unwrap_or_else(
        |_| semver::Version::new(0, 0, 0),
    );
    remote_ver > local_ver
}

/// Whether the release tagged `remote` (an optional `v` prefix and a
/// semantic version) is newer than the running `local` version.
pub fn is_newer_version(local: &str, remote: &str) -> (r: bool)
    ensures
        r == semver_newer(local@, strip_v(remote@)),
{
    let len = remote.unicode_len();
    let mut a: usize = 0;
    while a < len && remote.get_char(a) == 'v'
        invariant
            len == remote@.len(),
            a <= len,
            forall|j: int| 0 <= j < a ==> remote@[j] == 'v',
        decreases len - a,
    {
        a += 1;
    }
    proof {
        lemma_strip_v_at(remote@, a as int);
    }
    let stripped = remote.substring_char(a, len);
    semver_is_newer(local, stripped)
}

} // verus!
