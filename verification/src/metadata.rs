//! The metadata record builder: format sniffing with extension fallback,
//! dimensions and color depth, the reduced aspect ratio, the data URL, and
//! the EXIF directory rendered as an insertion-ordered JSON object.

use vstd::prelude::*;

use crate::encode::{b64_decode_of, b64_encode, b64_of};
use crate::exifdata::{exif_fields, exif_fields_of, field_view, ExifField};
use crate::sniff::{ext_mime_of, mime_from_path, sniff_format, sniffed_of};
use crate::strutil::{find_last, push_char, spec_dec, u32_to_string, upper_of, uppercase};
use vstd::string::StringExecFns;

verus! {

/// The sample layout of a decoded image, as the codec reports it.
#[derive(Clone, Copy, Debug, PartialEq, Eq, Structural)]
pub enum ColorKind {
    L8,
    La8,
    Rgb8,
    Rgba8,
    L16,
    La16,
    Rgb16,
    Rgba16,
    Rgb32F,
    Rgba32F,
    Other,
}

/// The color depth in bits for a sample layout, when one is defined.
pub open spec fn spec_color_depth(c: ColorKind) -> Option<u8> {
    match c {
        ColorKind::L8 | ColorKind::La8 | ColorKind::Rgb8 | ColorKind::Rgba8 => Some(8u8),
        ColorKind::L16 | ColorKind::La16 | ColorKind::Rgb16 | ColorKind::Rgba16 => Some(16u8),
        ColorKind::Rgb32F | ColorKind::Rgba32F => Some(32u8),
        ColorKind::Other => None,
    }
}

/// Maps a sample layout to its color depth in bits.
pub fn get_color_depth(c: ColorKind) -> (r: Option<u8>)
    ensures
        r == spec_color_depth(c),
{
    match c {
        ColorKind::L8 | ColorKind::La8 | ColorKind::Rgb8 | ColorKind::Rgba8 => Some(8),
        ColorKind::L16 | ColorKind::La16 | ColorKind::Rgb16 | ColorKind::Rgba16 => Some(16),
        ColorKind::Rgb32F | ColorKind::Rgba32F => Some(32),
        ColorKind::Other => None,
    }
}

/// What the decoder reports for a buffer: pixel dimensions and sample
/// layout, or nothing for undecodable input. A function of the bytes alone.
pub uninterp spec fn dims_of(b: Seq<u8>) -> Option<(u32, u32, ColorKind)>;

/// Relies on `image::ImageReader` with `with_guessed_format` and
/// `into_decoder`, and on the decoder's `dimensions` and `color_type`: reads
/// the dimensions and sample layout of an image buffer without a full
/// decode. `with_guessed_format` recognizes the container with the same
/// magic table as `guess_format`, so reading the details implies the sniff
/// succeeds on the same bytes.
#[verifier::external_body]
fn image_dims(bytes: &[u8]) -> (r: Option<(u32, u32, ColorKind)>)
    ensures
        r == dims_of(bytes@),
        r is Some ==> (sniffed_of(bytes@) is Some),
{
    let reader = image::ImageReader::new(std::io::Cursor::new(bytes)).with_guessed_format().ok()?;
    let decoder = reader.into_decoder().ok()?;
    let (w, h) = image::ImageDecoder::dimensions(&decoder);
    let kind = match image::ImageDecoder::color_type(&decoder) {
        image::ColorType::L8 => ColorKind::L8, image::ColorType::La8 => ColorKind::La8,
        image::ColorType::Rgb8 => ColorKind::Rgb8, image::ColorType::Rgba8 => ColorKind::Rgba8,
        image::ColorType::L16 => ColorKind::L16, image::ColorType::La16 => ColorKind::La16,
        image::ColorType::Rgb16 => ColorKind::Rgb16, image::ColorType::Rgba16 => ColorKind::Rgba16,
        image::ColorType::Rgb32F => ColorKind::Rgb32F, image::ColorType::Rgba32F => ColorKind::Rgba32F,
        _ => ColorKind::Other,
    };
    Some((w, h, kind))
}

/// The greatest common divisor, by Euclid's algorithm.
pub open spec fn spec_gcd(a: int, b: int) -> int
    decreases b,
{
    if b <= 0 {
        a
    } else {
        spec_gcd(b, a % b)
    }
}

/// Euclid's algorithm.
pub fn gcd(a: u32, b: u32) -> (r: u32)
    ensures
        r == spec_gcd(a as int, b as int),
    decreases b,
{
    if b == 0 {
        a
    } else {
        gcd(b, a % b)
    }
}

/// The reduced aspect ratio as characters: `w:h` in lowest terms, empty when
/// either dimension is zero (the guard against dividing by zero).
pub open spec fn spec_aspect(w: int, h: int) -> Seq<char> {
    if w == 0 || h == 0 {
        Seq::empty()
    } else {
        spec_dec(w / spec_gcd(w, h)) + seq![':'] + spec_dec(h / spec_gcd(w, h))
    }
}

/// The divisor used by `spec_aspect` is positive for positive inputs.
proof fn lemma_gcd_pos(a: int, b: int)
    requires
        a > 0,
        b >= 0,
    ensures
        spec_gcd(a, b) > 0,
    decreases b,
{
    if b > 0 {
        lemma_gcd_pos(b, a % b);
    }
}

/// Formats the reduced aspect ratio of a pixel size.
pub fn compute_aspect_ratio(width: u32, height: u32) -> (r: String)
    ensures
        r@ == spec_aspect(width as int, height as int),
{
    if width == 0 || height == 0 {
        let s = String::new();
        proof {
            assert(s@ =~= spec_aspect(width as int, height as int));
        }
        return s;
    }
    proof {
        lemma_gcd_pos(width as int, height as int);
    }
    let divisor = gcd(width, height);
    let mut s = u32_to_string(width / divisor);
    push_char(&mut s, ':');
    let tail = u32_to_string(height / divisor);
    s.append(tail.as_str());
    proof {
        assert(s@ =~= spec_aspect(width as int, height as int));
    }
    s
}

/// The extension of a path: the characters after the last `.` of the final
/// path component, empty when that component has no `.` past its first
/// character.
pub open spec fn spec_extension(path: Seq<char>) -> Seq<char> {
    let name = match path.index_of_last('/') {
        Some(s) => path.subrange(s + 1, path.len() as int),
        None => path,
    };
    match name.index_of_last('.') {
        Some(d) => if d > 0 {
            name.subrange(d + 1, name.len() as int)
        } else {
            Seq::empty()
        },
        None => Seq::empty(),
    }
}

/// Extracts the extension of a path.
fn path_extension(path: &str) -> (r: String)
    ensures
        r@ == spec_extension(path@),
{
    let n = path.unicode_len();
    proof {
        assert(path@.subrange(0, n as int) =~= path@);
    }
    let start = match find_last(path, 0, n, '/') {
        Some(s) => s + 1,
        None => 0,
    };
    let ghost name = match path@.index_of_last('/') {
        Some(s) => path@.subrange(s + 1, path@.len() as int),
        None => path@,
    };
    proof {
        path@.index_of_last_ensures('/');
        assert(name =~= path@.subrange(start as int, n as int));
    }
    let dot = find_last(path, start, n, '.');
    proof {
        path@.subrange(start as int, n as int).index_of_last_ensures('.');
    }
    match dot {
        Some(d) => {
            if d > start {
                let ext = path.substring_char(d + 1, n).to_owned();
                proof {
                    assert(ext@ =~= name.subrange(
                        d - start + 1,
                        name.len() as int,
                    ));
                }
                ext
            } else {
                let s = String::new();
                proof {
                    assert(s@ =~= Seq::<char>::empty());
                }
                s
            }
        },
        None => {
            let s = String::new();
            proof {
                assert(s@ =~= Seq::<char>::empty());
            }
            s
        },
    }
}



/// A hexadecimal digit character (lower case).
pub open spec fn spec_hex_digit(d: int) -> char {
    if d < 10 {
        ((48 + d) as u8) as char
    } else {
        ((87 + d) as u8) as char
    }
}

/// The JSON escape of one character: the short escapes for quote, backslash
/// and the common control characters, `\u00XX` for the other controls, the
/// character itself otherwise.
pub open spec fn spec_escape_char(c: char) -> Seq<char> {
    if c == '"' {
        seq!['\\', '"']
    } else if c == '\\' {
        seq!['\\', '\\']
    } else if c == '\u{8}' {
        seq!['\\', 'b']
    } else if c == '\t' {
        seq!['\\', 't']
    } else if c == '\n' {
        seq!['\\', 'n']
    } else if c == '\u{c}' {
        seq!['\\', 'f']
    } else if c == '\r' {
        seq!['\\', 'r']
    } else if (c as u32) < 32 {
        seq!['\\', 'u', '0', '0', spec_hex_digit((c as int) / 16), spec_hex_digit((c as int) % 16)]
    } else {
        seq![c]
    }
}

/// The JSON escape of a string, character by character.
pub open spec fn spec_escape(s: Seq<char>) -> Seq<char>
    decreases s.len(),
{
    if s.len() == 0 {
        Seq::empty()
    } else {
        spec_escape_char(s[0]) + spec_escape(s.drop_first())
    }
}

/// Escaping distributes over appending one character at the end.
proof fn lemma_escape_push(t: Seq<char>, c: char)
    ensures
        spec_escape(t.push(c)) == spec_escape(t) + spec_escape_char(c),
    decreases t.len(),
{
    if t.len() == 0 {
        assert(t.push(c).drop_first() =~= Seq::<char>::empty());
        assert(t.push(c)[0] == c);
        assert(spec_escape(Seq::<char>::empty()) =~= Seq::<char>::empty());
        assert(spec_escape(t.push(c)) =~= spec_escape_char(c) + spec_escape(
            t.push(c).drop_first(),
        ));
        assert(spec_escape(t.push(c)) =~= spec_escape(t) + spec_escape_char(c));
    } else {
        lemma_escape_push(t.drop_first(), c);
        assert(t.push(c).drop_first() =~= t.drop_first().push(c));
        assert(spec_escape(t.push(c)) =~= spec_escape(t) + spec_escape_char(c));
    }
}

/// Appends the JSON escape of one character.
fn push_escaped_char(out: &mut String, c: char)
    ensures
        final (out)@ == old(out)@ + spec_escape_char(c),
{
    let u = c as u32;
    if c == '"' {
        push_char(out, '\\');
        push_char(out, '"');
    } else if c == '\\' {
        push_char(out, '\\');
        push_char(out, '\\');
    } else if c == '\u{8}' {
        push_char(out, '\\');
        push_char(out, 'b');
    } else if c == '\t' {
        push_char(out, '\\');
        push_char(out, 't');
    } else if c == '\n' {
        push_char(out, '\\');
        push_char(out, 'n');
    } else if c == '\u{c}' {
        push_char(out, '\\');
        push_char(out, 'f');
    } else if c == '\r' {
        push_char(out, '\\');
        push_char(out, 'r');
    } else if u < 32 {
        push_char(out, '\\');
        push_char(out, 'u');
        push_char(out, '0');
        push_char(out, '0');
        let hi = (u / 16) as u8;
        let lo = (u % 16) as u8;
        let hic: char = if hi < 10 {
            (48 + hi) as char
        } else {
            (87 + hi) as char
        };
        let loc: char = if lo < 10 {
            (48 + lo) as char
        } else {
            (87 + lo) as char
        };
        push_char(out, hic);
        push_char(out, loc);
    } else {
        push_char(out, c);
    }
    proof {
        assert(final (out)@ =~= old(out)@ + spec_escape_char(c));
    }
}

/// Appends the JSON escape of a whole string.
fn append_escaped(out: &mut String, s: &str)
    ensures
        final (out)@ == old(out)@ + spec_escape(s@),
{
    let n = s.unicode_len();
    let mut i: usize = 0;
    proof {
        assert(s@.take(0) =~= Seq::<char>::empty());
        assert(out@ =~= old(out)@ + spec_escape(s@.take(0)));
    }
    while i < n
        invariant
            n == s@.len(),
            i <= n,
            out@ == old(out)@ + spec_escape(s@.take(i as int)),
        decreases n - i,
    {
        let c = s.get_char(i);
        push_escaped_char(out, c);
        proof {
            assert(s@.take(i + 1) =~= s@.take(i as int).push(s@[i as int]));
            lemma_escape_push(s@.take(i as int), s@[i as int]);
        }
        i = i + 1;
    }
    proof {
        assert(s@.take(n as int) =~= s@);
    }
}

/// One JSON member: the escaped key and escaped value, both quoted.
pub open spec fn spec_json_entry(k: Seq<char>, v: Seq<char>) -> Seq<char> {
    seq!['"'] + spec_escape(k) + seq!['"', ':', '"'] + spec_escape(v) + seq!['"']
}

/// The members of a JSON object, comma-separated, in order.
pub open spec fn spec_json_body(ps: Seq<(Seq<char>, Seq<char>)>) -> Seq<char>
    decreases ps.len(),
{
    if ps.len() == 0 {
        Seq::empty()
    } else if ps.len() == 1 {
        spec_json_entry(ps[0].0, ps[0].1)
    } else {
        spec_json_entry(ps[0].0, ps[0].1) + seq![','] + spec_json_body(ps.drop_first())
    }
}

/// The body grows at the end by a comma (past the first member) and the new
/// member.
proof fn lemma_json_body_push(t: Seq<(Seq<char>, Seq<char>)>, p: (Seq<char>, Seq<char>))
    ensures
        t.len() == 0 ==> spec_json_body(t.push(p)) == spec_json_entry(p.0, p.1),
        t.len() > 0 ==> spec_json_body(t.push(p)) == spec_json_body(t) + seq![',']
            + spec_json_entry(p.0, p.1),
    decreases t.len(),
{
    if t.len() == 0 {
        assert(t.push(p)[0] == p);
    } else {
        lemma_json_body_push(t.drop_first(), p);
        assert(t.push(p).drop_first() =~= t.drop_first().push(p));
        if t.len() == 1 {
            assert(spec_json_body(t.push(p)) =~= spec_json_body(t) + seq![','] + spec_json_entry(
                p.0,
                p.1,
            ));
        } else {
            assert(spec_json_body(t.push(p)) =~= spec_json_body(t) + seq![','] + spec_json_entry(
                p.0,
                p.1,
            ));
        }
    }
}

/// A flat JSON object over ordered members.
pub open spec fn spec_json_object(ps: Seq<(Seq<char>, Seq<char>)>) -> Seq<char> {
    seq!['{'] + spec_json_body(ps) + seq!['}']
}

/// The key/value pair that one EXIF field contributes to the record:
/// nothing for a binary field, the UTF-8 text for a byte-array field (or
/// nothing when it is not UTF-8), the displayed value otherwise.
pub open spec fn spec_field_pair(
    f: (Seq<char>, Seq<char>, bool, bool, Option<Seq<char>>),
) -> Option<(Seq<char>, Seq<char>)> {
    if f.2 {
        None
    } else if f.3 {
        match f.4 {
            Some(t) => Some((f.0, t)),
            None => None,
        }
    } else {
        Some((f.0, f.1))
    }
}

/// The record pairs of an EXIF field list, in order, skipping fields that
/// contribute nothing.
pub open spec fn spec_meta_pairs(
    fs: Seq<(Seq<char>, Seq<char>, bool, bool, Option<Seq<char>>)>,
) -> Seq<(Seq<char>, Seq<char>)>
    decreases fs.len(),
{
    if fs.len() == 0 {
        Seq::empty()
    } else {
        let head = match spec_field_pair(fs[0]) {
            Some(p) => seq![p],
            None => Seq::empty(),
        };
        head + spec_meta_pairs(fs.drop_first())
    }
}

/// The record pairs grow at the end by the new field's contribution.
proof fn lemma_meta_pairs_push(
    t: Seq<(Seq<char>, Seq<char>, bool, bool, Option<Seq<char>>)>,
    f: (Seq<char>, Seq<char>, bool, bool, Option<Seq<char>>),
)
    ensures
        spec_field_pair(f) matches Some(p) ==> spec_meta_pairs(t.push(f)) == spec_meta_pairs(
            t,
        ).push(p),
        spec_field_pair(f) is None ==> spec_meta_pairs(t.push(f)) == spec_meta_pairs(t),
    decreases t.len(),
{
    if t.len() == 0 {
        assert(t.push(f)[0] == f);
        assert(t.push(f).drop_first() =~= Seq::<
            (Seq<char>, Seq<char>, bool, bool, Option<Seq<char>>),
        >::empty());
        assert(spec_meta_pairs(
            Seq::<(Seq<char>, Seq<char>, bool, bool, Option<Seq<char>>)>::empty(),
        ) =~= Seq::<(Seq<char>, Seq<char>)>::empty());
        match spec_field_pair(f) {
            Some(p) => {
                assert(spec_meta_pairs(t.push(f)) =~= seq![p] + spec_meta_pairs(
                    t.push(f).drop_first(),
                ));
                assert(spec_meta_pairs(t.push(f)) =~= spec_meta_pairs(t).push(p));
            },
            None => {
                assert(spec_meta_pairs(t.push(f)) =~= Seq::<(Seq<char>, Seq<char>)>::empty()
                    + spec_meta_pairs(t.push(f).drop_first()));
                assert(spec_meta_pairs(t.push(f)) =~= spec_meta_pairs(t));
            },
        }
    } else {
        lemma_meta_pairs_push(t.drop_first(), f);
        assert(t.push(f).drop_first() =~= t.drop_first().push(f));
        assert(t.push(f)[0] == t[0]);
        match spec_field_pair(f) {
            Some(p) => {
                assert(spec_meta_pairs(t.push(f)) =~= spec_meta_pairs(t).push(p));
            },
            None => {
                assert(spec_meta_pairs(t.push(f)) =~= spec_meta_pairs(t));
            },
        }
    }
}

/// Renders the EXIF field list as a flat JSON object, keys in field order.
#[verifier::rlimit(60)]
fn build_exif_json(fields: &Vec<ExifField>) -> (r: String)
    ensures
        r@ == spec_json_object(
            spec_meta_pairs(Seq::new(fields@.len(), |i: int| field_view(fields@[i]))),
        ),
{
    let ghost fs = Seq::new(fields@.len(), |i: int| field_view(fields@[i]));
    let n = fields.len();
    let mut out = String::new();
    push_char(&mut out, '{');
    let mut any = false;
    let mut i: usize = 0;
    proof {
        assert(fs.take(0) =~= Seq::<(Seq<char>, Seq<char>, bool, bool, Option<Seq<char>>)>::empty());
        assert(out@ =~= seq!['{'] + spec_json_body(spec_meta_pairs(fs.take(0))));
    }
    while i < n
        invariant
            n == fields@.len(),
            i <= n,
            fs == Seq::new(fields@.len(), |j: int| field_view(fields@[j])),
            out@ == seq!['{'] + spec_json_body(spec_meta_pairs(fs.take(i as int))),
            any == (spec_meta_pairs(fs.take(i as int)).len() > 0),
        decreases n - i,
    {
        let f = &fields[i];
        let ghost fv = field_view(fields@[i as int]);
        let ghost pairs_before = spec_meta_pairs(fs.take(i as int));
        proof {
            assert(fs.take(i + 1) =~= fs.take(i as int).push(fs[i as int]));
            assert(fs[i as int] == fv);
            lemma_meta_pairs_push(fs.take(i as int), fv);
        }
        if f.is_undefined {
            proof {
                assert(spec_field_pair(fv) is None);
            }
        } else if f.is_byte {
            match &f.byte_text {
                Some(t) => {
                    if any {
                        push_char(&mut out, ',');
                    }
                    push_char(&mut out, '"');
                    append_escaped(&mut out, f.tag.as_str());
                    push_char(&mut out, '"');
                    push_char(&mut out, ':');
                    push_char(&mut out, '"');
                    append_escaped(&mut out, t.as_str());
                    push_char(&mut out, '"');
                    proof {
                        assert(spec_field_pair(fv) == Some((f.tag@, t@)));
                        lemma_json_body_push(pairs_before, (f.tag@, t@));
                        assert(out@ =~= seq!['{'] + spec_json_body(
                            spec_meta_pairs(fs.take(i + 1)),
                        ));
                    }
                    any = true;
                },
                None => {
                    proof {
                        assert(spec_field_pair(fv) is None);
                    }
                },
            }
        } else {
            if any {
                push_char(&mut out, ',');
            }
            push_char(&mut out, '"');
            append_escaped(&mut out, f.tag.as_str());
            push_char(&mut out, '"');
            push_char(&mut out, ':');
            push_char(&mut out, '"');
            append_escaped(&mut out, f.display.as_str());
            push_char(&mut out, '"');
            proof {
                assert(spec_field_pair(fv) == Some((f.tag@, f.display@)));
                lemma_json_body_push(pairs_before, (f.tag@, f.display@));
                assert(out@ =~= seq!['{'] + spec_json_body(spec_meta_pairs(fs.take(i + 1))));
            }
            any = true;
        }
        i = i + 1;
    }
    push_char(&mut out, '}');
    proof {
        assert(fs.take(n as int) =~= fs);
        assert(out@ =~= spec_json_object(spec_meta_pairs(fs)));
    }
    out
}

/// A metadata record for one file: the data URL of its raw bytes, its EXIF
/// directory as a JSON object, dimensions, reduced aspect ratio, format name
/// and color depth. Built fresh per read request, never mutated afterwards.
pub struct ImageMetadata {
    pub image_data: String,
    pub exif_data: String,
    pub width: u32,
    pub height: u32,
    pub aspect_ratio: String,
    pub format: String,
    pub color_depth: Option<u8>,
}

/// Builds the data URL of a byte buffer under a MIME type; the base64
/// payload decodes back to exactly the bytes.
fn build_data_url(mime: &str, bytes: &[u8]) -> (r: String)
    ensures
        r@ == "data:"@ + mime@ + ";base64,"@ + b64_of(bytes@),
        b64_decode_of(b64_of(bytes@)) == Some(bytes@),
{
    let mut s = "data:".to_owned();
    s.append(mime);
    s.append(";base64,");
    let b64 = b64_encode(bytes);
    s.append(b64.as_str());
    s
}

/// The MIME essence and format name of a buffer: sniffed from its magic
/// bytes, else the extension's MIME guess (the octet-stream essence when
/// the extension has none) beside the upper-cased extension.
pub open spec fn spec_mime_format(path: Seq<char>, b: Seq<u8>) -> (Seq<char>, Seq<char>) {
    match sniffed_of(b) {
        Some(p) => p,
        None => (
            match ext_mime_of(path) {
                Some(m) => m,
                None => "application/octet-stream"@,
            },
            upper_of(spec_extension(path)),
        ),
    }
}

/// What the record's dimensions and depth must be: exactly what the decoder
/// reports.
pub open spec fn spec_metadata_dims_ok(b: Seq<u8>, m: ImageMetadata) -> bool {
    dims_of(b) matches Some(d) && m.width == d.0 && m.height == d.1 && m.color_depth
        == spec_color_depth(d.2)
}

/// What the record's EXIF text must be: the ordered JSON object of the
/// readable directory, or empty when none reads.
pub open spec fn spec_metadata_exif_ok(b: Seq<u8>, m: ImageMetadata) -> bool {
    match exif_fields_of(b) {
        Some(fs) => m.exif_data@ == spec_json_object(spec_meta_pairs(fs)),
        None => m.exif_data@.len() == 0,
    }
}

/// Every promise of a successfully built record: dimensions, depth, aspect
/// ratio, format, data URL, and EXIF text.
pub open spec fn spec_metadata_ok(path: Seq<char>, b: Seq<u8>, m: ImageMetadata) -> bool {
    &&& spec_metadata_dims_ok(b, m)
    &&& m.aspect_ratio@ == spec_aspect(m.width as int, m.height as int)
    &&& m.format@ == spec_mime_format(path, b).1
    &&& m.format@.len() > 0
    &&& m.image_data@ == "data:"@ + spec_mime_format(path, b).0 + ";base64,"@ + b64_of(b)
    &&& b64_decode_of(b64_of(b)) == Some(b)
    &&& spec_metadata_exif_ok(b, m)
}

/// Builds the metadata record of a file from its path and raw bytes: format
/// (sniffed, falling back to the extension), dimensions and color depth from
/// the decoder, the reduced aspect ratio, the base64 data URL, and the EXIF
/// directory as ordered JSON (empty when no EXIF block reads). Fails exactly
/// when the decoder cannot read the buffer, and then returns no partial
/// record.
pub fn process_image_metadata(path: &str, bytes: &[u8]) -> (r: Result<ImageMetadata, String>)
    ensures
        r matches Ok(m) ==> spec_metadata_ok(path@, bytes@, m),
        r is Err ==> (dims_of(bytes@) is None),
        r is Ok ==> (dims_of(bytes@) is Some),
{
    let sniffed = match sniff_format(bytes) {
        Some(p) => p,
        None => {
            let ext = path_extension(path);
            let mime = match mime_from_path(path) {
                Some(m) => m,
                None => "application/octet-stream".to_owned(),
            };
            (mime, uppercase(ext.as_str()))
        },
    };
    let mime = sniffed.0;
    let format = sniffed.1;
    let dims = match image_dims(bytes) {
        Some(d) => d,
        None => {
            return Err("Failed to read image details".to_owned());
        },
    };
    let width = dims.0;
    let height = dims.1;
    let kind = dims.2;
    let color_depth = get_color_depth(kind);
    let aspect_ratio = compute_aspect_ratio(width, height);
    let image_data = build_data_url(mime.as_str(), bytes);
    let exif_data = match exif_fields(bytes) {
        Some(fields) => build_exif_json(&fields),
        None => String::new(),
    };
    Ok(ImageMetadata { image_data, exif_data, width, height, aspect_ratio, format, color_depth })
}

/// Euclid's divisor divides both inputs.
proof fn lemma_gcd_divides(a: int, b: int)
    requires
        a >= 0,
        b >= 0,
        a > 0 || b > 0,
    ensures
        spec_gcd(a, b) > 0,
        a % spec_gcd(a, b) == 0,
        b % spec_gcd(a, b) == 0,
    decreases b,
{
    if b == 0 {
        vstd::arithmetic::div_mod::lemma_mod_self_0(a);
        assert(0int % a == 0) by {
            vstd::arithmetic::div_mod::lemma_small_mod(0nat, a as nat);
        }
    } else {
        lemma_gcd_divides(b, a % b);
        let g = spec_gcd(b, a % b);
        vstd::arithmetic::div_mod::lemma_fundamental_div_mod(a, b);
        lemma_multiple_mod_zero(b, a / b, g);
        vstd::arithmetic::div_mod::lemma_add_mod_noop(b * (a / b), a % b, g);
        assert((b * (a / b) + a % b) % g == 0) by {
            vstd::arithmetic::div_mod::lemma_small_mod(0nat, g as nat);
        }
    }
}

/// A multiple of a multiple of `d` is a multiple of `d`.
proof fn lemma_multiple_mod_zero(b: int, q: int, d: int)
    requires
        d > 0,
        b % d == 0,
    ensures
        (b * q) % d == 0,
{
    vstd::arithmetic::div_mod::lemma_fundamental_div_mod(b, d);
    assert(b * q == d * ((b / d) * q)) by (nonlinear_arith)
        requires
            b == d * (b / d) + b % d,
            b % d == 0,
    ;
    vstd::arithmetic::div_mod::lemma_mod_multiples_basic((b / d) * q, d);
}

/// Any common divisor of the inputs divides Euclid's result.
proof fn lemma_gcd_greatest(a: int, b: int, d: int)
    requires
        a >= 0,
        b >= 0,
        d > 0,
        a % d == 0,
        b % d == 0,
    ensures
        spec_gcd(a, b) % d == 0,
    decreases b,
{
    if b == 0 {
    } else {
        vstd::arithmetic::div_mod::lemma_fundamental_div_mod(a, b);
        lemma_multiple_mod_zero(b, a / b, d);
        vstd::arithmetic::div_mod::lemma_sub_mod_noop(a, b * (a / b), d);
        assert((a - b * (a / b)) % d == 0) by {
            vstd::arithmetic::div_mod::lemma_small_mod(0nat, d as nat);
        }
        assert(a % b == a - b * (a / b));
        vstd::arithmetic::div_mod::lemma_mod_bound(a, b);
        lemma_gcd_greatest(b, a % b, d);
    }
}

/// The aspect-ratio law: the two numbers the ratio prints are in lowest
/// terms — after dividing by their greatest common divisor they are
/// coprime.
pub proof fn lemma_aspect_lowest_terms(w: int, h: int)
    requires
        w > 0,
        h > 0,
    ensures
        spec_gcd(w / spec_gcd(w, h), h / spec_gcd(w, h)) == 1,
{
    let g = spec_gcd(w, h);
    lemma_gcd_divides(w, h);
    let wq = w / g;
    let hq = h / g;
    vstd::arithmetic::div_mod::lemma_fundamental_div_mod(w, g);
    vstd::arithmetic::div_mod::lemma_fundamental_div_mod(h, g);
    assert(w == g * wq && h == g * hq);
    assert(wq > 0 && hq > 0) by (nonlinear_arith)
        requires
            w == g * wq,
            h == g * hq,
            w > 0,
            h > 0,
            g > 0,
    ;
    let e = spec_gcd(wq, hq);
    lemma_gcd_divides(wq, hq);
    vstd::arithmetic::div_mod::lemma_fundamental_div_mod(wq, e);
    vstd::arithmetic::div_mod::lemma_fundamental_div_mod(hq, e);
    assert(w == (g * e) * (wq / e) && h == (g * e) * (hq / e)) by (nonlinear_arith)
        requires
            w == g * wq,
            h == g * hq,
            wq == e * (wq / e) + wq % e,
            hq == e * (hq / e) + hq % e,
            wq % e == 0,
            hq % e == 0,
    ;
    assert(g * e > 0) by (nonlinear_arith)
        requires
            g > 0,
            e > 0,
    ;
    vstd::arithmetic::div_mod::lemma_mod_multiples_basic(wq / e, g * e);
    vstd::arithmetic::div_mod::lemma_mod_multiples_basic(hq / e, g * e);
    assert((wq / e) * (g * e) == w && (hq / e) * (g * e) == h) by (nonlinear_arith)
        requires
            w == (g * e) * (wq / e),
            h == (g * e) * (hq / e),
    ;
    lemma_gcd_greatest(w, h, g * e);
    vstd::arithmetic::div_mod::lemma_fundamental_div_mod(g, g * e);
    assert(e == 1) by (nonlinear_arith)
        requires
            g == (g * e) * (g / (g * e)) + g % (g * e),
            g % (g * e) == 0,
            g > 0,
            e > 0,
    ;
}

} // verus!
