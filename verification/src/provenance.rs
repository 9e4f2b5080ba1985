//! The provenance extractor: a brute-force scan for the 16-byte C2PA marker
//! with a heuristic JSON-span extractor, a bundled keyword table, and the
//! four OR-combined probes behind the AI-generation verdict.

use vstd::prelude::*;

use crate::chunks::{extract_png_text_chunks, extract_webp_xmp, spec_png_pairs, spec_webp_xmp};
use crate::exifdata::{exif_fields, exif_fields_of};
use crate::sniff::{ext_mime_of, mime_from_path, sniff_format, sniffed_of};
use crate::strutil::{lower_of, lowercase, spec_contains, str_contains, string_from_utf8};
use vstd::slice::{slice_subrange, slice_to_vec};
use vstd::utf8::{decode_utf8, valid_utf8};

verus! {

/// The 16-byte C2PA marker that indicates a content-provenance store.
pub open spec fn spec_uuid() -> Seq<u8> {
    seq![
        0xD8u8,
        0xFEu8,
        0x07u8,
        0xFFu8,
        0xF1u8,
        0xD9u8,
        0x4Du8,
        0x9Au8,
        0xA0u8,
        0x5Eu8,
        0xA8u8,
        0x0Bu8,
        0x5Au8,
        0x9Fu8,
        0xD8u8,
        0x5Au8,
    ]
}

/// Whether the marker sits at offset `i` of `b`.
pub open spec fn uuid_at(b: Seq<u8>, i: int) -> bool {
    0 <= i && i + 16 <= b.len() && b.subrange(i, i + 16) == spec_uuid()
}

/// The first offset of the marker in `b` at or after `i`, if any.
pub open spec fn spec_first_uuid(b: Seq<u8>, i: int) -> Option<int>
    decreases b.len() - i,
{
    if i < 0 || i + 16 > b.len() {
        None
    } else if uuid_at(b, i) {
        Some(i)
    } else {
        spec_first_uuid(b, i + 1)
    }
}

/// The JSON span that the heuristic store extractor yields for a buffer that
/// starts at the marker: the bytes from the first `{` to the last `}` after
/// the 16-byte marker, when that span is ordered and valid UTF-8. This is a
/// span match, not a parser, and can misfire on nested or unrelated braces;
/// that imprecision is deliberate and kept.
pub open spec fn spec_c2pa_json(b: Seq<u8>) -> Option<Seq<char>> {
    if b.len() < 20 {
        None
    } else {
        let payload = b.subrange(16, b.len() as int);
        match payload.index_of_first(0x7bu8) {
            Some(start) => match payload.index_of_last(0x7du8) {
                Some(end) => if end > start && valid_utf8(payload.subrange(start, end + 1)) {
                    Some(decode_utf8(payload.subrange(start, end + 1)))
                } else {
                    None
                },
                None => None,
            },
            None => None,
        }
    }
}

/// Compares the 16 bytes at offset `i` with the marker.
fn uuid_match_at(bytes: &[u8], i: usize) -> (r: bool)
    requires
        i + 16 <= bytes@.len(),
    ensures
        r == uuid_at(bytes@, i as int),
{
    let n = bytes.len();
    let mut j: usize = 0;
    let mut ok = true;
    while j < 16
        invariant
            n == bytes@.len(),
            i + 16 <= n,
            j <= 16,
            ok ==> forall|l: int| 0 <= l < j ==> bytes@[i + l] == spec_uuid()[l],
            !ok ==> !uuid_at(bytes@, i as int),
        decreases 16 - j,
    {
        let expected = uuid_byte(j);
        if *vstd::slice::slice_index_get(bytes, i + j) != expected {
            proof {
                if uuid_at(bytes@, i as int) {
                    assert(bytes@.subrange(i as int, i + 16)[j as int] == spec_uuid()[j as int]);
                }
            }
            ok = false;
            j = 16;
        } else {
            j = j + 1;
        }
    }
    proof {
        if ok {
            assert(bytes@.subrange(i as int, i + 16) =~= spec_uuid());
        }
    }
    ok
}

/// The marker byte at position `j`.
fn uuid_byte(j: usize) -> (r: u8)
    requires
        j < 16,
    ensures
        r == spec_uuid()[j as int],
{
    if j == 0 {
        0xD8
    } else if j == 1 {
        0xFE
    } else if j == 2 {
        0x07
    } else if j == 3 {
        0xFF
    } else if j == 4 {
        0xF1
    } else if j == 5 {
        0xD9
    } else if j == 6 {
        0x4D
    } else if j == 7 {
        0x9A
    } else if j == 8 {
        0xA0
    } else if j == 9 {
        0x5E
    } else if j == 10 {
        0xA8
    } else if j == 11 {
        0x0B
    } else if j == 12 {
        0x5A
    } else if j == 13 {
        0x9F
    } else if j == 14 {
        0xD8
    } else {
        0x5A
    }
}

/// Finds the first offset of the C2PA marker in a buffer.
fn find_uuid(bytes: &[u8]) -> (r: Option<usize>)
    ensures
        r matches Some(p) ==> spec_first_uuid(bytes@, 0) == Some(p as int) && p + 16 <= bytes@.len(),
        r is None ==> spec_first_uuid(bytes@, 0) is None,
{
    let n = bytes.len();
    if n < 16 {
        return None;
    }
    let mut i: usize = 0;
    while i <= n - 16
        invariant
            n == bytes@.len(),
            16 <= n,
            i <= n - 16 + 1,
            spec_first_uuid(bytes@, i as int) == spec_first_uuid(bytes@, 0),
        decreases n - i,
    {
        if uuid_match_at(bytes, i) {
            return Some(i);
        }
        i = i + 1;
    }
    None
}

/// The heuristic C2PA store extractor: for a buffer that starts at the
/// marker, takes the span from the first `{` to the last `}` after the
/// marker as the JSON payload (a documented imprecision, kept as is), and
/// hands back the payload bytes beside it.
pub fn extract_c2pa_store(bytes: &[u8]) -> (r: Option<(String, Vec<u8>)>)
    ensures
        r matches Some(t) ==> spec_c2pa_json(bytes@) == Some(t.0@) && t.1@ == bytes@.subrange(
            16,
            bytes@.len() as int,
        ),
        r is None ==> spec_c2pa_json(bytes@) is None,
{
    let n = bytes.len();
    if n < 20 {
        return None;
    }
    let ghost payload = bytes@.subrange(16, bytes@.len() as int);
    let start = match find_payload_first(bytes, 0x7b) {
        Some(s) => s,
        None => {
            return None;
        },
    };
    let end = match find_payload_last(bytes, 0x7d) {
        Some(e) => e,
        None => {
            return None;
        },
    };
    proof {
        payload.index_of_first_ensures(0x7bu8);
        payload.index_of_last_ensures(0x7du8);
    }
    if end > start {
        let span = slice_to_vec(slice_subrange(bytes, 16 + start, 16 + end + 1));
        proof {
            assert(span@ =~= payload.subrange(start as int, end + 1));
        }
        match string_from_utf8(span) {
            Some(json) => {
                let store = slice_to_vec(slice_subrange(bytes, 16, n));
                proof {
                    assert(store@ =~= payload);
                }
                Some((json, store))
            },
            None => None,
        }
    } else {
        None
    }
}

/// First position of `target` in the payload part (after the marker).
fn find_payload_first(bytes: &[u8], target: u8) -> (r: Option<usize>)
    requires
        bytes@.len() >= 16,
    ensures
        r matches Some(p) ==> bytes@.subrange(16, bytes@.len() as int).index_of_first(target)
            == Some(p as int),
        r is None ==> bytes@.subrange(16, bytes@.len() as int).index_of_first(target) is None,
{
    let n = bytes.len();
    let ghost payload = bytes@.subrange(16, bytes@.len() as int);
    let mut i: usize = 16;
    while i < n
        invariant
            n == bytes@.len(),
            16 <= i <= n,
            payload == bytes@.subrange(16, bytes@.len() as int),
            forall|k: int| 0 <= k < i - 16 ==> payload[k] != target,
        decreases n - i,
    {
        if *vstd::slice::slice_index_get(bytes, i) == target {
            proof {
                assert(payload[i - 16] == target);
                payload.index_of_first_ensures(target);
            }
            return Some(i - 16);
        }
        i = i + 1;
    }
    proof {
        payload.index_of_first_ensures(target);
    }
    None
}

/// Last position of `target` in the payload part (after the marker).
fn find_payload_last(bytes: &[u8], target: u8) -> (r: Option<usize>)
    requires
        bytes@.len() >= 16,
    ensures
        r matches Some(p) ==> bytes@.subrange(16, bytes@.len() as int).index_of_last(target)
            == Some(p as int),
        r is None ==> bytes@.subrange(16, bytes@.len() as int).index_of_last(target) is None,
{
    let n = bytes.len();
    let ghost payload = bytes@.subrange(16, bytes@.len() as int);
    let mut i: usize = n;
    while i > 16
        invariant
            n == bytes@.len(),
            16 <= i <= n,
            payload == bytes@.subrange(16, bytes@.len() as int),
            forall|k: int| i - 16 <= k < payload.len() ==> payload[k] != target,
        decreases i,
    {
        i = i - 1;
        if *vstd::slice::slice_index_get(bytes, i) == target {
            proof {
                assert(payload[i - 16] == target);
                payload.index_of_last_ensures(target);
            }
            return Some(i - 16);
        }
    }
    proof {
        payload.index_of_last_ensures(target);
    }
    None
}

/// Scans a whole file buffer for the C2PA marker. The flag says whether the
/// marker occurs at all; the string is the heuristic JSON span found after
/// its first occurrence, if one could be read. Presence of the marker alone,
/// without readable JSON, already counts as a positive.
pub fn detect_c2pa(bytes: &[u8]) -> (r: (bool, Option<String>))
    ensures
        r.0 == (spec_first_uuid(bytes@, 0) is Some),
        spec_first_uuid(bytes@, 0) matches Some(p) ==> r.1.deep_view() == spec_c2pa_json(
            bytes@.subrange(p, bytes@.len() as int),
        ),
        spec_first_uuid(bytes@, 0) is None ==> r.1 is None,
{
    let n = bytes.len();
    match find_uuid(bytes) {
        Some(pos) => {
            let suffix = slice_subrange(bytes, pos, n);
            match extract_c2pa_store(suffix) {
                Some((json, _store)) => (true, Some(json)),
                None => (true, None),
            }
        },
        None => (false, None),
    }
}


/// The bundled dictionary of lower-case provenance keywords, modeled as a
/// build-time constant.
pub open spec fn spec_keywords() -> Seq<Seq<char>> {
    seq![
        "midjourney"@,
        "dall-e"@,
        "stable diffusion"@,
        "stablediffusion"@,
        "dreamstudio"@,
        "adobe firefly"@,
        "firefly"@,
        "ai generated"@,
        "generative ai"@,
        "openai"@,
        "novelai"@,
        "comfyui"@,
        "leonardo.ai"@,
        "imagen"@,
    ]
}

/// The process-wide, read-only keyword table: initialized from the bundled
/// dictionary, never mutated afterwards.
pub struct KeywordTable {
    pub keywords: Vec<String>,
}

impl KeywordTable {
    /// The table holds exactly the bundled keywords, in order.
    pub open spec fn wf(self) -> bool {
        self.keywords.deep_view() == spec_keywords()
    }

    /// Builds the table from the bundled dictionary.
    pub fn bundled() -> (t: KeywordTable)
        ensures
            t.wf(),
    {
        let mut v: Vec<String> = Vec::new();
        v.push("midjourney".to_owned());
        v.push("dall-e".to_owned());
        v.push("stable diffusion".to_owned());
        v.push("stablediffusion".to_owned());
        v.push("dreamstudio".to_owned());
        v.push("adobe firefly".to_owned());
        v.push("firefly".to_owned());
        v.push("ai generated".to_owned());
        v.push("generative ai".to_owned());
        v.push("openai".to_owned());
        v.push("novelai".to_owned());
        v.push("comfyui".to_owned());
        v.push("leonardo.ai".to_owned());
        v.push("imagen".to_owned());
        let t = KeywordTable { keywords: v };
        proof {
            assert(t.keywords.deep_view() =~= spec_keywords());
        }
        t
    }
}

/// Whether some bundled keyword occurs in the (already lower-cased) text.
pub open spec fn spec_kw_in_text(text: Seq<char>) -> bool {
    exists|k: int|
        0 <= k < spec_keywords().len() && spec_contains(text, #[trigger] spec_keywords()[k])
}

/// Whether some bundled keyword occurs in the lower-casing of some key or
/// value of the pairs.
pub open spec fn spec_pairs_probe(pairs: Seq<(Seq<char>, Seq<char>)>) -> bool {
    exists|j: int|
        0 <= j < pairs.len() && (spec_kw_in_text(lower_of((#[trigger] pairs[j]).0))
            || spec_kw_in_text(lower_of(pairs[j].1)))
}

/// Whether some field of the list has a keyword in the lower-casing of its
/// tag name or displayed value.
pub open spec fn spec_fields_probe(
    fs: Seq<(Seq<char>, Seq<char>, bool, bool, Option<Seq<char>>)>,
) -> bool {
    exists|j: int|
        0 <= j < fs.len() && (spec_kw_in_text(lower_of((#[trigger] fs[j]).0)) || spec_kw_in_text(
            lower_of(fs[j].1),
        ))
}

/// Whether the EXIF keyword probe fires: some field whose lower-cased tag
/// name or displayed value holds a keyword; false when no EXIF block reads.
pub open spec fn spec_exif_probe(b: Seq<u8>) -> bool {
    exif_fields_of(b) matches Some(fs) && spec_fields_probe(fs)
}

/// Whether the WebP XMP keyword probe fires: the XMP text reads and its
/// lower-casing holds a keyword.
pub open spec fn spec_webp_probe(b: Seq<u8>) -> bool {
    match spec_webp_xmp(b) {
        Some(x) => spec_kw_in_text(lower_of(x)),
        None => false,
    }
}

/// Tests whether some bundled keyword is a substring of the lower-casing of
/// `s`.
fn probe_text(s: &str, table: &KeywordTable) -> (r: bool)
    requires
        table.wf(),
    ensures
        r == spec_kw_in_text(lower_of(s@)),
{
    let low = lowercase(s);
    let nk = table.keywords.len();
    let mut k: usize = 0;
    while k < nk
        invariant
            table.wf(),
            nk == spec_keywords().len(),
            k <= nk,
            low@ == lower_of(s@),
            forall|j: int| 0 <= j < k ==> !spec_contains(lower_of(s@), #[trigger] spec_keywords()[j]),
        decreases nk - k,
    {
        proof {
            assert(table.keywords.deep_view()[k as int] == spec_keywords()[k as int]);
        }
        if str_contains(low.as_str(), table.keywords[k].as_str()) {
            return true;
        }
        k = k + 1;
    }
    false
}

/// Runs the keyword probe over a list of key/value string pairs.
fn probe_pairs(pairs: &Vec<(String, String)>, table: &KeywordTable) -> (r: bool)
    requires
        table.wf(),
    ensures
        r == spec_pairs_probe(pairs.deep_view()),
{
    let n = pairs.len();
    let mut j: usize = 0;
    while j < n
        invariant
            table.wf(),
            n == pairs@.len(),
            j <= n,
            forall|l: int|
                0 <= l < j ==> !(spec_kw_in_text(lower_of((#[trigger] pairs.deep_view()[l]).0))
                    || spec_kw_in_text(lower_of(pairs.deep_view()[l].1))),
        decreases n - j,
    {
        proof {
            assert(pairs.deep_view()[j as int] == (pairs@[j as int].0@, pairs@[j as int].1@));
        }
        let hit_key = probe_text(pairs[j].0.as_str(), table);
        let hit_val = probe_text(pairs[j].1.as_str(), table);
        if hit_key || hit_val {
            return true;
        }
        j = j + 1;
    }
    false
}

/// Runs the EXIF keyword probe over a file buffer.
fn probe_exif(bytes: &[u8], table: &KeywordTable) -> (r: bool)
    requires
        table.wf(),
    ensures
        r == spec_exif_probe(bytes@),
{
    match exif_fields(bytes) {
        Some(fields) => {
            let ghost fs = exif_fields_of(bytes@)->Some_0;
            let n = fields.len();
            let mut j: usize = 0;
            while j < n
                invariant
                    table.wf(),
                    n == fields@.len(),
                    j <= n,
                    exif_fields_of(bytes@) == Some(fs),
                    fs == Seq::new(fields@.len(), |i: int| crate::exifdata::field_view(fields@[i])),
                    forall|l: int|
                        0 <= l < j ==> !(spec_kw_in_text(lower_of((#[trigger] fs[l]).0))
                            || spec_kw_in_text(lower_of(fs[l].1))),
                decreases n - j,
            {
                let f = &fields[j];
                let hit_tag = probe_text(f.tag.as_str(), table);
                let hit_val = probe_text(f.display.as_str(), table);
                if hit_tag || hit_val {
                    proof {
                        assert(fs[j as int].0 == f.tag@ && fs[j as int].1 == f.display@);
                        assert(spec_kw_in_text(lower_of(fs[j as int].0)) || spec_kw_in_text(
                            lower_of(fs[j as int].1),
                        ));
                        assert(spec_fields_probe(fs));
                    }
                    return true;
                }
                j = j + 1;
            }
            proof {
                assert(!spec_fields_probe(fs));
            }
            false
        },
        None => false,
    }
}

/// Runs the WebP XMP keyword probe over a file buffer.
fn probe_webp(bytes: &[u8], table: &KeywordTable) -> (r: bool)
    requires
        table.wf(),
    ensures
        r == spec_webp_probe(bytes@),
{
    match extract_webp_xmp(bytes) {
        Some(xmp) => probe_text(xmp.as_str(), table),
        None => false,
    }
}

/// The provenance verdict and the format string it was reached for.
pub struct AiDetectionResult {
    pub is_ai_generated: bool,
    pub format: String,
}

/// The format that detection reports: the sniffed MIME essence, else the
/// extension's MIME guess, else `unknown` when both fail.
pub open spec fn spec_format_of(path: Seq<char>, b: Seq<u8>) -> Seq<char> {
    match sniffed_of(b) {
        Some(p) => p.0,
        None => match ext_mime_of(path) {
            Some(m) => m,
            None => "unknown"@,
        },
    }
}

/// The OR-combination of the four probes: the C2PA marker scan, the EXIF
/// keyword probe, and — gated on the detected format — the PNG text-chunk
/// and WebP XMP keyword probes.
pub open spec fn spec_is_ai(path: Seq<char>, b: Seq<u8>) -> bool {
    ||| spec_first_uuid(b, 0) is Some
    ||| spec_exif_probe(b)
    ||| (spec_contains(spec_format_of(path, b), "png"@) && spec_pairs_probe(spec_png_pairs(b, 8)))
    ||| (spec_contains(spec_format_of(path, b), "webp"@) && spec_webp_probe(b))
}

/// The provenance detector for one file, held as its path and raw bytes.
pub struct AiImageDetector {
    pub path: String,
    pub bytes: Vec<u8>,
}

impl AiImageDetector {
    /// A detector over the given file path and its raw bytes.
    pub fn new(path: String, bytes: Vec<u8>) -> (d: AiImageDetector)
        ensures
            d.path == path,
            d.bytes == bytes,
    {
        AiImageDetector { path, bytes }
    }

    /// Best-effort provenance detection: every probe failure only degrades
    /// that probe to false, so detection itself always succeeds.
    pub fn detect(&self) -> (r: Result<AiDetectionResult, String>)
        ensures
            r matches Ok(v) && v.format@ == spec_format_of(self.path@, self.bytes@)
                && v.is_ai_generated == spec_is_ai(self.path@, self.bytes@),
    {
        let table = KeywordTable::bundled();
        let format: String = match sniff_format(self.bytes.as_slice()) {
            Some(p) => p.0,
            None => match mime_from_path(self.path.as_str()) {
                Some(m) => m,
                None => "unknown".to_owned(),
            },
        };
        let c2pa_hit = detect_c2pa(self.bytes.as_slice()).0;
        let is_ai = c2pa_hit || probe_exif(self.bytes.as_slice(), &table) || (str_contains(
            format.as_str(),
            "png",
        ) && probe_pairs(&extract_png_text_chunks(self.bytes.as_slice()), &table)) || (str_contains(
            format.as_str(),
            "webp",
        ) && probe_webp(self.bytes.as_slice(), &table));
        Ok(AiDetectionResult { is_ai_generated: is_ai, format })
    }
}

} // verus!
