//! Chunk walkers: stateless scanners over the PNG chunk container and the
//! RIFF/WebP sub-chunk container. A declared length that would run past the
//! end of the buffer stops the walk silently with what was collected so far.

use vstd::prelude::*;

use crate::strutil::string_from_utf8;
use vstd::slice::{slice_subrange, slice_to_vec};
use vstd::utf8::{decode_utf8, valid_utf8};

verus! {

/// The 4-byte big-endian integer at offset `i` of `b`.
pub open spec fn spec_be32(b: Seq<u8>, i: int) -> int {
    0x1000000 * (b[i] as int) + 0x10000 * (b[i + 1] as int) + 0x100 * (b[i + 2] as int) + (b[i + 3]
        as int)
}

/// The 4-byte little-endian integer at offset `i` of `b`.
pub open spec fn spec_le32(b: Seq<u8>, i: int) -> int {
    (b[i] as int) + 0x100 * (b[i + 1] as int) + 0x10000 * (b[i + 2] as int) + 0x1000000 * (b[i + 3]
        as int)
}

/// Reads a big-endian 32-bit integer.
pub fn read_be32(bytes: &[u8], i: usize) -> (r: u32)
    requires
        i + 4 <= bytes@.len(),
    ensures
        r == spec_be32(bytes@, i as int),
{
    let n = bytes.len();
    let b0 = *vstd::slice::slice_index_get(bytes, i);
    let b1 = *vstd::slice::slice_index_get(bytes, i + 1);
    let b2 = *vstd::slice::slice_index_get(bytes, i + 2);
    let b3 = *vstd::slice::slice_index_get(bytes, i + 3);
    0x1000000 * (b0 as u32) + 0x10000 * (b1 as u32) + 0x100 * (b2 as u32) + (b3 as u32)
}

/// Reads a little-endian 32-bit integer.
pub fn read_le32(bytes: &[u8], i: usize) -> (r: u32)
    requires
        i + 4 <= bytes@.len(),
    ensures
        r == spec_le32(bytes@, i as int),
{
    let n = bytes.len();
    let b0 = *vstd::slice::slice_index_get(bytes, i);
    let b1 = *vstd::slice::slice_index_get(bytes, i + 1);
    let b2 = *vstd::slice::slice_index_get(bytes, i + 2);
    let b3 = *vstd::slice::slice_index_get(bytes, i + 3);
    (b0 as u32) + 0x100 * (b1 as u32) + 0x10000 * (b2 as u32) + 0x1000000 * (b3 as u32)
}

/// The chunk-type bytes of a PNG `tEXt` chunk.
pub open spec fn spec_text_type() -> Seq<u8> {
    seq![0x74u8, 0x45u8, 0x58u8, 0x74u8]
}

/// The chunk-type bytes of a PNG `iTXt` chunk.
pub open spec fn spec_itxt_type() -> Seq<u8> {
    seq![0x69u8, 0x54u8, 0x58u8, 0x74u8]
}

/// The key/value pair that one text chunk with name `name` and data `data`
/// contributes: valid UTF-8 split at the first NUL into key and value, whole
/// text under the chunk-type name when no NUL occurs, nothing when the data
/// is not UTF-8.
pub open spec fn spec_text_pair(name: Seq<u8>, data: Seq<u8>) -> Seq<(Seq<char>, Seq<char>)> {
    if valid_utf8(data) {
        let content = decode_utf8(data);
        match content.index_of_first('\0') {
            Some(p) => seq![
                (content.subrange(0, p), content.subrange(p + 1, content.len() as int)),
            ],
            None => {
                let key = if name == spec_text_type() {
                    "tEXt"@
                } else {
                    "iTXt"@
                };
                seq![(key, content)]
            },
        }
    } else {
        Seq::empty()
    }
}

/// The key/value pairs of the PNG text chunks of `b`, walking from byte
/// offset `cursor`: each chunk is a 4-byte big-endian length, a 4-byte type,
/// the data, and a 4-byte CRC that is skipped unchecked. The walk stops at
/// the first length that would read past the buffer.
pub open spec fn spec_png_pairs(b: Seq<u8>, cursor: int) -> Seq<(Seq<char>, Seq<char>)>
    decreases b.len() + 4 - cursor,
{
    if cursor < 0 || cursor + 8 > b.len() {
        Seq::empty()
    } else {
        let len = spec_be32(b, cursor);
        let name = b.subrange(cursor + 4, cursor + 8);
        if cursor + 8 + len > b.len() {
            Seq::empty()
        } else {
            let rest = spec_png_pairs(b, cursor + 8 + len + 4);
            if name == spec_text_type() || name == spec_itxt_type() {
                spec_text_pair(name, b.subrange(cursor + 8, cursor + 8 + len)) + rest
            } else {
                rest
            }
        }
    }
}

/// Walks the PNG chunks of a file buffer (the 8-byte signature is skipped)
/// and collects the key/value pairs of its `tEXt` and `iTXt` chunks, in
/// order, duplicates preserved. Truncated or malformed trailing data only
/// ends the walk early; it is never an error.
pub fn extract_png_text_chunks(bytes: &[u8]) -> (r: Vec<(String, String)>)
    ensures
        r.deep_view() == spec_png_pairs(bytes@, 8),
{
    let n = bytes.len();
    let mut out: Vec<(String, String)> = Vec::new();
    let mut cursor: usize = 8;
    loop
        invariant
            n == bytes@.len(),
            8 <= cursor,
            out.deep_view() + spec_png_pairs(bytes@, cursor as int) == spec_png_pairs(bytes@, 8),
        decreases n + 8 - cursor,
    {
        if cursor > n || n - cursor < 8 {
            proof {
                assert(spec_png_pairs(bytes@, cursor as int) =~= Seq::empty());
                assert(out.deep_view() =~= spec_png_pairs(bytes@, 8));
            }
            return out;
        }
        let len32 = read_be32(bytes, cursor);
        let len = len32 as usize;
        let data_start = cursor + 8;
        if len > n - data_start {
            proof {
                assert(spec_png_pairs(bytes@, cursor as int) =~= Seq::empty());
                assert(out.deep_view() =~= spec_png_pairs(bytes@, 8));
            }
            return out;
        }
        let b4 = *vstd::slice::slice_index_get(bytes, cursor + 4);
        let b5 = *vstd::slice::slice_index_get(bytes, cursor + 5);
        let b6 = *vstd::slice::slice_index_get(bytes, cursor + 6);
        let b7 = *vstd::slice::slice_index_get(bytes, cursor + 7);
        let is_text = b4 == 0x74 && b5 == 0x45 && b6 == 0x58 && b7 == 0x74;
        let is_itxt = b4 == 0x69 && b5 == 0x54 && b6 == 0x58 && b7 == 0x74;
        proof {
            let name = bytes@.subrange(cursor + 4, cursor + 8);
            if is_text {
                assert(name =~= spec_text_type());
            } else if is_itxt {
                assert(name =~= spec_itxt_type());
            } else {
                assert(name != spec_text_type() && name != spec_itxt_type()) by {
                    if name == spec_text_type() {
                        assert(name[0] == 0x74u8 && name[1] == 0x45u8 && name[2] == 0x58u8
                            && name[3] == 0x74u8);
                    }
                    if name == spec_itxt_type() {
                        assert(name[0] == 0x69u8 && name[1] == 0x54u8 && name[2] == 0x58u8
                            && name[3] == 0x74u8);
                    }
                }
            }
        }
        let ghost prev_view = out.deep_view();
        if is_text || is_itxt {
            let data = slice_to_vec(slice_subrange(bytes, data_start, data_start + len));
            let ghost data_seq = bytes@.subrange(data_start as int, data_start as int + len as int);
            match string_from_utf8(data) {
                Some(content) => {
                    let clen = content.as_str().unicode_len();
                    match find_nul(content.as_str()) {
                        Some(p) => {
                            proof {
                                content@.index_of_first_ensures('\0');
                            }
                            let key = content.as_str().substring_char(0, p).to_owned();
                            let value = content.as_str().substring_char(p + 1, clen).to_owned();
                            out.push((key, value));
                        },
                        None => {
                            let key: String = if is_text {
                                "tEXt".to_owned()
                            } else {
                                "iTXt".to_owned()
                            };
                            out.push((key, content));
                        },
                    }
                    proof {
                        assert(out.deep_view() =~= prev_view + spec_text_pair(
                            bytes@.subrange(cursor + 4, cursor + 8),
                            data_seq,
                        ));
                    }
                },
                None => {
                    proof {
                        assert(spec_text_pair(bytes@.subrange(cursor + 4, cursor + 8), data_seq)
                            =~= Seq::empty());
                        assert(out.deep_view() =~= prev_view + spec_text_pair(
                            bytes@.subrange(cursor + 4, cursor + 8),
                            data_seq,
                        ));
                    }
                },
            }
        }
        let after_data = data_start + len;
        if n - after_data < 4 {
            proof {
                assert(spec_png_pairs(bytes@, after_data + 4) =~= Seq::empty());
                assert(out.deep_view() =~= spec_png_pairs(bytes@, 8));
            }
            return out;
        }
        cursor = after_data + 4;
    }
}

/// First NUL character of a string, if any.
fn find_nul(s: &str) -> (r: Option<usize>)
    ensures
        r matches Some(p) ==> s@.index_of_first('\0') == Some(p as int),
        r is None ==> s@.index_of_first('\0') is None,
{
    let n = s.unicode_len();
    let mut i: usize = 0;
    while i < n
        invariant
            n == s@.len(),
            i <= n,
            forall|k: int| 0 <= k < i ==> s@[k] != '\0',
        decreases n - i,
    {
        if s.get_char(i) == '\0' {
            proof {
                s@.index_of_first_ensures('\0');
            }
            return Some(i);
        }
        i = i + 1;
    }
    proof {
        s@.index_of_first_ensures('\0');
    }
    None
}

/// The XMP text of a RIFF/WebP buffer, walking its sub-chunks from byte
/// offset `cursor`: a 4-byte tag, a 4-byte little-endian length, the payload,
/// and a padding byte after an odd length. The first `"XMP "` sub-chunk whose
/// payload is valid UTF-8 is the result; a length past the buffer end stops
/// the walk with nothing.
pub open spec fn spec_webp_walk(b: Seq<u8>, cursor: int) -> Option<Seq<char>>
    decreases b.len() + 9 - cursor,
{
    if cursor < 0 || cursor + 8 > b.len() {
        None
    } else {
        let size = spec_le32(b, cursor + 4);
        if cursor + 8 + size > b.len() {
            None
        } else {
            let tag = b.subrange(cursor, cursor + 4);
            let payload = b.subrange(cursor + 8, cursor + 8 + size);
            if tag == spec_xmp_tag() && valid_utf8(payload) {
                Some(decode_utf8(payload))
            } else {
                spec_webp_walk(b, cursor + 8 + size + (size % 2))
            }
        }
    }
}

/// The tag bytes of a WebP `"XMP "` sub-chunk.
pub open spec fn spec_xmp_tag() -> Seq<u8> {
    seq![0x58u8, 0x4du8, 0x50u8, 0x20u8]
}

/// Whether the buffer opens with the RIFF/WebP container magic.
pub open spec fn spec_is_webp(b: Seq<u8>) -> bool {
    b.len() >= 12 && b.subrange(0, 4) == "RIFF"@.map_values(|c: char| c as u8) && b.subrange(8, 12)
        == "WEBP"@.map_values(|c: char| c as u8)
}

/// The XMP text that the WebP XMP walker yields for a whole file buffer:
/// nothing unless the RIFF/WebP magic opens the buffer.
pub open spec fn spec_webp_xmp(b: Seq<u8>) -> Option<Seq<char>> {
    if spec_is_webp(b) {
        spec_webp_walk(b, 12)
    } else {
        None
    }
}

/// Walks the sub-chunks of a WebP file buffer and returns its XMP text, or
/// `None` when the buffer is not a RIFF/WebP container, holds no readable
/// `"XMP "` sub-chunk, or is truncated before one.
pub fn extract_webp_xmp(bytes: &[u8]) -> (r: Option<String>)
    ensures
        r matches Some(s) ==> spec_webp_xmp(bytes@) == Some(s@),
        r is None ==> spec_webp_xmp(bytes@) is None,
{
    let n = bytes.len();
    if n < 12 {
        return None;
    }
    let magic_ok = check_tag(bytes, 0, 0x52, 0x49, 0x46, 0x46) && check_tag(
        bytes,
        8,
        0x57,
        0x45,
        0x42,
        0x50,
    );
    proof {
        reveal_strlit("RIFF");
        reveal_strlit("WEBP");
        if magic_ok {
            assert(bytes@.subrange(0, 4) =~= "RIFF"@.map_values(|c: char| c as u8));
            assert(bytes@.subrange(8, 12) =~= "WEBP"@.map_values(|c: char| c as u8));
        } else {
            if spec_is_webp(bytes@) {
                assert(bytes@.subrange(0, 4)[0] == 'R' as u8);
                assert(bytes@.subrange(0, 4)[1] == 'I' as u8);
                assert(bytes@.subrange(0, 4)[2] == 'F' as u8);
                assert(bytes@.subrange(0, 4)[3] == 'F' as u8);
                assert(bytes@.subrange(8, 12)[0] == 'W' as u8);
                assert(bytes@.subrange(8, 12)[1] == 'E' as u8);
                assert(bytes@.subrange(8, 12)[2] == 'B' as u8);
                assert(bytes@.subrange(8, 12)[3] == 'P' as u8);
            }
        }
    }
    if !magic_ok {
        return None;
    }
    let mut cursor: usize = 12;
    loop
        invariant
            n == bytes@.len(),
            12 <= cursor,
            spec_is_webp(bytes@),
            spec_webp_walk(bytes@, cursor as int) == spec_webp_walk(bytes@, 12),
        decreases n + 9 - cursor,
    {
        if cursor > n || n - cursor < 8 {
            return None;
        }
        let size32 = read_le32(bytes, cursor + 4);
        let size = size32 as usize;
        let payload_start = cursor + 8;
        if size > n - payload_start {
            return None;
        }
        let is_xmp = check_tag(bytes, cursor, 0x58, 0x4d, 0x50, 0x20);
        proof {
            let tag = bytes@.subrange(cursor as int, cursor + 4);
            if is_xmp {
                assert(tag =~= spec_xmp_tag());
            } else {
                if tag == spec_xmp_tag() {
                    assert(tag[0] == 0x58u8 && tag[1] == 0x4du8 && tag[2] == 0x50u8 && tag[3]
                        == 0x20u8);
                }
            }
        }
        if is_xmp {
            let payload = slice_to_vec(slice_subrange(bytes, payload_start, payload_start + size));
            match string_from_utf8(payload) {
                Some(s) => {
                    return Some(s);
                },
                None => {
                },
            }
        }
        let pad: usize = if size % 2 == 1 {
            1
        } else {
            0
        };
        let after = payload_start + size;
        if n - after < pad {
            proof {
                assert(spec_webp_walk(bytes@, after + pad) is None);
            }
            return None;
        }
        cursor = after + pad;
    }
}

/// Compares the four bytes at offset `i` with the given values.
fn check_tag(bytes: &[u8], i: usize, t0: u8, t1: u8, t2: u8, t3: u8) -> (r: bool)
    requires
        i + 4 <= bytes@.len(),
    ensures
        r == (bytes@[i as int] == t0 && bytes@[i as int + 1] == t1 && bytes@[i as int + 2] == t2
            && bytes@[i as int + 3] == t3),
{
    let n = bytes.len();
    let b0 = *vstd::slice::slice_index_get(bytes, i);
    let b1 = *vstd::slice::slice_index_get(bytes, i + 1);
    let b2 = *vstd::slice::slice_index_get(bytes, i + 2);
    let b3 = *vstd::slice::slice_index_get(bytes, i + 3);
    b0 == t0 && b1 == t1 && b2 == t2 && b3 == t3
}

} // verus!
