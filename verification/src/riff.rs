//! The RIFF container of a wave file: finding and replacing its iXML chunk.
use crate::ixml::{merge_ixml, merged};
use crate::text::{trim_back_char, trim_end_char};
use crate::ucs::{Ucs, UcsMeta};
use vstd::prelude::*;
use vstd::utf8::{decode_utf8, encode_utf8, valid_utf8};

verus! {

/// The four bytes at `p` as a little-endian number.
pub open spec fn number_at(data: Seq<u8>, p: int) -> int {
    data[p] + 0x100 * data[p + 1] + 0x1_0000 * data[p + 2] + 0x100_0000 * data[p + 3]
}

/// A number below 2^32 as four little-endian bytes.
pub open spec fn number_bytes(n: int) -> Seq<u8> {
    seq![
        (n % 0x100) as u8,
        (n / 0x100 % 0x100) as u8,
        (n / 0x1_0000 % 0x100) as u8,
        (n / 0x100_0000 % 0x100) as u8,
    ]
}

/// The four bytes `tag` stand in `data` at `p`.
pub open spec fn has_tag(data: Seq<u8>, p: int, tag: Seq<u8>) -> bool {
    data.subrange(p, p + 4) == tag
}

/// `RIFF` in ASCII.
pub open spec fn riff_tag() -> Seq<u8> {
    seq![0x52, 0x49, 0x46, 0x46]
}

/// `WAVE` in ASCII.
pub open spec fn wave_tag() -> Seq<u8> {
    seq![0x57, 0x41, 0x56, 0x45]
}

/// `iXML` in ASCII.
pub open spec fn ixml_tag() -> Seq<u8> {
    seq![0x69, 0x58, 0x4d, 0x4c]
}

/// A RIFF file of the form `WAVE`.
pub open spec fn is_wave(data: Seq<u8>) -> bool {
    data.len() >= 12 && has_tag(data, 0, riff_tag()) && has_tag(data, 8, wave_tag())
}

/// The length of the payload of the chunk at `p`.
pub open spec fn chunk_size(data: Seq<u8>, p: int) -> int {
    number_at(data, p + 4)
}

/// Where the payload of the chunk at `p` ends.
pub open spec fn chunk_end(data: Seq<u8>, p: int) -> int {
    p + 8 + chunk_size(data, p)
}

/// Where the chunk after the one at `p` starts: payloads are padded to an even
/// length.
pub open spec fn next_chunk(data: Seq<u8>, p: int) -> int {
    chunk_end(data, p) + chunk_size(data, p) % 2
}

/// The payload of the first iXML chunk at or after the chunk at `p`. The walk
/// stops at a chunk whose payload is cut off.
pub open spec fn payload_from(data: Seq<u8>, p: int) -> Option<Seq<u8>>
    decreases data.len() - p + 1,
{
    if p < 0 || p + 8 > data.len() || chunk_end(data, p) > data.len() {
        None
    } else if has_tag(data, p, ixml_tag()) {
        Some(data.subrange(p + 8, chunk_end(data, p)))
    } else {
        payload_from(data, next_chunk(data, p))
    }
}

/// Where the first iXML chunk at or after the chunk at `p` starts and ends, with
/// its padding. The walk stops at a chunk whose payload or padding is cut off.
pub open spec fn span_from(data: Seq<u8>, p: int) -> Option<(int, int)>
    decreases data.len() - p,
{
    if p < 0 || p + 8 > data.len() || next_chunk(data, p) > data.len() {
        None
    } else if has_tag(data, p, ixml_tag()) {
        Some((p, next_chunk(data, p)))
    } else {
        span_from(data, next_chunk(data, p))
    }
}

/// The text that `String::from_utf8_lossy` makes of bytes that are not UTF-8.
pub uninterp spec fn lossy_utf8(bytes: Seq<u8>) -> Seq<char>;

/// Bytes as text, with replacement characters where they are not UTF-8.
pub open spec fn decoded(bytes: Seq<u8>) -> Seq<char> {
    if valid_utf8(bytes) {
        decode_utf8(bytes)
    } else {
        lossy_utf8(bytes)
    }
}

/// Calls `String::from_utf8_lossy`: UTF-8 is decoded; in other bytes the invalid
/// sequences give way to replacement characters, which is a function of the
/// bytes alone.
#[verifier::external_body]
fn text_of_bytes(bytes: &[u8]) -> (s: String)
    ensures
        s@ == (if valid_utf8(bytes@) {
            decode_utf8(bytes@)
        } else {
            lossy_utf8(bytes@)
        }),
{
    String::from_utf8_lossy(bytes).into_owned()
}

/// The iXML document in a wave file.
pub open spec fn ixml_text(data: Seq<u8>) -> Option<Seq<char>> {
    if is_wave(data) {
        match payload_from(data, 12) {
            Some(bytes) => Some(trim_back_char(decoded(bytes), '\0')),
            None => None,
        }
    } else {
        None
    }
}

/// Reads the four little-endian bytes at `p`.
fn read_number(data: &[u8], p: usize) -> (n: u32)
    requires
        p + 4 <= data@.len(),
    ensures
        n == number_at(data@, p as int),
{
    let len: usize = data.len();
    data[p] as u32 + 0x100 * (data[p + 1] as u32) + 0x1_0000 * (data[p + 2] as u32) + 0x100_0000 * (
    data[p + 3] as u32)
}

/// Whether the bytes `a`, `b`, `c`, `d` stand in `data` at `p`.
fn tag_stands(data: &[u8], p: usize, a: u8, b: u8, c: u8, d: u8) -> (r: bool)
    requires
        p + 4 <= data@.len(),
    ensures
        r == has_tag(data@, p as int, seq![a, b, c, d]),
{
    let len: usize = data.len();
    let ghost here = data@.subrange(p as int, p + 4);
    let ghost tag = seq![a, b, c, d];
    assert(here[0] == data@[p as int] && here[1] == data@[p + 1] && here[2] == data@[p + 2]
        && here[3] == data@[p + 3]);
    assert(tag[0] == a && tag[1] == b && tag[2] == c && tag[3] == d);
    if data[p] == a && data[p + 1] == b && data[p + 2] == c && data[p + 3] == d {
        assert(here =~= tag);
        true
    } else {
        false
    }
}

/// Whether `data` is a RIFF file of the form `WAVE`.
pub fn is_wave_data(data: &[u8]) -> (r: bool)
    ensures
        r == is_wave(data@),
{
    data.len() >= 12 && tag_stands(data, 0, 0x52, 0x49, 0x46, 0x46) && tag_stands(
        data,
        8,
        0x57,
        0x41,
        0x56,
        0x45,
    )
}

/// Appends `src[from..to]` to `out`.
fn append_bytes(out: &mut Vec<u8>, src: &[u8], from: usize, to: usize)
    requires
        from <= to <= src@.len(),
    ensures
        final(out)@ == old(out)@ + src@.subrange(from as int, to as int),
{
    let ghost before = out@;
    let mut i: usize = from;
    while i < to
        invariant
            from <= i <= to <= src@.len(),
            out@ == before + src@.subrange(from as int, i as int),
        decreases to - i,
    {
        out.push(src[i]);
        i += 1;
        assert(src@.subrange(from as int, i as int) =~= src@.subrange(from as int, i - 1).push(
            src@[i - 1],
        ));
    }
}

/// Reads the iXML document of a wave file. There is none in a file of another
/// form, in one without an iXML chunk and behind a chunk that is cut off.
pub fn riff_ixml(data: &[u8]) -> (r: Option<String>)
    ensures
        match r {
            Some(s) => ixml_text(data@) == Some(s@),
            None => ixml_text(data@) is None,
        },
{
    if !is_wave_data(data) {
        return None;
    }
    let len: usize = data.len();
    let mut p: usize = 12;
    while p <= len && 8 <= len - p
        invariant
            len == data@.len(),
            is_wave(data@),
            payload_from(data@, 12) == payload_from(data@, p as int),
        decreases data@.len() - p,
    {
        let size: u32 = read_number(data, p + 4);
        if size as usize > len - p - 8 {
            return None;
        }
        let end: usize = p + 8 + size as usize;
        if tag_stands(data, p, 0x69, 0x58, 0x4d, 0x4c) {
            let mut bytes: Vec<u8> = Vec::new();
            append_bytes(&mut bytes, data, p + 8, end);
            assert(bytes@ =~= data@.subrange(p + 8, end as int));
            return Some(trim_end_char(text_of_bytes(bytes.as_slice()).as_str(), '\0'));
        }
        if size % 2 == 1 {
            if end == len {
                assert(payload_from(data@, end + 1) is None);
                return None;
            }
            p = end + 1;
        } else {
            p = end;
        }
    }
    None
}

/// The iXML chunk that holds `bytes`, padded to an even length.
pub open spec fn ixml_chunk(bytes: Seq<u8>) -> Seq<u8> {
    ixml_tag() + number_bytes(bytes.len() as int) + bytes + (if bytes.len() % 2 == 1 {
        seq![0u8]
    } else {
        Seq::empty()
    })
}

/// `data` with `chunk` in the place of its iXML chunk, or at its end.
pub open spec fn with_chunk(data: Seq<u8>, chunk: Seq<u8>) -> Seq<u8> {
    match span_from(data, 12) {
        Some((a, b)) => data.subrange(0, a) + chunk + data.subrange(b, data.len() as int),
        None => data + chunk,
    }
}

/// `data` with the size that its RIFF header states set to its length.
pub open spec fn with_size(data: Seq<u8>) -> Seq<u8> {
    data.subrange(0, 4) + number_bytes(data.len() - 8) + data.subrange(8, data.len() as int)
}

/// A wave file after the iXML document of `data` took up `u`, before its size is
/// set.
pub open spec fn rewritten(data: Seq<u8>, u: Ucs) -> Seq<u8> {
    with_chunk(data, ixml_chunk(encode_utf8(merged(ixml_text(data), u))))
}

/// A wave file after the iXML document of `data` took up `u`.
pub open spec fn written(data: Seq<u8>, u: Ucs) -> Seq<u8> {
    with_size(rewritten(data, u))
}

/// Appends a number as four little-endian bytes.
fn push_number(out: &mut Vec<u8>, n: u32)
    ensures
        final(out)@ == old(out)@ + number_bytes(n as int),
{
    out.push((n % 0x100) as u8);
    out.push((n / 0x100 % 0x100) as u8);
    out.push((n / 0x1_0000 % 0x100) as u8);
    out.push((n / 0x100_0000 % 0x100) as u8);
    assert(out@ =~= old(out)@ + number_bytes(n as int));
}

/// Finds the iXML chunk of a wave file, with its padding.
fn find_span(data: &[u8]) -> (r: Option<(usize, usize)>)
    requires
        is_wave(data@),
    ensures
        match r {
            Some((a, b)) => span_from(data@, 12) == Some((a as int, b as int)) && 12 <= a <= b
                <= data@.len(),
            None => span_from(data@, 12) is None,
        },
{
    let len: usize = data.len();
    let mut p: usize = 12;
    while p <= len && 8 <= len - p
        invariant
            len == data@.len(),
            12 <= p,
            span_from(data@, 12) == span_from(data@, p as int),
        decreases data@.len() - p,
    {
        let size: u32 = read_number(data, p + 4);
        if size as usize > len - p - 8 {
            return None;
        }
        let end: usize = p + 8 + size as usize;
        let odd: bool = size % 2 == 1;
        if odd && end == len {
            return None;
        }
        let next: usize = if odd {
            end + 1
        } else {
            end
        };
        if tag_stands(data, p, 0x69, 0x58, 0x4d, 0x4c) {
            return Some((p, next));
        }
        p = next;
    }
    None
}

/// Writes a record into the iXML document of a wave file. `Ok(None)` leaves a
/// file of another form as it is; `Ok(Some(bytes))` is the new content of the
/// file; a result that a 32-bit RIFF header cannot describe is an error.
#[verifier::rlimit(30)]
pub fn write_ixml(data: &[u8], u: &UcsMeta) -> (r: Result<Option<Vec<u8>>, String>)
    ensures
        !is_wave(data@) ==> r is Ok && r->Ok_0 is None,
        is_wave(data@) && rewritten(data@, u@).len() <= u32::MAX ==> r is Ok && r->Ok_0 is Some
            && r->Ok_0->0@ == written(data@, u@),
        is_wave(data@) && rewritten(data@, u@).len() > u32::MAX ==> r is Err && r->Err_0@
            == "RF64 metadata writing is not supported yet"@,
{
    if !is_wave_data(data) {
        return Ok(None);
    }
    let xml = merge_ixml(riff_ixml(data), u);
    let bytes = xml.as_str().as_bytes();
    let size: usize = bytes.len();
    if size > 0xffff_ffff {
        return Err("RF64 metadata writing is not supported yet".to_string());
    }
    let (a, b): (usize, usize) = match find_span(data) {
        Some(span) => span,
        None => (data.len(), data.len()),
    };
    let mut out: Vec<u8> = Vec::new();
    append_bytes(&mut out, data, 0, a);
    out.push(0x69);
    out.push(0x58);
    out.push(0x4d);
    out.push(0x4c);
    push_number(&mut out, size as u32);
    append_bytes(&mut out, bytes, 0, size);
    if size % 2 == 1 {
        out.push(0);
    }
    append_bytes(&mut out, data, b, data.len());
    assert(bytes@.subrange(0, size as int) =~= bytes@);
    assert(out@ =~= rewritten(data@, u@));
    if out.len() > 0xffff_ffff {
        return Err("RF64 metadata writing is not supported yet".to_string());
    }
    let riff_size: u32 = (out.len() - 8) as u32;
    let mut r: Vec<u8> = Vec::new();
    append_bytes(&mut r, out.as_slice(), 0, 4);
    push_number(&mut r, riff_size);
    append_bytes(&mut r, out.as_slice(), 8, out.len());
    assert(r@ =~= written(data@, u@));
    Ok(Some(r))
}

} // verus!
