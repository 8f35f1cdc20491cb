//! Laws of wave files as lists of chunks: which chunk is read and what a write makes of
//! the list.
use crate::ixml::merged;
use crate::markup::{document, document_nodes, is_document, XmlDocument};
use crate::merge_laws::law_last_merge_wins;
use crate::metadata::overlaid;
use crate::read_laws::{is_receptive, is_storable, takes_record};
use crate::record_laws::{law_written_record_is_read_under_any_name, texts_of};
use crate::riff::{
    chunk_end, chunk_size, decoded, has_tag, is_wave, ixml_chunk, ixml_tag, ixml_text, lossy_utf8,
    next_chunk, number_at, number_bytes, payload_from, rewritten, riff_tag, span_from, wave_tag, with_size,
    written,
};
use crate::text::{trim_back_char, trimmed};
use crate::text_laws::{is_all_white, law_trimming_takes_trailing_characters};
use crate::ucs::Ucs;
use crate::wave_laws::{leads_to, lemma_merged_end};
use vstd::prelude::*;
use vstd::utf8::{encode_utf8, encode_utf8_decode_utf8, encode_utf8_valid_utf8, valid_utf8};

verus! {

/// A number below 2^32 as four bytes, the lowest first.
pub open spec fn little_endian(n: int) -> Seq<u8> {
    seq![
        (n % 256) as u8,
        (n / 256 % 256) as u8,
        (n / 65536 % 256) as u8,
        (n / 16777216 % 256) as u8,
    ]
}

/// A chunk of a file: its tag, its payload and the byte that fills it up to an even
/// length, if it needs one.
pub struct Chunk {
    pub tag: Seq<u8>,
    pub payload: Seq<u8>,
    pub pad: u8,
}

/// The bytes of a chunk.
pub open spec fn chunk_bytes(c: Chunk) -> Seq<u8> {
    c.tag + little_endian(c.payload.len() as int) + c.payload + (if c.payload.len() % 2 == 1 {
        seq![c.pad]
    } else {
        Seq::empty()
    })
}

/// The bytes of chunks that follow each other.
pub open spec fn chunks_bytes(chunks: Seq<Chunk>) -> Seq<u8>
    decreases chunks.len(),
{
    if chunks.len() == 0 {
        Seq::empty()
    } else {
        chunk_bytes(chunks[0]) + chunks_bytes(chunks.drop_first())
    }
}

/// A wave file: its header with the four bytes of a size, its chunks and what stands
/// behind them.
pub open spec fn wave_file(size: Seq<u8>, chunks: Seq<Chunk>, rest: Seq<u8>) -> Seq<u8> {
    seq!['R' as u8, 'I' as u8, 'F' as u8, 'F' as u8] + size + seq![
        'W' as u8,
        'A' as u8,
        'V' as u8,
        'E' as u8,
    ] + chunks_bytes(chunks) + rest
}

/// Chunks that a file can hold: their tags have four bytes and the lengths of their
/// payloads fit into four bytes.
pub open spec fn are_chunks(chunks: Seq<Chunk>) -> bool {
    forall|i: int|
        0 <= i < chunks.len() ==> (#[trigger] chunks[i]).tag.len() == 4 && chunks[i].payload.len()
            < 0x1_0000_0000
}

/// A chunk that holds an iXML document.
pub open spec fn is_ixml(c: Chunk) -> bool {
    c.tag == seq!['i' as u8, 'X' as u8, 'M' as u8, 'L' as u8]
}

/// The chunk at `i` is the first that holds an iXML document.
pub open spec fn is_first_ixml(chunks: Seq<Chunk>, i: int) -> bool {
    &&& 0 <= i < chunks.len()
    &&& is_ixml(chunks[i])
    &&& forall|j: int| 0 <= j < i ==> !is_ixml(#[trigger] chunks[j])
}

/// No chunk holds an iXML document.
pub open spec fn has_no_ixml(chunks: Seq<Chunk>) -> bool {
    forall|j: int| 0 <= j < chunks.len() ==> !is_ixml(#[trigger] chunks[j])
}

/// The chunk with the iXML document `text`.
pub open spec fn document_chunk(text: Seq<char>) -> Chunk {
    Chunk {
        tag: seq!['i' as u8, 'X' as u8, 'M' as u8, 'L' as u8],
        payload: encode_utf8(text),
        pad: 0,
    }
}

/// Bytes in which no whole chunk stands: they end in the head or in the payload of a
/// chunk, or before the byte that fills up a chunk of another kind.
pub open spec fn has_no_chunk(rest: Seq<u8>) -> bool {
    ||| rest.len() < 8
    ||| exists|n: int|
        0 <= n < 0x1_0000_0000 && #[trigger] little_endian(n) == rest.subrange(4, 8) && (rest.len()
            < 8 + n || (rest.len() == 8 + n && n % 2 == 1 && rest.subrange(0, 4) != seq![
            'i' as u8,
            'X' as u8,
            'M' as u8,
            'L' as u8,
        ]))
}

/// A text of null characters.
pub open spec fn are_nulls(s: Seq<char>) -> bool {
    forall|i: int| 0 <= i < s.len() ==> #[trigger] s[i] == '\0'
}

/// The number that stands in a file as four bytes.
proof fn lemma_number_read(data: Seq<u8>, p: int, n: int)
    requires
        0 <= n < 0x1_0000_0000,
        0 <= p,
        p + 4 <= data.len(),
        data.subrange(p, p + 4) == little_endian(n),
    ensures
        number_at(data, p) == n,
{
    let b = data.subrange(p, p + 4);
    assert(b[0] == data[p] && b[1] == data[p + 1] && b[2] == data[p + 2] && b[3] == data[p + 3]);
}

/// The tags, byte by byte.
proof fn lemma_tags()
    ensures
        riff_tag() == seq!['R' as u8, 'I' as u8, 'F' as u8, 'F' as u8],
        wave_tag() == seq!['W' as u8, 'A' as u8, 'V' as u8, 'E' as u8],
        ixml_tag() == seq!['i' as u8, 'X' as u8, 'M' as u8, 'L' as u8],
{
    assert(riff_tag() =~= seq!['R' as u8, 'I' as u8, 'F' as u8, 'F' as u8]);
    assert(wave_tag() =~= seq!['W' as u8, 'A' as u8, 'V' as u8, 'E' as u8]);
    assert(ixml_tag() =~= seq!['i' as u8, 'X' as u8, 'M' as u8, 'L' as u8]);
}

/// What is seen of a chunk where it stands in a file.
proof fn lemma_chunk_at(data: Seq<u8>, p: int, c: Chunk, after: Seq<u8>)
    requires
        0 <= p <= data.len(),
        c.tag.len() == 4,
        c.payload.len() < 0x1_0000_0000,
        data.skip(p) == chunk_bytes(c) + after,
    ensures
        p + 8 <= data.len(),
        chunk_size(data, p) == c.payload.len(),
        chunk_end(data, p) == p + 8 + c.payload.len(),
        next_chunk(data, p) == p + chunk_bytes(c).len(),
        chunk_end(data, p) <= next_chunk(data, p) <= data.len(),
        has_tag(data, p, ixml_tag()) <==> is_ixml(c),
        data.subrange(p + 8, chunk_end(data, p)) == c.payload,
        data.skip(next_chunk(data, p)) == after,
{
    let whole = chunk_bytes(c) + after;
    let n = c.payload.len() as int;
    lemma_tags();
    assert(data.len() == p + whole.len());
    assert forall|i: int| 0 <= i < whole.len() implies data[p + i] == #[trigger] whole[i] by {
        assert(data.skip(p)[i] == data[p + i]);
    }
    assert(data.subrange(p, p + 4) =~= c.tag) by {
        assert forall|i: int| 0 <= i < 4 implies data.subrange(p, p + 4)[i] == c.tag[i] by {
            assert(data[p + i] == whole[i]);
        }
    }
    assert(data.subrange(p + 4, p + 8) =~= little_endian(n)) by {
        assert forall|i: int| 0 <= i < 4 implies data.subrange(p + 4, p + 8)[i] == little_endian(
            n,
        )[i] by {
            assert(data[p + (4 + i)] == whole[4 + i]);
        }
    }
    lemma_number_read(data, p + 4, n);
    assert(data.subrange(p + 8, p + 8 + n) =~= c.payload) by {
        assert forall|i: int| 0 <= i < n implies data.subrange(p + 8, p + 8 + n)[i]
            == c.payload[i] by {
            assert(data[p + (8 + i)] == whole[8 + i]);
        }
    }
    assert(data.skip(p + chunk_bytes(c).len()) =~= after) by {
        assert forall|i: int| 0 <= i < after.len() implies data.skip(p + chunk_bytes(c).len())[i]
            == after[i] by {
            assert(data[p + (chunk_bytes(c).len() + i)] == whole[chunk_bytes(c).len() + i]);
        }
    }
}

/// The bytes of two lists of chunks.
proof fn lemma_chunks_join(a: Seq<Chunk>, b: Seq<Chunk>)
    ensures
        chunks_bytes(a + b) == chunks_bytes(a) + chunks_bytes(b),
    decreases a.len(),
{
    if a.len() == 0 {
        assert(a + b =~= b);
        assert(chunks_bytes(a) + chunks_bytes(b) =~= chunks_bytes(b));
    } else {
        lemma_chunks_join(a.drop_first(), b);
        assert((a + b).drop_first() =~= a.drop_first() + b);
        assert(chunks_bytes(a + b) =~= chunks_bytes(a) + chunks_bytes(b));
    }
}

/// The bytes of one chunk.
proof fn lemma_one_chunk(c: Chunk)
    ensures
        chunks_bytes(seq![c]) == chunk_bytes(c),
{
    assert(seq![c].drop_first() =~= Seq::empty());
    assert(chunks_bytes(seq![c].drop_first()) =~= Seq::empty());
    assert(chunks_bytes(seq![c]) =~= chunk_bytes(c));
}

/// A list of chunks around one of them.
proof fn lemma_chunks_around(chunks: Seq<Chunk>, i: int)
    requires
        0 <= i < chunks.len(),
    ensures
        chunks_bytes(chunks) == chunks_bytes(chunks.take(i)) + chunk_bytes(chunks[i])
            + chunks_bytes(chunks.skip(i + 1)),
{
    let a = chunks.take(i);
    let c = chunks[i];
    let b = chunks.skip(i + 1);
    assert(chunks =~= a + (seq![c] + b));
    lemma_chunks_join(a, seq![c] + b);
    lemma_chunks_join(seq![c], b);
    lemma_one_chunk(c);
    assert(chunks_bytes(a) + (chunk_bytes(c) + chunks_bytes(b)) =~= chunks_bytes(a) + chunk_bytes(c)
        + chunks_bytes(b));
}

/// Chunks without an iXML document are passed over.
proof fn lemma_chunks_passed(data: Seq<u8>, p: int, chunks: Seq<Chunk>, after: Seq<u8>)
    requires
        0 <= p <= data.len(),
        are_chunks(chunks),
        has_no_ixml(chunks),
        data.skip(p) == chunks_bytes(chunks) + after,
    ensures
        p + chunks_bytes(chunks).len() <= data.len(),
        payload_from(data, p) == payload_from(data, p + chunks_bytes(chunks).len()),
        span_from(data, p) == span_from(data, p + chunks_bytes(chunks).len()),
        leads_to(data, p, p + chunks_bytes(chunks).len()),
        data.skip(p + chunks_bytes(chunks).len()) == after,
    decreases chunks.len(),
{
    if chunks.len() == 0 {
        assert(chunks_bytes(chunks) + after =~= after);
    } else {
        let c = chunks[0];
        let more = chunks.drop_first();
        assert(chunks_bytes(chunks) + after =~= chunk_bytes(c) + (chunks_bytes(more) + after));
        lemma_chunk_at(data, p, c, chunks_bytes(more) + after);
        assert forall|i: int| 0 <= i < more.len() implies (#[trigger] more[i]).tag.len() == 4
            && more[i].payload.len() < 0x1_0000_0000 && !is_ixml(more[i]) by {
            assert(more[i] == chunks[i + 1]);
        }
        lemma_chunks_passed(data, next_chunk(data, p), more, after);
        assert(chunks_bytes(chunks).len() == chunk_bytes(c).len() + chunks_bytes(more).len());
        assert(!is_ixml(chunks[0]));
    }
}

/// Where no whole chunk stands, nothing is found.
proof fn lemma_nothing_found(data: Seq<u8>, p: int, rest: Seq<u8>)
    requires
        0 <= p <= data.len(),
        data.skip(p) == rest,
        has_no_chunk(rest),
    ensures
        payload_from(data, p) is None,
        span_from(data, p) is None,
{
    lemma_tags();
    if rest.len() >= 8 {
        let n = choose|n: int|
            0 <= n < 0x1_0000_0000 && #[trigger] little_endian(n) == rest.subrange(4, 8) && (
            rest.len() < 8 + n || (rest.len() == 8 + n && n % 2 == 1 && rest.subrange(0, 4)
                != ixml_tag()));
        assert(data.subrange(p + 4, p + 8) =~= rest.subrange(4, 8));
        assert(data.subrange(p, p + 4) =~= rest.subrange(0, 4));
        lemma_number_read(data, p + 4, n);
        if rest.len() == 8 + n {
            assert(payload_from(data, data.len() as int + 1) is None);
        }
    }
}

/// The parts of a wave file.
proof fn lemma_file_parts(size: Seq<u8>, chunks: Seq<Chunk>, rest: Seq<u8>)
    requires
        size.len() == 4,
    ensures
        is_wave(wave_file(size, chunks, rest)),
        wave_file(size, chunks, rest).len() == 12 + chunks_bytes(chunks).len() + rest.len(),
        wave_file(size, chunks, rest).skip(12) == chunks_bytes(chunks) + rest,
{
    let data = wave_file(size, chunks, rest);
    lemma_tags();
    assert(data.subrange(0, 4) =~= riff_tag());
    assert(data.subrange(8, 12) =~= wave_tag());
    assert(data.skip(12) =~= chunks_bytes(chunks) + rest);
}

/// What is found in a wave file whose chunk at `i` is the first with an iXML document.
proof fn lemma_found(size: Seq<u8>, chunks: Seq<Chunk>, rest: Seq<u8>, i: int)
    requires
        size.len() == 4,
        are_chunks(chunks),
        is_first_ixml(chunks, i),
    ensures
        ({
            let data = wave_file(size, chunks, rest);
            let a = 12int + chunks_bytes(chunks.take(i)).len();
            &&& payload_from(data, 12) == Some(chunks[i].payload)
            &&& span_from(data, 12) == Some((a, a + chunk_bytes(chunks[i]).len()))
            &&& data.subrange(0, a) == wave_file(size, chunks.take(i), Seq::empty())
            &&& data.skip(a + chunk_bytes(chunks[i]).len()) == chunks_bytes(
                chunks.skip(i + 1),
            ) + rest
        }),
{
    let data = wave_file(size, chunks, rest);
    let before = chunks.take(i);
    let c = chunks[i];
    let after = chunks_bytes(chunks.skip(i + 1)) + rest;
    lemma_file_parts(size, chunks, rest);
    lemma_chunks_around(chunks, i);
    assert(chunks_bytes(chunks) + rest =~= chunks_bytes(before) + (chunk_bytes(c) + after));
    assert forall|j: int| 0 <= j < before.len() implies (#[trigger] before[j]).tag.len() == 4
        && before[j].payload.len() < 0x1_0000_0000 && !is_ixml(before[j]) by {
        assert(before[j] == chunks[j]);
    }
    lemma_chunks_passed(data, 12, before, chunk_bytes(c) + after);
    let a = 12 + chunks_bytes(before).len() as int;
    lemma_chunk_at(data, a, c, after);
    assert(data.subrange(0, a) =~= wave_file(size, before, Seq::empty()));
}

/// A file is a wave file if it has the tags of its form, whatever size its header
/// states.
pub proof fn law_wave_files_are_told_by_their_tags(data: Seq<u8>)
    ensures
        is_wave(data) <==> data.len() >= 12 && data.subrange(0, 4) == seq![
            'R' as u8,
            'I' as u8,
            'F' as u8,
            'F' as u8,
        ] && data.subrange(8, 12) == seq!['W' as u8, 'A' as u8, 'V' as u8, 'E' as u8],
        !is_wave(data) ==> ixml_text(data) is None,
{
    lemma_tags();
}

/// The iXML document of a wave file is in the first chunk with the tag for it, behind
/// chunks of any tags and lengths: it is the text of the payload, with replacement
/// characters where that is not UTF-8, and without null characters at its end.
pub proof fn law_first_ixml_chunk_is_read(
    size: Seq<u8>,
    chunks: Seq<Chunk>,
    rest: Seq<u8>,
    i: int,
)
    requires
        size.len() == 4,
        are_chunks(chunks),
        is_first_ixml(chunks, i),
    ensures
        ixml_text(wave_file(size, chunks, rest)) == Some(
            trim_back_char(decoded(chunks[i].payload), '\0'),
        ),
        !valid_utf8(chunks[i].payload) ==> ixml_text(wave_file(size, chunks, rest)) == Some(
            trim_back_char(lossy_utf8(chunks[i].payload), '\0'),
        ),
        forall|text: Seq<char>, nulls: Seq<char>|
            chunks[i].payload == #[trigger] encode_utf8(text + nulls) && are_nulls(nulls) && (
            text.len() > 0 ==> text.last() != '\0') ==> ixml_text(wave_file(size, chunks, rest))
                == Some(text),
{
    lemma_file_parts(size, chunks, rest);
    lemma_found(size, chunks, rest, i);
    assert forall|text: Seq<char>, nulls: Seq<char>|
        chunks[i].payload == #[trigger] encode_utf8(text + nulls) && are_nulls(nulls) && (text.len()
            > 0 ==> text.last() != '\0') implies ixml_text(wave_file(size, chunks, rest)) == Some(
        text,
    ) by {
        encode_utf8_valid_utf8(text + nulls);
        encode_utf8_decode_utf8(text + nulls);
        lemma_nulls_trimmed(text, nulls);
    }
}

/// Null characters are trimmed from the end of a text.
proof fn lemma_nulls_trimmed(text: Seq<char>, nulls: Seq<char>)
    requires
        are_nulls(nulls),
        text.len() > 0 ==> text.last() != '\0',
    ensures
        trim_back_char(text + nulls, '\0') == text,
{
    let s = text + nulls;
    let t = trim_back_char(s, '\0');
    law_trimming_takes_trailing_characters(s, '\0');
    if t.len() < text.len() {
        assert(s[text.len() - 1] == '\0');
        assert(s[text.len() - 1] == text.last());
    }
    if t.len() > text.len() {
        assert(t.last() == s[t.len() - 1]);
        assert(s[t.len() - 1] == nulls[t.len() - 1 - text.len()]);
    }
    assert(t =~= text);
}

/// A last iXML chunk that lacks the byte which fills it up is still read.
pub proof fn law_last_chunk_needs_no_padding(
    size: Seq<u8>,
    chunks: Seq<Chunk>,
    payload: Seq<u8>,
)
    requires
        size.len() == 4,
        are_chunks(chunks),
        has_no_ixml(chunks),
        payload.len() < 0x1_0000_0000,
    ensures
        ixml_text(
            wave_file(
                size,
                chunks,
                seq!['i' as u8, 'X' as u8, 'M' as u8, 'L' as u8] + little_endian(
                    payload.len() as int,
                ) + payload,
            ),
        ) == Some(trim_back_char(decoded(payload), '\0')),
{
    let rest = seq!['i' as u8, 'X' as u8, 'M' as u8, 'L' as u8] + little_endian(
        payload.len() as int,
    ) + payload;
    let data = wave_file(size, chunks, rest);
    let p = 12 + chunks_bytes(chunks).len() as int;
    lemma_tags();
    lemma_file_parts(size, chunks, rest);
    lemma_chunks_passed(data, 12, chunks, rest);
    assert forall|i: int| 0 <= i < rest.len() implies data[p + i] == #[trigger] rest[i] by {
        assert(data.skip(p)[i] == data[p + i]);
    }
    assert(data.subrange(p, p + 4) =~= ixml_tag()) by {
        assert(data[p + 0] == rest[0] && data[p + 1] == rest[1] && data[p + 2] == rest[2] && data[p
            + 3] == rest[3]);
    }
    assert(data.subrange(p + 4, p + 8) =~= little_endian(payload.len() as int)) by {
        assert(data[p + 4] == rest[4] && data[p + 5] == rest[5] && data[p + 6] == rest[6] && data[p
            + 7] == rest[7]);
    }
    lemma_number_read(data, p + 4, payload.len() as int);
    assert(data.subrange(p + 8, p + 8 + payload.len()) =~= payload) by {
        assert forall|i: int| 0 <= i < payload.len() implies data.subrange(
            p + 8,
            p + 8 + payload.len(),
        )[i] == payload[i] by {
            assert(data[p + (8 + i)] == rest[8 + i]);
        }
    }
}

/// There is no iXML document in a wave file without a chunk for it; what is cut off
/// behind the last whole chunk is none.
pub proof fn law_no_ixml_chunk_no_document(size: Seq<u8>, chunks: Seq<Chunk>, rest: Seq<u8>)
    requires
        size.len() == 4,
        are_chunks(chunks),
        has_no_ixml(chunks),
        has_no_chunk(rest),
    ensures
        ixml_text(wave_file(size, chunks, rest)) is None,
{
    let data = wave_file(size, chunks, rest);
    lemma_file_parts(size, chunks, rest);
    lemma_chunks_passed(data, 12, chunks, rest);
    lemma_nothing_found(data, 12int + chunks_bytes(chunks).len(), rest);
}

/// The bytes of a chunk with a document are those that are written.
proof fn lemma_document_chunk(text: Seq<char>)
    ensures
        ixml_chunk(encode_utf8(text)) == chunk_bytes(document_chunk(text)),
{
    lemma_tags();
    assert(ixml_chunk(encode_utf8(text)) =~= chunk_bytes(document_chunk(text)));
}

/// A write replaces the first chunk with an iXML document by one with the new document,
/// and sets the size in the header to the length of the file without its first eight
/// bytes. Every other chunk stays as it is and in its place.
#[verifier::rlimit(40)]
pub proof fn law_write_replaces_the_chunk(
    size: Seq<u8>,
    chunks: Seq<Chunk>,
    rest: Seq<u8>,
    i: int,
    u: Ucs,
)
    requires
        size.len() == 4,
        are_chunks(chunks),
        is_first_ixml(chunks, i),
    ensures
        ({
            let data = wave_file(size, chunks, rest);
            let new = chunks.update(i, document_chunk(merged(ixml_text(data), u)));
            written(data, u) == wave_file(
                little_endian(4int + chunks_bytes(new).len() + rest.len()),
                new,
                rest,
            )
        }),
{
    let data = wave_file(size, chunks, rest);
    let text = merged(ixml_text(data), u);
    let c = document_chunk(text);
    let new = chunks.update(i, c);
    let before = chunks.take(i);
    let after = chunks_bytes(chunks.skip(i + 1)) + rest;
    let a = 12 + chunks_bytes(before).len() as int;
    lemma_file_parts(size, chunks, rest);
    lemma_found(size, chunks, rest, i);
    lemma_document_chunk(text);
    lemma_chunks_around(new, i);
    assert(new.take(i) =~= before);
    assert(new.skip(i + 1) =~= chunks.skip(i + 1));
    let raw = rewritten(data, u);
    let b = a + chunk_bytes(chunks[i]).len() as int;
    assert(data.subrange(b, data.len() as int) =~= data.skip(b));
    assert(raw == wave_file(size, before, Seq::empty()) + chunk_bytes(c) + after);
    assert(raw =~= wave_file(size, new, rest));
    lemma_size_set(size, new, rest);
}

/// The size in the header of a file is set.
proof fn lemma_size_set(size: Seq<u8>, chunks: Seq<Chunk>, rest: Seq<u8>)
    requires
        size.len() == 4,
    ensures
        with_size(wave_file(size, chunks, rest)) == wave_file(
            little_endian(4int + chunks_bytes(chunks).len() + rest.len()),
            chunks,
            rest,
        ),
{
    let data = wave_file(size, chunks, rest);
    lemma_file_parts(size, chunks, rest);
    let n = 4int + chunks_bytes(chunks).len() + rest.len();
    assert(number_bytes(n) =~= little_endian(n));
    assert(with_size(data) =~= wave_file(little_endian(n), chunks, rest));
}

/// A write into a file without an iXML document adds a chunk with one behind everything
/// else, and sets the size in the header. Nothing else changes.
pub proof fn law_write_adds_a_chunk(size: Seq<u8>, chunks: Seq<Chunk>, rest: Seq<u8>, u: Ucs)
    requires
        size.len() == 4,
        are_chunks(chunks),
        has_no_ixml(chunks),
        has_no_chunk(rest),
    ensures
        ({
            let data = wave_file(size, chunks, rest);
            let c = document_chunk(merged(None, u));
            &&& written(data, u) == wave_file(
                little_endian(4int + chunks_bytes(chunks).len() + rest.len() + chunk_bytes(c).len()),
                chunks,
                rest + chunk_bytes(c),
            )
            &&& rest.len() == 0 ==> written(data, u) == wave_file(
                little_endian(4int + chunks_bytes(chunks.push(c)).len()),
                chunks.push(c),
                rest,
            )
        }),
{
    let data = wave_file(size, chunks, rest);
    let text = merged(None, u);
    let c = document_chunk(text);
    law_no_ixml_chunk_no_document(size, chunks, rest);
    lemma_file_parts(size, chunks, rest);
    lemma_chunks_passed(data, 12, chunks, rest);
    lemma_nothing_found(data, 12int + chunks_bytes(chunks).len(), rest);
    lemma_document_chunk(text);
    let raw = rewritten(data, u);
    assert(raw =~= wave_file(size, chunks, rest + chunk_bytes(c)));
    lemma_size_set(size, chunks, rest + chunk_bytes(c));
    lemma_chunks_join(chunks, seq![c]);
    lemma_one_chunk(c);
    assert(chunks.push(c) =~= chunks + seq![c]);
    if rest.len() == 0 {
        assert(wave_file(
            little_endian(4int + chunks_bytes(chunks.push(c)).len()),
            chunks,
            rest + chunk_bytes(c),
        ) =~= wave_file(
            little_endian(4int + chunks_bytes(chunks.push(c)).len()),
            chunks.push(c),
            rest,
        ));
    }
}

/// A last iXML chunk that lacks the byte which fills it up is read but not replaced: what
/// it says is taken up into the document of a new chunk behind it.
pub proof fn law_write_goes_behind_an_unfilled_chunk(
    size: Seq<u8>,
    chunks: Seq<Chunk>,
    payload: Seq<u8>,
    u: Ucs,
)
    requires
        size.len() == 4,
        are_chunks(chunks),
        has_no_ixml(chunks),
        payload.len() < 0x1_0000_0000,
        payload.len() % 2 == 1,
    ensures
        ({
            let rest = seq!['i' as u8, 'X' as u8, 'M' as u8, 'L' as u8] + little_endian(
                payload.len() as int,
            ) + payload;
            let old = trim_back_char(decoded(payload), '\0');
            let new = rest + chunk_bytes(document_chunk(merged(Some(old), u)));
            written(wave_file(size, chunks, rest), u) == wave_file(
                little_endian(4int + chunks_bytes(chunks).len() + new.len()),
                chunks,
                new,
            )
        }),
{
    let rest = seq!['i' as u8, 'X' as u8, 'M' as u8, 'L' as u8] + little_endian(
        payload.len() as int,
    ) + payload;
    let data = wave_file(size, chunks, rest);
    let text = merged(ixml_text(data), u);
    let new = rest + chunk_bytes(document_chunk(text));
    let p = 12 + chunks_bytes(chunks).len() as int;
    law_last_chunk_needs_no_padding(size, chunks, payload);
    lemma_file_parts(size, chunks, rest);
    lemma_chunks_passed(data, 12, chunks, rest);
    assert(data.subrange(p + 4, p + 8) =~= little_endian(payload.len() as int)) by {
        assert forall|i: int| 0 <= i < 4 implies data.subrange(p + 4, p + 8)[i] == little_endian(
            payload.len() as int,
        )[i] by {
            assert(data.skip(p)[4 + i] == rest[4 + i]);
        }
    }
    lemma_number_read(data, p + 4, payload.len() as int);
    assert(span_from(data, p) is None);
    lemma_document_chunk(text);
    let raw = rewritten(data, u);
    assert(raw =~= wave_file(size, chunks, new));
    lemma_size_set(size, chunks, new);
}

/// A file that is written twice has one iXML document: the first write adds it, the
/// second finds it and replaces it. After each write the document is read that was
/// written.
#[verifier::rlimit(40)]
pub proof fn law_second_write_finds_the_first(size: Seq<u8>, chunks: Seq<Chunk>, u: Ucs, v: Ucs)
    requires
        size.len() == 4,
        are_chunks(chunks),
        has_no_ixml(chunks),
        encode_utf8(merged(None, u)).len() < 0x1_0000_0000,
        encode_utf8(merged(None, v)).len() < 0x1_0000_0000,
    ensures
        ({
            let data = wave_file(size, chunks, Seq::empty());
            let new = chunks.push(document_chunk(merged(None, v)));
            &&& ixml_text(written(data, u)) == Some(merged(None, u))
            &&& written(written(data, u), v) == wave_file(
                little_endian(4int + chunks_bytes(new).len()),
                new,
                Seq::empty(),
            )
            &&& ixml_text(written(written(data, u), v)) == Some(merged(None, v))
        }),
{
    let none = Seq::<u8>::empty();
    let x = merged(None, u);
    let y = merged(None, v);
    let old = chunks.push(document_chunk(x));
    let one = little_endian(4int + chunks_bytes(old).len());
    assert((x.len() > 0 ==> x.last() != '\0') && (y.len() > 0 ==> y.last() != '\0')) by {
        law_no_ixml_chunk_no_document(size, chunks, none);
        lemma_merged_not_null(wave_file(size, chunks, none), u);
        lemma_merged_not_null(wave_file(size, chunks, none), v);
    }
    assert(merged(Some(x), v) == y) by {
        law_last_merge_wins(None, u, v);
    }
    assert(written(wave_file(size, chunks, none), u) == wave_file(one, old, none)) by {
        law_write_adds_a_chunk(size, chunks, none, u);
    }
    lemma_added_document(one, chunks, x);
    lemma_second_write(one, chunks, x, v, y);
}

/// A write replaces the document in a last chunk.
proof fn lemma_second_write(
    size: Seq<u8>,
    chunks: Seq<Chunk>,
    x: Seq<char>,
    v: Ucs,
    y: Seq<char>,
)
    requires
        size.len() == 4,
        are_chunks(chunks),
        has_no_ixml(chunks),
        encode_utf8(x).len() < 0x1_0000_0000,
        encode_utf8(y).len() < 0x1_0000_0000,
        x.len() > 0 ==> x.last() != '\0',
        y.len() > 0 ==> y.last() != '\0',
        merged(Some(x), v) == y,
    ensures
        ({
            let data = wave_file(size, chunks.push(document_chunk(x)), Seq::empty());
            let new = chunks.push(document_chunk(y));
            &&& written(data, v) == wave_file(
                little_endian(4int + chunks_bytes(new).len()),
                new,
                Seq::empty(),
            )
            &&& ixml_text(written(data, v)) == Some(y)
        }),
{
    let n = chunks.len() as int;
    let old = chunks.push(document_chunk(x));
    let new = chunks.push(document_chunk(y));
    let none = Seq::<u8>::empty();
    lemma_added_document(size, chunks, x);
    assert(old.update(n, document_chunk(y)) =~= new);
    assert(written(wave_file(size, old, none), v) == wave_file(
        little_endian(4int + chunks_bytes(new).len() + none.len()),
        new,
        none,
    )) by {
        law_write_replaces_the_chunk(size, old, none, n, v);
    }
    lemma_added_document(little_endian(4int + chunks_bytes(new).len()), chunks, y);
}

/// A document in a last chunk is read.
proof fn lemma_added_document(size: Seq<u8>, chunks: Seq<Chunk>, text: Seq<char>)
    requires
        size.len() == 4,
        are_chunks(chunks),
        has_no_ixml(chunks),
        encode_utf8(text).len() < 0x1_0000_0000,
        text.len() > 0 ==> text.last() != '\0',
    ensures
        are_chunks(chunks.push(document_chunk(text))),
        is_first_ixml(chunks.push(document_chunk(text)), chunks.len() as int),
        ixml_text(wave_file(size, chunks.push(document_chunk(text)), Seq::empty())) == Some(text),
{
    let all = chunks.push(document_chunk(text));
    assert forall|j: int| 0 <= j < chunks.len() implies !is_ixml(#[trigger] all[j]) by {
        assert(all[j] == chunks[j]);
    }
    assert(text + Seq::<char>::empty() =~= text);
    law_first_ixml_chunk_is_read(size, all, Seq::empty(), chunks.len() as int);
}

/// A document that is written does not end with a null character.
proof fn lemma_merged_not_null(data: Seq<u8>, u: Ucs)
    ensures
        merged(ixml_text(data), u).len() > 0 ==> merged(ixml_text(data), u).last() != '\0',
{
    lemma_merged_end(data, u);
    law_trimming_takes_trailing_characters(merged(ixml_text(data), u), '\0');
}

/// A file of whole chunks takes up a record: one without an iXML document always, one
/// with a document if that is one after which a record can be read.
pub proof fn law_file_of_chunks_takes_a_record(size: Seq<u8>, chunks: Seq<Chunk>, u: Ucs)
    requires
        size.len() == 4,
        are_chunks(chunks),
        is_storable(u),
        has_no_ixml(chunks) || (exists|i: int| #[trigger] is_first_ixml(chunks, i)) && is_receptive(
            ixml_text(wave_file(size, chunks, Seq::empty())),
        ),
        rewritten(wave_file(size, chunks, Seq::empty()), u).len() <= u32::MAX,
    ensures
        takes_record(wave_file(size, chunks, Seq::empty()), u),
{
    let none = Seq::<u8>::empty();
    let data = wave_file(size, chunks, none);
    lemma_file_parts(size, chunks, none);
    if has_no_ixml(chunks) {
        lemma_chunks_passed(data, 12, chunks, none);
        law_no_ixml_chunk_no_document(size, chunks, none);
        assert(leads_to(data, 12, data.len() as int));
    } else {
        let i = choose|i: int| #[trigger] is_first_ixml(chunks, i);
        lemma_found(size, chunks, none, i);
    }
}

/// A record that is written into a file of whole chunks without an iXML document is found
/// again: every text of it that is more than white space is read from the written file,
/// without white space at its ends, whatever the file is called.
pub proof fn law_record_is_found_again(size: Seq<u8>, chunks: Seq<Chunk>, u: Ucs)
    requires
        size.len() == 4,
        are_chunks(chunks),
        has_no_ixml(chunks),
        is_storable(u),
        rewritten(wave_file(size, chunks, Seq::empty()), u).len() <= u32::MAX,
    ensures
        ixml_text(written(wave_file(size, chunks, Seq::empty()), u)) matches Some(x) && exists|
            d: XmlDocument,
        |
            x == #[trigger] document(d) && is_document(d) && forall|name: Ucs, k: int|
                0 <= k < 10 && !is_all_white(texts_of(u)[k]) ==> (#[trigger] texts_of(
                    overlaid(name, Some(document_nodes(d))),
                )[k]) == trimmed(texts_of(u)[k]),
{
    law_file_of_chunks_takes_a_record(size, chunks, u);
    law_written_record_is_read_under_any_name(wave_file(size, chunks, Seq::empty()), u);
}

} // verus!
